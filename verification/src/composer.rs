use vstd::prelude::*;
use vstd::arithmetic::div_mod::lemma_fundamental_div_mod;
use crate::error::ProvingError;
use crate::expr::{degree_spec, eval_spec, in_scope, Environment, Expr};
use crate::field::{fadd, finv, fmul, fpow, fsub, Felt};

verus! {

/// The rows on which a constraint has to hold, as the polynomial that
/// vanishes on exactly those rows.
#[derive(Debug, Clone, Copy, PartialEq, Eq, Structural)]
pub enum Divisor {
    /// The first row.
    Boundary,
    /// The last row.
    Terminal,
    /// Every row but the last.
    Transition,
}

/// A constraint of the AIR with its divisor and with the exponent that lifts
/// it to the degree of the composition.
pub struct Constraint {
    pub expr: Expr,
    pub divisor: Divisor,
    pub degree_adjustment: u64,
}

/// The trace domain: its size and its last point, the generator raised to
/// the power `size - 1`.
#[derive(Debug, Clone, Copy, PartialEq, Eq, Structural)]
pub struct TraceDomain {
    pub size: u64,
    pub last: Felt,
}

/// The value at `x` of the vanishing polynomial of a divisor: `x - 1` for the
/// first row, `x - last` for the last row, and `(x^n - 1) / (x - last)` for
/// all rows but the last.
pub open spec fn divisor_of(divisor: Divisor, domain: TraceDomain, x: int) -> int {
    match divisor {
        Divisor::Boundary => fsub(x, 1),
        Divisor::Terminal => fsub(x, domain.last.value()),
        Divisor::Transition => fmul(
            fsub(fpow(x, domain.size as nat), 1),
            finv(fsub(x, domain.last.value())),
        ),
    }
}

/// One summand of the composition at `x`:
/// `(alpha + beta * x^d) * C(x) / Z(x)`.
pub open spec fn term_of(
    constraint: Constraint,
    alpha: Felt,
    beta: Felt,
    env: Environment,
    domain: TraceDomain,
    x: int,
    row: int,
) -> int {
    fmul(
        fadd(alpha.value(), fmul(beta.value(), fpow(x, constraint.degree_adjustment as nat))),
        fmul(
            eval_spec(constraint.expr, env, x, row),
            finv(divisor_of(constraint.divisor, domain, x)),
        ),
    )
}

/// The sum of the first `k` summands of the composition at `x`. The
/// coefficients come in pairs: `alpha` and `beta` of the first constraint,
/// then those of the second, and so on.
pub open spec fn composition_of(
    constraints: Seq<Constraint>,
    coeffs: Seq<Felt>,
    env: Environment,
    domain: TraceDomain,
    x: int,
    row: int,
    k: nat,
) -> int
    decreases k,
{
    if k == 0 {
        0
    } else {
        fadd(
            composition_of(constraints, coeffs, env, domain, x, row, (k - 1) as nat),
            term_of(
                constraints[k - 1],
                coeffs[2 * (k - 1)],
                coeffs[2 * (k - 1) + 1],
                env,
                domain,
                x,
                row,
            ),
        )
    }
}

/// Every constraint refers only to what the environment holds.
pub open spec fn all_in_scope(constraints: Seq<Constraint>, env: Environment) -> bool {
    forall|i: int| 0 <= i < constraints.len() ==> in_scope((#[trigger] constraints[i]).expr, env)
}

/// Column `j` of the composition trace: the coefficients of the composition
/// polynomial at the indices `j`, `j + k`, `j + 2k`, ...
pub open spec fn segment_of(coeffs: Seq<Felt>, k: int, j: int) -> Seq<Felt> {
    Seq::new((coeffs.len() / k as nat) as nat, |r: int| coeffs[r * k + j])
}

/// The degree of the vanishing polynomial of a divisor on a trace of `n`
/// rows.
pub open spec fn divisor_degree_of(divisor: Divisor, n: nat) -> int {
    match divisor {
        Divisor::Boundary => 1,
        Divisor::Terminal => 1,
        Divisor::Transition => n - 1,
    }
}

/// The degree of a constraint once the trace polynomials, of degree `n - 1`,
/// stand for its cells and it is divided by its vanishing polynomial.
pub open spec fn required_degree_of(constraint: Constraint, n: nat) -> int {
    degree_spec(constraint.expr) * (n - 1) - divisor_degree_of(constraint.divisor, n)
}

/// The constraint, divided, stays below the degree `ce_blowup * n` of the
/// composition, and its own degree fits a machine word.
pub open spec fn degree_fits(constraint: Constraint, n: nat, ce_blowup: nat) -> bool {
    degree_spec(constraint.expr) <= usize::MAX && required_degree_of(constraint, n) < ce_blowup
        * n
}

/// Checks that no constraint needs a degree of `ce_blowup * n` or more. A
/// constraint that does is invalid.
pub fn check_degrees(constraints: &Vec<Constraint>, trace_len: usize, ce_blowup: usize) -> (r:
    Result<(), ProvingError>)
    requires
        trace_len >= 1,
    ensures
        r is Ok <==> forall|i: int|
            0 <= i < constraints@.len() ==> degree_fits(
                #[trigger] constraints@[i],
                trace_len as nat,
                ce_blowup as nat,
            ),
        r is Err ==> r->Err_0 == ProvingError::InvalidConstraint,
{
    let rows: u128 = (trace_len - 1) as u128;
    assert(ce_blowup * trace_len <= 0xFFFF_FFFF_FFFF_FFFF * 0xFFFF_FFFF_FFFF_FFFF)
        by (nonlinear_arith)
        requires
            0 <= ce_blowup <= 0xFFFF_FFFF_FFFF_FFFF,
            0 <= trace_len <= 0xFFFF_FFFF_FFFF_FFFF,
    ;
    let bound: u128 = (ce_blowup as u128) * (trace_len as u128);
    let mut i: usize = 0;
    while i < constraints.len()
        invariant
            i <= constraints@.len(),
            trace_len >= 1,
            rows == trace_len - 1,
            bound == ce_blowup * trace_len,
            bound <= 0xFFFF_FFFF_FFFF_FFFF * 0xFFFF_FFFF_FFFF_FFFF,
            forall|k: int|
                0 <= k < i ==> degree_fits(
                    #[trigger] constraints@[k],
                    trace_len as nat,
                    ce_blowup as nat,
                ),
        decreases constraints@.len() - i,
    {
        let constraint = &constraints[i];
        match constraint.expr.degree() {
            Some(d) => {
                assert(d * rows <= 0xFFFF_FFFF_FFFF_FFFF * 0xFFFF_FFFF_FFFF_FFFF)
                    by (nonlinear_arith)
                    requires
                        0 <= d <= 0xFFFF_FFFF_FFFF_FFFF,
                        0 <= rows <= 0xFFFF_FFFF_FFFF_FFFF,
                ;
                let grown: u128 = (d as u128) * rows;
                let divided: u128 = match constraint.divisor {
                    Divisor::Boundary => 1,
                    Divisor::Terminal => 1,
                    Divisor::Transition => rows,
                };
                if grown >= bound + divided {
                    assert(!degree_fits(constraints@[i as int], trace_len as nat, ce_blowup as nat));
                    return Err(ProvingError::InvalidConstraint);
                }
            },
            None => {
                assert(!degree_fits(constraints@[i as int], trace_len as nat, ce_blowup as nat));
                return Err(ProvingError::InvalidConstraint);
            },
        }
        i += 1;
    }
    Ok(())
}

/// Whether every constraint refers only to what the environment holds.
pub fn constraints_in_scope(constraints: &Vec<Constraint>, env: &Environment) -> (r: bool)
    ensures
        r == all_in_scope(constraints@, *env),
{
    let mut i: usize = 0;
    while i < constraints.len()
        invariant
            i <= constraints@.len(),
            forall|k: int| 0 <= k < i ==> in_scope((#[trigger] constraints@[k]).expr, *env),
        decreases constraints@.len() - i,
    {
        if !constraints[i].expr.is_in_scope(env) {
            return false;
        }
        i += 1;
    }
    true
}

/// Evaluates the vanishing polynomial of a divisor at `x`.
pub fn divisor_value(divisor: Divisor, domain: &TraceDomain, x: &Felt) -> (r: Felt)
    ensures
        r.is_canonical(),
        r.value() == divisor_of(divisor, *domain, x.value()),
{
    match divisor {
        Divisor::Boundary => x.sub(&Felt::one()),
        Divisor::Terminal => x.sub(&domain.last),
        Divisor::Transition => {
            let numerator: Felt = x.pow(domain.size).sub(&Felt::one());
            numerator.mul(&x.sub(&domain.last).inverse())
        },
    }
}

/// Evaluates the composition of the constraints at the point `x` on row
/// `row` of the extended trace. Two coefficients are needed for every
/// constraint; a constraint that refers to a column, challenge or hint that
/// the environment does not hold is invalid.
pub fn compose_at(
    constraints: &Vec<Constraint>,
    coeffs: &Vec<Felt>,
    env: &Environment,
    domain: &TraceDomain,
    x: &Felt,
    row: usize,
) -> (r: Result<Felt, ProvingError>)
    requires
        env.wf(),
    ensures
        coeffs@.len() != 2 * constraints@.len() ==> r == Err::<Felt, ProvingError>(
            ProvingError::ConfigError,
        ),
        coeffs@.len() == 2 * constraints@.len() && !all_in_scope(constraints@, *env) ==> r == Err::<
            Felt,
            ProvingError,
        >(ProvingError::InvalidConstraint),
        coeffs@.len() == 2 * constraints@.len() && all_in_scope(constraints@, *env) ==> r is Ok
            && r->Ok_0.is_canonical() && r->Ok_0.value() == composition_of(
            constraints@,
            coeffs@,
            *env,
            *domain,
            x.value(),
            row as int,
            constraints@.len(),
        ),
{
    let given: usize = coeffs.len();
    let wanted: usize = constraints.len();
    if wanted > usize::MAX / 2 || given != 2 * wanted {
        return Err(ProvingError::ConfigError);
    }
    let mut sum: Felt = Felt::zero();
    let mut i: usize = 0;
    while i < constraints.len()
        invariant
            i <= constraints@.len(),
            env.wf(),
            coeffs@.len() == 2 * constraints@.len(),
            2 * constraints@.len() <= usize::MAX,
            sum.is_canonical(),
            forall|k: int| 0 <= k < i ==> in_scope((#[trigger] constraints@[k]).expr, *env),
            sum.value() == composition_of(
                constraints@,
                coeffs@,
                *env,
                *domain,
                x.value(),
                row as int,
                i as nat,
            ),
        decreases constraints@.len() - i,
    {
        let constraint = &constraints[i];
        match constraint.expr.eval(env, x, row) {
            Ok(value) => {
                let alpha: Felt = coeffs[2 * i];
                let beta: Felt = coeffs[2 * i + 1];
                let weight: Felt = alpha.add(&beta.mul(&x.pow(constraint.degree_adjustment)));
                let divisor: Felt = divisor_value(constraint.divisor, domain, x);
                let term: Felt = weight.mul(&value.mul(&divisor.inverse()));
                sum = sum.add(&term);
            },
            Err(_) => {
                return Err(ProvingError::InvalidConstraint);
            },
        }
        i += 1;
    }
    Ok(sum)
}

/// Evaluates the composition on every point of the evaluation domain:
/// row `i` is evaluated at the point `xs[i]`.
pub fn compose_on_domain(
    constraints: &Vec<Constraint>,
    coeffs: &Vec<Felt>,
    env: &Environment,
    domain: &TraceDomain,
    xs: &Vec<Felt>,
) -> (r: Result<Vec<Felt>, ProvingError>)
    requires
        env.wf(),
    ensures
        xs@.len() > 0 && coeffs@.len() != 2 * constraints@.len() ==> r == Err::<
            Vec<Felt>,
            ProvingError,
        >(ProvingError::ConfigError),
        xs@.len() > 0 && coeffs@.len() == 2 * constraints@.len() && !all_in_scope(
            constraints@,
            *env,
        ) ==> r == Err::<Vec<Felt>, ProvingError>(ProvingError::InvalidConstraint),
        xs@.len() == 0 || (coeffs@.len() == 2 * constraints@.len() && all_in_scope(
            constraints@,
            *env,
        )) ==> r is Ok && r->Ok_0@.len() == xs@.len() && forall|i: int|
            0 <= i < xs@.len() ==> (#[trigger] r->Ok_0@[i]).value() == composition_of(
                constraints@,
                coeffs@,
                *env,
                *domain,
                xs@[i].value(),
                i,
                constraints@.len(),
            ),
{
    let mut out: Vec<Felt> = Vec::new();
    let mut i: usize = 0;
    while i < xs.len()
        invariant
            i <= xs@.len(),
            env.wf(),
            out@.len() == i,
            i > 0 ==> coeffs@.len() == 2 * constraints@.len() && all_in_scope(constraints@, *env),
            forall|k: int|
                0 <= k < i ==> (#[trigger] out@[k]).value() == composition_of(
                    constraints@,
                    coeffs@,
                    *env,
                    *domain,
                    xs@[k].value(),
                    k,
                    constraints@.len(),
                ),
        decreases xs@.len() - i,
    {
        match compose_at(constraints, coeffs, env, domain, &xs[i], i) {
            Ok(value) => {
                out.push(value);
            },
            Err(e) => {
                return Err(e);
            },
        }
        i += 1;
    }
    Ok(out)
}

/// Splits the coefficients of the composition polynomial into `k` columns of
/// equal length, so that column `j` holds the coefficients whose index is
/// `j` modulo `k`. A number of coefficients that `k` does not divide is
/// refused.
pub fn split_into_segments(coeffs: &Vec<Felt>, k: usize) -> (r: Result<Vec<Vec<Felt>>, ProvingError>)
    ensures
        k == 0 || coeffs@.len() % (k as nat) != 0 ==> r == Err::<Vec<Vec<Felt>>, ProvingError>(
            ProvingError::ConfigError,
        ),
        k > 0 && coeffs@.len() % (k as nat) == 0 ==> r is Ok && r->Ok_0@.len() == k && forall|
            j: int,
        |
            0 <= j < k ==> (#[trigger] r->Ok_0@[j])@ == segment_of(coeffs@, k as int, j),
{
    if k == 0 || coeffs.len() % k != 0 {
        return Err(ProvingError::ConfigError);
    }
    let rows: usize = coeffs.len() / k;
    proof {
        lemma_fundamental_div_mod(coeffs@.len() as int, k as int);
    }
    let mut out: Vec<Vec<Felt>> = Vec::new();
    let mut j: usize = 0;
    while j < k
        invariant
            j <= k,
            k > 0,
            coeffs@.len() <= usize::MAX,
            k * rows == coeffs@.len(),
            rows == coeffs@.len() / (k as nat),
            coeffs@.len() % (k as nat) == 0,
            out@.len() == j,
            forall|m: int| 0 <= m < j ==> (#[trigger] out@[m])@ == segment_of(coeffs@, k as int, m),
        decreases k - j,
    {
        let mut column: Vec<Felt> = Vec::new();
        let mut r: usize = 0;
        proof {
            assert forall|m: int| 0 <= m < rows implies 0 <= #[trigger] (m * k) && m * k + j
                < coeffs@.len() by {
                assert(0 <= m * k && m * k + j < coeffs@.len()) by (nonlinear_arith)
                    requires
                        0 <= m < rows,
                        0 <= j < k,
                        k * rows == coeffs@.len(),
                ;
            }
        }
        while r < rows
            invariant
                r <= rows,
                j < k,
                coeffs@.len() <= usize::MAX,
                k * rows == coeffs@.len(),
                rows == coeffs@.len() / (k as nat),
                coeffs@.len() % (k as nat) == 0,
                column@.len() == r,
                forall|m: int| 0 <= m < r ==> #[trigger] column@[m] == coeffs@[m * k + j],
                forall|m: int|
                    0 <= m < rows ==> 0 <= #[trigger] (m * k) && m * k + j < coeffs@.len(),
            decreases rows - r,
        {
            assert(0 <= r * k && r * k + j < coeffs@.len()) by (nonlinear_arith)
                requires
                    0 <= r < rows,
                    0 <= j < k,
                    k * rows == coeffs@.len(),
            ;
            column.push(coeffs[r * k + j]);
            r += 1;
        }
        proof {
            assert(column@ =~= segment_of(coeffs@, k as int, j as int));
        }
        out.push(column);
        j += 1;
    }
    Ok(out)
}

} // verus!
