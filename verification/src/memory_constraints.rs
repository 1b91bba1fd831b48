use vstd::prelude::*;
use crate::expr::{degree_spec, max_degree, max_degree_of, Expr};
use crate::expr::{eval_spec, trace_position, Environment};
use crate::field::{fadd, fmul, fsub, values_of, Felt, MODULUS};
use crate::memory_table::dummy_after;
use crate::memory_table::MemoryTable;

verus! {

/// Number of challenges that the memory table's extension reads.
pub const NUM_CHALLENGES: usize = 11;
/// Number of terminals that the tables of the machine share.
pub const NUM_TERMINALS: usize = 5;
/// Challenge that weighs the cycle in a compressed row.
pub const CHALLENGE_D: usize = 3;
/// Challenge that weighs the memory pointer in a compressed row.
pub const CHALLENGE_E: usize = 4;
/// Challenge that weighs the memory value in a compressed row.
pub const CHALLENGE_F: usize = 5;
/// Challenge from which a compressed row is subtracted.
pub const CHALLENGE_BETA: usize = 7;
/// Terminal of the processor's memory permutation.
pub const TERMINAL_MEMORY_PERMUTATION: usize = 1;

pub open spec fn add_of(a: Expr, b: Expr) -> Expr {
    Expr::Add(Box::new(a), Box::new(b))
}

pub open spec fn sub_of(a: Expr, b: Expr) -> Expr {
    Expr::Sub(Box::new(a), Box::new(b))
}

pub open spec fn mul_of(a: Expr, b: Expr) -> Expr {
    Expr::Mul(Box::new(a), Box::new(b))
}

/// The constant 1.
pub open spec fn one_of() -> Expr {
    Expr::Constant(Felt { raw: 1 })
}

/// The cell of column `column` on the current row.
pub open spec fn cell_of(column: usize) -> Expr {
    Expr::Trace(column, 0)
}

/// The cell of column `column` on the next row.
pub open spec fn next_of(column: usize) -> Expr {
    Expr::Trace(column, 1)
}

/// By how much the memory pointer grows from this row to the next.
pub open spec fn pointer_step_of() -> Expr {
    sub_of(next_of(1), cell_of(1))
}

/// The six transition constraints on the base columns:
/// the memory pointer grows by one or stays; where it grows, the next value
/// is zero; the dummy flag is zero or one; on a dummy row neither the pointer
/// nor the value changes; where the pointer stays, the cycle grows by one.
pub open spec fn transition_constraints_of() -> Seq<Expr> {
    seq![
        mul_of(sub_of(pointer_step_of(), one_of()), pointer_step_of()),
        mul_of(pointer_step_of(), next_of(2)),
        mul_of(sub_of(next_of(3), one_of()), next_of(3)),
        mul_of(pointer_step_of(), cell_of(3)),
        mul_of(sub_of(next_of(2), cell_of(2)), cell_of(3)),
        mul_of(
            sub_of(pointer_step_of(), one_of()),
            sub_of(sub_of(next_of(0), cell_of(0)), one_of()),
        ),
    ]
}

/// The first row starts at cycle 0, pointer 0, value 0.
pub open spec fn base_boundary_constraints_of() -> Seq<Expr> {
    seq![cell_of(0), cell_of(1), cell_of(2)]
}

/// The boundary of the extended table: that of the base columns, and a
/// running product that starts at 1.
pub open spec fn extension_boundary_constraints_of() -> Seq<Expr> {
    seq![cell_of(0), cell_of(1), cell_of(2), sub_of(cell_of(4), one_of())]
}

/// The current row compressed into one element with the weights `d`, `e`,
/// `f`, taken from `beta`: `beta - cycle * d - mp * e - mem_val * f`.
pub open spec fn compressed_row_of(beta: Felt, d: Felt, e: Felt, f: Felt) -> Expr {
    sub_of(
        sub_of(
            sub_of(Expr::Constant(beta), mul_of(cell_of(0), Expr::Constant(d))),
            mul_of(cell_of(1), Expr::Constant(e)),
        ),
        mul_of(cell_of(2), Expr::Constant(f)),
    )
}

/// The running product takes up the compressed row on a row that is no
/// dummy, and stays as it is on a dummy row.
pub open spec fn permutation_transition_of(beta: Felt, d: Felt, e: Felt, f: Felt) -> Expr {
    add_of(
        mul_of(
            sub_of(next_of(4), mul_of(cell_of(4), compressed_row_of(beta, d, e, f))),
            sub_of(cell_of(3), one_of()),
        ),
        mul_of(sub_of(next_of(4), cell_of(4)), cell_of(3)),
    )
}

/// On the last row the running product, with that row taken up unless it is a
/// dummy, equals the terminal.
pub open spec fn permutation_terminal_of(
    beta: Felt,
    d: Felt,
    e: Felt,
    f: Felt,
    terminal: Felt,
) -> Expr {
    add_of(
        mul_of(
            sub_of(
                mul_of(cell_of(4), compressed_row_of(beta, d, e, f)),
                Expr::Constant(terminal),
            ),
            sub_of(cell_of(3), one_of()),
        ),
        mul_of(sub_of(cell_of(4), Expr::Constant(terminal)), cell_of(3)),
    )
}

pub fn sum(a: Expr, b: Expr) -> (r: Expr)
    ensures
        r == add_of(a, b),
{
    Expr::Add(Box::new(a), Box::new(b))
}

pub fn difference(a: Expr, b: Expr) -> (r: Expr)
    ensures
        r == sub_of(a, b),
{
    Expr::Sub(Box::new(a), Box::new(b))
}

pub fn product(a: Expr, b: Expr) -> (r: Expr)
    ensures
        r == mul_of(a, b),
{
    Expr::Mul(Box::new(a), Box::new(b))
}

pub fn one() -> (r: Expr)
    ensures
        r == one_of(),
{
    Expr::Constant(Felt::one())
}

pub fn cell(column: usize) -> (r: Expr)
    ensures
        r == cell_of(column),
{
    Expr::Trace(column, 0)
}

pub fn next(column: usize) -> (r: Expr)
    ensures
        r == next_of(column),
{
    Expr::Trace(column, 1)
}

pub fn pointer_step() -> (r: Expr)
    ensures
        r == pointer_step_of(),
{
    difference(next(1), cell(1))
}

pub fn compressed_row(beta: Felt, d: Felt, e: Felt, f: Felt) -> (r: Expr)
    ensures
        r == compressed_row_of(beta, d, e, f),
{
    difference(
        difference(
            difference(Expr::Constant(beta), product(cell(0), Expr::Constant(d))),
            product(cell(1), Expr::Constant(e)),
        ),
        product(cell(2), Expr::Constant(f)),
    )
}

/// The values of the six transition constraints on a row with the cells
/// `c` that is followed by a row with the cells `n`, each as cycle, memory
/// pointer, memory value and dummy flag.
pub open spec fn transition_values_of(c: Seq<int>, n: Seq<int>) -> Seq<int> {
    seq![
        fmul(fsub(fsub(n[1], c[1]), 1), fsub(n[1], c[1])),
        fmul(fsub(n[1], c[1]), n[2]),
        fmul(fsub(n[3], 1), n[3]),
        fmul(fsub(n[1], c[1]), c[3]),
        fmul(fsub(n[2], c[2]), c[3]),
        fmul(fsub(fsub(n[1], c[1]), 1), fsub(fsub(n[0], c[0]), 1)),
    ]
}

/// The cells of the first four columns on the row that stands `offset` steps
/// after `row`.
pub open spec fn cells_of(env: Environment, row: int, offset: int) -> Seq<int> {
    Seq::new(
        4,
        |j: int|
            env.columns@[j]@[trace_position(row, offset, env.blowup as int, env.domain_size())].value(),
    )
}

/// The transition constraints, evaluated on a row of a trace, take the values
/// that the formulas give for the cells of that row and of the next.
pub proof fn lemma_transition_constraints_evaluate(env: Environment, x: int, row: int)
    ensures
        forall|i: int|
            0 <= i < 6 ==> eval_spec(#[trigger] transition_constraints_of()[i], env, x, row)
                == transition_values_of(cells_of(env, row, 0), cells_of(env, row, 1))[i],
{
    reveal_with_fuel(eval_spec, 6);
    let all = transition_constraints_of();
    let c = cells_of(env, row, 0);
    let n = cells_of(env, row, 1);
    assert(eval_spec(cell_of(0), env, x, row) == c[0]);
    assert(eval_spec(cell_of(1), env, x, row) == c[1]);
    assert(eval_spec(cell_of(2), env, x, row) == c[2]);
    assert(eval_spec(cell_of(3), env, x, row) == c[3]);
    assert(eval_spec(next_of(0), env, x, row) == n[0]);
    assert(eval_spec(next_of(1), env, x, row) == n[1]);
    assert(eval_spec(next_of(2), env, x, row) == n[2]);
    assert(eval_spec(next_of(3), env, x, row) == n[3]);
    assert(eval_spec(one_of(), env, x, row) == 1);
    assert(eval_spec(pointer_step_of(), env, x, row) == fsub(n[1], c[1]));
    assert(eval_spec(all[0], env, x, row) == transition_values_of(c, n)[0]);
    assert(eval_spec(all[1], env, x, row) == transition_values_of(c, n)[1]);
    assert(eval_spec(all[2], env, x, row) == transition_values_of(c, n)[2]);
    assert(eval_spec(all[3], env, x, row) == transition_values_of(c, n)[3]);
    assert(eval_spec(all[4], env, x, row) == transition_values_of(c, n)[4]);
    assert(eval_spec(all[5], env, x, row) == transition_values_of(c, n)[5]);
}

/// A row followed by its dummy row satisfies every transition constraint:
/// padding a table, or filling a jump of the cycle count, breaks none of
/// them.
pub proof fn lemma_dummy_row_satisfies_transitions(row: [Felt; 4])
    ensures
        forall|i: int|
            0 <= i < 6 ==> #[trigger] transition_values_of(
                values_of(row@),
                values_of(dummy_after(row)@),
            )[i] == 0,
{
    let c = values_of(row@);
    let n = values_of(dummy_after(row)@);
    assert(n[1] == c[1]);
    assert(n[2] == c[2]);
    assert(n[3] == 1);
    assert(n[0] == fadd(c[0], 1));
    assert(fsub(n[1], c[1]) == 0);
    assert(fsub(n[2], c[2]) == 0);
    assert(fsub(n[3], 1) == 0);
    assert(fsub(fsub(n[0], c[0]), 1) == 0);
    assert(forall|a: int| fmul(a, 0) == 0) by {
        assert forall|a: int| fmul(a, 0) == 0 by {
            assert(a * 0 == 0) by (nonlinear_arith);
        }
    }
    assert(forall|a: int| fmul(0, a) == 0) by {
        assert forall|a: int| fmul(0, a) == 0 by {
            assert(0 * a == 0) by (nonlinear_arith);
        }
    }
}

/// The row compressed with the weights, over the integers of its cells:
/// `beta - cycle * d - mp * e - mem_val * f`.
pub open spec fn compressed_value_of(c: Seq<int>, beta: int, d: int, e: int, f: int) -> int {
    fsub(fsub(fsub(beta, fmul(c[0], d)), fmul(c[1], e)), fmul(c[2], f))
}

/// The value of the terminal constraint on a row with the cells `c` and the
/// running product `perm`.
pub open spec fn terminal_value_of(
    c: Seq<int>,
    perm: int,
    beta: int,
    d: int,
    e: int,
    f: int,
    terminal: int,
) -> int {
    fadd(
        fmul(fsub(fmul(perm, compressed_value_of(c, beta, d, e, f)), terminal), fsub(c[3], 1)),
        fmul(fsub(perm, terminal), c[3]),
    )
}

/// The running product of the row on which the constraint is evaluated.
pub open spec fn product_of(env: Environment, row: int) -> int {
    env.columns@[4]@[trace_position(row, 0, env.blowup as int, env.domain_size())].value()
}

/// The terminal constraint, evaluated on a row, takes the value that the
/// formula gives for the cells of that row.
pub proof fn lemma_terminal_constraint_evaluates(
    env: Environment,
    x: int,
    row: int,
    beta: Felt,
    d: Felt,
    e: Felt,
    f: Felt,
    terminal: Felt,
)
    ensures
        eval_spec(permutation_terminal_of(beta, d, e, f, terminal), env, x, row)
            == terminal_value_of(
            cells_of(env, row, 0),
            product_of(env, row),
            beta.value(),
            d.value(),
            e.value(),
            f.value(),
            terminal.value(),
        ),
{
    reveal_with_fuel(eval_spec, 10);
    let c = cells_of(env, row, 0);
    assert(eval_spec(cell_of(0), env, x, row) == c[0]);
    assert(eval_spec(cell_of(1), env, x, row) == c[1]);
    assert(eval_spec(cell_of(2), env, x, row) == c[2]);
    assert(eval_spec(cell_of(3), env, x, row) == c[3]);
    assert(eval_spec(cell_of(4), env, x, row) == product_of(env, row));
    assert(eval_spec(one_of(), env, x, row) == 1);
    assert(eval_spec(compressed_row_of(beta, d, e, f), env, x, row) == compressed_value_of(
        c,
        beta.value(),
        d.value(),
        e.value(),
        f.value(),
    ));
}

/// The terminal constraint vanishes on a row exactly where the running
/// product, with the row taken up unless it is a dummy, equals the terminal:
/// a product that differs from the terminal gives a value that is not zero.
pub proof fn lemma_terminal_constraint_vanishes(
    c: Seq<int>,
    perm: int,
    beta: int,
    d: int,
    e: int,
    f: int,
    terminal: int,
)
    requires
        c[3] == 0 || c[3] == 1,
        0 <= perm < MODULUS,
        0 <= terminal < MODULUS,
    ensures
        terminal_value_of(c, perm, beta, d, e, f, terminal) == 0 <==> (c[3] == 0 && fmul(
            perm,
            compressed_value_of(c, beta, d, e, f),
        ) == terminal) || (c[3] == 1 && perm == terminal),
{
    let taken = fmul(perm, compressed_value_of(c, beta, d, e, f));
    let gap = fsub(taken, terminal);
    let stay = fsub(perm, terminal);
    assert(0 <= taken < MODULUS);
    assert(gap * 0 == 0) by (nonlinear_arith);
    assert(stay * 0 == 0) by (nonlinear_arith);
    assert(stay * 1 == stay) by (nonlinear_arith);
    if c[3] == 0 {
        assert(fsub(0, 1) == MODULUS - 1);
        assert(fmul(stay, 0) == 0);
        assert(gap == 0 <==> taken == terminal);
        assert(fmul(gap, MODULUS - 1) == 0 <==> gap == 0) by {
            assert(gap * (MODULUS - 1) == gap * MODULUS - gap) by (nonlinear_arith);
            if gap > 0 {
                vstd::arithmetic::div_mod::lemma_mod_multiples_vanish(
                    gap - 1,
                    MODULUS - gap,
                    MODULUS as int,
                );
                assert(gap * MODULUS - gap == MODULUS * (gap - 1) + (MODULUS - gap))
                    by (nonlinear_arith);
            }
        }
    } else {
        assert(fsub(1, 1) == 0);
        assert(fmul(gap, 0) == 0);
        assert(fmul(stay, 1) == stay);
        assert(stay == 0 <==> perm == terminal);
    }
}

/// The transition constraints of the extended table have degree 3 at most,
/// and the one on the running product has degree 3.
pub proof fn lemma_max_degree_is_three()
    ensures
        forall|beta: Felt, d: Felt, e: Felt, f: Felt|
            max_degree_of(
                transition_constraints_of().push(#[trigger] permutation_transition_of(beta, d, e, f)),
            ) == 3,
{
    assert forall|beta: Felt, d: Felt, e: Felt, f: Felt|
        max_degree_of(
            transition_constraints_of().push(#[trigger] permutation_transition_of(beta, d, e, f)),
        ) == 3 by {
        let all = transition_constraints_of().push(permutation_transition_of(beta, d, e, f));
        reveal_with_fuel(degree_spec, 8);
        assert(degree_spec(compressed_row_of(beta, d, e, f)) == 1);
        assert(degree_spec(mul_of(cell_of(4), compressed_row_of(beta, d, e, f))) == 2);
        assert(degree_spec(all[0]) == 2);
        assert(degree_spec(all[1]) == 2);
        assert(degree_spec(all[2]) == 2);
        assert(degree_spec(all[3]) == 2);
        assert(degree_spec(all[4]) == 2);
        assert(degree_spec(all[5]) == 2);
        assert(degree_spec(all[6]) == 3);
        let s6 = all.drop_last();
        let s5 = s6.drop_last();
        let s4 = s5.drop_last();
        let s3 = s4.drop_last();
        let s2 = s3.drop_last();
        let s1 = s2.drop_last();
        let s0 = s1.drop_last();
        assert(s0.len() == 0);
        assert(s1.last() == all[0]);
        assert(s2.last() == all[1]);
        assert(s3.last() == all[2]);
        assert(s4.last() == all[3]);
        assert(s5.last() == all[4]);
        assert(s6.last() == all[5]);
        assert(all.last() == all[6]);
        assert(max_degree_of(s0) == 0);
        assert(max_degree_of(s1) == 2);
        assert(max_degree_of(s2) == 2);
        assert(max_degree_of(s3) == 2);
        assert(max_degree_of(s4) == 2);
        assert(max_degree_of(s5) == 2);
        assert(max_degree_of(s6) == 2);
    }
}

impl MemoryTable {
    /// The highest degree among the transition constraints of the extended
    /// table, computed from the constraints themselves. It does not depend
    /// on the values of the challenges.
    pub fn max_degree(&self) -> (r: Option<usize>)
        ensures
            r == Some(3usize),
            max_degree_of(
                transition_constraints_of().push(
                    permutation_transition_of(
                        (Felt { raw: 0 }),
                        (Felt { raw: 0 }),
                        (Felt { raw: 0 }),
                        (Felt { raw: 0 }),
                    ),
                ),
            ) == 3,
    {
        let mut challenges: Vec<Felt> = Vec::new();
        let mut i: usize = 0;
        while i < NUM_CHALLENGES
            invariant
                i <= NUM_CHALLENGES,
                challenges@.len() == i,
                forall|k: int| 0 <= k < i ==> #[trigger] challenges@[k] == (Felt { raw: 0 }),
            decreases NUM_CHALLENGES - i,
        {
            challenges.push(Felt::zero());
            i += 1;
        }
        let constraints = MemoryTable::extension_transition_constraints(challenges.as_slice());
        proof {
            lemma_max_degree_is_three();
        }
        max_degree(&constraints)
    }

    /// The transition constraints that the base and the extended table share.
    pub fn transition_constraints() -> (r: Vec<Expr>)
        ensures
            r@ == transition_constraints_of(),
    {
        let mut r: Vec<Expr> = Vec::new();
        r.push(product(difference(pointer_step(), one()), pointer_step()));
        r.push(product(pointer_step(), next(2)));
        r.push(product(difference(next(3), one()), next(3)));
        r.push(product(pointer_step(), cell(3)));
        r.push(product(difference(next(2), cell(2)), cell(3)));
        r.push(
            product(
                difference(pointer_step(), one()),
                difference(difference(next(0), cell(0)), one()),
            ),
        );
        assert(r@ =~= transition_constraints_of());
        r
    }

    pub fn base_boundary_constraints() -> (r: Vec<Expr>)
        ensures
            r@ == base_boundary_constraints_of(),
    {
        let mut r: Vec<Expr> = Vec::new();
        r.push(cell(0));
        r.push(cell(1));
        r.push(cell(2));
        assert(r@ =~= base_boundary_constraints_of());
        r
    }

    pub fn base_transition_constraints() -> (r: Vec<Expr>)
        ensures
            r@ == transition_constraints_of(),
    {
        MemoryTable::transition_constraints()
    }

    /// The boundary constraints of the extended table. They do not depend on
    /// the challenges.
    pub fn extension_boundary_constraints(challenges: &[Felt]) -> (r: Vec<Expr>)
        ensures
            r@ == extension_boundary_constraints_of(),
    {
        let mut r: Vec<Expr> = Vec::new();
        r.push(cell(0));
        r.push(cell(1));
        r.push(cell(2));
        r.push(difference(cell(4), one()));
        assert(r@ =~= extension_boundary_constraints_of());
        r
    }

    /// The transition constraints of the extended table: those of the base
    /// columns, then the one on the running product.
    pub fn extension_transition_constraints(challenges: &[Felt]) -> (r: Vec<Expr>)
        requires
            challenges@.len() >= NUM_CHALLENGES,
        ensures
            r@ == transition_constraints_of().push(
                permutation_transition_of(
                    challenges@[7],
                    challenges@[3],
                    challenges@[4],
                    challenges@[5],
                ),
            ),
    {
        let d: Felt = challenges[CHALLENGE_D];
        let e: Felt = challenges[CHALLENGE_E];
        let f: Felt = challenges[CHALLENGE_F];
        let beta: Felt = challenges[CHALLENGE_BETA];
        let mut r: Vec<Expr> = MemoryTable::transition_constraints();
        let permutation_constraint: Expr = sum(
            product(
                difference(next(4), product(cell(4), compressed_row(beta, d, e, f))),
                difference(cell(3), one()),
            ),
            product(difference(next(4), cell(4)), cell(3)),
        );
        r.push(permutation_constraint);
        r
    }

    /// The one terminal constraint of the extended table, on the running
    /// product.
    pub fn extension_terminal_constraints(challenges: &[Felt], terminals: &[Felt]) -> (r: Vec<Expr>)
        requires
            challenges@.len() >= NUM_CHALLENGES,
            terminals@.len() >= NUM_TERMINALS,
        ensures
            r@ == seq![
                permutation_terminal_of(
                    challenges@[7],
                    challenges@[3],
                    challenges@[4],
                    challenges@[5],
                    terminals@[1],
                ),
            ],
    {
        let d: Felt = challenges[CHALLENGE_D];
        let e: Felt = challenges[CHALLENGE_E];
        let f: Felt = challenges[CHALLENGE_F];
        let beta: Felt = challenges[CHALLENGE_BETA];
        let terminal: Felt = terminals[TERMINAL_MEMORY_PERMUTATION];
        let mut r: Vec<Expr> = Vec::new();
        r.push(
            sum(
                product(
                    difference(
                        product(cell(4), compressed_row(beta, d, e, f)),
                        Expr::Constant(terminal),
                    ),
                    difference(cell(3), one()),
                ),
                product(difference(cell(4), Expr::Constant(terminal)), cell(3)),
            ),
        );
        assert(r@ =~= seq![
            permutation_terminal_of(
                challenges@[7],
                challenges@[3],
                challenges@[4],
                challenges@[5],
                terminals@[1],
            ),
        ]);
        r
    }
}

} // verus!
