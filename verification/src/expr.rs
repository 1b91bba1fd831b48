use vstd::prelude::*;
use vstd::arithmetic::div_mod::{lemma_add_mod_noop, lemma_mod_add_multiples_vanish, lemma_sub_mod_noop};
use crate::error::ProvingError;
use crate::field::{fadd, finv, fmul, fpow, fsub, Felt};

verus! {

/// An algebraic constraint as a tree: the leaves are the point `X`, a cell of
/// the trace relative to the current row, a challenge, a hint or a constant.
#[derive(Debug, PartialEq, Eq)]
pub enum Expr {
    X,
    /// Column and row offset.
    Trace(usize, i32),
    Challenge(usize),
    Hint(usize),
    Constant(Felt),
    Add(Box<Expr>, Box<Expr>),
    Sub(Box<Expr>, Box<Expr>),
    Mul(Box<Expr>, Box<Expr>),
    Pow(Box<Expr>, u64),
    Inv(Box<Expr>),
}

/// What a constraint is evaluated against: the extended trace in column-major
/// layout, the blowup factor of its domain, the challenges and the hints.
pub struct Environment {
    pub blowup: usize,
    pub columns: Vec<Vec<Felt>>,
    pub challenges: Vec<Felt>,
    pub hints: Vec<Felt>,
}

impl Environment {
    /// Number of rows of the extended trace.
    pub open spec fn domain_size(&self) -> int {
        if self.columns@.len() == 0 {
            0
        } else {
            self.columns@[0]@.len() as int
        }
    }

    /// All columns have the same length.
    pub open spec fn wf(&self) -> bool {
        forall|c: int|
            0 <= c < self.columns@.len() ==> (#[trigger] self.columns@[c])@.len()
                == self.domain_size()
    }

    /// Checks that all columns have the same length.
    pub fn is_well_formed(&self) -> (r: bool)
        ensures
            r == self.wf(),
    {
        if self.columns.len() == 0 {
            return true;
        }
        let size: usize = self.columns[0].len();
        let mut c: usize = 0;
        while c < self.columns.len()
            invariant
                c <= self.columns@.len(),
                self.columns@.len() > 0,
                size == self.domain_size(),
                forall|k: int| 0 <= k < c ==> (#[trigger] self.columns@[k])@.len() == size,
            decreases self.columns@.len() - c,
        {
            if self.columns[c].len() != size {
                return false;
            }
            c += 1;
        }
        true
    }
}

/// The row of the extended trace that stands `offset` trace steps after
/// `row`, wrapping around the domain.
pub open spec fn trace_position(row: int, offset: int, blowup: int, size: int) -> int {
    (row + offset * blowup) % size
}

/// Every leaf refers to a column, challenge or hint that the environment
/// holds.
pub open spec fn in_scope(e: Expr, env: Environment) -> bool
    decreases e,
{
    match e {
        Expr::X => true,
        Expr::Trace(column, _) => column < env.columns@.len() && env.domain_size() > 0,
        Expr::Challenge(i) => i < env.challenges@.len(),
        Expr::Hint(i) => i < env.hints@.len(),
        Expr::Constant(_) => true,
        Expr::Add(a, b) => in_scope(*a, env) && in_scope(*b, env),
        Expr::Sub(a, b) => in_scope(*a, env) && in_scope(*b, env),
        Expr::Mul(a, b) => in_scope(*a, env) && in_scope(*b, env),
        Expr::Pow(a, _) => in_scope(*a, env),
        Expr::Inv(a) => in_scope(*a, env),
    }
}

/// The value of the constraint at the point `x` on row `row`.
pub open spec fn eval_spec(e: Expr, env: Environment, x: int, row: int) -> int
    decreases e,
{
    match e {
        Expr::X => x,
        Expr::Trace(column, offset) => env.columns@[column as int]@[trace_position(
            row,
            offset as int,
            env.blowup as int,
            env.domain_size(),
        )].value(),
        Expr::Challenge(i) => env.challenges@[i as int].value(),
        Expr::Hint(i) => env.hints@[i as int].value(),
        Expr::Constant(c) => c.value(),
        Expr::Add(a, b) => fadd(eval_spec(*a, env, x, row), eval_spec(*b, env, x, row)),
        Expr::Sub(a, b) => fsub(eval_spec(*a, env, x, row), eval_spec(*b, env, x, row)),
        Expr::Mul(a, b) => fmul(eval_spec(*a, env, x, row), eval_spec(*b, env, x, row)),
        Expr::Pow(a, n) => fpow(eval_spec(*a, env, x, row), n as nat),
        Expr::Inv(a) => finv(eval_spec(*a, env, x, row)),
    }
}

/// The highest power to which trace cells are multiplied together: the
/// degree of the constraint as a polynomial in the trace columns. An inverse
/// counts as its argument.
pub open spec fn degree_spec(e: Expr) -> nat
    decreases e,
{
    match e {
        Expr::X => 0,
        Expr::Trace(_, _) => 1,
        Expr::Challenge(_) => 0,
        Expr::Hint(_) => 0,
        Expr::Constant(_) => 0,
        Expr::Add(a, b) => if degree_spec(*a) >= degree_spec(*b) {
            degree_spec(*a)
        } else {
            degree_spec(*b)
        },
        Expr::Sub(a, b) => if degree_spec(*a) >= degree_spec(*b) {
            degree_spec(*a)
        } else {
            degree_spec(*b)
        },
        Expr::Mul(a, b) => degree_spec(*a) + degree_spec(*b),
        Expr::Pow(a, n) => degree_spec(*a) * (n as nat),
        Expr::Inv(a) => degree_spec(*a),
    }
}

/// Computes the position of a trace cell in its extended column.
pub fn locate(row: usize, offset: i32, blowup: usize, size: usize) -> (pos: usize)
    requires
        size > 0,
    ensures
        pos as int == trace_position(row as int, offset as int, blowup as int, size as int),
        pos < size,
{
    let n: u128 = size as u128;
    let b: u128 = blowup as u128;
    let r: u128 = (row as u128) % n;
    if offset >= 0 {
        let o: u128 = offset as u128;
        assert(o * b <= 0x8000_0000 * 0xFFFF_FFFF_FFFF_FFFF) by (nonlinear_arith)
            requires
                0 <= o <= 0x8000_0000,
                0 <= b <= 0xFFFF_FFFF_FFFF_FFFF,
        ;
        let shift: u128 = (o * b) % n;
        proof {
            lemma_add_mod_noop(row as int, offset as int * blowup as int, size as int);
        }
        ((r + shift) % n) as usize
    } else {
        let o: u128 = (-(offset as i64)) as u128;
        assert(o * b <= 0x8000_0000 * 0xFFFF_FFFF_FFFF_FFFF) by (nonlinear_arith)
            requires
                0 <= o <= 0x8000_0000,
                0 <= b <= 0xFFFF_FFFF_FFFF_FFFF,
        ;
        let back: u128 = (o * b) % n;
        proof {
            assert(offset as int * blowup as int == -(o as int * b as int)) by (nonlinear_arith)
                requires
                    o as int == -(offset as int),
                    b as int == blowup as int,
            ;
            lemma_sub_mod_noop(row as int, o as int * b as int, size as int);
            lemma_mod_add_multiples_vanish(r as int - back as int, size as int);
        }
        ((r + n - back) % n) as usize
    }
}

/// The larger of two degrees.
pub open spec fn max_of(a: nat, b: nat) -> nat {
    if a >= b {
        a
    } else {
        b
    }
}

/// The highest degree among the constraints.
pub open spec fn max_degree_of(constraints: Seq<Expr>) -> nat
    decreases constraints.len(),
{
    if constraints.len() == 0 {
        0
    } else {
        max_of(max_degree_of(constraints.drop_last()), degree_spec(constraints.last()))
    }
}

/// The highest degree among the constraints; `None` where one does not fit
/// a machine word.
pub fn max_degree(constraints: &Vec<Expr>) -> (r: Option<usize>)
    ensures
        max_degree_of(constraints@) <= usize::MAX ==> r == Some(
            max_degree_of(constraints@) as usize,
        ),
        max_degree_of(constraints@) > usize::MAX ==> r is None,
{
    let mut best: usize = 0;
    let mut i: usize = 0;
    while i < constraints.len()
        invariant
            i <= constraints@.len(),
            best == max_degree_of(constraints@.take(i as int)),
        decreases constraints@.len() - i,
    {
        proof {
            assert(constraints@.take(i + 1).drop_last() == constraints@.take(i as int));
            lemma_max_degree_grows(constraints@, (i + 1) as int);
        }
        match constraints[i].degree() {
            Some(d) => {
                if d > best {
                    best = d;
                }
            },
            None => {
                return None;
            },
        }
        i += 1;
    }
    proof {
        assert(constraints@.take(i as int) == constraints@);
    }
    Some(best)
}

/// The highest degree of a longer list is no lower.
pub proof fn lemma_max_degree_grows(constraints: Seq<Expr>, i: int)
    requires
        0 <= i <= constraints.len(),
    ensures
        max_degree_of(constraints.take(i)) <= max_degree_of(constraints),
    decreases constraints.len() - i,
{
    if i < constraints.len() {
        lemma_max_degree_grows(constraints, i + 1);
        assert(constraints.take(i + 1).drop_last() == constraints.take(i));
    } else {
        assert(constraints.take(i) == constraints);
    }
}

impl Expr {
    /// The degree of the constraint as a polynomial in the trace columns;
    /// `None` where it does not fit a machine word.
    pub fn degree(&self) -> (r: Option<usize>)
        ensures
            degree_spec(*self) <= usize::MAX ==> r == Some(degree_spec(*self) as usize),
            degree_spec(*self) > usize::MAX ==> r is None,
        decreases self,
    {
        match self {
            Expr::X => Some(0),
            Expr::Trace(_, _) => Some(1),
            Expr::Challenge(_) => Some(0),
            Expr::Hint(_) => Some(0),
            Expr::Constant(_) => Some(0),
            Expr::Add(a, b) => match (a.degree(), b.degree()) {
                (Some(x), Some(y)) => Some(if x >= y {
                    x
                } else {
                    y
                }),
                _ => None,
            },
            Expr::Sub(a, b) => match (a.degree(), b.degree()) {
                (Some(x), Some(y)) => Some(if x >= y {
                    x
                } else {
                    y
                }),
                _ => None,
            },
            Expr::Mul(a, b) => match (a.degree(), b.degree()) {
                (Some(x), Some(y)) => x.checked_add(y),
                _ => None,
            },
            Expr::Pow(a, n) => {
                if *n == 0 {
                    assert(degree_spec(**a) * 0 == 0) by (nonlinear_arith);
                    return Some(0);
                }
                match a.degree() {
                    Some(d) => {
                        if d == 0 {
                            assert(0 * (*n as nat) == 0) by (nonlinear_arith);
                            Some(0)
                        } else if *n > usize::MAX as u64 {
                            assert(d * (*n as nat) >= *n as nat) by (nonlinear_arith)
                                requires
                                    d >= 1,
                            ;
                            None
                        } else {
                            d.checked_mul(*n as usize)
                        }
                    },
                    None => {
                        assert(degree_spec(**a) * (*n as nat) >= degree_spec(**a))
                            by (nonlinear_arith)
                            requires
                                *n >= 1,
                        ;
                        None
                    },
                }
            },
            Expr::Inv(a) => a.degree(),
        }
    }

    /// Whether every leaf refers to what the environment holds.
    pub fn is_in_scope(&self, env: &Environment) -> (r: bool)
        ensures
            r == in_scope(*self, *env),
        decreases self,
    {
        match self {
            Expr::X => true,
            Expr::Trace(column, _) => {
                if *column >= env.columns.len() {
                    false
                } else {
                    env.columns[0].len() > 0
                }
            },
            Expr::Challenge(i) => *i < env.challenges.len(),
            Expr::Hint(i) => *i < env.hints.len(),
            Expr::Constant(_) => true,
            Expr::Add(a, b) => a.is_in_scope(env) && b.is_in_scope(env),
            Expr::Sub(a, b) => a.is_in_scope(env) && b.is_in_scope(env),
            Expr::Mul(a, b) => a.is_in_scope(env) && b.is_in_scope(env),
            Expr::Pow(a, _) => a.is_in_scope(env),
            Expr::Inv(a) => a.is_in_scope(env),
        }
    }

    /// Evaluates the constraint at the point `x` on row `row` of the extended
    /// trace. A leaf that refers to a column, challenge or hint that the
    /// environment does not hold makes the constraint invalid.
    pub fn eval(&self, env: &Environment, x: &Felt, row: usize) -> (r: Result<Felt, ProvingError>)
        requires
            env.wf(),
        ensures
            in_scope(*self, *env) ==> r is Ok && r->Ok_0.is_canonical() && r->Ok_0.value()
                == eval_spec(*self, *env, x.value(), row as int),
            !in_scope(*self, *env) ==> r == Err::<Felt, ProvingError>(
                ProvingError::InvalidConstraint,
            ),
        decreases self,
    {
        match self {
            Expr::X => Ok(Felt::new(x.raw)),
            Expr::Trace(column, offset) => {
                if *column >= env.columns.len() {
                    return Err(ProvingError::InvalidConstraint);
                }
                let size: usize = env.columns[0].len();
                if size == 0 {
                    return Err(ProvingError::InvalidConstraint);
                }
                let pos: usize = locate(row, *offset, env.blowup, size);
                Ok(Felt::new(env.columns[*column][pos].raw))
            },
            Expr::Challenge(i) => {
                if *i >= env.challenges.len() {
                    return Err(ProvingError::InvalidConstraint);
                }
                Ok(Felt::new(env.challenges[*i].raw))
            },
            Expr::Hint(i) => {
                if *i >= env.hints.len() {
                    return Err(ProvingError::InvalidConstraint);
                }
                Ok(Felt::new(env.hints[*i].raw))
            },
            Expr::Constant(c) => Ok(Felt::new(c.raw)),
            Expr::Add(a, b) => {
                match (a.eval(env, x, row), b.eval(env, x, row)) {
                    (Ok(l), Ok(r)) => Ok(l.add(&r)),
                    _ => Err(ProvingError::InvalidConstraint),
                }
            },
            Expr::Sub(a, b) => {
                match (a.eval(env, x, row), b.eval(env, x, row)) {
                    (Ok(l), Ok(r)) => Ok(l.sub(&r)),
                    _ => Err(ProvingError::InvalidConstraint),
                }
            },
            Expr::Mul(a, b) => {
                match (a.eval(env, x, row), b.eval(env, x, row)) {
                    (Ok(l), Ok(r)) => Ok(l.mul(&r)),
                    _ => Err(ProvingError::InvalidConstraint),
                }
            },
            Expr::Pow(a, n) => {
                match a.eval(env, x, row) {
                    Ok(v) => Ok(v.pow(*n)),
                    Err(_) => Err(ProvingError::InvalidConstraint),
                }
            },
            Expr::Inv(a) => {
                match a.eval(env, x, row) {
                    Ok(v) => Ok(v.inverse()),
                    Err(_) => Err(ProvingError::InvalidConstraint),
                }
            },
        }
    }
}

} // verus!
