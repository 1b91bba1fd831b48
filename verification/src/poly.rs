use vstd::prelude::*;
use crate::field::{fadd, fmul, values_of, Felt};

verus! {

/// The value at `x` of the polynomial with the given coefficients, lowest
/// degree first.
pub open spec fn poly_eval(coeffs: Seq<int>, x: int) -> int
    decreases coeffs.len(),
{
    if coeffs.len() == 0 {
        0
    } else {
        fadd(coeffs[0], fmul(x, poly_eval(coeffs.drop_first(), x)))
    }
}

/// The values at `x` of the first `n` polynomials of a matrix of coefficient
/// columns.
pub open spec fn column_evals_of(polys: Seq<Vec<Felt>>, x: int) -> Seq<int> {
    Seq::new(polys.len(), |j: int| poly_eval(values_of(polys[j]@), x))
}

/// Evaluates a polynomial at a point, by Horner's rule.
pub fn evaluate_at(coeffs: &Vec<Felt>, x: &Felt) -> (r: Felt)
    ensures
        r.is_canonical(),
        r.value() == poly_eval(values_of(coeffs@), x.value()),
{
    let mut acc: Felt = Felt::zero();
    let mut i: usize = coeffs.len();
    proof {
        assert(values_of(coeffs@).skip(i as int).len() == 0);
    }
    while i > 0
        invariant
            i <= coeffs@.len(),
            acc.is_canonical(),
            acc.value() == poly_eval(values_of(coeffs@).skip(i as int), x.value()),
        decreases i,
    {
        i -= 1;
        proof {
            let tail = values_of(coeffs@).skip(i as int);
            assert(tail[0] == coeffs@[i as int].value());
            assert(tail.drop_first() == values_of(coeffs@).skip(i + 1));
        }
        acc = coeffs[i].add(&x.mul(&acc));
    }
    proof {
        assert(values_of(coeffs@).skip(0) == values_of(coeffs@));
    }
    acc
}

/// The openings at `x` of the polynomials of a matrix of coefficient
/// columns, each as a canonical field element.
pub open spec fn column_openings_of(polys: Seq<Vec<Felt>>, x: int) -> Seq<Felt> {
    Seq::new(polys.len(), |j: int| (Felt { raw: poly_eval(values_of(polys[j]@), x) as u64 }))
}

/// Evaluates every column polynomial of a matrix at one point.
pub fn evaluate_columns_at(polys: &Vec<Vec<Felt>>, x: &Felt) -> (r: Vec<Felt>)
    ensures
        r@ == column_openings_of(polys@, x.value()),
        values_of(r@) == column_evals_of(polys@, x.value()),
        r@.len() == polys@.len(),
{
    let mut out: Vec<Felt> = Vec::new();
    let mut j: usize = 0;
    while j < polys.len()
        invariant
            j <= polys@.len(),
            out@.len() == j,
            forall|k: int|
                0 <= k < j ==> (#[trigger] out@[k]).value() == poly_eval(
                    values_of(polys@[k]@),
                    x.value(),
                ) && out@[k].is_canonical(),
        decreases polys@.len() - j,
    {
        out.push(evaluate_at(&polys[j], x));
        j += 1;
    }
    proof {
        assert(values_of(out@) =~= column_evals_of(polys@, x.value()));
        assert(out@ =~= column_openings_of(polys@, x.value()));
    }
    out
}

} // verus!
