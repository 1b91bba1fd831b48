use vstd::prelude::*;
use crate::field::{
    fadd,
    finv,
    fmul,
    fpow,
    fsub,
    lemma_fmul_associative,
    lemma_fpow_range,
    lemma_fpow_square,
    values_of,
    Felt,
    MODULUS,
};

verus! {

/// The `i`-th point of the coset that `offset` and `generator` span.
pub open spec fn domain_point(offset: int, generator: int, i: nat) -> int {
    fmul(offset, fpow(generator, i))
}

/// The folding equation. Of a polynomial `f` with `f(x) = lo` and
/// `f(-x) = hi` it gives the value at `x^2` of the polynomial of half the
/// degree that mixes the even and the odd part of `f` by `zeta`:
/// `(lo + hi) / 2 + zeta * (lo - hi) / (2 * x)`.
pub open spec fn fold_pair(lo: int, hi: int, x: int, zeta: int) -> int {
    fadd(fmul(fadd(lo, hi), finv(2)), fmul(zeta, fmul(fsub(lo, hi), finv(fmul(2, x)))))
}

/// One layer folded in two: the value at position `i` comes from the values
/// at `i` and `i + n/2`, which stand at `x` and `-x`.
pub open spec fn fold_of(vals: Seq<int>, offset: int, generator: int, zeta: int) -> Seq<int> {
    Seq::new(
        vals.len() / 2,
        |i: int|
            fold_pair(
                vals[i],
                vals[i + (vals.len() / 2) as int],
                domain_point(offset, generator, i as nat),
                zeta,
            ),
    )
}

/// A layer folded `rounds` times in two. Each round squares the offset and
/// the generator of the domain, and the folding randomness.
pub open spec fn fold_by_of(
    vals: Seq<int>,
    offset: int,
    generator: int,
    zeta: int,
    rounds: nat,
) -> Seq<int>
    decreases rounds,
{
    if rounds == 0 {
        vals
    } else {
        fold_by_of(
            fold_of(vals, offset, generator, zeta),
            fmul(offset, offset),
            fmul(generator, generator),
            fmul(zeta, zeta),
            (rounds - 1) as nat,
        )
    }
}

/// The point after `domain_point(offset, generator, i)` is that point times
/// the generator.
pub proof fn lemma_next_domain_point(offset: int, generator: int, i: nat)
    ensures
        fmul(domain_point(offset, generator, i), generator) == domain_point(
            offset,
            generator,
            i + 1,
        ),
{
    let p = fpow(generator, i);
    lemma_fmul_associative(offset, p, generator);
    assert(p * generator == generator * p) by (nonlinear_arith);
}

/// The values of a layer on the coset of `factor` points that fold into
/// position `q` of the layer folded by `factor`: those at `q`, `q + stride`,
/// `q + 2 * stride`, ...
pub open spec fn coset_values_of(vals: Seq<int>, q: int, stride: int, factor: nat) -> Seq<int> {
    Seq::new(factor, |k: int| vals[q + k * stride])
}

/// Powers add up: `a^(m + n) = a^m * a^n`.
pub proof fn lemma_fpow_add(a: int, m: nat, n: nat)
    ensures
        fpow(a, m + n) == fmul(fpow(a, m), fpow(a, n)),
    decreases m,
{
    if m == 0 {
        lemma_fpow_range(a, n);
        assert(1 * fpow(a, n) == fpow(a, n)) by (nonlinear_arith);
    } else {
        lemma_fpow_add(a, (m - 1) as nat, n);
        assert(fpow(a, m + n) == fmul(a, fpow(a, (m - 1 + n) as nat)));
        lemma_fmul_associative(a, fpow(a, (m - 1) as nat), fpow(a, n));
    }
}

/// A power of a power: `(a^s)^k = a^(s * k)`.
pub proof fn lemma_fpow_mul(a: int, s: nat, k: nat)
    ensures
        fpow(fpow(a, s), k) == fpow(a, s * k),
    decreases k,
{
    if k == 0 {
        assert(s * 0 == 0) by (nonlinear_arith);
    } else {
        lemma_fpow_mul(a, s, (k - 1) as nat);
        assert(s * k == s + s * (k - 1)) by (nonlinear_arith);
        lemma_fpow_add(a, s, s * ((k - 1) as nat));
    }
}

/// The points of a coset of a coset are points of the domain: the `k`-th
/// point of the coset that starts at the `q`-th point and steps by `stride`
/// is the point `q + k * stride`.
pub proof fn lemma_coset_point(offset: int, generator: int, q: nat, stride: nat, k: nat)
    ensures
        domain_point(domain_point(offset, generator, q), fpow(generator, stride), k)
            == domain_point(offset, generator, q + k * stride),
{
    lemma_fpow_mul(generator, stride, k);
    assert(stride * k == k * stride) by (nonlinear_arith);
    lemma_fpow_add(generator, q, k * stride);
    lemma_fmul_associative(offset, fpow(generator, q), fpow(generator, k * stride));
}

/// Two to the power `rounds`: the factor by which `rounds` folds in two
/// shorten a layer.
pub open spec fn factor_of(rounds: nat) -> nat
    decreases rounds,
{
    if rounds == 0 {
        1
    } else {
        2 * factor_of((rounds - 1) as nat)
    }
}

/// The square of a product is the product of the squares.
pub proof fn lemma_fmul_square_product(h: int, a: int)
    ensures
        fmul(fmul(h, a), fmul(h, a)) == fmul(fmul(h, h), fmul(a, a)),
{
    let p = MODULUS as int;
    vstd::arithmetic::div_mod::lemma_mul_mod_noop_general(h * a, h * a, p);
    vstd::arithmetic::div_mod::lemma_mul_mod_noop_general(h * h, a * a, p);
    assert((h * a) * (h * a) == (h * h) * (a * a)) by (nonlinear_arith);
}

/// The square of a domain point is the point of the squared domain.
pub proof fn lemma_domain_point_square(offset: int, generator: int, q: nat)
    ensures
        fmul(domain_point(offset, generator, q), domain_point(offset, generator, q))
            == domain_point(fmul(offset, offset), fmul(generator, generator), q),
{
    lemma_fmul_square_product(offset, fpow(generator, q));
    lemma_fpow_square(generator, q);
    lemma_fpow_add(generator, q, q);
}

/// The FRI round trip on one coset. Folding a layer `rounds` times in two
/// and reading position `q` gives what folding only the coset of `q` gives:
/// the `2^rounds` values at `q`, `q + stride`, ..., on the coset of the
/// domain that starts at the `q`-th point and steps by `stride`. A verifier
/// who holds the opened coset and the folding randomness recomputes the
/// value of the next layer.
pub proof fn lemma_fold_by_coset(
    vals: Seq<int>,
    offset: int,
    generator: int,
    zeta: int,
    rounds: nat,
    stride: nat,
    q: nat,
)
    requires
        vals.len() == factor_of(rounds) * stride,
        q < stride,
    ensures
        fold_by_of(vals, offset, generator, zeta, rounds).len() == stride,
        fold_by_of(vals, offset, generator, zeta, rounds)[q as int] == fold_by_of(
            coset_values_of(vals, q as int, stride as int, factor_of(rounds)),
            domain_point(offset, generator, q),
            fpow(generator, stride),
            zeta,
            rounds,
        )[0],
    decreases rounds,
{
    let coset = coset_values_of(vals, q as int, stride as int, factor_of(rounds));
    let hq = domain_point(offset, generator, q);
    let gs = fpow(generator, stride);
    if rounds == 0 {
        assert(1 * stride == stride) by (nonlinear_arith);
        assert(q + 0 * stride == q) by (nonlinear_arith);
        assert(coset[0] == vals[q as int]);
    } else {
        let half = factor_of((rounds - 1) as nat);
        let folded = fold_of(vals, offset, generator, zeta);
        assert((2 * half) * stride == 2 * (half * stride)) by (nonlinear_arith);
        assert(vals.len() / 2 == half * stride);
        assert(folded.len() == half * stride);
        lemma_fold_by_coset(
            folded,
            fmul(offset, offset),
            fmul(generator, generator),
            fmul(zeta, zeta),
            (rounds - 1) as nat,
            stride,
            q,
        );
        let small = fold_of(coset, hq, gs, zeta);
        let target = coset_values_of(folded, q as int, stride as int, half);
        assert(coset.len() / 2 == half);
        assert forall|k: int| 0 <= k < half implies small[k] == target[k] by {
            lemma_coset_point(offset, generator, q, stride, k as nat);
            assert(0 <= k * stride && q + k * stride < half * stride) by (nonlinear_arith)
                requires
                    0 <= k < half,
                    0 <= q < stride,
            ;
            assert(q + (k + half) * stride == q + k * stride + half * stride)
                by (nonlinear_arith);
            assert(coset[k] == vals[q + k * stride]);
            assert(coset[k + half] == vals[q + (k + half) * stride]);
        }
        assert(small =~= target);
        lemma_domain_point_square(offset, generator, q);
        lemma_fpow_add(generator, stride, stride);
        lemma_fpow_square(generator, stride);
    }
}

/// Folds one pair of values.
pub fn fold_values(lo: &Felt, hi: &Felt, x: &Felt, zeta: &Felt) -> (r: Felt)
    ensures
        r.is_canonical(),
        r.value() == fold_pair(lo.value(), hi.value(), x.value(), zeta.value()),
{
    let two: Felt = Felt::new(2);
    let half: Felt = two.inverse();
    let even: Felt = lo.add(hi).mul(&half);
    let odd: Felt = lo.sub(hi).mul(&two.mul(x).inverse());
    even.add(&zeta.mul(&odd))
}

/// Whether `folded` is what the folding equation gives for the pair: the
/// test that a verifier makes on the values opened at a queried position.
pub fn check_fold(lo: &Felt, hi: &Felt, x: &Felt, zeta: &Felt, folded: &Felt) -> (r: bool)
    ensures
        r == (folded.value() == fold_pair(lo.value(), hi.value(), x.value(), zeta.value())),
{
    fold_values(lo, hi, x, zeta).equals(folded)
}

/// Folds a layer of evaluations in two.
pub fn fold_layer(evals: &Vec<Felt>, offset: &Felt, generator: &Felt, zeta: &Felt) -> (r: Vec<Felt>)
    ensures
        values_of(r@) == fold_of(values_of(evals@), offset.value(), generator.value(), zeta.value()),
        r@.len() == evals@.len() / 2,
        forall|i: int| 0 <= i < r@.len() ==> (#[trigger] r@[i]).is_canonical(),
{
    let half: usize = evals.len() / 2;
    assert(2 * half <= evals.len());
    let mut out: Vec<Felt> = Vec::new();
    let mut x: Felt = Felt::new(offset.raw);
    let mut i: usize = 0;
    let ghost target = fold_of(
        values_of(evals@),
        offset.value(),
        generator.value(),
        zeta.value(),
    );
    proof {
        assert(fpow(generator.value(), 0) == 1);
        assert(domain_point(offset.value(), generator.value(), 0) == offset.value());
    }
    while i < half
        invariant
            i <= half,
            half == evals@.len() / 2,
            2 * half <= usize::MAX,
            out@.len() == i,
            x.value() == domain_point(offset.value(), generator.value(), i as nat),
            target == fold_of(
                values_of(evals@),
                offset.value(),
                generator.value(),
                zeta.value(),
            ),
            forall|k: int| 0 <= k < i ==> (#[trigger] out@[k]).value() == target[k],
            forall|k: int| 0 <= k < i ==> (#[trigger] out@[k]).is_canonical(),
        decreases half - i,
    {
        let folded: Felt = fold_values(&evals[i], &evals[i + half], &x, zeta);
        out.push(folded);
        proof {
            lemma_next_domain_point(offset.value(), generator.value(), i as nat);
        }
        x = x.mul(generator);
        i += 1;
    }
    proof {
        assert(values_of(out@) =~= target);
    }
    out
}

/// A copy of a vector of field elements.
pub fn copy_felts(elements: &Vec<Felt>) -> (r: Vec<Felt>)
    ensures
        r@ == elements@,
{
    let mut r: Vec<Felt> = Vec::new();
    let mut i: usize = 0;
    while i < elements.len()
        invariant
            i <= elements@.len(),
            r@ == elements@.take(i as int),
        decreases elements@.len() - i,
    {
        r.push(elements[i]);
        assert(r@ == elements@.take(i + 1));
        i += 1;
    }
    assert(elements@.take(i as int) == elements@);
    r
}

/// What repeated squaring makes of `h`: `h` raised to the power `2^rounds`.
pub open spec fn squared_of(h: int, rounds: nat) -> int
    decreases rounds,
{
    if rounds == 0 {
        h
    } else {
        squared_of(fmul(h, h), (rounds - 1) as nat)
    }
}

/// Squares an element `rounds` times.
pub fn square_times(h: &Felt, rounds: usize) -> (r: Felt)
    ensures
        r.is_canonical(),
        r.value() == squared_of(h.value(), rounds as nat),
{
    let mut current: Felt = Felt::new(h.raw);
    let mut done: usize = 0;
    while done < rounds
        invariant
            done <= rounds,
            current.is_canonical(),
            squared_of(current.value(), (rounds - done) as nat) == squared_of(
                h.value(),
                rounds as nat,
            ),
        decreases rounds - done,
    {
        current = current.mul(&current);
        done += 1;
    }
    current
}

/// Folds a layer `rounds` times in two.
pub fn fold_by(evals: &Vec<Felt>, offset: &Felt, generator: &Felt, zeta: &Felt, rounds: usize) -> (r:
    Vec<Felt>)
    ensures
        values_of(r@) == fold_by_of(
            values_of(evals@),
            offset.value(),
            generator.value(),
            zeta.value(),
            rounds as nat,
        ),
{
    let mut current: Vec<Felt> = copy_felts(evals);
    let mut h: Felt = Felt::new(offset.raw);
    let mut g: Felt = Felt::new(generator.raw);
    let mut z: Felt = Felt::new(zeta.raw);
    let mut done: usize = 0;
    while done < rounds
        invariant
            done <= rounds,
            fold_by_of(values_of(current@), h.value(), g.value(), z.value(), (rounds - done) as nat)
                == fold_by_of(
                values_of(evals@),
                offset.value(),
                generator.value(),
                zeta.value(),
                rounds as nat,
            ),
        decreases rounds - done,
    {
        current = fold_layer(&current, &h, &g, &z);
        h = h.mul(&h);
        g = g.mul(&g);
        z = z.mul(&z);
        done += 1;
    }
    current
}

} // verus!
