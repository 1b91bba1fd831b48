use vstd::prelude::*;
use vstd::bytes::{spec_u64_to_le_bytes, u64_to_le_bytes};
use crate::channel::{ProverChannel, Stage};
use crate::coin::{felts_of, next_accepted};
use crate::error::ProvingError;
use crate::field::{fmul, values_of, Felt};
use crate::fri::{factor_of, fold_by, fold_by_of, fold_of, square_times, squared_of};
use crate::hash::{digest_of_pair, draw_of, sha256, sha256_digest};
use crate::merkle::{root_of, views, MerkleTree};
use crate::options::{is_power_of_two, word_is_power_of_two, FriOptions};

verus! {

/// The leaves of the tree over a layer: the digest of each value, encoded as
/// the eight little-endian bytes of its canonical integer.
pub open spec fn value_leaves_of(vals: Seq<int>) -> Seq<Seq<u8>> {
    Seq::new(vals.len(), |i: int| sha256_digest(spec_u64_to_le_bytes(vals[i] as u64)))
}

/// How often a layer is folded in two to fold it by `factor`.
pub open spec fn rounds_of(factor: int) -> nat
    decreases factor,
{
    if factor <= 1 {
        0
    } else {
        1 + rounds_of(factor / 2)
    }
}

/// A folding factor is a power of two, and at least 2.
pub open spec fn valid_folding(factor: int) -> bool {
    factor >= 2 && is_power_of_two(factor)
}

/// One layer of the commit phase: the evaluations on a coset, the tree
/// that commits to them, and the randomness by which they are folded.
pub struct FriLayer {
    pub evaluations: Vec<Felt>,
    pub tree: MerkleTree,
    pub offset: Felt,
    pub generator: Felt,
    pub alpha: Felt,
}

impl FriLayer {
    /// The tree commits to the evaluations.
    pub open spec fn wf(&self) -> bool {
        &&& self.tree.wf()
        &&& self.tree.leaves() == value_leaves_of(values_of(self.evaluations@))
    }

    /// The root of the layer's tree.
    pub open spec fn root(&self) -> Seq<u8> {
        root_of(self.tree.leaves())
    }

    /// The layer folded `rounds` times by its randomness.
    pub open spec fn folded(&self, rounds: nat) -> Seq<int> {
        fold_by_of(
            values_of(self.evaluations@),
            self.offset.value(),
            self.generator.value(),
            self.alpha.value(),
            rounds,
        )
    }
}

/// The seed of the transcript after it has absorbed the roots of the first
/// `i` layers.
pub open spec fn seed_after(seed: Seq<u8>, layers: Seq<FriLayer>, i: nat) -> Seq<u8>
    decreases i,
{
    if i == 0 {
        seed
    } else {
        digest_of_pair(seed_after(seed, layers, (i - 1) as nat), layers[i - 1].root())
    }
}

/// The layers follow from each other: every layer commits to its
/// evaluations, is larger than the remainder may be, was folded by the first
/// element that the transcript gave after absorbing its root, and folded
/// gives the next layer, on the domain raised to the folding factor. The last
/// layer folded gives `rest`.
#[verifier::opaque]
pub open spec fn chain_ok(
    seed: Seq<u8>,
    layers: Seq<FriLayer>,
    rest: Seq<Felt>,
    rounds: nat,
    max_remainder_size: usize,
) -> bool {
    forall|i: int|
        0 <= i < layers.len() ==> {
            &&& (#[trigger] layers[i]).wf()
            &&& layers[i].evaluations@.len() > max_remainder_size
            &&& match next_accepted(seed_after(seed, layers, (i + 1) as nat), 0) {
                Some(c) => layers[i].alpha == (Felt {
                    raw: draw_of(seed_after(seed, layers, (i + 1) as nat), c),
                }),
                None => false,
            }
            &&& if i + 1 < layers.len() {
                &&& values_of(layers[i + 1].evaluations@) == layers[i].folded(rounds)
                &&& layers[i + 1].offset.value() == squared_of(layers[i].offset.value(), rounds)
                &&& layers[i + 1].generator.value() == squared_of(
                    layers[i].generator.value(),
                    rounds,
                )
            } else {
                values_of(rest) == layers[i].folded(rounds)
            }
        }
}

/// The transcript has kept the roots it held before, and after them the
/// roots of the layers, in order.
#[verifier::opaque]
pub open spec fn roots_recorded(roots: Seq<Vec<u8>>, known: Seq<Vec<u8>>, layers: Seq<FriLayer>) -> bool {
    &&& roots.len() == known.len() + layers.len()
    &&& forall|i: int| 0 <= i < known.len() ==> (#[trigger] roots[i]) == known[i]
    &&& forall|i: int|
        0 <= i < layers.len() ==> (#[trigger] roots[known.len() + i])@ == layers[i].root()
}

/// Before the first layer the chain holds, and the roots are those known.
pub proof fn lemma_chain_starts(
    seed: Seq<u8>,
    rest: Seq<Felt>,
    rounds: nat,
    max_remainder_size: usize,
    known: Seq<Vec<u8>>,
)
    ensures
        chain_ok(seed, Seq::<FriLayer>::empty(), rest, rounds, max_remainder_size),
        roots_recorded(known, known, Seq::<FriLayer>::empty()),
{
    reveal(chain_ok);
    reveal(roots_recorded);
}

/// A root pushed for a new layer keeps the record in order.
pub proof fn lemma_roots_extend(
    before: Seq<Vec<u8>>,
    after: Seq<Vec<u8>>,
    known: Seq<Vec<u8>>,
    layers: Seq<FriLayer>,
    layer: FriLayer,
)
    requires
        roots_recorded(before, known, layers),
        after.len() == before.len() + 1,
        after.drop_last() == before,
        after.last()@ == layer.root(),
    ensures
        roots_recorded(after, known, layers.push(layer)),
{
    reveal(roots_recorded);
    assert forall|i: int| 0 <= i < known.len() implies (#[trigger] after[i]) == known[i] by {
        assert(after[i] == after.drop_last()[i]);
    }
    assert forall|i: int| 0 <= i < layers.len() + 1 implies (#[trigger] after[known.len() + i])@
        == layers.push(layer)[i].root() by {
        if i < layers.len() {
            assert(after[known.len() + i] == after.drop_last()[known.len() + i]);
            assert(layers.push(layer)[i] == layers[i]);
        } else {
            assert(after[known.len() + i] == after.last());
        }
    }
}

/// Every layer of a chain commits to its evaluations.
pub proof fn lemma_chain_layers_commit(
    seed: Seq<u8>,
    layers: Seq<FriLayer>,
    rest: Seq<Felt>,
    rounds: nat,
    max_remainder_size: usize,
)
    requires
        chain_ok(seed, layers, rest, rounds, max_remainder_size),
    ensures
        forall|i: int| 0 <= i < layers.len() ==> (#[trigger] layers[i]).wf(),
{
    reveal(chain_ok);
}

/// The layers of the commit phase and what is left after the last fold.
pub struct FriProver {
    pub options: FriOptions,
    pub layers: Vec<FriLayer>,
    pub remainder: Vec<Felt>,
}

/// Folding shortens a layer: by half or more, where it is folded at all.
pub proof fn lemma_fold_by_len(vals: Seq<int>, offset: int, generator: int, zeta: int, rounds: nat)
    ensures
        fold_by_of(vals, offset, generator, zeta, rounds).len() <= vals.len(),
        rounds >= 1 ==> fold_by_of(vals, offset, generator, zeta, rounds).len() <= vals.len() / 2,
    decreases rounds,
{
    if rounds > 0 {
        lemma_fold_by_len(
            fold_of(vals, offset, generator, zeta),
            fmul(offset, offset),
            fmul(generator, generator),
            fmul(zeta, zeta),
            (rounds - 1) as nat,
        );
    }
}

/// The seed after the first `i` layers does not depend on later layers.
pub proof fn lemma_seed_after_prefix(seed: Seq<u8>, layers: Seq<FriLayer>, more: FriLayer, i: nat)
    requires
        i <= layers.len(),
    ensures
        seed_after(seed, layers.push(more), i) == seed_after(seed, layers, i),
    decreases i,
{
    if i > 0 {
        lemma_seed_after_prefix(seed, layers, more, (i - 1) as nat);
        assert(layers.push(more)[i - 1] == layers[i - 1]);
    }
}

/// A folding factor is two to the power of its number of rounds.
pub proof fn lemma_factor_of_rounds(factor: int)
    requires
        factor >= 1,
        is_power_of_two(factor),
    ensures
        factor_of(rounds_of(factor)) == factor,
    decreases factor,
{
    if factor > 1 {
        lemma_factor_of_rounds(factor / 2);
    }
}

/// Halving `n` until 1 is left takes no more than `n` steps.
pub proof fn lemma_rounds_bound(n: int)
    ensures
        rounds_of(n) <= if n >= 0 {
            n
        } else {
            0
        },
    decreases n,
{
    if n > 1 {
        lemma_rounds_bound(n / 2);
    }
}

/// How often to fold in two for a folding factor; `None` for a factor that
/// is no power of two or is below 2.
pub fn folding_rounds(factor: usize) -> (r: Option<usize>)
    ensures
        valid_folding(factor as int) ==> r is Some && r->Some_0 == rounds_of(factor as int)
            && r->Some_0 >= 1,
        !valid_folding(factor as int) ==> r is None,
{
    if factor < 2 || !word_is_power_of_two(factor) {
        return None;
    }
    let mut rounds: usize = 0;
    let mut f: usize = factor;
    proof {
        lemma_rounds_bound(factor as int);
    }
    while f > 1
        invariant
            f >= 1,
            is_power_of_two(f as int),
            rounds + rounds_of(f as int) == rounds_of(factor as int),
            rounds_of(factor as int) <= usize::MAX,
        decreases f,
    {
        f = f / 2;
        rounds = rounds + 1;
    }
    Some(rounds)
}

/// A chain of layers grows by the layer that its rest makes.
pub proof fn lemma_chain_extends(
    seed: Seq<u8>,
    before: Seq<FriLayer>,
    layer: FriLayer,
    next: Seq<Felt>,
    rounds: nat,
    max_remainder_size: usize,
)
    requires
        chain_ok(seed, before, layer.evaluations@, rounds, max_remainder_size),
        layer.wf(),
        layer.evaluations@.len() > max_remainder_size,
        match next_accepted(
            digest_of_pair(seed_after(seed, before, before.len()), layer.root()),
            0,
        ) {
            Some(c) => layer.alpha == (Felt {
                raw: draw_of(
                    digest_of_pair(seed_after(seed, before, before.len()), layer.root()),
                    c,
                ),
            }),
            None => false,
        },
        before.len() > 0 ==> layer.offset.value() == squared_of(
            before.last().offset.value(),
            rounds,
        ) && layer.generator.value() == squared_of(before.last().generator.value(), rounds),
        values_of(next) == layer.folded(rounds),
    ensures
        chain_ok(seed, before.push(layer), next, rounds, max_remainder_size),
        seed_after(seed, before.push(layer), before.len() + 1) == digest_of_pair(
            seed_after(seed, before, before.len()),
            layer.root(),
        ),
{
    reveal(chain_ok);
    let after = before.push(layer);
    assert forall|i: nat| i <= before.len() implies seed_after(seed, after, i) == seed_after(
        seed,
        before,
        i,
    ) by {
        lemma_seed_after_prefix(seed, before, layer, i);
    }
    assert(after[before.len() as int] == layer);
    assert forall|i: int| 0 <= i < after.len() implies {
        &&& (#[trigger] after[i]).wf()
        &&& after[i].evaluations@.len() > max_remainder_size
        &&& match next_accepted(seed_after(seed, after, (i + 1) as nat), 0) {
            Some(c) => after[i].alpha == (Felt {
                raw: draw_of(seed_after(seed, after, (i + 1) as nat), c),
            }),
            None => false,
        }
        &&& if i + 1 < after.len() {
            &&& values_of(after[i + 1].evaluations@) == after[i].folded(rounds)
            &&& after[i + 1].offset.value() == squared_of(after[i].offset.value(), rounds)
            &&& after[i + 1].generator.value() == squared_of(after[i].generator.value(), rounds)
        } else {
            values_of(next) == after[i].folded(rounds)
        }
    } by {
        if i < before.len() {
            assert(after[i] == before[i]);
            assert(before[i].wf());
            assert(seed_after(seed, after, (i + 1) as nat) == seed_after(
                seed,
                before,
                (i + 1) as nat,
            ));
            if i + 1 < before.len() {
                assert(after[i + 1] == before[i + 1]);
            } else {
                assert(after[i + 1] == layer);
                assert(before[i] == before.last());
            }
        }
    }
}

/// Commits to a layer of evaluations: one leaf for each value.
pub fn commit_to_values(evaluations: &Vec<Felt>) -> (r: Result<MerkleTree, ProvingError>)
    ensures
        match r {
            Ok(tree) => tree.wf() && tree.leaves() == value_leaves_of(values_of(evaluations@)),
            Err(e) => e == ProvingError::ConfigError && (evaluations@.len() == 0 || 2
                * evaluations@.len() > usize::MAX),
        },
{
    let mut leaves: Vec<Vec<u8>> = Vec::new();
    let mut i: usize = 0;
    while i < evaluations.len()
        invariant
            i <= evaluations@.len(),
            leaves@.len() == i,
            forall|k: int|
                0 <= k < i ==> (#[trigger] leaves@[k])@ == sha256_digest(
                    spec_u64_to_le_bytes(evaluations@[k].value() as u64),
                ),
        decreases evaluations@.len() - i,
    {
        let bytes = u64_to_le_bytes(evaluations[i].to_canonical());
        leaves.push(sha256(bytes.as_slice()));
        i += 1;
    }
    proof {
        assert(views(leaves@) =~= value_leaves_of(values_of(evaluations@)));
    }
    MerkleTree::new(leaves)
}

impl FriProver {
    /// The commit phase. While the layer is larger than the remainder may be,
    /// it is committed to, its root is absorbed, the folding randomness is
    /// drawn, and the layer is folded by the folding factor. What is left is
    /// the remainder.
    pub fn build_layers(
        options: FriOptions,
        channel: &mut ProverChannel,
        evaluations: Vec<Felt>,
        offset: &Felt,
        generator: &Felt,
    ) -> (r: Result<FriProver, ProvingError>)
        requires
            old(channel).stage == Stage::DeepCoeffsDrawn,
        ensures
            final(channel).stage == Stage::DeepCoeffsDrawn,
            !valid_folding(options.folding_factor as int) ==> r == Err::<FriProver, ProvingError>(
                ProvingError::ConfigError,
            ),
            match r {
                Ok(prover) => {
                    &&& valid_folding(options.folding_factor as int)
                    &&& prover.options == options
                    &&& chain_ok(
                        old(channel).coin.seed@,
                        prover.layers@,
                        prover.remainder@,
                        rounds_of(options.folding_factor as int),
                        options.max_remainder_size,
                    )
                    &&& prover.remainder@.len() <= options.max_remainder_size
                    &&& if prover.layers@.len() == 0 {
                        prover.remainder@ == evaluations@
                    } else {
                        &&& prover.layers@[0].evaluations@ == evaluations@
                        &&& prover.layers@[0].offset.value() == offset.value()
                        &&& prover.layers@[0].generator.value() == generator.value()
                    }
                    &&& final(channel).coin.seed@ == seed_after(
                        old(channel).coin.seed@,
                        prover.layers@,
                        prover.layers@.len(),
                    )
                    &&& roots_recorded(
                        final(channel).fri_layer_roots@,
                        old(channel).fri_layer_roots@,
                        prover.layers@,
                    )
                    &&& final(channel).commitments() == old(channel).commitments()
                    &&& final(channel).fri_remainder@ == old(channel).fri_remainder@
                    &&& final(channel).nonce == old(channel).nonce
                },
                Err(e) => if e == ProvingError::Fail {
                    next_accepted(final(channel).coin.seed@, 0) is None
                } else {
                    e == ProvingError::ConfigError && (!valid_folding(
                        options.folding_factor as int,
                    ) || 2 * evaluations@.len() > usize::MAX)
                },
            },
    {
        let rounds: usize = match folding_rounds(options.folding_factor) {
            Some(rounds) => rounds,
            None => {
                return Err(ProvingError::ConfigError);
            },
        };
        let ghost seed = channel.coin.seed@;
        let ghost known = channel.fri_layer_roots@;
        let mut layers: Vec<FriLayer> = Vec::new();
        let mut current: Vec<Felt> = evaluations;
        let mut h: Felt = Felt::new(offset.raw);
        let mut g: Felt = Felt::new(generator.raw);
        proof {
            lemma_chain_starts(
                seed,
                current@,
                rounds as nat,
                options.max_remainder_size,
                known,
            );
        }
        while current.len() > options.max_remainder_size
            invariant
                channel.stage == Stage::DeepCoeffsDrawn,
                valid_folding(options.folding_factor as int),
                rounds >= 1,
                rounds == rounds_of(options.folding_factor as int),
                current@.len() <= evaluations@.len(),
                chain_ok(seed, layers@, current@, rounds as nat, options.max_remainder_size),
                channel.coin.seed@ == seed_after(seed, layers@, layers@.len()),
                roots_recorded(channel.fri_layer_roots@, known, layers@),
                channel.commitments() == old(channel).commitments(),
                channel.fri_remainder@ == old(channel).fri_remainder@,
                channel.nonce == old(channel).nonce,
                if layers@.len() == 0 {
                    &&& current@ == evaluations@
                    &&& h.value() == offset.value()
                    &&& g.value() == generator.value()
                } else {
                    &&& layers@[0].evaluations@ == evaluations@
                    &&& layers@[0].offset.value() == offset.value()
                    &&& layers@[0].generator.value() == generator.value()
                    &&& h.value() == squared_of(layers@.last().offset.value(), rounds as nat)
                    &&& g.value() == squared_of(layers@.last().generator.value(), rounds as nat)
                },
            decreases current@.len(),
        {
            let tree: MerkleTree = match commit_to_values(&current) {
                Ok(tree) => tree,
                Err(e) => {
                    return Err(e);
                },
            };
            let root: Vec<u8> = tree.root();
            let ghost roots_before = channel.fri_layer_roots@;
            channel.commit_fri_layer(&root);
            let ghost absorbed = channel.coin.seed@;
            proof {
                assert(felts_of(absorbed, 0, 0) == Some((Seq::<Felt>::empty(), 0u64)));
            }
            let alpha: Felt = match channel.draw_fri_alpha() {
                Ok(alpha) => alpha,
                Err(e) => {
                    return Err(ProvingError::Fail);
                },
            };
            let next: Vec<Felt> = fold_by(&current, &h, &g, &alpha, rounds);
            let layer = FriLayer { evaluations: current, tree, offset: h, generator: g, alpha };
            let ghost before = layers@;
            proof {
                lemma_fold_by_len(
                    values_of(layer.evaluations@),
                    h.value(),
                    g.value(),
                    alpha.value(),
                    rounds as nat,
                );
                assert(values_of(next@).len() == next@.len());
                assert(values_of(layer.evaluations@).len() == layer.evaluations@.len());
                lemma_chain_extends(
                    seed,
                    before,
                    layer,
                    next@,
                    rounds as nat,
                    options.max_remainder_size,
                );
                lemma_roots_extend(roots_before, channel.fri_layer_roots@, known, before, layer);
            }
            layers.push(layer);
            h = square_times(&h, rounds);
            g = square_times(&g, rounds);
            current = next;
        }
        Ok(FriProver { options, layers, remainder: current })
    }
}

} // verus!
