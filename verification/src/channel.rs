use vstd::prelude::*;
use vstd::bytes::spec_u64_to_le_bytes;
use crate::coin::{
    dedup,
    felts_of,
    in_coset,
    is_valid_nonce,
    outside_of,
    positions_of,
    PublicCoin,
};
use crate::encoding::{felts_bytes_of, felts_to_bytes};
use crate::error::ProvingError;
use crate::field::Felt;
use crate::hash::{join_bytes, digest_of_pair, sha256_digest};
use crate::merkle::copy_bytes;

verus! {

/// How far the transcript of one proof has come.
#[derive(Debug, Clone, Copy, PartialEq, Eq, Structural)]
pub enum Stage {
    Init,
    BaseCommitted,
    ExtensionCommitted,
    ChallengesDrawn,
    CompositionCommitted,
    OodDrawn,
    OodEvalsSent,
    DeepCoeffsDrawn,
    FriCommitted,
    Grinded,
    QueriesDrawn,
    ProofBuilt,
}

/// What the prover does to the transcript to move it on.
#[derive(Debug, Clone, Copy, PartialEq, Eq, Structural)]
pub enum Step {
    CommitBaseTrace,
    CommitExtensionTrace,
    DrawChallenges,
    CommitCompositionTrace,
    DrawOodPoint,
    SendOodEvals,
    DrawDeepCoeffs,
    CommitFri,
    Grind,
    DrawQueries,
    BuildProof,
}

/// The place of a stage in the order of the protocol.
pub open spec fn rank(stage: Stage) -> nat {
    match stage {
        Stage::Init => 0,
        Stage::BaseCommitted => 1,
        Stage::ExtensionCommitted => 2,
        Stage::ChallengesDrawn => 3,
        Stage::CompositionCommitted => 4,
        Stage::OodDrawn => 5,
        Stage::OodEvalsSent => 6,
        Stage::DeepCoeffsDrawn => 7,
        Stage::FriCommitted => 8,
        Stage::Grinded => 9,
        Stage::QueriesDrawn => 10,
        Stage::ProofBuilt => 11,
    }
}

/// The stage that a step leads to, where the step is in order. Only the
/// commitment to an extension trace may be left out.
pub open spec fn successor(stage: Stage, step: Step) -> Option<Stage> {
    match (stage, step) {
        (Stage::Init, Step::CommitBaseTrace) => Some(Stage::BaseCommitted),
        (Stage::BaseCommitted, Step::CommitExtensionTrace) => Some(Stage::ExtensionCommitted),
        (Stage::BaseCommitted, Step::DrawChallenges) => Some(Stage::ChallengesDrawn),
        (Stage::ExtensionCommitted, Step::DrawChallenges) => Some(Stage::ChallengesDrawn),
        (Stage::ChallengesDrawn, Step::CommitCompositionTrace) => Some(Stage::CompositionCommitted),
        (Stage::CompositionCommitted, Step::DrawOodPoint) => Some(Stage::OodDrawn),
        (Stage::OodDrawn, Step::SendOodEvals) => Some(Stage::OodEvalsSent),
        (Stage::OodEvalsSent, Step::DrawDeepCoeffs) => Some(Stage::DeepCoeffsDrawn),
        (Stage::DeepCoeffsDrawn, Step::CommitFri) => Some(Stage::FriCommitted),
        (Stage::FriCommitted, Step::Grind) => Some(Stage::Grinded),
        (Stage::Grinded, Step::DrawQueries) => Some(Stage::QueriesDrawn),
        (Stage::QueriesDrawn, Step::BuildProof) => Some(Stage::ProofBuilt),
        _ => None,
    }
}

/// Every step in order moves the transcript forward, by one stage or, where
/// the extension trace is left out, by two.
pub proof fn lemma_steps_move_forward(stage: Stage, step: Step)
    requires
        successor(stage, step) is Some,
    ensures
        rank(stage) < rank(successor(stage, step)->Some_0) <= rank(stage) + 2,
        rank(successor(stage, step)->Some_0) == rank(stage) + 2 ==> stage == Stage::BaseCommitted
            && step == Step::DrawChallenges,
{
}

/// No step is in order once the proof is built.
pub proof fn lemma_proof_built_is_final(step: Step)
    ensures
        successor(Stage::ProofBuilt, step) is None,
{
}

/// The stage after a step, or `None` where the step is out of order.
pub fn advance(stage: Stage, step: Step) -> (r: Option<Stage>)
    ensures
        r == successor(stage, step),
{
    match (stage, step) {
        (Stage::Init, Step::CommitBaseTrace) => Some(Stage::BaseCommitted),
        (Stage::BaseCommitted, Step::CommitExtensionTrace) => Some(Stage::ExtensionCommitted),
        (Stage::BaseCommitted, Step::DrawChallenges) => Some(Stage::ChallengesDrawn),
        (Stage::ExtensionCommitted, Step::DrawChallenges) => Some(Stage::ChallengesDrawn),
        (Stage::ChallengesDrawn, Step::CommitCompositionTrace) => Some(Stage::CompositionCommitted),
        (Stage::CompositionCommitted, Step::DrawOodPoint) => Some(Stage::OodDrawn),
        (Stage::OodDrawn, Step::SendOodEvals) => Some(Stage::OodEvalsSent),
        (Stage::OodEvalsSent, Step::DrawDeepCoeffs) => Some(Stage::DeepCoeffsDrawn),
        (Stage::DeepCoeffsDrawn, Step::CommitFri) => Some(Stage::FriCommitted),
        (Stage::FriCommitted, Step::Grind) => Some(Stage::Grinded),
        (Stage::Grinded, Step::DrawQueries) => Some(Stage::QueriesDrawn),
        (Stage::QueriesDrawn, Step::BuildProof) => Some(Stage::ProofBuilt),
        _ => None,
    }
}

/// The prover's side of the transcript: it absorbs what the prover sends,
/// gives the verifier's challenges, and keeps what goes into the proof.
pub struct ProverChannel {
    pub stage: Stage,
    pub coin: PublicCoin,
    pub base_trace_root: Vec<u8>,
    pub extension_trace_root: Option<Vec<u8>>,
    pub composition_trace_root: Vec<u8>,
    pub execution_trace_oods: Vec<Felt>,
    pub execution_trace_next_oods: Vec<Felt>,
    pub composition_trace_oods: Vec<Felt>,
    pub fri_layer_roots: Vec<Vec<u8>>,
    pub fri_remainder: Vec<Felt>,
    pub nonce: u64,
}

impl ProverChannel {
    /// Everything that goes into the proof: the three roots, the
    /// out-of-domain openings, the roots of the FRI layers, the remainder and
    /// the nonce. The stage and the coin are not part of it.
    pub open spec fn record(&self) -> (
        Seq<u8>,
        Option<Vec<u8>>,
        Seq<u8>,
        Seq<Felt>,
        Seq<Felt>,
        Seq<Felt>,
        Seq<Vec<u8>>,
        Seq<Felt>,
        u64,
    ) {
        (
            self.base_trace_root@,
            self.extension_trace_root,
            self.composition_trace_root@,
            self.execution_trace_oods@,
            self.execution_trace_next_oods@,
            self.composition_trace_oods@,
            self.fri_layer_roots@,
            self.fri_remainder@,
            self.nonce,
        )
    }

    /// The roots of the three traces and the out-of-domain openings: the
    /// part of the record that the FRI phase leaves as it is.
    pub open spec fn commitments(&self) -> (
        Seq<u8>,
        Option<Vec<u8>>,
        Seq<u8>,
        Seq<Felt>,
        Seq<Felt>,
        Seq<Felt>,
    ) {
        (
            self.base_trace_root@,
            self.extension_trace_root,
            self.composition_trace_root@,
            self.execution_trace_oods@,
            self.execution_trace_next_oods@,
            self.composition_trace_oods@,
        )
    }

    /// A transcript that has absorbed the public context of the proof: the
    /// encoded options, trace dimensions and public inputs.
    pub fn new(context: &Vec<u8>) -> (channel: Self)
        ensures
            channel.stage == Stage::Init,
            channel.coin.seed@ == sha256_digest(context@),
            channel.coin.counter == 0,
            channel.extension_trace_root is None,
            channel.fri_layer_roots@.len() == 0,
    {
        ProverChannel {
            stage: Stage::Init,
            coin: PublicCoin::new(context),
            base_trace_root: Vec::new(),
            extension_trace_root: None,
            composition_trace_root: Vec::new(),
            execution_trace_oods: Vec::new(),
            execution_trace_next_oods: Vec::new(),
            composition_trace_oods: Vec::new(),
            fri_layer_roots: Vec::new(),
            fri_remainder: Vec::new(),
            nonce: 0,
        }
    }

    /// Absorbs the root of the base trace.
    pub fn commit_base_trace(&mut self, root: &Vec<u8>)
        requires
            old(self).stage == Stage::Init,
        ensures
            final(self).stage == Stage::BaseCommitted,
            final(self).coin.seed@ == digest_of_pair(old(self).coin.seed@, root@),
            final(self).coin.counter == 0,
            final(self).base_trace_root@ == root@,
            final(self).record() == (
                root@,
                old(self).extension_trace_root,
                old(self).composition_trace_root@,
                old(self).execution_trace_oods@,
                old(self).execution_trace_next_oods@,
                old(self).composition_trace_oods@,
                old(self).fri_layer_roots@,
                old(self).fri_remainder@,
                old(self).nonce,
            ),
    {
        self.coin.reseed(root);
        self.base_trace_root = copy_bytes(root);
        self.stage = Stage::BaseCommitted;
    }

    /// Draws the challenges from which the extension trace is built. The
    /// stage stays: the extension trace comes next, if there is one.
    pub fn get_challenges(&mut self, n: usize) -> (r: Result<Vec<Felt>, ProvingError>)
        requires
            old(self).stage == Stage::BaseCommitted,
        ensures
            final(self).stage == Stage::BaseCommitted,
            final(self).coin.seed@ == old(self).coin.seed@,
            final(self).record() == old(self).record(),
            match felts_of(old(self).coin.seed@, old(self).coin.counter, n as nat) {
                Some((elements, c)) => r is Ok && r->Ok_0@ == elements && final(self).coin.counter
                    == c,
                None => r == Err::<Vec<Felt>, ProvingError>(ProvingError::Fail) && final(self).coin.counter == u64::MAX,
            },
    {
        self.coin.draw_felts(n)
    }

    /// Absorbs the root of the extension trace.
    pub fn commit_extension_trace(&mut self, root: &Vec<u8>)
        requires
            old(self).stage == Stage::BaseCommitted,
        ensures
            final(self).stage == Stage::ExtensionCommitted,
            final(self).coin.seed@ == digest_of_pair(old(self).coin.seed@, root@),
            final(self).coin.counter == 0,
            final(self).extension_trace_root is Some,
            final(self).extension_trace_root->Some_0@ == root@,
            final(self).record() == (
                old(self).base_trace_root@,
                final(self).extension_trace_root,
                old(self).composition_trace_root@,
                old(self).execution_trace_oods@,
                old(self).execution_trace_next_oods@,
                old(self).composition_trace_oods@,
                old(self).fri_layer_roots@,
                old(self).fri_remainder@,
                old(self).nonce,
            ),
    {
        self.coin.reseed(root);
        self.extension_trace_root = Some(copy_bytes(root));
        self.stage = Stage::ExtensionCommitted;
    }

    /// Draws the coefficients of the constraint composition.
    pub fn get_constraint_composition_coeffs(&mut self, n: usize) -> (r: Result<
        Vec<Felt>,
        ProvingError,
    >)
        requires
            old(self).stage == Stage::BaseCommitted || old(self).stage
                == Stage::ExtensionCommitted,
        ensures
            final(self).coin.seed@ == old(self).coin.seed@,
            final(self).record() == old(self).record(),
            match felts_of(old(self).coin.seed@, old(self).coin.counter, n as nat) {
                Some((elements, c)) => r is Ok && r->Ok_0@ == elements && final(self).coin.counter
                    == c && final(self).stage == Stage::ChallengesDrawn,
                None => r == Err::<Vec<Felt>, ProvingError>(ProvingError::Fail) && final(self).stage == old(self).stage
                    && final(self).coin.counter == u64::MAX,
            },
    {
        let r = self.coin.draw_felts(n);
        if r.is_ok() {
            self.stage = Stage::ChallengesDrawn;
        }
        r
    }

    /// Absorbs the root of the composition trace.
    pub fn commit_composition_trace(&mut self, root: &Vec<u8>)
        requires
            old(self).stage == Stage::ChallengesDrawn,
        ensures
            final(self).stage == Stage::CompositionCommitted,
            final(self).coin.seed@ == digest_of_pair(old(self).coin.seed@, root@),
            final(self).coin.counter == 0,
            final(self).record() == (
                old(self).base_trace_root@,
                old(self).extension_trace_root,
                root@,
                old(self).execution_trace_oods@,
                old(self).execution_trace_next_oods@,
                old(self).composition_trace_oods@,
                old(self).fri_layer_roots@,
                old(self).fri_remainder@,
                old(self).nonce,
            ),
    {
        self.coin.reseed(root);
        self.composition_trace_root = copy_bytes(root);
        self.stage = Stage::CompositionCommitted;
    }

    /// Draws the out-of-domain point: a field element outside the evaluation
    /// domain, the coset of order `size` that `offset` spans.
    pub fn get_ood_point(&mut self, size: u64, offset: &Felt) -> (r: Result<Felt, ProvingError>)
        requires
            old(self).stage == Stage::CompositionCommitted,
        ensures
            final(self).coin.seed@ == old(self).coin.seed@,
            final(self).record() == old(self).record(),
            match outside_of(old(self).coin.seed@, old(self).coin.counter, size, offset.value()) {
                Some((z, c)) => r == Ok::<Felt, ProvingError>(z) && final(self).coin.counter == c
                    && !in_coset(z.value(), size, offset.value()) && final(self).stage
                    == Stage::OodDrawn,
                None => r == Err::<Felt, ProvingError>(ProvingError::Fail) && final(self).stage
                    == old(self).stage && final(self).coin.counter == u64::MAX,
            },
    {
        let r = self.coin.draw_outside(size, offset);
        if r.is_ok() {
            self.stage = Stage::OodDrawn;
        }
        r
    }

    /// Absorbs the out-of-domain openings: those of the execution trace at
    /// the point and at the next point, then those of the composition trace.
    pub fn send_ood_evals(
        &mut self,
        execution_trace_oods: Vec<Felt>,
        execution_trace_next_oods: Vec<Felt>,
        composition_trace_oods: Vec<Felt>,
    )
        requires
            old(self).stage == Stage::OodDrawn,
        ensures
            final(self).stage == Stage::OodEvalsSent,
            final(self).coin.seed@ == digest_of_pair(
                digest_of_pair(
                    old(self).coin.seed@,
                    felts_bytes_of(execution_trace_oods@) + felts_bytes_of(
                        execution_trace_next_oods@,
                    ),
                ),
                felts_bytes_of(composition_trace_oods@),
            ),
            final(self).coin.counter == 0,
            final(self).record() == (
                old(self).base_trace_root@,
                old(self).extension_trace_root,
                old(self).composition_trace_root@,
                execution_trace_oods@,
                execution_trace_next_oods@,
                composition_trace_oods@,
                old(self).fri_layer_roots@,
                old(self).fri_remainder@,
                old(self).nonce,
            ),
    {
        let here = felts_to_bytes(&execution_trace_oods);
        let next = felts_to_bytes(&execution_trace_next_oods);
        let states = join_bytes(&here, &next);
        self.coin.reseed(&states);
        let evaluations = felts_to_bytes(&composition_trace_oods);
        self.coin.reseed(&evaluations);
        self.execution_trace_oods = execution_trace_oods;
        self.execution_trace_next_oods = execution_trace_next_oods;
        self.composition_trace_oods = composition_trace_oods;
        self.stage = Stage::OodEvalsSent;
    }

    /// Draws the coefficients of the DEEP composition.
    pub fn get_deep_composition_coeffs(&mut self, n: usize) -> (r: Result<Vec<Felt>, ProvingError>)
        requires
            old(self).stage == Stage::OodEvalsSent,
        ensures
            final(self).coin.seed@ == old(self).coin.seed@,
            final(self).record() == old(self).record(),
            match felts_of(old(self).coin.seed@, old(self).coin.counter, n as nat) {
                Some((elements, c)) => r is Ok && r->Ok_0@ == elements && final(self).coin.counter
                    == c && final(self).stage == Stage::DeepCoeffsDrawn,
                None => r == Err::<Vec<Felt>, ProvingError>(ProvingError::Fail) && final(self).stage == old(self).stage
                    && final(self).coin.counter == u64::MAX,
            },
    {
        let r = self.coin.draw_felts(n);
        if r.is_ok() {
            self.stage = Stage::DeepCoeffsDrawn;
        }
        r
    }

    /// Absorbs the root of one FRI layer.
    pub fn commit_fri_layer(&mut self, root: &Vec<u8>)
        requires
            old(self).stage == Stage::DeepCoeffsDrawn,
        ensures
            final(self).stage == Stage::DeepCoeffsDrawn,
            final(self).coin.seed@ == digest_of_pair(old(self).coin.seed@, root@),
            final(self).coin.counter == 0,
            final(self).fri_layer_roots@.len() == old(self).fri_layer_roots@.len() + 1,
            final(self).fri_layer_roots@.last()@ == root@,
            final(self).fri_layer_roots@.drop_last() == old(self).fri_layer_roots@,
            final(self).commitments() == old(self).commitments(),
            final(self).fri_remainder@ == old(self).fri_remainder@,
            final(self).nonce == old(self).nonce,
    {
        self.coin.reseed(root);
        self.fri_layer_roots.push(copy_bytes(root));
        assert(self.fri_layer_roots@.drop_last() =~= old(self).fri_layer_roots@);
    }

    /// Draws the randomness by which the layer just committed is folded.
    pub fn draw_fri_alpha(&mut self) -> (r: Result<Felt, ProvingError>)
        requires
            old(self).stage == Stage::DeepCoeffsDrawn,
        ensures
            final(self).stage == Stage::DeepCoeffsDrawn,
            final(self).coin.seed@ == old(self).coin.seed@,
            final(self).record() == old(self).record(),
            match felts_of(old(self).coin.seed@, old(self).coin.counter, 1) {
                Some((elements, c)) => r == Ok::<Felt, ProvingError>(elements[0]) && final(self).coin.counter == c,
                None => r == Err::<Felt, ProvingError>(ProvingError::Fail),
            },
    {
        proof {
            assert(felts_of(old(self).coin.seed@, old(self).coin.counter, 0) == Some(
                (Seq::<Felt>::empty(), old(self).coin.counter),
            ));
        }
        self.coin.draw_felt()
    }

    /// Absorbs the coefficients of the FRI remainder.
    pub fn commit_fri_remainder(&mut self, coefficients: Vec<Felt>)
        requires
            old(self).stage == Stage::DeepCoeffsDrawn,
        ensures
            final(self).stage == Stage::FriCommitted,
            final(self).coin.seed@ == digest_of_pair(
                old(self).coin.seed@,
                felts_bytes_of(coefficients@),
            ),
            final(self).coin.counter == 0,
            final(self).fri_remainder@ == coefficients@,
            final(self).fri_layer_roots@ == old(self).fri_layer_roots@,
            final(self).commitments() == old(self).commitments(),
            final(self).nonce == old(self).nonce,
    {
        let bytes = felts_to_bytes(&coefficients);
        self.coin.reseed(&bytes);
        self.fri_remainder = coefficients;
        self.stage = Stage::FriCommitted;
    }

    /// Searches the proof-of-work nonce and absorbs it. With a grinding
    /// factor of zero nothing is searched.
    pub fn grind_fri_commitments(&mut self, grinding_factor: u8) -> (r: Result<u64, ProvingError>)
        requires
            old(self).stage == Stage::FriCommitted,
        ensures
            grinding_factor == 0 ==> r == Ok::<u64, ProvingError>(0),
            match r {
                Ok(nonce) => is_valid_nonce(old(self).coin.seed@, nonce, grinding_factor)
                    && (forall|m: u64|
                    m < nonce ==> !#[trigger] is_valid_nonce(
                        old(self).coin.seed@,
                        m,
                        grinding_factor,
                    )) && final(self).coin.seed@ == digest_of_pair(
                    old(self).coin.seed@,
                    spec_u64_to_le_bytes(nonce),
                ) && final(self).coin.counter == 0 && final(self).nonce == nonce && final(self).stage == Stage::Grinded
                    && final(self).commitments() == old(self).commitments() && final(self).fri_layer_roots@ == old(self).fri_layer_roots@ && final(self).fri_remainder@
                    == old(self).fri_remainder@,
                Err(e) => e == ProvingError::Fail && (forall|m: u64|
                    !#[trigger] is_valid_nonce(old(self).coin.seed@, m, grinding_factor))
                    && final(self).stage == old(self).stage,
            },
    {
        match self.coin.grind(grinding_factor) {
            Ok(nonce) => {
                self.nonce = nonce;
                self.stage = Stage::Grinded;
                Ok(nonce)
            },
            Err(e) => Err(e),
        }
    }

    /// Draws the query positions in a domain of `size` rows: `num_queries`
    /// positions, without the repeats.
    pub fn get_fri_query_positions(&mut self, num_queries: usize, size: usize) -> (r: Result<
        Vec<usize>,
        ProvingError,
    >)
        requires
            old(self).stage == Stage::Grinded,
            size > 0,
        ensures
            final(self).coin.seed@ == old(self).coin.seed@,
            final(self).record() == old(self).record(),
            old(self).coin.counter + num_queries <= u64::MAX ==> r is Ok && r->Ok_0@ == dedup(
                positions_of(old(self).coin.seed@, old(self).coin.counter, num_queries as nat, size),
            ) && final(self).stage == Stage::QueriesDrawn,
            old(self).coin.counter + num_queries > u64::MAX ==> r == Err::<
                Vec<usize>,
                ProvingError,
            >(ProvingError::Fail) && final(self).stage == old(self).stage,
    {
        let r = self.coin.draw_positions(num_queries, size);
        if r.is_ok() {
            self.stage = Stage::QueriesDrawn;
        }
        r
    }
}

} // verus!
