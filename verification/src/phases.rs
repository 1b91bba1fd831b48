use vstd::prelude::*;
use vstd::bytes::{spec_u64_to_le_bytes, u64_to_le_bytes};
use crate::channel::{ProverChannel, Stage};
use crate::coin::{
    dedup,
    felts_of,
    is_valid_nonce,
    lemma_positions_distinct_and_in_range,
    outside_of,
    positions_of,
};
use crate::composer::{
    all_in_scope,
    check_degrees,
    compose_on_domain,
    composition_of,
    constraints_in_scope,
    degree_fits,
    Constraint,
    TraceDomain,
};
use crate::deep::{cells_at, columns_are, columns_have_length, DeepComposer};
use crate::encoding::felts_bytes_of;
use crate::error::ProvingError;
use crate::expr::Environment;
use crate::field::{fmul, fpow, Felt};
use crate::fri_prover::{FriLayer, FriProver};
use crate::hash::{digest_of_pair, join_bytes, sha256_digest};
use crate::merkle::{commit_to_rows, root_of, row_leaves_of, MerkleTree};
use crate::options::{is_power_of_two, ProofOptions};
use crate::poly::{column_openings_of, evaluate_columns_at};
use crate::prover::AirConfig;
use crate::stark_proof::{
    layers_split,
    layers_wf,
    open_queries,
    open_rows,
    opens_row,
    position_opened,
    Opening,
    Proof,
    Queries,
    RowOpening,
    TraceInfo,
};

verus! {

/// What the DEEP phase hands on: the composer with the point, the openings
/// and the coefficients, and the DEEP composition on the evaluation domain.
pub struct DeepOutcome {
    pub composer: DeepComposer,
    pub evaluations: Vec<Felt>,
}

/// A committed matrix on the evaluation domain: its columns and the tree
/// over its rows.
pub struct CommittedTrace {
    pub columns: Vec<Vec<Felt>>,
    pub tree: MerkleTree,
}

impl CommittedTrace {
    /// The tree is well formed and has one leaf for each row.
    pub open spec fn wf(&self) -> bool {
        &&& self.tree.wf()
        &&& forall|c: int|
            0 <= c < self.columns@.len() ==> (#[trigger] self.columns@[c])@.len()
                == self.tree.num_leaves()
    }

    /// The trace commits to the rows of `matrix`.
    pub open spec fn commits_to(&self, matrix: Seq<Vec<Felt>>, num_rows: usize) -> bool {
        &&& self.wf()
        &&& self.columns@ == matrix
        &&& self.tree.num_leaves() == num_rows
        &&& self.tree.leaves() == row_leaves_of(matrix, num_rows as nat)
    }
}

/// The bytes that seed the transcript: the public context, the three
/// options, and the trace length as eight little-endian bytes.
pub open spec fn context_of(public_context: Seq<u8>, options: ProofOptions, trace_len: usize) -> Seq<
    u8,
> {
    public_context + seq![options.num_queries, options.blowup_factor, options.grinding_factor]
        + spec_u64_to_le_bytes(trace_len as u64)
}

/// A matrix that can be committed to: every column has `num_rows` cells,
/// there is a row, and the tree fits the machine.
pub open spec fn matrix_fits(matrix: Seq<Vec<Felt>>, num_rows: usize) -> bool {
    columns_are(matrix, num_rows as nat) && num_rows > 0 && 2 * num_rows <= usize::MAX
}

/// The root of the tree over the rows of a matrix.
pub open spec fn matrix_root_of(matrix: Seq<Vec<Felt>>, num_rows: usize) -> Seq<u8> {
    root_of(row_leaves_of(matrix, num_rows as nat))
}

/// The trace domain of `trace_len` rows that `generator` spans.
pub open spec fn trace_domain_of(trace_len: usize, generator: int) -> TraceDomain {
    TraceDomain {
        size: trace_len as u64,
        last: Felt { raw: fpow(generator, (trace_len - 1) as nat) as u64 },
    }
}

/// The seed after the out-of-domain openings are absorbed: first those of
/// the execution trace at `z` and at the next point, as one message, then
/// those of the composition trace at `z` raised to the number of execution
/// columns.
pub open spec fn deep_seed_of(
    seed: Seq<u8>,
    execution_polys: Seq<Vec<Felt>>,
    composition_polys: Seq<Vec<Felt>>,
    z: int,
    trace_generator: int,
) -> Seq<u8> {
    digest_of_pair(
        digest_of_pair(
            seed,
            felts_bytes_of(column_openings_of(execution_polys, z)) + felts_bytes_of(
                column_openings_of(execution_polys, fmul(z, trace_generator)),
            ),
        ),
        felts_bytes_of(
            column_openings_of(composition_polys, fpow(z, execution_polys.len() as nat)),
        ),
    )
}

/// The matrices of the DEEP phase have the dimensions of the polynomials and
/// of the domain.
pub open spec fn deep_dimensions_fit(
    execution_polys: Seq<Vec<Felt>>,
    composition_polys: Seq<Vec<Felt>>,
    execution_lde: Seq<Vec<Felt>>,
    composition_lde: Seq<Vec<Felt>>,
    n: nat,
) -> bool {
    &&& execution_polys.len() <= usize::MAX / 4
    &&& composition_polys.len() <= usize::MAX / 4
    &&& execution_lde.len() == execution_polys.len()
    &&& composition_lde.len() == composition_polys.len()
    &&& columns_are(execution_lde, n)
    &&& columns_are(composition_lde, n)
}

/// `nonce` is the least nonce that meets the grinding factor.
pub open spec fn is_least_nonce(seed: Seq<u8>, nonce: u64, factor: u8) -> bool {
    is_valid_nonce(seed, nonce, factor) && forall|m: u64|
        m < nonce ==> !#[trigger] is_valid_nonce(seed, m, factor)
}

/// The least nonce that meets the grinding factor, where there is one.
pub open spec fn least_nonce_of(seed: Seq<u8>, factor: u8) -> u64 {
    choose|nonce: u64| is_least_nonce(seed, nonce, factor)
}

/// The query positions that follow from a seed: those drawn after the least
/// nonce is absorbed, without repeats.
pub open spec fn query_positions_of(seed: Seq<u8>, options: ProofOptions, lde_size: usize) -> Seq<
    usize,
> {
    dedup(
        positions_of(
            digest_of_pair(
                seed,
                spec_u64_to_le_bytes(least_nonce_of(seed, options.grinding_factor)),
            ),
            0,
            options.num_queries as nat,
            lde_size,
        ),
    )
}

/// Every position is below `bound`.
pub open spec fn positions_below(positions: Seq<usize>, bound: int) -> bool {
    forall|j: int| 0 <= j < positions.len() ==> #[trigger] positions[j] < bound
}

/// Everything can be opened at the positions: the domain has a row, every
/// position lies in each committed trace, and the FRI layers split into
/// cosets of the folding factor.
pub open spec fn queries_fit(
    positions: Seq<usize>,
    base: CommittedTrace,
    extension: Option<CommittedTrace>,
    composition: CommittedTrace,
    layers: Seq<FriLayer>,
    folding_factor: usize,
    lde_size: usize,
) -> bool {
    &&& lde_size > 0
    &&& positions_below(positions, base.tree.num_leaves())
    &&& positions_below(positions, composition.tree.num_leaves())
    &&& match extension {
        Some(committed) => positions_below(positions, committed.tree.num_leaves()),
        None => true,
    }
    &&& (layers_split(layers, folding_factor) || positions.len() == 0)
}

/// There is one least nonce at most.
pub proof fn lemma_least_nonce_unique(seed: Seq<u8>, a: u64, b: u64, factor: u8)
    requires
        is_least_nonce(seed, a, factor),
        is_least_nonce(seed, b, factor),
    ensures
        a == b,
        least_nonce_of(seed, factor) == a,
{
    if a < b {
        assert(!is_valid_nonce(seed, a, factor));
    }
    if b < a {
        assert(!is_valid_nonce(seed, b, factor));
    }
    let c = least_nonce_of(seed, factor);
    assert(is_least_nonce(seed, c, factor));
    if a < c {
        assert(!is_valid_nonce(seed, a, factor));
    }
    if c < a {
        assert(!is_valid_nonce(seed, c, factor));
    }
}

/// Where every committed trace has one leaf for each row of the domain and
/// the layers split, every query position can be opened: with a nonce at
/// hand the query phase returns a proof, whatever the number of queries.
pub proof fn lemma_query_positions_fit(
    seed: Seq<u8>,
    options: ProofOptions,
    base: CommittedTrace,
    extension: Option<CommittedTrace>,
    composition: CommittedTrace,
    layers: Seq<FriLayer>,
    folding_factor: usize,
    lde_size: usize,
)
    requires
        lde_size > 0,
        base.tree.num_leaves() == lde_size,
        composition.tree.num_leaves() == lde_size,
        extension is Some ==> extension->Some_0.tree.num_leaves() == lde_size,
        layers_split(layers, folding_factor),
    ensures
        queries_fit(
            query_positions_of(seed, options, lde_size),
            base,
            extension,
            composition,
            layers,
            folding_factor,
            lde_size,
        ),
        query_positions_of(seed, options, lde_size).no_duplicates(),
        query_positions_of(seed, options, lde_size).len() <= options.num_queries,
{
    lemma_positions_distinct_and_in_range(
        digest_of_pair(seed, spec_u64_to_le_bytes(least_nonce_of(seed, options.grinding_factor))),
        0,
        options.num_queries as nat,
        lde_size,
    );
}

/// Where `n` elements can be drawn, `n` elements are drawn.
pub proof fn lemma_felts_count(seed: Seq<u8>, counter: u64, n: nat)
    ensures
        felts_of(seed, counter, n) is Some ==> felts_of(seed, counter, n)->Some_0.0.len() == n,
    decreases n,
{
    if n > 0 {
        lemma_felts_count(seed, counter, (n - 1) as nat);
    }
}

/// The elements of `v` from `lo` up to `hi`.
pub fn slice_felts(v: &Vec<Felt>, lo: usize, hi: usize) -> (r: Vec<Felt>)
    requires
        lo <= hi <= v@.len(),
    ensures
        r@ == v@.subrange(lo as int, hi as int),
{
    let mut r: Vec<Felt> = Vec::new();
    let mut i: usize = lo;
    while i < hi
        invariant
            lo <= i <= hi,
            hi <= v@.len(),
            r@ == v@.subrange(lo as int, i as int),
        decreases hi - i,
    {
        r.push(v[i]);
        assert(r@ == v@.subrange(lo as int, i + 1));
        i += 1;
    }
    r
}

/// Commits to a matrix on the evaluation domain.
pub fn commit_matrix(matrix: Vec<Vec<Felt>>, num_rows: usize) -> (r: Result<
    CommittedTrace,
    ProvingError,
>)
    ensures
        matrix_fits(matrix@, num_rows) ==> r is Ok && r->Ok_0.commits_to(matrix@, num_rows),
        !matrix_fits(matrix@, num_rows) ==> r is Err && r->Err_0 == ProvingError::ConfigError,
{
    if !columns_have_length(&matrix, num_rows) {
        return Err(ProvingError::ConfigError);
    }
    match commit_to_rows(&matrix, num_rows) {
        Ok(tree) => {
            let nodes: usize = tree.nodes.len();
            proof {
                assert(tree.leaves().len() == tree.num_leaves());
                assert(row_leaves_of(matrix@, num_rows as nat).len() == num_rows);
                assert(nodes == 2 * num_rows);
            }
            Ok(CommittedTrace { columns: matrix, tree })
        },
        Err(e) => Err(ProvingError::ConfigError),
    }
}

/// Opens the transcript of a proof. The options have to be in range, the
/// trace length a power of two whose evaluation domain fits the machine, the
/// base columns as many as the AIR declares, and the blowup that the
/// constraints need no larger than that of the domain. The transcript is
/// seeded with the public context, the options and the trace length; with it
/// comes the size of the evaluation domain.
pub fn start_proof(
    public_context: &Vec<u8>,
    options: &ProofOptions,
    air: &AirConfig,
    trace_len: usize,
    num_base_columns: usize,
) -> (r: Result<(ProverChannel, usize), ProvingError>)
    ensures
        r is Ok <==> options.wf() && is_power_of_two(trace_len as int) && trace_len
            * options.blowup_factor <= usize::MAX && num_base_columns == air.num_base_columns
            && air.ce_blowup_factor <= options.blowup_factor,
        r is Ok ==> r->Ok_0.0.stage == Stage::Init && r->Ok_0.1 == trace_len * options.blowup_factor
            && is_power_of_two(r->Ok_0.1 as int) && r->Ok_0.0.coin.seed@ == sha256_digest(
            context_of(public_context@, *options, trace_len),
        ) && r->Ok_0.0.coin.counter == 0 && r->Ok_0.0.extension_trace_root is None
            && r->Ok_0.0.fri_layer_roots@.len() == 0,
        r is Err ==> r->Err_0 == ProvingError::ConfigError,
{
    if ProofOptions::new(options.num_queries, options.blowup_factor, options.grinding_factor).is_err() {
        return Err(ProvingError::ConfigError);
    }
    let lde_size: usize = match options.lde_domain_size(trace_len) {
        Ok(size) => size,
        Err(e) => {
            return Err(ProvingError::ConfigError);
        },
    };
    if num_base_columns != air.num_base_columns || air.ce_blowup_factor
        > options.blowup_factor as usize {
        return Err(ProvingError::ConfigError);
    }
    let mut head: Vec<u8> = Vec::new();
    head.push(options.num_queries);
    head.push(options.blowup_factor);
    head.push(options.grinding_factor);
    assert(head@ =~= seq![options.num_queries, options.blowup_factor, options.grinding_factor]);
    let tail = u64_to_le_bytes(trace_len as u64);
    let context = join_bytes(&join_bytes(public_context, &head), &tail);
    Ok((ProverChannel::new(&context), lde_size))
}

/// The base trace phase: the extended base trace is committed to, its root
/// absorbed, and the challenges for the extension trace drawn.
pub fn base_trace_phase(
    channel: &mut ProverChannel,
    base_lde: Vec<Vec<Felt>>,
    lde_size: usize,
    num_challenges: usize,
) -> (r: Result<(CommittedTrace, Vec<Felt>), ProvingError>)
    requires
        old(channel).stage == Stage::Init,
    ensures
        !matrix_fits(base_lde@, lde_size) ==> r is Err && r->Err_0 == ProvingError::ConfigError
            && *final(channel) == *old(channel),
        matrix_fits(base_lde@, lde_size) ==> {
            let root = matrix_root_of(base_lde@, lde_size);
            let seed = digest_of_pair(old(channel).coin.seed@, root);
            &&& final(channel).stage == Stage::BaseCommitted
            &&& final(channel).coin.seed@ == seed
            &&& final(channel).record() == (
                root,
                old(channel).extension_trace_root,
                old(channel).composition_trace_root@,
                old(channel).execution_trace_oods@,
                old(channel).execution_trace_next_oods@,
                old(channel).composition_trace_oods@,
                old(channel).fri_layer_roots@,
                old(channel).fri_remainder@,
                old(channel).nonce,
            )
            &&& match felts_of(seed, 0, num_challenges as nat) {
                Some((elements, c)) => r is Ok && r->Ok_0.0.commits_to(base_lde@, lde_size)
                    && r->Ok_0.1@ == elements && final(channel).coin.counter == c,
                None => r is Err && r->Err_0 == ProvingError::Fail && final(channel).coin.counter
                    == u64::MAX,
            }
        },
{
    let base: CommittedTrace = match commit_matrix(base_lde, lde_size) {
        Ok(base) => base,
        Err(e) => {
            return Err(ProvingError::ConfigError);
        },
    };
    let root = base.tree.root();
    channel.commit_base_trace(&root);
    match channel.get_challenges(num_challenges) {
        Ok(challenges) => Ok((base, challenges)),
        Err(e) => Err(ProvingError::Fail),
    }
}

/// What the composition phase needs before it touches the transcript: a
/// trace with a row, an extension trace with the declared number of columns
/// that can be committed to, and a number of coefficients that fits the
/// machine.
pub open spec fn composition_config_fits(
    extension_lde: Option<Vec<Vec<Felt>>>,
    constraints: Seq<Constraint>,
    air: AirConfig,
    trace_len: usize,
    num_rows: usize,
) -> bool {
    &&& trace_len >= 1
    &&& 2 * constraints.len() <= usize::MAX
    &&& match extension_lde {
        Some(matrix) => matrix@.len() == air.num_extension_columns && matrix_fits(
            matrix@,
            num_rows,
        ),
        None => air.num_extension_columns == 0,
    }
}

/// Every constraint is in scope and stays below the degree of the
/// composition.
pub open spec fn constraints_fit(
    constraints: Seq<Constraint>,
    env: Environment,
    trace_len: usize,
    ce_blowup: usize,
) -> bool {
    &&& all_in_scope(constraints, env)
    &&& forall|i: int|
        0 <= i < constraints.len() ==> degree_fits(
            #[trigger] constraints[i],
            trace_len as nat,
            ce_blowup as nat,
        )
}

/// The seed from which the composition coefficients are drawn: after the
/// root of the extension trace is absorbed, where there is one.
pub open spec fn composition_seed_of(
    seed: Seq<u8>,
    extension_lde: Option<Vec<Vec<Felt>>>,
    num_rows: usize,
) -> Seq<u8> {
    match extension_lde {
        Some(matrix) => digest_of_pair(seed, matrix_root_of(matrix@, num_rows)),
        None => seed,
    }
}

/// The composition phase: the extension trace, where there is one, is
/// committed to and its root absorbed; two coefficients are drawn for every
/// constraint; and the composition is evaluated on the evaluation domain,
/// whose rows the environment holds. Without an extension trace nothing is
/// absorbed in its place.
pub fn composition_phase(
    channel: &mut ProverChannel,
    extension_lde: Option<Vec<Vec<Felt>>>,
    constraints: &Vec<Constraint>,
    env: &Environment,
    air: &AirConfig,
    trace_len: usize,
    trace_generator: &Felt,
    lde_xs: &Vec<Felt>,
) -> (r: Result<(Option<CommittedTrace>, Vec<Felt>), ProvingError>)
    requires
        old(channel).stage == Stage::BaseCommitted,
        env.wf(),
    ensures
        !composition_config_fits(
            extension_lde,
            constraints@,
            *air,
            trace_len,
            lde_xs@.len() as usize,
        )
            ==> r is Err && r->Err_0 == ProvingError::ConfigError && *final(channel) == *old(channel),
        composition_config_fits(
            extension_lde,
            constraints@,
            *air,
            trace_len,
            lde_xs@.len() as usize,
        )
            && !constraints_fit(constraints@, *env, trace_len, air.ce_blowup_factor) ==> r is Err
            && r->Err_0 == ProvingError::InvalidConstraint && *final(channel) == *old(channel),
        composition_config_fits(
            extension_lde,
            constraints@,
            *air,
            trace_len,
            lde_xs@.len() as usize,
        )
            && constraints_fit(constraints@, *env, trace_len, air.ce_blowup_factor) ==> {
            let seed = composition_seed_of(
                old(channel).coin.seed@,
                extension_lde,
                lde_xs@.len() as usize,
            );
            let counter = if extension_lde is Some {
                0
            } else {
                old(channel).coin.counter
            };
            &&& final(channel).coin.seed@ == seed
            &&& final(channel).base_trace_root@ == old(channel).base_trace_root@
            &&& final(channel).fri_layer_roots@ == old(channel).fri_layer_roots@
            &&& match extension_lde {
                Some(matrix) => final(channel).extension_trace_root is Some && final(channel).extension_trace_root->Some_0@ == matrix_root_of(matrix@, lde_xs@.len() as usize),
                None => final(channel).extension_trace_root == old(channel).extension_trace_root,
            }
            &&& match felts_of(seed, counter, (2 * constraints@.len()) as nat) {
                Some((coeffs, c)) => {
                    &&& r is Ok
                    &&& final(channel).stage == Stage::ChallengesDrawn
                    &&& final(channel).coin.counter == c
                    &&& match extension_lde {
                        Some(matrix) => r->Ok_0.0 is Some && r->Ok_0.0->Some_0.commits_to(
                            matrix@,
                            lde_xs@.len() as usize,
                        ),
                        None => r->Ok_0.0 is None,
                    }
                    &&& r->Ok_0.1@.len() == lde_xs@.len()
                    &&& forall|i: int|
                        0 <= i < lde_xs@.len() ==> (#[trigger] r->Ok_0.1@[i]).value()
                            == composition_of(
                            constraints@,
                            coeffs,
                            *env,
                            trace_domain_of(trace_len, trace_generator.value()),
                            lde_xs@[i].value(),
                            i,
                            constraints@.len(),
                        )
                },
                None => r is Err && r->Err_0 == ProvingError::Fail && final(channel).coin.counter
                    == u64::MAX && final(channel).stage == if extension_lde is Some {
                    Stage::ExtensionCommitted
                } else {
                    Stage::BaseCommitted
                },
            }
        },
{
    let num_rows: usize = lde_xs.len();
    if trace_len == 0 || constraints.len() > usize::MAX / 2 {
        return Err(ProvingError::ConfigError);
    }
    let committed: Option<CommittedTrace> = match extension_lde {
        Some(matrix) => {
            if matrix.len() != air.num_extension_columns {
                return Err(ProvingError::ConfigError);
            }
            match commit_matrix(matrix, num_rows) {
                Ok(committed) => Some(committed),
                Err(e) => {
                    return Err(ProvingError::ConfigError);
                },
            }
        },
        None => {
            if air.num_extension_columns != 0 {
                return Err(ProvingError::ConfigError);
            }
            None
        },
    };
    if !constraints_in_scope(constraints, env) {
        return Err(ProvingError::InvalidConstraint);
    }
    match check_degrees(constraints, trace_len, air.ce_blowup_factor) {
        Ok(_) => {},
        Err(e) => {
            return Err(ProvingError::InvalidConstraint);
        },
    }
    match &committed {
        Some(extension) => {
            let root = extension.tree.root();
            channel.commit_extension_trace(&root);
        },
        None => {},
    }
    let coeffs: Vec<Felt> = match channel.get_constraint_composition_coeffs(
        2 * constraints.len(),
    ) {
        Ok(coeffs) => coeffs,
        Err(e) => {
            return Err(ProvingError::Fail);
        },
    };
    proof {
        lemma_felts_count(
            channel.coin.seed@,
            if extension_lde is Some {
                0
            } else {
                old(channel).coin.counter
            },
            (2 * constraints@.len()) as nat,
        );
    }
    let domain = TraceDomain {
        size: trace_len as u64,
        last: trace_generator.pow((trace_len - 1) as u64),
    };
    assert(domain == trace_domain_of(trace_len, trace_generator.value()));
    match compose_on_domain(constraints, &coeffs, env, &domain, lde_xs) {
        Ok(evaluations) => Ok((committed, evaluations)),
        Err(e) => Err(ProvingError::InvalidConstraint),
    }
}

/// Commits to the composition trace and absorbs its root.
pub fn composition_commit_phase(
    channel: &mut ProverChannel,
    composition_lde: Vec<Vec<Felt>>,
    lde_size: usize,
) -> (r: Result<CommittedTrace, ProvingError>)
    requires
        old(channel).stage == Stage::ChallengesDrawn,
    ensures
        !matrix_fits(composition_lde@, lde_size) ==> r is Err && r->Err_0
            == ProvingError::ConfigError && *final(channel) == *old(channel),
        matrix_fits(composition_lde@, lde_size) ==> r is Ok && r->Ok_0.commits_to(
            composition_lde@,
            lde_size,
        ) && final(channel).stage == Stage::CompositionCommitted && final(channel).coin.seed@
            == digest_of_pair(
            old(channel).coin.seed@,
            matrix_root_of(composition_lde@, lde_size),
        ) && final(channel).coin.counter == 0 && final(channel).record() == (
            old(channel).base_trace_root@,
            old(channel).extension_trace_root,
            matrix_root_of(composition_lde@, lde_size),
            old(channel).execution_trace_oods@,
            old(channel).execution_trace_next_oods@,
            old(channel).composition_trace_oods@,
            old(channel).fri_layer_roots@,
            old(channel).fri_remainder@,
            old(channel).nonce,
        ),
{
    let committed: CommittedTrace = match commit_matrix(composition_lde, lde_size) {
        Ok(committed) => committed,
        Err(e) => {
            return Err(ProvingError::ConfigError);
        },
    };
    let root = committed.tree.root();
    channel.commit_composition_trace(&root);
    Ok(committed)
}

/// The DEEP phase. The out-of-domain point is drawn; the polynomials of the
/// execution trace are opened at the point and at the next point, those of
/// the composition trace at the point raised to the number of execution
/// columns; the openings are absorbed, those of the execution trace first;
/// the coefficients are drawn, one for each opening; and the DEEP
/// composition is evaluated on the domain.
pub fn deep_phase(
    channel: &mut ProverChannel,
    execution_polys: &Vec<Vec<Felt>>,
    composition_polys: &Vec<Vec<Felt>>,
    execution_lde: &Vec<Vec<Felt>>,
    composition_lde: &Vec<Vec<Felt>>,
    xs: &Vec<Felt>,
    offset: &Felt,
    trace_generator: &Felt,
) -> (r: Result<DeepOutcome, ProvingError>)
    requires
        old(channel).stage == Stage::CompositionCommitted,
    ensures
        !deep_dimensions_fit(
            execution_polys@,
            composition_polys@,
            execution_lde@,
            composition_lde@,
            xs@.len(),
        ) ==> r is Err && r->Err_0 == ProvingError::ConfigError && *final(channel) == *old(channel),
        deep_dimensions_fit(
            execution_polys@,
            composition_polys@,
            execution_lde@,
            composition_lde@,
            xs@.len(),
        ) ==> match outside_of(
            old(channel).coin.seed@,
            old(channel).coin.counter,
            xs@.len() as u64,
            offset.value(),
        ) {
            None => r is Err && r->Err_0 == ProvingError::Fail && final(channel).stage
                == Stage::CompositionCommitted && final(channel).coin.seed@ == old(channel).coin.seed@ && final(channel).coin.counter == u64::MAX && final(channel).record()
                == old(channel).record(),
            Some((z, after)) => {
                let m = execution_polys@.len();
                let k = composition_polys@.len();
                let g = trace_generator.value();
                let seed = deep_seed_of(
                    old(channel).coin.seed@,
                    execution_polys@,
                    composition_polys@,
                    z.value(),
                    g,
                );
                &&& final(channel).coin.seed@ == seed
                &&& final(channel).record() == (
                    old(channel).base_trace_root@,
                    old(channel).extension_trace_root,
                    old(channel).composition_trace_root@,
                    column_openings_of(execution_polys@, z.value()),
                    column_openings_of(execution_polys@, fmul(z.value(), g)),
                    column_openings_of(composition_polys@, fpow(z.value(), m as nat)),
                    old(channel).fri_layer_roots@,
                    old(channel).fri_remainder@,
                    old(channel).nonce,
                )
                &&& match felts_of(seed, 0, (2 * m + k) as nat) {
                    None => r is Err && r->Err_0 == ProvingError::Fail && final(channel).stage
                        == Stage::OodEvalsSent && final(channel).coin.counter == u64::MAX,
                    Some((coeffs, c)) => {
                        &&& r is Ok
                        &&& final(channel).stage == Stage::DeepCoeffsDrawn
                        &&& final(channel).coin.counter == c
                        &&& r->Ok_0.composer.z == z
                        &&& r->Ok_0.composer.z_next.value() == fmul(z.value(), g)
                        &&& r->Ok_0.composer.z_composition.value() == fpow(z.value(), m as nat)
                        &&& r->Ok_0.composer.trace_oods@ == column_openings_of(
                            execution_polys@,
                            z.value(),
                        )
                        &&& r->Ok_0.composer.trace_next_oods@ == column_openings_of(
                            execution_polys@,
                            fmul(z.value(), g),
                        )
                        &&& r->Ok_0.composer.composition_oods@ == column_openings_of(
                            composition_polys@,
                            fpow(z.value(), m as nat),
                        )
                        &&& r->Ok_0.composer.trace_coeffs@ == coeffs.subrange(0, m as int)
                        &&& r->Ok_0.composer.trace_next_coeffs@ == coeffs.subrange(
                            m as int,
                            (2 * m) as int,
                        )
                        &&& r->Ok_0.composer.composition_coeffs@ == coeffs.subrange(
                            (2 * m) as int,
                            (2 * m + k) as int,
                        )
                        &&& r->Ok_0.composer.fits_domain(
                            execution_lde@,
                            composition_lde@,
                            xs@.len(),
                        )
                        &&& r->Ok_0.evaluations@.len() == xs@.len()
                        &&& forall|i: int|
                            0 <= i < xs@.len() ==> (#[trigger] r->Ok_0.evaluations@[i]).value()
                                == r->Ok_0.composer.value_for(
                                cells_at(execution_lde@, i),
                                cells_at(composition_lde@, i),
                                xs@[i].value(),
                            )
                    },
                }
            },
        },
{
    let m: usize = execution_polys.len();
    let k: usize = composition_polys.len();
    if m > usize::MAX / 4 || k > usize::MAX / 4 || execution_lde.len() != m
        || composition_lde.len() != k || !columns_have_length(execution_lde, xs.len())
        || !columns_have_length(composition_lde, xs.len()) {
        return Err(ProvingError::ConfigError);
    }
    let z: Felt = match channel.get_ood_point(xs.len() as u64, offset) {
        Ok(z) => z,
        Err(e) => {
            return Err(ProvingError::Fail);
        },
    };
    let z_next: Felt = z.mul(trace_generator);
    let z_composition: Felt = z.pow(m as u64);
    let trace_oods: Vec<Felt> = evaluate_columns_at(execution_polys, &z);
    let trace_next_oods: Vec<Felt> = evaluate_columns_at(execution_polys, &z_next);
    let composition_oods: Vec<Felt> = evaluate_columns_at(composition_polys, &z_composition);
    let sent_here: Vec<Felt> = slice_felts(&trace_oods, 0, m);
    let sent_next: Vec<Felt> = slice_felts(&trace_next_oods, 0, m);
    let sent_composition: Vec<Felt> = slice_felts(&composition_oods, 0, k);
    proof {
        assert(sent_here@ == trace_oods@);
        assert(sent_next@ == trace_next_oods@);
        assert(sent_composition@ == composition_oods@);
    }
    channel.send_ood_evals(sent_here, sent_next, sent_composition);
    let coeffs: Vec<Felt> = match channel.get_deep_composition_coeffs(2 * m + k) {
        Ok(coeffs) => coeffs,
        Err(e) => {
            return Err(ProvingError::Fail);
        },
    };
    proof {
        lemma_felts_count(channel.coin.seed@, 0, (2 * m + k) as nat);
    }
    let composer = DeepComposer {
        z,
        z_next,
        z_composition,
        trace_oods,
        trace_next_oods,
        composition_oods,
        trace_coeffs: slice_felts(&coeffs, 0, m),
        trace_next_coeffs: slice_felts(&coeffs, m, 2 * m),
        composition_coeffs: slice_felts(&coeffs, 2 * m, 2 * m + k),
    };
    match composer.evaluate_on_domain(execution_lde, composition_lde, xs) {
        Ok(evaluations) => Ok(DeepOutcome { composer, evaluations }),
        Err(e) => Err(ProvingError::ConfigError),
    }
}

/// The offset of the domain of the remainder: that of the last layer raised
/// to the folding factor, or the offset of the evaluation domain where no
/// layer was folded.
pub fn remainder_offset(prover: &FriProver, offset: &Felt) -> (r: Felt)
    ensures
        r.is_canonical(),
        r.value() == if prover.layers@.len() == 0 {
            offset.value()
        } else {
            fpow(
                prover.layers@.last().offset.value(),
                (prover.options.folding_factor as u64) as nat,
            )
        },
{
    let count: usize = prover.layers.len();
    if count == 0 {
        Felt::new(offset.raw)
    } else {
        prover.layers[count - 1].offset.pow(prover.options.folding_factor as u64)
    }
}

/// The query phase. The proof-of-work nonce is searched and absorbed, the
/// query positions are drawn, the three traces and the FRI layers are opened
/// at them, and the proof is assembled. The phase fails where no nonce meets
/// the grinding factor; it refuses positions that cannot be opened.
pub fn query_phase(
    channel: ProverChannel,
    options: ProofOptions,
    trace_info: TraceInfo,
    base: &CommittedTrace,
    extension: &Option<CommittedTrace>,
    composition: &CommittedTrace,
    layers: &Vec<FriLayer>,
    folding_factor: usize,
    lde_size: usize,
) -> (r: Result<(Proof, Vec<usize>), ProvingError>)
    requires
        channel.stage == Stage::FriCommitted,
        base.wf(),
        composition.wf(),
        extension is Some ==> extension->Some_0.wf(),
        layers_wf(layers@),
    ensures
        !(exists|m: u64| is_valid_nonce(channel.coin.seed@, m, options.grinding_factor)) ==> r is Err
            && r->Err_0 == ProvingError::Fail,
        (exists|m: u64| is_valid_nonce(channel.coin.seed@, m, options.grinding_factor))
            && !queries_fit(
            query_positions_of(channel.coin.seed@, options, lde_size),
            *base,
            *extension,
            *composition,
            layers@,
            folding_factor,
            lde_size,
        ) ==> r is Err && r->Err_0 == ProvingError::ConfigError,
        (exists|m: u64| is_valid_nonce(channel.coin.seed@, m, options.grinding_factor))
            && queries_fit(
            query_positions_of(channel.coin.seed@, options, lde_size),
            *base,
            *extension,
            *composition,
            layers@,
            folding_factor,
            lde_size,
        ) ==> r is Ok,
        match r {
            Ok((built, positions)) => {
                &&& is_least_nonce(channel.coin.seed@, built.pow_nonce, options.grinding_factor)
                &&& options.grinding_factor == 0 ==> built.pow_nonce == 0
                &&& positions@ == query_positions_of(channel.coin.seed@, options, lde_size)
                &&& built.options == options
                &&& built.trace_info == trace_info
                &&& built.base_trace_commitment@ == channel.base_trace_root@
                &&& built.extension_trace_commitment == channel.extension_trace_root
                &&& built.composition_trace_commitment@ == channel.composition_trace_root@
                &&& built.execution_trace_oods@ == channel.execution_trace_oods@
                &&& built.execution_trace_next_oods@ == channel.execution_trace_next_oods@
                &&& built.composition_trace_oods@ == channel.composition_trace_oods@
                &&& built.fri_proof.layer_roots@ == channel.fri_layer_roots@
                &&& built.fri_proof.remainder@ == channel.fri_remainder@
                &&& built.fri_proof.openings@.len() == positions@.len()
                &&& forall|j: int|
                    0 <= j < positions@.len() ==> position_opened(
                        (#[trigger] built.fri_proof.openings@[j])@,
                        layers@,
                        positions@[j],
                        folding_factor,
                    )
                &&& built.trace_queries.base@.len() == positions@.len()
                &&& built.trace_queries.composition@.len() == positions@.len()
                &&& forall|j: int|
                    0 <= j < positions@.len() ==> opens_row(
                        #[trigger] built.trace_queries.base@[j],
                        base.columns@,
                        base.tree,
                        positions@[j],
                    )
                &&& forall|j: int|
                    0 <= j < positions@.len() ==> opens_row(
                        #[trigger] built.trace_queries.composition@[j],
                        composition.columns@,
                        composition.tree,
                        positions@[j],
                    )
                &&& match *extension {
                    Some(committed) => built.trace_queries.extension@.len() == positions@.len()
                        && forall|j: int|
                        0 <= j < positions@.len() ==> opens_row(
                            #[trigger] built.trace_queries.extension@[j],
                            committed.columns@,
                            committed.tree,
                            positions@[j],
                        ),
                    None => built.trace_queries.extension@.len() == 0,
                }
            },
            Err(e) => true,
        },
{
    let ghost seed = channel.coin.seed@;
    let mut channel = channel;
    let nonce: u64 = match channel.grind_fri_commitments(options.grinding_factor) {
        Ok(nonce) => nonce,
        Err(e) => {
            return Err(ProvingError::Fail);
        },
    };
    proof {
        assert(is_valid_nonce(seed, nonce, options.grinding_factor));
        lemma_least_nonce_unique(seed, nonce, nonce, options.grinding_factor);
    }
    if lde_size == 0 {
        return Err(ProvingError::ConfigError);
    }
    let positions: Vec<usize> = match channel.get_fri_query_positions(
        options.num_queries as usize,
        lde_size,
    ) {
        Ok(positions) => positions,
        Err(e) => {
            return Err(ProvingError::ConfigError);
        },
    };
    let base_rows: Vec<RowOpening> = match open_rows(&base.columns, &base.tree, &positions) {
        Ok(rows) => rows,
        Err(e) => {
            return Err(ProvingError::ConfigError);
        },
    };
    let extension_rows: Vec<RowOpening> = match extension {
        Some(committed) => match open_rows(&committed.columns, &committed.tree, &positions) {
            Ok(rows) => rows,
            Err(e) => {
                return Err(ProvingError::ConfigError);
            },
        },
        None => Vec::new(),
    };
    let composition_rows: Vec<RowOpening> = match open_rows(
        &composition.columns,
        &composition.tree,
        &positions,
    ) {
        Ok(rows) => rows,
        Err(e) => {
            return Err(ProvingError::ConfigError);
        },
    };
    let queries = Queries {
        base: base_rows,
        extension: extension_rows,
        composition: composition_rows,
    };
    let openings: Vec<Vec<Vec<Opening>>> = match open_queries(layers, &positions, folding_factor) {
        Ok(openings) => openings,
        Err(e) => {
            return Err(ProvingError::ConfigError);
        },
    };
    let (built, _) = channel.build_proof(options, trace_info, queries, openings);
    Ok((built, positions))
}

} // verus!
