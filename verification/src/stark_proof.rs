use vstd::prelude::*;
use vstd::bytes::{spec_u64_to_le_bytes, u64_to_le_bytes};
use crate::channel::{ProverChannel, Stage};
use crate::encoding::{
    felts_bytes_of,
    felts_to_bytes,
    optional_root_of,
    optional_root_to_bytes,
    prefixed_felts_of,
    prefixed_felts_to_bytes,
};
use crate::error::ProvingError;
use crate::field::{fpow, values_of, Felt};
use crate::fri::{coset_values_of, domain_point, factor_of, fold_by_of, lemma_fold_by_coset};
use crate::coin::seed_of;
use crate::fri_prover::{seed_after, value_leaves_of, FriLayer};
use crate::hash::{digest_of_pair, join_bytes, sha256, sha256_digest};
use crate::merkle::{
    climb,
    lemma_opened_leaf_verifies,
    path_of,
    root_of,
    row_bytes_of,
    row_leaves_of,
    verify_path,
    views,
    MerkleTree,
};
use crate::options::ProofOptions;

verus! {

/// The dimensions of a trace.
#[derive(Debug, Clone, Copy, PartialEq, Eq, Structural)]
pub struct TraceInfo {
    pub trace_len: usize,
    pub num_base_columns: usize,
    pub num_extension_columns: usize,
}

/// One value of a committed vector with its authentication path.
pub struct Opening {
    pub position: usize,
    pub value: Felt,
    pub path: Vec<Vec<u8>>,
}

/// One row of a committed matrix with its authentication path.
pub struct RowOpening {
    pub position: usize,
    pub values: Vec<Felt>,
    pub path: Vec<Vec<u8>>,
}

/// The openings of the three committed traces at the query positions.
pub struct Queries {
    pub base: Vec<RowOpening>,
    pub extension: Vec<RowOpening>,
    pub composition: Vec<RowOpening>,
}

/// The FRI part of a proof: the roots of the layers, the remainder, and for
/// every query and layer the values of the coset that folds into the queried
/// position.
pub struct FriProof {
    pub layer_roots: Vec<Vec<u8>>,
    pub remainder: Vec<Felt>,
    /// For every query, the opened coset of every layer.
    pub openings: Vec<Vec<Vec<Opening>>>,
}

/// A proof that a trace satisfies its constraints.
pub struct Proof {
    pub options: ProofOptions,
    pub trace_info: TraceInfo,
    pub base_trace_commitment: Vec<u8>,
    pub extension_trace_commitment: Option<Vec<u8>>,
    pub composition_trace_commitment: Vec<u8>,
    pub execution_trace_oods: Vec<Felt>,
    pub execution_trace_next_oods: Vec<Felt>,
    pub composition_trace_oods: Vec<Felt>,
    pub fri_proof: FriProof,
    pub trace_queries: Queries,
    pub pow_nonce: u64,
}

/// The row of a column-major matrix at `position`.
pub open spec fn row_of(columns: Seq<Vec<Felt>>, position: int) -> Seq<Felt> {
    Seq::new(columns.len(), |c: int| columns[c]@[position])
}

/// The positions of the coset of `factor` values that fold into one: those
/// that agree with `position` modulo `size / factor`.
pub open spec fn coset_positions_of(position: int, size: int, factor: int) -> Seq<int> {
    Seq::new(factor as nat, |k: int| position % (size / factor) + k * (size / factor))
}

/// The options on the wire: three bytes.
pub open spec fn options_bytes_of(options: ProofOptions) -> Seq<u8> {
    seq![options.num_queries, options.blowup_factor, options.grinding_factor]
}

/// The trace dimensions on the wire: three words of eight little-endian
/// bytes.
pub open spec fn trace_info_bytes_of(info: TraceInfo) -> Seq<u8> {
    spec_u64_to_le_bytes(info.trace_len as u64) + spec_u64_to_le_bytes(
        info.num_base_columns as u64,
    ) + spec_u64_to_le_bytes(info.num_extension_columns as u64)
}

/// The head of a proof on the wire: options, trace dimensions, the root of
/// the base trace, the root of the extension trace where there is one and
/// its presence flag, the root of the composition trace, and the three lists
/// of out-of-domain openings, each behind its length.
pub open spec fn head_bytes_of(p: Proof) -> Seq<u8> {
    options_bytes_of(p.options) + trace_info_bytes_of(p.trace_info)
        + p.base_trace_commitment@ + optional_root_of(
        match p.extension_trace_commitment {
            Some(root) => Some(root@),
            None => None,
        },
    ) + p.composition_trace_commitment@ + prefixed_felts_of(p.execution_trace_oods@)
        + prefixed_felts_of(p.execution_trace_next_oods@) + prefixed_felts_of(
        p.composition_trace_oods@,
    )
}

/// The hashes of a list, one after the other.
pub open spec fn hashes_bytes_of(hashes: Seq<Vec<u8>>) -> Seq<u8>
    decreases hashes.len(),
{
    if hashes.len() == 0 {
        Seq::<u8>::empty()
    } else {
        hashes_bytes_of(hashes.drop_last()) + hashes.last()@
    }
}

/// A list of hashes behind its length, as eight little-endian bytes.
pub open spec fn prefixed_hashes_of(hashes: Seq<Vec<u8>>) -> Seq<u8> {
    spec_u64_to_le_bytes(hashes.len() as u64) + hashes_bytes_of(hashes)
}

/// An opening on the wire: position, value, and the path behind its length.
pub open spec fn opening_bytes_of(opening: Opening) -> Seq<u8> {
    spec_u64_to_le_bytes(opening.position as u64) + spec_u64_to_le_bytes(
        opening.value.value() as u64,
    ) + prefixed_hashes_of(opening.path@)
}

/// The openings of a list, one after the other.
pub open spec fn openings_bytes_of(openings: Seq<Opening>) -> Seq<u8>
    decreases openings.len(),
{
    if openings.len() == 0 {
        Seq::<u8>::empty()
    } else {
        openings_bytes_of(openings.drop_last()) + opening_bytes_of(openings.last())
    }
}

/// The opened cosets of a list, each behind its length.
pub open spec fn cosets_bytes_of(cosets: Seq<Vec<Opening>>) -> Seq<u8>
    decreases cosets.len(),
{
    if cosets.len() == 0 {
        Seq::<u8>::empty()
    } else {
        cosets_bytes_of(cosets.drop_last()) + spec_u64_to_le_bytes(cosets.last()@.len() as u64)
            + openings_bytes_of(cosets.last()@)
    }
}

/// The opened cosets of every query, each query behind the number of its
/// cosets.
pub open spec fn queries_cosets_bytes_of(queries: Seq<Vec<Vec<Opening>>>) -> Seq<u8>
    decreases queries.len(),
{
    if queries.len() == 0 {
        Seq::<u8>::empty()
    } else {
        queries_cosets_bytes_of(queries.drop_last()) + spec_u64_to_le_bytes(
            queries.last()@.len() as u64,
        ) + cosets_bytes_of(queries.last()@)
    }
}

/// A row opening on the wire: position, the values behind their number, and
/// the path behind its length.
pub open spec fn row_opening_bytes_of(opening: RowOpening) -> Seq<u8> {
    spec_u64_to_le_bytes(opening.position as u64) + prefixed_felts_of(opening.values@)
        + prefixed_hashes_of(opening.path@)
}

/// The row openings of a list, one after the other.
pub open spec fn row_openings_bytes_of(rows: Seq<RowOpening>) -> Seq<u8>
    decreases rows.len(),
{
    if rows.len() == 0 {
        Seq::<u8>::empty()
    } else {
        row_openings_bytes_of(rows.drop_last()) + row_opening_bytes_of(rows.last())
    }
}

/// The row openings of a list behind their number.
pub open spec fn rows_bytes_of(rows: Seq<RowOpening>) -> Seq<u8> {
    spec_u64_to_le_bytes(rows.len() as u64) + row_openings_bytes_of(rows)
}

/// The FRI part of a proof on the wire: the layer roots and the remainder,
/// each behind its length, then the opened cosets behind their number.
pub open spec fn fri_bytes_of(fri: FriProof) -> Seq<u8> {
    prefixed_hashes_of(fri.layer_roots@) + prefixed_felts_of(fri.remainder@) + spec_u64_to_le_bytes(
        fri.openings@.len() as u64,
    ) + queries_cosets_bytes_of(fri.openings@)
}

/// The trace queries on the wire: the openings of the base, extension and
/// composition traces, then the grinding nonce.
pub open spec fn queries_bytes_of(queries: Queries, nonce: u64) -> Seq<u8> {
    rows_bytes_of(queries.base@) + rows_bytes_of(queries.extension@) + rows_bytes_of(
        queries.composition@,
    ) + spec_u64_to_le_bytes(nonce)
}

/// A proof on the wire: its head, its FRI part and its trace queries.
pub open spec fn proof_bytes_of(p: Proof) -> Seq<u8> {
    head_bytes_of(p) + fri_bytes_of(p.fri_proof) + queries_bytes_of(p.trace_queries, p.pow_nonce)
}

/// Encodes a list of hashes behind its length.
pub fn prefixed_hashes_to_bytes(hashes: &Vec<Vec<u8>>) -> (r: Vec<u8>)
    ensures
        r@ == prefixed_hashes_of(hashes@),
{
    let mut r: Vec<u8> = u64_to_le_bytes(hashes.len() as u64);
    let ghost head = r@;
    let mut i: usize = 0;
    while i < hashes.len()
        invariant
            i <= hashes@.len(),
            r@ == head + hashes_bytes_of(hashes@.take(i as int)),
        decreases hashes@.len() - i,
    {
        proof {
            assert(hashes@.take(i + 1).drop_last() == hashes@.take(i as int));
            assert(head + (hashes_bytes_of(hashes@.take(i as int)) + hashes@[i as int]@) =~= (head
                + hashes_bytes_of(hashes@.take(i as int))) + hashes@[i as int]@);
        }
        r = join_bytes(&r, &hashes[i]);
        i += 1;
    }
    proof {
        assert(hashes@.take(i as int) == hashes@);
    }
    r
}

/// Encodes one opening.
pub fn opening_to_bytes(opening: &Opening) -> (r: Vec<u8>)
    ensures
        r@ == opening_bytes_of(*opening),
{
    let position = u64_to_le_bytes(opening.position as u64);
    let value = u64_to_le_bytes(opening.value.to_canonical());
    let path = prefixed_hashes_to_bytes(&opening.path);
    join_bytes(&join_bytes(&position, &value), &path)
}

/// Encodes the openings of a list.
pub fn openings_to_bytes(openings: &Vec<Opening>) -> (r: Vec<u8>)
    ensures
        r@ == openings_bytes_of(openings@),
{
    let mut r: Vec<u8> = Vec::new();
    let mut i: usize = 0;
    while i < openings.len()
        invariant
            i <= openings@.len(),
            r@ == openings_bytes_of(openings@.take(i as int)),
        decreases openings@.len() - i,
    {
        proof {
            assert(openings@.take(i + 1).drop_last() == openings@.take(i as int));
        }
        let bytes = opening_to_bytes(&openings[i]);
        r = join_bytes(&r, &bytes);
        i += 1;
    }
    proof {
        assert(openings@.take(i as int) == openings@);
    }
    r
}

/// Encodes the opened cosets of a list.
pub fn cosets_to_bytes(cosets: &Vec<Vec<Opening>>) -> (r: Vec<u8>)
    ensures
        r@ == cosets_bytes_of(cosets@),
{
    let mut r: Vec<u8> = Vec::new();
    let mut i: usize = 0;
    while i < cosets.len()
        invariant
            i <= cosets@.len(),
            r@ == cosets_bytes_of(cosets@.take(i as int)),
        decreases cosets@.len() - i,
    {
        proof {
            assert(cosets@.take(i + 1).drop_last() == cosets@.take(i as int));
        }
        let len = u64_to_le_bytes(cosets[i].len() as u64);
        let body = openings_to_bytes(&cosets[i]);
        r = join_bytes(&join_bytes(&r, &len), &body);
        i += 1;
    }
    proof {
        assert(cosets@.take(i as int) == cosets@);
    }
    r
}

/// Encodes the opened cosets of every query.
pub fn queries_cosets_to_bytes(queries: &Vec<Vec<Vec<Opening>>>) -> (r: Vec<u8>)
    ensures
        r@ == queries_cosets_bytes_of(queries@),
{
    let mut r: Vec<u8> = Vec::new();
    let mut i: usize = 0;
    while i < queries.len()
        invariant
            i <= queries@.len(),
            r@ == queries_cosets_bytes_of(queries@.take(i as int)),
        decreases queries@.len() - i,
    {
        proof {
            assert(queries@.take(i + 1).drop_last() == queries@.take(i as int));
        }
        let len = u64_to_le_bytes(queries[i].len() as u64);
        let body = cosets_to_bytes(&queries[i]);
        r = join_bytes(&join_bytes(&r, &len), &body);
        i += 1;
    }
    proof {
        assert(queries@.take(i as int) == queries@);
    }
    r
}

/// Encodes one row opening.
pub fn row_opening_to_bytes(opening: &RowOpening) -> (r: Vec<u8>)
    ensures
        r@ == row_opening_bytes_of(*opening),
{
    let position = u64_to_le_bytes(opening.position as u64);
    let values = prefixed_felts_to_bytes(&opening.values);
    let path = prefixed_hashes_to_bytes(&opening.path);
    join_bytes(&join_bytes(&position, &values), &path)
}

/// Encodes the row openings of a list behind their number.
pub fn rows_to_bytes(rows: &Vec<RowOpening>) -> (r: Vec<u8>)
    ensures
        r@ == rows_bytes_of(rows@),
{
    let head = u64_to_le_bytes(rows.len() as u64);
    let mut body: Vec<u8> = Vec::new();
    let mut i: usize = 0;
    while i < rows.len()
        invariant
            i <= rows@.len(),
            body@ == row_openings_bytes_of(rows@.take(i as int)),
        decreases rows@.len() - i,
    {
        proof {
            assert(rows@.take(i + 1).drop_last() == rows@.take(i as int));
        }
        let bytes = row_opening_to_bytes(&rows[i]);
        body = join_bytes(&body, &bytes);
        i += 1;
    }
    proof {
        assert(rows@.take(i as int) == rows@);
    }
    join_bytes(&head, &body)
}

/// The messages that a proof carries, in the order in which the prover
/// absorbed them: the root of the base trace, that of the extension trace
/// where there is one, that of the composition trace, the openings of the
/// execution trace, those of the composition trace, the roots of the FRI
/// layers, the remainder, and the nonce.
pub open spec fn messages_of(p: Proof) -> Seq<Seq<u8>> {
    seq![p.base_trace_commitment@] + (match p.extension_trace_commitment {
        Some(root) => seq![root@],
        None => Seq::<Seq<u8>>::empty(),
    }) + seq![
        p.composition_trace_commitment@,
        felts_bytes_of(p.execution_trace_oods@) + felts_bytes_of(p.execution_trace_next_oods@),
        felts_bytes_of(p.composition_trace_oods@),
    ] + views(p.fri_proof.layer_roots@) + seq![
        felts_bytes_of(p.fri_proof.remainder@),
        spec_u64_to_le_bytes(p.pow_nonce),
    ]
}

/// Absorbing two runs of messages in turn is absorbing them all.
pub proof fn lemma_seed_of_concat(seed: Seq<u8>, first: Seq<Seq<u8>>, second: Seq<Seq<u8>>)
    ensures
        seed_of(seed, first + second) == seed_of(seed_of(seed, first), second),
    decreases second.len(),
{
    if second.len() == 0 {
        assert(first + second =~= first);
    } else {
        lemma_seed_of_concat(seed, first, second.drop_last());
        assert((first + second).drop_last() =~= first + second.drop_last());
        assert((first + second).last() == second.last());
    }
}

/// The seed after the FRI layers are committed is the seed after their
/// roots are absorbed in turn.
pub proof fn lemma_layers_seed(seed: Seq<u8>, layers: Seq<FriLayer>, roots: Seq<Vec<u8>>, i: nat)
    requires
        i <= layers.len(),
        roots.len() == layers.len(),
        forall|k: int| 0 <= k < layers.len() ==> (#[trigger] roots[k])@ == layers[k].root(),
    ensures
        seed_after(seed, layers, i) == seed_of(seed, views(roots).take(i as int)),
    decreases i,
{
    if i > 0 {
        lemma_layers_seed(seed, layers, roots, (i - 1) as nat);
        assert(views(roots).take(i as int).drop_last() =~= views(roots).take(i - 1));
        assert(views(roots).take(i as int).last() == roots[i - 1]@);
    } else {
        assert(views(roots).take(0) =~= Seq::<Seq<u8>>::empty());
    }
}

/// Transcript fidelity. A transcript that starts from `seed` and is moved on
/// as the prover moves it (one absorption for each root, two for the
/// out-of-domain openings, one for each FRI layer, for the remainder and for
/// the nonce) ends at the seed that the messages carried in the proof give
/// when they are absorbed in turn. A verifier who absorbs them from the
/// proof holds the same seed, and so draws the same challenges.
pub proof fn lemma_transcript_fidelity(
    p: Proof,
    seed: Seq<u8>,
    layers: Seq<FriLayer>,
    end: Seq<u8>,
)
    requires
        p.fri_proof.layer_roots@.len() == layers.len(),
        forall|k: int|
            0 <= k < layers.len() ==> (#[trigger] p.fri_proof.layer_roots@[k])@ == layers[k].root(),
        end == {
            let based = digest_of_pair(seed, p.base_trace_commitment@);
            let extended = match p.extension_trace_commitment {
                Some(root) => digest_of_pair(based, root@),
                None => based,
            };
            let composed = digest_of_pair(extended, p.composition_trace_commitment@);
            let opened = digest_of_pair(
                digest_of_pair(
                    composed,
                    felts_bytes_of(p.execution_trace_oods@) + felts_bytes_of(
                        p.execution_trace_next_oods@,
                    ),
                ),
                felts_bytes_of(p.composition_trace_oods@),
            );
            let folded = seed_after(opened, layers, layers.len());
            digest_of_pair(
                digest_of_pair(folded, felts_bytes_of(p.fri_proof.remainder@)),
                spec_u64_to_le_bytes(p.pow_nonce),
            )
        },
    ensures
        end == seed_of(seed, messages_of(p)),
{
    let m1 = seq![p.base_trace_commitment@];
    let m2 = match p.extension_trace_commitment {
        Some(root) => seq![root@],
        None => Seq::<Seq<u8>>::empty(),
    };
    let m3 = seq![
        p.composition_trace_commitment@,
        felts_bytes_of(p.execution_trace_oods@) + felts_bytes_of(p.execution_trace_next_oods@),
        felts_bytes_of(p.composition_trace_oods@),
    ];
    let m4 = views(p.fri_proof.layer_roots@);
    let m5 = seq![felts_bytes_of(p.fri_proof.remainder@), spec_u64_to_le_bytes(p.pow_nonce)];
    reveal_with_fuel(seed_of, 4);
    lemma_seed_of_concat(seed, m1 + m2 + m3 + m4, m5);
    lemma_seed_of_concat(seed, m1 + m2 + m3, m4);
    lemma_seed_of_concat(seed, m1 + m2, m3);
    lemma_seed_of_concat(seed, m1, m2);
    let s1 = seed_of(seed, m1);
    assert(m1.drop_last() =~= Seq::<Seq<u8>>::empty());
    assert(s1 == digest_of_pair(seed, p.base_trace_commitment@));
    let s2 = seed_of(s1, m2);
    if p.extension_trace_commitment is Some {
        assert(m2.drop_last() =~= Seq::<Seq<u8>>::empty());
    }
    let s3 = seed_of(s2, m3);
    assert(m3.drop_last() =~= seq![m3[0], m3[1]]);
    assert(m3.drop_last().drop_last() =~= seq![m3[0]]);
    assert(m3.drop_last().drop_last().drop_last() =~= Seq::<Seq<u8>>::empty());
    assert(s3 == digest_of_pair(digest_of_pair(digest_of_pair(s2, m3[0]), m3[1]), m3[2]));
    lemma_layers_seed(s3, layers, p.fri_proof.layer_roots@, layers.len());
    assert(m4.take(layers.len() as int) =~= m4);
    let s4 = seed_of(s3, m4);
    assert(m5.drop_last() =~= seq![m5[0]]);
    assert(m5.drop_last().drop_last() =~= Seq::<Seq<u8>>::empty());
    assert(seed_of(s4, m5) == digest_of_pair(digest_of_pair(s4, m5[0]), m5[1]));
}

/// Opens one row of a committed matrix.
pub fn open_row(columns: &Vec<Vec<Felt>>, tree: &MerkleTree, position: usize) -> (r: Result<
    RowOpening,
    ProvingError,
>)
    requires
        tree.wf(),
        forall|c: int|
            0 <= c < columns@.len() ==> (#[trigger] columns@[c])@.len() == tree.num_leaves(),
    ensures
        position < tree.num_leaves() ==> r is Ok && r->Ok_0.position == position
            && r->Ok_0.values@ == row_of(columns@, position as int) && views(r->Ok_0.path@)
            == path_of(tree.leaves(), tree.num_leaves() + position),
        position >= tree.num_leaves() ==> r == Err::<RowOpening, ProvingError>(ProvingError::Fail),
{
    let path: Vec<Vec<u8>> = match tree.open(position) {
        Ok(path) => path,
        Err(e) => {
            return Err(ProvingError::Fail);
        },
    };
    let mut values: Vec<Felt> = Vec::new();
    let mut c: usize = 0;
    while c < columns.len()
        invariant
            c <= columns@.len(),
            position < tree.num_leaves(),
            forall|k: int|
                0 <= k < columns@.len() ==> (#[trigger] columns@[k])@.len() == tree.num_leaves(),
            values@.len() == c,
            forall|k: int| 0 <= k < c ==> #[trigger] values@[k] == columns@[k]@[position as int],
        decreases columns@.len() - c,
    {
        values.push(columns[c][position]);
        c += 1;
    }
    proof {
        assert(values@ =~= row_of(columns@, position as int));
    }
    Ok(RowOpening { position, values, path })
}

/// The opening is that of row `position` of the matrix under the tree.
pub open spec fn opens_row(
    opening: RowOpening,
    columns: Seq<Vec<Felt>>,
    tree: MerkleTree,
    position: usize,
) -> bool {
    &&& opening.position == position
    &&& opening.values@ == row_of(columns, position as int)
    &&& views(opening.path@) == path_of(tree.leaves(), tree.num_leaves() + position)
}

/// Opens the rows of a committed matrix at the given positions, in order. A
/// position outside the matrix is refused.
pub fn open_rows(columns: &Vec<Vec<Felt>>, tree: &MerkleTree, positions: &Vec<usize>) -> (r: Result<
    Vec<RowOpening>,
    ProvingError,
>)
    requires
        tree.wf(),
        forall|c: int|
            0 <= c < columns@.len() ==> (#[trigger] columns@[c])@.len() == tree.num_leaves(),
    ensures
        (forall|j: int| 0 <= j < positions@.len() ==> #[trigger] positions@[j] < tree.num_leaves())
            ==> r is Ok && r->Ok_0@.len() == positions@.len() && forall|j: int|
            0 <= j < positions@.len() ==> opens_row(
                #[trigger] r->Ok_0@[j],
                columns@,
                *tree,
                positions@[j],
            ),
        !(forall|j: int| 0 <= j < positions@.len() ==> #[trigger] positions@[j] < tree.num_leaves())
            ==> r == Err::<Vec<RowOpening>, ProvingError>(ProvingError::Fail),
{
    let mut out: Vec<RowOpening> = Vec::new();
    let mut j: usize = 0;
    while j < positions.len()
        invariant
            j <= positions@.len(),
            tree.wf(),
            forall|c: int|
                0 <= c < columns@.len() ==> (#[trigger] columns@[c])@.len() == tree.num_leaves(),
            out@.len() == j,
            forall|k: int| 0 <= k < j ==> #[trigger] positions@[k] < tree.num_leaves(),
            forall|k: int|
                0 <= k < j ==> opens_row(#[trigger] out@[k], columns@, *tree, positions@[k]),
        decreases positions@.len() - j,
    {
        match open_row(columns, tree, positions[j]) {
            Ok(opening) => {
                out.push(opening);
            },
            Err(e) => {
                assert(!(positions@[j as int] < tree.num_leaves()));
                return Err(ProvingError::Fail);
            },
        }
        j += 1;
    }
    Ok(out)
}

/// The bytes of a row are the encoding of its cells.
pub proof fn lemma_row_bytes(columns: Seq<Vec<Felt>>, position: int)
    ensures
        felts_bytes_of(row_of(columns, position)) == row_bytes_of(columns, position),
    decreases columns.len(),
{
    if columns.len() > 0 {
        lemma_row_bytes(columns.drop_last(), position);
        assert(row_of(columns, position).drop_last() =~= row_of(columns.drop_last(), position));
        assert(row_of(columns, position).last() == columns.last()@[position]);
    } else {
        assert(row_of(columns, position) =~= Seq::<Felt>::empty());
    }
}

/// What a verifier reaches from an opened row: the digest of the encoded
/// values, climbed along the path from the leaf of the row.
pub open spec fn row_climb_of(num_rows: int, opening: RowOpening) -> Seq<u8> {
    climb(
        sha256_digest(felts_bytes_of(opening.values@)),
        num_rows + opening.position,
        views(opening.path@),
    )
}

/// An opened row verifies against the root of the tree it was opened from.
pub proof fn lemma_opened_row_verifies(
    opening: RowOpening,
    columns: Seq<Vec<Felt>>,
    tree: MerkleTree,
    position: usize,
)
    requires
        tree.wf(),
        tree.leaves() == row_leaves_of(columns, tree.num_leaves() as nat),
        position < tree.num_leaves(),
        opens_row(opening, columns, tree, position),
    ensures
        row_climb_of(tree.num_leaves(), opening) == root_of(tree.leaves()),
{
    lemma_row_bytes(columns, position as int);
    lemma_opened_leaf_verifies(tree.leaves(), position as int);
    assert(tree.leaves()[position as int] == sha256_digest(
        row_bytes_of(columns, position as int),
    ));
}

/// The verifier's check of an opened row against a root of a tree over
/// `num_rows` rows.
pub fn verify_row(root: &Vec<u8>, num_rows: usize, opening: &RowOpening) -> (r: bool)
    ensures
        r == (num_rows + opening.position <= usize::MAX && row_climb_of(num_rows as int, *opening)
            == root@),
{
    match num_rows.checked_add(opening.position) {
        Some(k) => {
            let bytes = felts_to_bytes(&opening.values);
            let leaf = sha256(bytes.as_slice());
            verify_path(root, k, &leaf, &opening.path)
        },
        None => false,
    }
}

/// Opens one value of a FRI layer.
pub fn open_value(layer: &FriLayer, position: usize) -> (r: Result<Opening, ProvingError>)
    requires
        layer.wf(),
    ensures
        position < layer.evaluations@.len() ==> r is Ok && r->Ok_0.position == position
            && r->Ok_0.value == layer.evaluations@[position as int] && views(r->Ok_0.path@)
            == path_of(layer.tree.leaves(), layer.evaluations@.len() + position),
        position >= layer.evaluations@.len() ==> r == Err::<Opening, ProvingError>(
            ProvingError::Fail,
        ),
{
    if position >= layer.evaluations.len() {
        return Err(ProvingError::Fail);
    }
    proof {
        assert(layer.tree.leaves().len() == layer.tree.num_leaves());
        assert(value_leaves_of(values_of(layer.evaluations@)).len() == layer.evaluations@.len());
    }
    match layer.tree.open(position) {
        Ok(path) => Ok(Opening { position, value: layer.evaluations[position], path }),
        Err(e) => Err(ProvingError::Fail),
    }
}

/// Opens, in one FRI layer, the coset of `factor` values that fold into the
/// value at `position` of the next layer: the positions that agree with
/// `position` modulo the size of the next layer.
pub fn open_coset(layer: &FriLayer, position: usize, factor: usize) -> (r: Result<
    Vec<Opening>,
    ProvingError,
>)
    requires
        layer.wf(),
    ensures
        layer_splits(*layer, factor) ==> r is Ok && coset_opened(
            r->Ok_0@,
            *layer,
            position,
            factor,
        ),
        !layer_splits(*layer, factor) ==> r == Err::<Vec<Opening>, ProvingError>(
            ProvingError::Fail,
        ),
{
    let size: usize = layer.evaluations.len();
    if factor == 0 || size < factor || size % factor != 0 {
        return Err(ProvingError::Fail);
    }
    let stride: usize = size / factor;
    proof {
        vstd::arithmetic::div_mod::lemma_fundamental_div_mod(size as int, factor as int);
        assert(stride > 0) by (nonlinear_arith)
            requires
                factor * stride == size,
                size >= factor,
                factor > 0,
        ;
    }
    let start: usize = position % stride;
    let mut out: Vec<Opening> = Vec::new();
    let mut k: usize = 0;
    while k < factor
        invariant
            k <= factor,
            layer.wf(),
            size == layer.evaluations@.len(),
            stride == size / factor,
            factor * stride == size,
            stride > 0,
            start == position % stride,
            out@.len() == k,
            forall|m: int|
                0 <= m < k ==> {
                    &&& (#[trigger] out@[m]).position == start + m * stride
                    &&& out@[m].position < size
                    &&& out@[m].value == layer.evaluations@[out@[m].position as int]
                    &&& views(out@[m].path@) == path_of(
                        layer.tree.leaves(),
                        size + out@[m].position,
                    )
                },
        decreases factor - k,
    {
        assert(0 <= k * stride && start + k * stride < size) by (nonlinear_arith)
            requires
                0 <= k < factor,
                0 <= start < stride,
                factor * stride == size,
        ;
        match open_value(layer, start + k * stride) {
            Ok(opening) => {
                out.push(opening);
            },
            Err(e) => {
                return Err(ProvingError::Fail);
            },
        }
        k += 1;
    }
    Ok(out)
}

/// The layer can be opened in cosets of `factor` values.
pub open spec fn layer_splits(layer: FriLayer, factor: usize) -> bool {
    factor > 0 && layer.evaluations@.len() >= factor && layer.evaluations@.len() % (factor as nat)
        == 0
}

/// The openings are those of the coset of `position` in the layer: the `k`-th
/// is the value at the `k`-th position of the coset, with its path.
pub open spec fn coset_opened(
    openings: Seq<Opening>,
    layer: FriLayer,
    position: usize,
    factor: usize,
) -> bool {
    &&& openings.len() == factor
    &&& forall|k: int|
        0 <= k < factor ==> {
            &&& (#[trigger] openings[k]).position == coset_positions_of(
                position as int,
                layer.evaluations@.len() as int,
                factor as int,
            )[k]
            &&& openings[k].position < layer.evaluations@.len()
            &&& openings[k].value == layer.evaluations@[openings[k].position as int]
            &&& views(openings[k].path@) == path_of(
                layer.tree.leaves(),
                layer.evaluations@.len() + openings[k].position,
            )
        }
}

/// The integers of the opened values.
pub open spec fn opened_values_of(openings: Seq<Opening>) -> Seq<int> {
    Seq::new(openings.len(), |k: int| openings[k].value.value())
}

/// The FRI round trip on an opened coset. The values opened in a layer on
/// the coset of a query position, folded with the randomness of the layer,
/// give the value of the next layer at the position modulo its size.
pub proof fn lemma_opened_coset_folds(
    layer: FriLayer,
    next: Seq<Felt>,
    openings: Seq<Opening>,
    position: usize,
    factor: usize,
    rounds: nat,
)
    requires
        factor == factor_of(rounds),
        layer_splits(layer, factor),
        coset_opened(openings, layer, position, factor),
        values_of(next) == layer.folded(rounds),
    ensures
        next.len() == layer.evaluations@.len() / (factor as nat),
        next[position as int % (layer.evaluations@.len() as int / factor as int)].value()
            == fold_by_of(
            opened_values_of(openings),
            domain_point(
                layer.offset.value(),
                layer.generator.value(),
                (position as int % (layer.evaluations@.len() as int / factor as int)) as nat,
            ),
            fpow(layer.generator.value(), layer.evaluations@.len() / (factor as nat)),
            layer.alpha.value(),
            rounds,
        )[0],
{
    let vals = values_of(layer.evaluations@);
    let size = layer.evaluations@.len() as int;
    let stride = size / factor as int;
    vstd::arithmetic::div_mod::lemma_fundamental_div_mod(size, factor as int);
    assert(stride >= 1) by (nonlinear_arith)
        requires
            factor * stride == size,
            size >= factor,
            factor > 0,
    ;
    let q = position as int % stride;
    assert(factor_of(rounds) * (stride as nat) == vals.len()) by (nonlinear_arith)
        requires
            factor * stride == size,
            factor == factor_of(rounds),
            vals.len() == size,
            stride >= 0,
    ;
    lemma_fold_by_coset(
        vals,
        layer.offset.value(),
        layer.generator.value(),
        layer.alpha.value(),
        rounds,
        stride as nat,
        q as nat,
    );
    let coset = coset_values_of(vals, q, stride, factor_of(rounds));
    assert forall|k: int| 0 <= k < factor implies opened_values_of(openings)[k] == coset[k] by {
        assert(openings[k].position == q + k * stride);
    }
    assert(opened_values_of(openings) =~= coset);
    assert(values_of(next).len() == next.len());
    assert(values_of(next)[q] == next[q].value());
}

/// Every layer commits to its evaluations.
pub open spec fn layers_wf(layers: Seq<FriLayer>) -> bool {
    forall|i: int| 0 <= i < layers.len() ==> (#[trigger] layers[i]).wf()
}

/// Every layer can be opened in cosets of `factor` values.
pub open spec fn layers_split(layers: Seq<FriLayer>, factor: usize) -> bool {
    forall|i: int| 0 <= i < layers.len() ==> layer_splits(#[trigger] layers[i], factor)
}

/// For one query, the opened coset of every layer.
pub open spec fn position_opened(
    cosets: Seq<Vec<Opening>>,
    layers: Seq<FriLayer>,
    position: usize,
    factor: usize,
) -> bool {
    &&& cosets.len() == layers.len()
    &&& forall|i: int|
        0 <= i < layers.len() ==> coset_opened((#[trigger] cosets[i])@, layers[i], position, factor)
}

/// Opens the coset of one query position in every layer.
pub fn open_position(layers: &Vec<FriLayer>, position: usize, factor: usize) -> (r: Result<
    Vec<Vec<Opening>>,
    ProvingError,
>)
    requires
        layers_wf(layers@),
    ensures
        layers_split(layers@, factor) ==> r is Ok && position_opened(
            r->Ok_0@,
            layers@,
            position,
            factor,
        ),
        !layers_split(layers@, factor) ==> r == Err::<Vec<Vec<Opening>>, ProvingError>(
            ProvingError::Fail,
        ),
{
    let mut out: Vec<Vec<Opening>> = Vec::new();
    let mut i: usize = 0;
    while i < layers.len()
        invariant
            i <= layers@.len(),
            layers_wf(layers@),
            out@.len() == i,
            forall|k: int| 0 <= k < i ==> layer_splits(#[trigger] layers@[k], factor),
            forall|k: int|
                0 <= k < i ==> coset_opened((#[trigger] out@[k])@, layers@[k], position, factor),
        decreases layers@.len() - i,
    {
        assert(layers@[i as int].wf());
        match open_coset(&layers[i], position, factor) {
            Ok(coset) => {
                out.push(coset);
            },
            Err(e) => {
                assert(!layer_splits(layers@[i as int], factor));
                return Err(ProvingError::Fail);
            },
        }
        i += 1;
    }
    Ok(out)
}

/// Opens the cosets of every query position in every layer.
pub fn open_queries(layers: &Vec<FriLayer>, positions: &Vec<usize>, factor: usize) -> (r: Result<
    Vec<Vec<Vec<Opening>>>,
    ProvingError,
>)
    requires
        layers_wf(layers@),
    ensures
        layers_split(layers@, factor) || positions@.len() == 0 ==> r is Ok && r->Ok_0@.len()
            == positions@.len() && forall|j: int|
            0 <= j < positions@.len() ==> position_opened(
                (#[trigger] r->Ok_0@[j])@,
                layers@,
                positions@[j],
                factor,
            ),
        !(layers_split(layers@, factor) || positions@.len() == 0) ==> r == Err::<
            Vec<Vec<Vec<Opening>>>,
            ProvingError,
        >(ProvingError::Fail),
{
    let mut out: Vec<Vec<Vec<Opening>>> = Vec::new();
    let mut j: usize = 0;
    while j < positions.len()
        invariant
            j <= positions@.len(),
            layers_wf(layers@),
            out@.len() == j,
            j > 0 ==> layers_split(layers@, factor),
            forall|k: int|
                0 <= k < j ==> position_opened(
                    (#[trigger] out@[k])@,
                    layers@,
                    positions@[k],
                    factor,
                ),
        decreases positions@.len() - j,
    {
        match open_position(layers, positions[j], factor) {
            Ok(cosets) => {
                out.push(cosets);
            },
            Err(e) => {
                return Err(ProvingError::Fail);
            },
        }
        j += 1;
    }
    Ok(out)
}

impl ProverChannel {
    /// Assembles the proof from what the transcript has kept and from the
    /// openings at the query positions.
    pub fn build_proof(
        self,
        options: ProofOptions,
        trace_info: TraceInfo,
        trace_queries: Queries,
        fri_openings: Vec<Vec<Vec<Opening>>>,
    ) -> (r: (Proof, Stage))
        requires
            self.stage == Stage::QueriesDrawn,
        ensures
            r.1 == Stage::ProofBuilt,
            r.0.options == options,
            r.0.trace_info == trace_info,
            r.0.base_trace_commitment@ == self.base_trace_root@,
            r.0.extension_trace_commitment == self.extension_trace_root,
            r.0.composition_trace_commitment@ == self.composition_trace_root@,
            r.0.execution_trace_oods@ == self.execution_trace_oods@,
            r.0.execution_trace_next_oods@ == self.execution_trace_next_oods@,
            r.0.composition_trace_oods@ == self.composition_trace_oods@,
            r.0.fri_proof.layer_roots@ == self.fri_layer_roots@,
            r.0.fri_proof.remainder@ == self.fri_remainder@,
            r.0.fri_proof.openings@ == fri_openings@,
            r.0.trace_queries == trace_queries,
            r.0.pow_nonce == self.nonce,
    {
        let built = Proof {
            options,
            trace_info,
            base_trace_commitment: self.base_trace_root,
            extension_trace_commitment: self.extension_trace_root,
            composition_trace_commitment: self.composition_trace_root,
            execution_trace_oods: self.execution_trace_oods,
            execution_trace_next_oods: self.execution_trace_next_oods,
            composition_trace_oods: self.composition_trace_oods,
            fri_proof: FriProof {
                layer_roots: self.fri_layer_roots,
                remainder: self.fri_remainder,
                openings: fri_openings,
            },
            trace_queries,
            pow_nonce: self.nonce,
        };
        (built, Stage::ProofBuilt)
    }
}

impl Proof {
    /// Encodes the whole proof: the head, then the FRI part, then the trace
    /// queries with the grinding nonce.
    pub fn to_bytes(&self) -> (r: Vec<u8>)
        ensures
            r@ == proof_bytes_of(*self),
    {
        let head = self.head_to_bytes();
        let roots = prefixed_hashes_to_bytes(&self.fri_proof.layer_roots);
        let remainder = prefixed_felts_to_bytes(&self.fri_proof.remainder);
        let count = u64_to_le_bytes(self.fri_proof.openings.len() as u64);
        let cosets = queries_cosets_to_bytes(&self.fri_proof.openings);
        let fri = join_bytes(&join_bytes(&join_bytes(&roots, &remainder), &count), &cosets);
        let base = rows_to_bytes(&self.trace_queries.base);
        let extension = rows_to_bytes(&self.trace_queries.extension);
        let composition = rows_to_bytes(&self.trace_queries.composition);
        let nonce = u64_to_le_bytes(self.pow_nonce);
        let queries = join_bytes(&join_bytes(&join_bytes(&base, &extension), &composition), &nonce);
        join_bytes(&join_bytes(&head, &fri), &queries)
    }

    /// Encodes the head of the proof: options, trace dimensions, the three
    /// roots and the out-of-domain openings. Without an extension trace, the
    /// place of its root holds the flag byte 0 alone.
    pub fn head_to_bytes(&self) -> (r: Vec<u8>)
        ensures
            r@ == head_bytes_of(*self),
    {
        let mut r: Vec<u8> = Vec::new();
        r.push(self.options.num_queries);
        r.push(self.options.blowup_factor);
        r.push(self.options.grinding_factor);
        assert(r@ =~= options_bytes_of(self.options));
        let len = u64_to_le_bytes(self.trace_info.trace_len as u64);
        let base = u64_to_le_bytes(self.trace_info.num_base_columns as u64);
        let extension = u64_to_le_bytes(self.trace_info.num_extension_columns as u64);
        let info = join_bytes(&join_bytes(&len, &base), &extension);
        r = join_bytes(&r, &info);
        r = join_bytes(&r, &self.base_trace_commitment);
        let flagged = optional_root_to_bytes(&self.extension_trace_commitment);
        r = join_bytes(&r, &flagged);
        r = join_bytes(&r, &self.composition_trace_commitment);
        let here = prefixed_felts_to_bytes(&self.execution_trace_oods);
        r = join_bytes(&r, &here);
        let next = prefixed_felts_to_bytes(&self.execution_trace_next_oods);
        r = join_bytes(&r, &next);
        let composition = prefixed_felts_to_bytes(&self.composition_trace_oods);
        r = join_bytes(&r, &composition);
        r
    }
}

} // verus!
