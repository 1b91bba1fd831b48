use vstd::prelude::*;
use vstd::bytes::{spec_u64_to_le_bytes, u64_to_le_bytes};
use crate::error::ProvingError;
use crate::field::Felt;
use crate::hash::{join_bytes, digest_of_pair, hash_pair, sha256, sha256_digest};

verus! {

/// The byte strings that a vector of byte vectors holds.
pub open spec fn views(v: Seq<Vec<u8>>) -> Seq<Seq<u8>> {
    Seq::new(v.len(), |i: int| v[i]@)
}

/// The node at heap position `k` of the tree over `leaves`: the leaves stand
/// at the positions `n..2n`, and every node before them is the digest of its
/// two children, `2k` and `2k + 1`. The root is node 1.
pub open spec fn node_of(leaves: Seq<Seq<u8>>, k: int) -> Seq<u8>
    decreases 2 * leaves.len() - k,
{
    if 1 <= k < leaves.len() {
        digest_of_pair(node_of(leaves, 2 * k), node_of(leaves, 2 * k + 1))
    } else if leaves.len() <= k < 2 * leaves.len() {
        leaves[k - leaves.len()]
    } else {
        Seq::<u8>::empty()
    }
}

/// The root of the tree over `leaves`.
pub open spec fn root_of(leaves: Seq<Seq<u8>>) -> Seq<u8> {
    node_of(leaves, 1)
}

/// The other child of the parent of node `k`.
pub open spec fn sibling_of(k: int) -> int {
    if k % 2 == 0 {
        k + 1
    } else {
        k - 1
    }
}

/// The siblings met on the way from node `k` up to the root, lowest first.
pub open spec fn path_of(leaves: Seq<Seq<u8>>, k: int) -> Seq<Seq<u8>>
    decreases k,
{
    if k <= 1 {
        Seq::<Seq<u8>>::empty()
    } else {
        seq![node_of(leaves, sibling_of(k))] + path_of(leaves, k / 2)
    }
}

/// The digest reached from `acc` at node `k` by hashing it with the siblings
/// of `path` in turn, each on the side its position tells.
pub open spec fn climb(acc: Seq<u8>, k: int, path: Seq<Seq<u8>>) -> Seq<u8>
    decreases path.len(),
{
    if path.len() == 0 {
        acc
    } else if k % 2 == 0 {
        climb(digest_of_pair(acc, path[0]), k / 2, path.drop_first())
    } else {
        climb(digest_of_pair(path[0], acc), k / 2, path.drop_first())
    }
}

/// The bytes of row `row`: one field element per column, each as the eight
/// little-endian bytes of its canonical integer.
pub open spec fn row_bytes_of(columns: Seq<Vec<Felt>>, row: int) -> Seq<u8>
    decreases columns.len(),
{
    if columns.len() == 0 {
        Seq::<u8>::empty()
    } else {
        row_bytes_of(columns.drop_last(), row) + spec_u64_to_le_bytes(
            columns.last()@[row].value() as u64,
        )
    }
}

/// The leaves of the tree over a matrix: the digests of its rows.
pub open spec fn row_leaves_of(columns: Seq<Vec<Felt>>, num_rows: nat) -> Seq<Seq<u8>> {
    Seq::new(num_rows, |row: int| sha256_digest(row_bytes_of(columns, row)))
}

/// An authentication path opens the leaf it was made for: climbing from any
/// node along its own path ends at the root.
pub proof fn lemma_path_reaches_root(leaves: Seq<Seq<u8>>, k: int)
    requires
        1 <= k < 2 * leaves.len(),
    ensures
        climb(node_of(leaves, k), k, path_of(leaves, k)) == root_of(leaves),
    decreases k,
{
    if k > 1 {
        let path = path_of(leaves, k);
        assert(path[0] == node_of(leaves, sibling_of(k)));
        assert(path.drop_first() == path_of(leaves, k / 2));
        lemma_path_reaches_root(leaves, k / 2);
    }
}

/// The path of a leaf, climbed from that leaf, ends at the root of the tree.
pub proof fn lemma_opened_leaf_verifies(leaves: Seq<Seq<u8>>, index: int)
    requires
        0 <= index < leaves.len(),
    ensures
        climb(leaves[index], leaves.len() + index, path_of(leaves, leaves.len() + index))
            == root_of(leaves),
{
    lemma_path_reaches_root(leaves, leaves.len() + index);
}

/// A binary hash tree in heap layout: `nodes[1]` is the root, the children
/// of `nodes[k]` are `nodes[2k]` and `nodes[2k + 1]`, and the leaves fill the
/// second half. `nodes[0]` is not used.
pub struct MerkleTree {
    pub nodes: Vec<Vec<u8>>,
}

/// Whether two byte strings are equal.
pub fn same_bytes(a: &Vec<u8>, b: &Vec<u8>) -> (r: bool)
    ensures
        r == (a@ == b@),
{
    if a.len() != b.len() {
        return false;
    }
    let mut i: usize = 0;
    while i < a.len()
        invariant
            i <= a@.len(),
            a@.len() == b@.len(),
            forall|k: int| 0 <= k < i ==> a@[k] == b@[k],
        decreases a@.len() - i,
    {
        if a[i] != b[i] {
            return false;
        }
        i += 1;
    }
    assert(a@ =~= b@);
    true
}

/// A copy of a byte string.
pub fn copy_bytes(a: &Vec<u8>) -> (r: Vec<u8>)
    ensures
        r@ == a@,
{
    let empty: Vec<u8> = Vec::new();
    let r = join_bytes(a, &empty);
    assert(a@ + empty@ =~= a@);
    r
}

/// The bytes of one row of a column-major matrix.
pub fn row_bytes(columns: &Vec<Vec<Felt>>, row: usize) -> (r: Vec<u8>)
    requires
        forall|c: int| 0 <= c < columns@.len() ==> row < (#[trigger] columns@[c])@.len(),
    ensures
        r@ == row_bytes_of(columns@, row as int),
{
    let mut r: Vec<u8> = Vec::new();
    let mut c: usize = 0;
    while c < columns.len()
        invariant
            c <= columns@.len(),
            forall|k: int| 0 <= k < columns@.len() ==> row < (#[trigger] columns@[k])@.len(),
            r@ == row_bytes_of(columns@.take(c as int), row as int),
        decreases columns@.len() - c,
    {
        let word: u64 = columns[c][row].to_canonical();
        let bytes = u64_to_le_bytes(word);
        proof {
            assert(columns@.take(c + 1).drop_last() == columns@.take(c as int));
        }
        r = join_bytes(&r, &bytes);
        c += 1;
    }
    proof {
        assert(columns@.take(c as int) == columns@);
    }
    r
}

impl MerkleTree {
    /// Number of leaves.
    pub open spec fn num_leaves(&self) -> int {
        (self.nodes@.len() / 2) as int
    }

    /// The leaves, as byte strings.
    pub open spec fn leaves(&self) -> Seq<Seq<u8>> {
        Seq::new(self.num_leaves() as nat, |i: int| self.nodes@[self.num_leaves() + i]@)
    }

    /// There is at least one leaf, and every node is what the leaves make it.
    pub open spec fn wf(&self) -> bool {
        &&& self.nodes@.len() >= 2
        &&& self.nodes@.len() % 2 == 0
        &&& forall|k: int|
            1 <= k < self.nodes@.len() ==> (#[trigger] self.nodes@[k])@ == node_of(self.leaves(), k)
    }

    /// Builds the tree over the given leaves. No tree stands over no leaf.
    pub fn new(leaves: Vec<Vec<u8>>) -> (r: Result<MerkleTree, ProvingError>)
        ensures
            match r {
                Ok(tree) => tree.wf() && tree.leaves() == views(leaves@),
                Err(e) => e == ProvingError::ConfigError && (leaves@.len() == 0 || 2
                    * leaves@.len() > usize::MAX),
            },
    {
        let n: usize = leaves.len();
        if n == 0 || n > usize::MAX / 2 {
            return Err(ProvingError::ConfigError);
        }
        let ghost shown = views(leaves@);
        let mut nodes: Vec<Vec<u8>> = Vec::new();
        let mut i: usize = 0;
        while i < n
            invariant
                i <= n,
                nodes@.len() == i,
            decreases n - i,
        {
            nodes.push(Vec::new());
            i += 1;
        }
        let mut j: usize = 0;
        while j < n
            invariant
                j <= n,
                n == leaves@.len(),
                nodes@.len() == n + j,
                forall|k: int| n <= k < n + j ==> (#[trigger] nodes@[k])@ == leaves@[k - n]@,
            decreases n - j,
        {
            let leaf = copy_bytes(&leaves[j]);
            nodes.push(leaf);
            j += 1;
        }
        let mut k: usize = n - 1;
        while k >= 1
            invariant
                k < n,
                n == leaves@.len(),
                n == shown.len(),
                shown == views(leaves@),
                2 * n <= usize::MAX,
                nodes@.len() == 2 * n,
                forall|m: int| n <= m < 2 * n ==> (#[trigger] nodes@[m])@ == shown[m - n],
                forall|m: int| k < m < 2 * n ==> (#[trigger] nodes@[m])@ == node_of(shown, m),
            decreases k,
        {
            let digest = hash_pair(&nodes[2 * k], &nodes[2 * k + 1]);
            nodes.set(k, digest);
            k -= 1;
        }
        let tree = MerkleTree { nodes };
        proof {
            assert(tree.num_leaves() == n);
            assert(tree.leaves() =~= shown);
        }
        Ok(tree)
    }

    /// The root of the tree.
    pub fn root(&self) -> (r: Vec<u8>)
        requires
            self.wf(),
        ensures
            r@ == root_of(self.leaves()),
    {
        copy_bytes(&self.nodes[1])
    }

    /// The authentication path of leaf `index`: the siblings on the way up to
    /// the root, lowest first.
    pub fn open(&self, index: usize) -> (r: Result<Vec<Vec<u8>>, ProvingError>)
        requires
            self.wf(),
        ensures
            index < self.num_leaves() ==> r is Ok && views(r->Ok_0@) == path_of(
                self.leaves(),
                self.num_leaves() + index,
            ),
            index >= self.num_leaves() ==> r == Err::<Vec<Vec<u8>>, ProvingError>(
                ProvingError::Fail,
            ),
    {
        let n: usize = self.nodes.len() / 2;
        if index >= n {
            return Err(ProvingError::Fail);
        }
        let mut path: Vec<Vec<u8>> = Vec::new();
        let mut k: usize = n + index;
        while k > 1
            invariant
                self.wf(),
                n == self.num_leaves(),
                k < 2 * n,
                k >= 1,
                views(path@) + path_of(self.leaves(), k as int) == path_of(
                    self.leaves(),
                    n + index,
                ),
            decreases k,
        {
            let sibling: usize = if k % 2 == 0 {
                k + 1
            } else {
                k - 1
            };
            let ghost before = views(path@);
            let node = copy_bytes(&self.nodes[sibling]);
            path.push(node);
            proof {
                assert(views(path@) =~= before.push(node_of(self.leaves(), sibling as int)));
                assert(before.push(node_of(self.leaves(), sibling as int)) + path_of(
                    self.leaves(),
                    k as int / 2,
                ) =~= before + path_of(self.leaves(), k as int));
            }
            k = k / 2;
        }
        proof {
            assert(views(path@) + path_of(self.leaves(), k as int) =~= views(path@));
        }
        Ok(path)
    }
}

/// Climbs from a leaf at heap position `position` along `path` and compares
/// what is reached with `root`.
pub fn verify_path(root: &Vec<u8>, position: usize, leaf: &Vec<u8>, path: &Vec<Vec<u8>>) -> (r:
    bool)
    ensures
        r == (climb(leaf@, position as int, views(path@)) == root@),
{
    let mut acc: Vec<u8> = copy_bytes(leaf);
    let mut k: usize = position;
    let mut i: usize = 0;
    proof {
        assert(views(path@).skip(0) == views(path@));
    }
    while i < path.len()
        invariant
            i <= path@.len(),
            climb(acc@, k as int, views(path@).skip(i as int)) == climb(
                leaf@,
                position as int,
                views(path@),
            ),
        decreases path@.len() - i,
    {
        proof {
            assert(views(path@).skip(i as int)[0] == path@[i as int]@);
            assert(views(path@).skip(i as int).drop_first() == views(path@).skip(i + 1));
        }
        if k % 2 == 0 {
            acc = hash_pair(&acc, &path[i]);
        } else {
            acc = hash_pair(&path[i], &acc);
        }
        k = k / 2;
        i += 1;
    }
    same_bytes(&acc, root)
}

/// Commits to the rows of a column-major matrix: the leaves of the tree are
/// the digests of the rows.
pub fn commit_to_rows(columns: &Vec<Vec<Felt>>, num_rows: usize) -> (r: Result<
    MerkleTree,
    ProvingError,
>)
    requires
        forall|c: int| 0 <= c < columns@.len() ==> (#[trigger] columns@[c])@.len() == num_rows,
    ensures
        match r {
            Ok(tree) => tree.wf() && tree.leaves() == row_leaves_of(columns@, num_rows as nat),
            Err(e) => e == ProvingError::ConfigError && (num_rows == 0 || 2 * num_rows
                > usize::MAX),
        },
{
    let mut leaves: Vec<Vec<u8>> = Vec::new();
    let mut row: usize = 0;
    while row < num_rows
        invariant
            row <= num_rows,
            forall|c: int| 0 <= c < columns@.len() ==> (#[trigger] columns@[c])@.len() == num_rows,
            views(leaves@) == row_leaves_of(columns@, row as nat),
        decreases num_rows - row,
    {
        let bytes = row_bytes(columns, row);
        let ghost before = views(leaves@);
        let leaf = sha256(bytes.as_slice());
        leaves.push(leaf);
        proof {
            assert(views(leaves@) =~= before.push(sha256_digest(row_bytes_of(columns@, row as int))));
            assert(views(leaves@) =~= row_leaves_of(columns@, (row + 1) as nat));
        }
        row += 1;
    }
    proof {
        assert(views(leaves@).len() == leaves@.len());
    }
    MerkleTree::new(leaves)
}

} // verus!
