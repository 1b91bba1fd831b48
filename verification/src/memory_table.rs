use vstd::prelude::*;
use crate::field::{fadd, Felt};

verus! {

/// Number of base columns of the processor table.
pub const PROCESSOR_BASE_WIDTH: usize = 7;
/// Processor column that holds the cycle count.
pub const PROCESSOR_CYCLE: usize = 0;
/// Processor column that holds the current instruction; zero on padding rows.
pub const PROCESSOR_CURR_INSTR: usize = 2;
/// Processor column that holds the memory pointer.
pub const PROCESSOR_MP: usize = 4;
/// Processor column that holds the value under the memory pointer.
pub const PROCESSOR_MEM_VAL: usize = 5;

/// Number of base columns of the memory table.
pub const BASE_WIDTH: usize = 4;
/// Number of columns of the memory table once the permutation column is added.
pub const EXTENSION_WIDTH: usize = 5;
pub const CYCLE: usize = 0;
pub const MP: usize = 1;
pub const MEM_VAL: usize = 2;
pub const DUMMY: usize = 3;
pub const PERMUTATION: usize = 4;

/// The processor row belongs to an executed instruction, not to padding.
pub open spec fn is_executed(row: [Felt; 7]) -> bool {
    row[2].value() != 0
}

/// The memory row that an executed processor row gives: cycle, memory
/// pointer, memory value, and a cleared dummy flag.
pub open spec fn memory_row(row: [Felt; 7]) -> [Felt; 4] {
    [row[0], row[4], row[5], Felt { raw: 0 }]
}

/// The memory rows of the executed processor rows, in processor order.
pub open spec fn executed_rows(processor: Seq<[Felt; 7]>) -> Seq<[Felt; 4]>
    decreases processor.len(),
{
    if processor.len() == 0 {
        Seq::empty()
    } else {
        let rest = executed_rows(processor.drop_last());
        if is_executed(processor.last()) {
            rest.push(memory_row(processor.last()))
        } else {
            rest
        }
    }
}

/// The integer by which memory rows are ordered: the memory pointer.
pub open spec fn pointer_of(row: [Felt; 4]) -> int {
    row[1].value()
}

/// Memory pointers never decrease from one row to the next.
pub open spec fn sorted_by_pointer(rows: Seq<[Felt; 4]>) -> bool {
    forall|i: int, j: int| 0 <= i <= j < rows.len() ==> pointer_of(#[trigger] rows[i]) <= pointer_of(#[trigger] rows[j])
}

/// The rows with memory pointer `pointer`, in the order in which they stand.
pub open spec fn rows_at_pointer(rows: Seq<[Felt; 4]>, pointer: int) -> Seq<[Felt; 4]> {
    rows.filter(|row: [Felt; 4]| pointer_of(row) == pointer)
}

/// `after` holds the rows of `before`, ordered by memory pointer, and rows
/// with the same pointer stand in the order they had in `before`.
pub open spec fn is_stable_sort(before: Seq<[Felt; 4]>, after: Seq<[Felt; 4]>) -> bool {
    &&& after.len() == before.len()
    &&& after.to_multiset() == before.to_multiset()
    &&& sorted_by_pointer(after)
    &&& forall|pointer: int| #[trigger] rows_at_pointer(after, pointer) == rows_at_pointer(before, pointer)
}

/// The row that fills a gap after `row`: the next cycle, the same pointer and
/// value, and the dummy flag set.
pub open spec fn dummy_after(row: [Felt; 4]) -> [Felt; 4] {
    [Felt { raw: fadd(row[0].value(), 1) as u64 }, row[1], row[2], Felt { raw: 1 }]
}

/// Two neighbours on the same memory cell whose cycles do not follow each
/// other.
pub open spec fn needs_dummy(row: [Felt; 4], next: [Felt; 4]) -> bool {
    row[1].value() == next[1].value() && fadd(row[0].value(), 1) != next[0].value()
}

/// One pass over `steps` neighbouring pairs, starting at row `i`: wherever a
/// pair needs it, a dummy row goes between the two, and the pass moves on to
/// the row that now follows.
pub open spec fn interweave(rows: Seq<[Felt; 4]>, i: int, steps: nat) -> Seq<[Felt; 4]>
    decreases steps,
{
    if steps == 0 || i < 0 || i + 1 >= rows.len() {
        rows
    } else if needs_dummy(rows[i], rows[i + 1]) {
        interweave(rows.insert(i + 1, dummy_after(rows[i])), i + 1, (steps - 1) as nat)
    } else {
        interweave(rows, i + 1, (steps - 1) as nat)
    }
}

/// The pass over a sorted matrix: as many steps as it has neighbouring pairs
/// to begin with.
pub open spec fn with_dummy_rows(sorted: Seq<[Felt; 4]>) -> Seq<[Felt; 4]> {
    if sorted.len() == 0 {
        sorted
    } else {
        interweave(sorted, 0, (sorted.len() - 1) as nat)
    }
}

/// The memory pointer of a row as a canonical integer.
pub fn pointer_key(row: &[Felt; 4]) -> (key: u64)
    ensures
        key as int == pointer_of(*row),
{
    row[1].to_canonical()
}

/// Sorts the rows by memory pointer with `sort_by_key` of the standard
/// library's slices. The contract is what its documentation promises: the
/// same rows come back ordered by key, and the sort is stable.
#[verifier::external_body]
fn sort_by_pointer(rows: &mut Vec<[Felt; 4]>)
    ensures
        is_stable_sort(old(rows)@, final(rows)@),
{
    rows.sort_by_key(|row| pointer_key(row));
}

/// The row that follows `row` as a dummy.
pub fn make_dummy_after(row: &[Felt; 4]) -> (r: [Felt; 4])
    ensures
        r == dummy_after(*row),
{
    let cycle: Felt = row[0].add(&Felt::one());
    [cycle, row[1], row[2], Felt::one()]
}

/// The rows of a memory table: base columns only, with the count of rows
/// that padding has added at the end.
pub struct MemoryTable {
    pub num_padded_rows: usize,
    pub num_randomizers: usize,
    pub matrix: Vec<[Felt; 4]>,
}

impl MemoryTable {
    /// No more rows are counted as padding than the matrix holds.
    pub open spec fn wf(&self) -> bool {
        self.num_padded_rows <= self.matrix@.len()
    }

    /// Number of rows that are not padding.
    pub open spec fn spec_len(&self) -> int {
        self.matrix@.len() - self.num_padded_rows
    }

    pub fn new(num_randomizers: usize) -> (table: Self)
        ensures
            table.wf(),
            table.num_padded_rows == 0,
            table.num_randomizers == num_randomizers,
            table.matrix@ == Seq::<[Felt; 4]>::empty(),
    {
        MemoryTable { num_padded_rows: 0, num_randomizers, matrix: Vec::new() }
    }

    /// Outputs an unpadded but interweaved matrix: the memory rows of the
    /// executed processor rows, sorted by memory pointer, with dummy rows
    /// where the cycle count jumps within one memory cell.
    pub fn derive_matrix(processor_matrix: &[[Felt; 7]]) -> (matrix: Vec<[Felt; 4]>)
        ensures
            exists|sorted: Seq<[Felt; 4]>|
                #![trigger with_dummy_rows(sorted)]
                is_stable_sort(executed_rows(processor_matrix@), sorted) && matrix@
                    == with_dummy_rows(sorted),
    {
        let mut matrix: Vec<[Felt; 4]> = Vec::new();
        let mut k: usize = 0;
        while k < processor_matrix.len()
            invariant
                k <= processor_matrix@.len(),
                matrix@ == executed_rows(processor_matrix@.take(k as int)),
            decreases processor_matrix@.len() - k,
        {
            let row = &processor_matrix[k];
            proof {
                assert(processor_matrix@.take(k + 1).drop_last() == processor_matrix@.take(
                    k as int,
                ));
            }
            if !row[2].is_zero() {
                matrix.push([row[0], row[4], row[5], Felt::zero()]);
            }
            k += 1;
        }
        proof {
            assert(processor_matrix@.take(k as int) == processor_matrix@);
        }
        sort_by_pointer(&mut matrix);
        let ghost sorted = matrix@;
        if matrix.len() == 0 {
            assert(matrix@ == with_dummy_rows(sorted));
            return matrix;
        }
        let steps: usize = matrix.len() - 1;
        let mut i: usize = 0;
        while i < steps
            invariant
                i <= steps,
                matrix@.len() >= steps + 1,
                matrix@.len() <= steps + 1 + i,
                interweave(matrix@, i as int, (steps - i) as nat) == with_dummy_rows(sorted),
            decreases steps - i,
        {
            let curr: [Felt; 4] = matrix[i];
            let next: [Felt; 4] = matrix[i + 1];
            let follow: Felt = curr[0].add(&Felt::one());
            if curr[1].equals(&next[1]) && !follow.equals(&next[0]) {
                let dummy = make_dummy_after(&curr);
                matrix.insert(i + 1, dummy);
            }
            i += 1;
        }
        matrix
    }

    /// Number of rows that are not padding.
    pub fn len(&self) -> (n: usize)
        requires
            self.wf(),
        ensures
            n == self.spec_len(),
    {
        self.matrix.len() - self.num_padded_rows
    }

    /// Grows the matrix to `n` rows: each new row is the dummy row after the
    /// row before it, and counts as padding. A matrix that has `n` rows or
    /// more stays as it is.
    pub fn pad(&mut self, n: usize)
        requires
            old(self).wf(),
            old(self).matrix@.len() > 0 || n == 0,
        ensures
            final(self).wf(),
            final(self).num_randomizers == old(self).num_randomizers,
            final(self).matrix@.len() == if old(self).matrix@.len() >= n {
                old(self).matrix@.len()
            } else {
                n as nat
            },
            final(self).matrix@.take(old(self).matrix@.len() as int) == old(self).matrix@,
            forall|i: int|
                1 <= i && old(self).matrix@.len() <= i < final(self).matrix@.len()
                    ==> #[trigger] final(self).matrix@[i] == dummy_after(final(self).matrix@[i - 1]),
            final(self).spec_len() == old(self).spec_len(),
    {
        while self.matrix.len() < n
            invariant
                self.wf(),
                self.matrix@.len() > 0 || n == 0,
                self.num_randomizers == old(self).num_randomizers,
                self.matrix@.len() >= old(self).matrix@.len(),
                self.matrix@.len() <= n || self.matrix@.len() == old(self).matrix@.len(),
                self.matrix@.take(old(self).matrix@.len() as int) == old(self).matrix@,
                forall|i: int|
                    1 <= i && old(self).matrix@.len() <= i < self.matrix@.len()
                        ==> #[trigger] self.matrix@[i] == dummy_after(self.matrix@[i - 1]),
                self.spec_len() == old(self).spec_len(),
            decreases n - self.matrix@.len(),
        {
            let ghost before = self.matrix@;
            let last: [Felt; 4] = self.matrix[self.matrix.len() - 1];
            let row = make_dummy_after(&last);
            self.matrix.push(row);
            self.num_padded_rows += 1;
            proof {
                assert(self.matrix@ == before.push(row));
                assert forall|i: int|
                    1 <= i && old(self).matrix@.len() <= i < self.matrix@.len() implies #[trigger] self.matrix@[i]
                    == dummy_after(self.matrix@[i - 1]) by {
                    if i < before.len() {
                        assert(before[i] == dummy_after(before[i - 1]));
                    }
                }
                assert(self.matrix@.take(old(self).matrix@.len() as int) == before.take(
                    old(self).matrix@.len() as int,
                ));
            }
        }
    }

    /// Replaces the matrix; none of the new rows counts as padding.
    pub fn set_matrix(&mut self, matrix: Vec<[Felt; 4]>)
        ensures
            final(self).wf(),
            final(self).num_padded_rows == 0,
            final(self).matrix@ == matrix@,
            final(self).num_randomizers == old(self).num_randomizers,
    {
        self.num_padded_rows = 0;
        self.matrix = matrix;
    }
}

} // verus!
