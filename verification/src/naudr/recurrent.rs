use crate::def::vmatrix::Vmatrix;
use vstd::prelude::*;

verus! {

/// Number of entries other than zero that directly precede index `i` without a gap.
pub open spec fn filled_before(cells: Seq<u32>, i: int) -> nat
    decreases i,
{
    if i <= 0 || i > cells.len() || cells[i - 1] == 0 {
        0
    } else {
        1 + filled_before(cells, i - 1)
    }
}

/// Number of entries other than zero that follow from index `i` on without a gap.
pub open spec fn filled_from(cells: Seq<u32>, i: int) -> nat
    decreases cells.len() - i,
{
    if i < 0 || i >= cells.len() || cells[i] == 0 {
        0
    } else {
        1 + filled_from(cells, i + 1)
    }
}

/// Length of the longest stretch of entries other than zero that contains index `i`.
pub open spec fn run_length(cells: Seq<u32>, i: int) -> nat {
    filled_before(cells, i) + filled_from(cells, i)
}

/// The entries that belong to a stretch of at least `minimum` entries other than zero are
/// 1, all others 0.
pub open spec fn recurrent_marks(cells: Seq<u32>, minimum: int) -> Seq<u32> {
    Seq::new(
        cells.len(),
        |i: int|
            if cells[i] != 0 && run_length(cells, i) >= minimum {
                1u32
            } else {
                0u32
            },
    )
}

/// Whether all entries from `first` up to, not including, `end` differ from zero.
pub open spec fn filled_between(cells: Seq<u32>, first: int, end: int) -> bool {
    forall|j: int| first <= j < end ==> cells[j] != 0
}

/// A filled stretch reaches at least as far back from each of its entries as it begins.
pub proof fn filled_before_reaches(cells: Seq<u32>, first: int, i: int)
    requires
        0 <= first <= i <= cells.len(),
        filled_between(cells, first, i),
    ensures
        filled_before(cells, i) >= i - first,
        (first == 0 || cells[first - 1] == 0) ==> filled_before(cells, i) == i - first,
    decreases i - first,
{
    if i > first {
        filled_before_reaches(cells, first, i - 1);
    }
}

/// A filled stretch reaches at least as far forward from each of its entries as it ends.
pub proof fn filled_from_reaches(cells: Seq<u32>, i: int, end: int)
    requires
        0 <= i <= end <= cells.len(),
        filled_between(cells, i, end),
    ensures
        filled_from(cells, i) >= end - i,
        (end == cells.len() || cells[end] == 0) ==> filled_from(cells, i) == end - i,
    decreases end - i,
{
    if i < end {
        filled_from_reaches(cells, i + 1, end);
    }
}

/// A stretch of entries other than zero that is at least `minimum` long is marked throughout.
pub proof fn long_run_is_marked(cells: Seq<u32>, minimum: int, first: int, end: int)
    requires
        0 <= first < end <= cells.len(),
        filled_between(cells, first, end),
        end - first >= minimum,
    ensures
        forall|j: int| first <= j < end ==> recurrent_marks(cells, minimum)[j] == 1,
{
    assert forall|j: int| first <= j < end implies recurrent_marks(cells, minimum)[j] == 1 by {
        filled_before_reaches(cells, first, j);
        filled_from_reaches(cells, j, end);
    }
}

/// A stretch that zeros or the ends of the data bound on both sides, and that is shorter
/// than `minimum`, is left unmarked throughout. So is every entry that holds zero.
pub proof fn short_run_is_unmarked(cells: Seq<u32>, minimum: int, first: int, end: int)
    requires
        0 <= first <= end <= cells.len(),
        filled_between(cells, first, end),
        first == 0 || cells[first - 1] == 0,
        end == cells.len() || cells[end] == 0,
        end - first < minimum,
    ensures
        forall|j: int| first <= j < end ==> recurrent_marks(cells, minimum)[j] == 0,
        forall|j: int|
            0 <= j < cells.len() && cells[j] == 0 ==> recurrent_marks(cells, minimum)[j] == 0,
{
    assert forall|j: int| first <= j < end implies recurrent_marks(cells, minimum)[j] == 0 by {
        filled_before_reaches(cells, first, j);
        filled_from_reaches(cells, j, end);
    }
}

/// Preserve only the entries that belong to a stretch of at least `minimum_recursion`
/// entries other than zero, read in index order; they become 1, all others 0.
pub fn recurrent_trace(input_data: &Vmatrix<u32>, minimum_recursion: usize) -> (result: Vmatrix<u32>)
    requires
        input_data.wf(),
    ensures
        result.size == input_data.size,
        result@.cells == recurrent_marks(input_data@.cells, minimum_recursion as int),
{
    let set_size: usize = input_data.data.len();
    let mut result: Vmatrix<u32> = Vmatrix::<u32>::initialize(input_data.size, 0);

    let mut anchor_index: usize = 0;
    let mut anchor_count: usize = 0;
    let mut recursion_found: bool = false;

    let ghost cells = input_data@.cells;
    let ghost minimum = minimum_recursion as int;

    let mut i: usize = 0;
    while i < set_size
        invariant
            i <= set_size,
            set_size == cells.len(),
            cells == input_data@.cells,
            minimum == minimum_recursion as int,
            result.size == input_data.size,
            result@.cells.len() == set_size,
            anchor_count <= i,
            anchor_count > 0 ==> anchor_index == i - anchor_count,
            filled_between(cells, i - anchor_count, i as int),
            i - anchor_count == 0 || cells[i - anchor_count - 1] == 0,
            recursion_found == (anchor_count > 0 && anchor_count >= minimum),
            forall|j: int|
                0 <= j < i - anchor_count ==> result@.cells[j] == recurrent_marks(cells, minimum)[j],
            forall|j: int|
                i - anchor_count <= j < i
                    ==> result@.cells[j] == if recursion_found { 1u32 } else { 0u32 },
            forall|j: int| i <= j < set_size ==> result@.cells[j] == 0,
        decreases set_size - i,
    {
        let zero_entry: bool = input_data.data[i] == 0;
        if zero_entry {
            proof {
                let first = i - anchor_count;
                assert forall|j: int|
                    first <= j < i implies
                    result@.cells[j] == recurrent_marks(cells, minimum)[j] by {
                    filled_before_reaches(cells, first, j);
                    filled_from_reaches(cells, j, i as int);
                }
                assert(filled_from(cells, i as int) == 0);
            }
            anchor_count = 0;
            recursion_found = false;
        } else {
            if anchor_count == 0 {
                anchor_index = i;
            }
            anchor_count += 1;
            if !recursion_found && anchor_count >= minimum_recursion {
                recursion_found = true;
                let mut j: usize = anchor_index;
                while j != i
                    invariant
                        anchor_index <= j <= i,
                        i < set_size,
                        result@.cells.len() == set_size,
                        result.size == input_data.size,
                        forall|m: int|
                            0 <= m < anchor_index
                                ==> result@.cells[m] == recurrent_marks(cells, minimum)[m],
                        forall|m: int| anchor_index <= m < j ==> result@.cells[m] == 1,
                        forall|m: int| i <= m < set_size ==> result@.cells[m] == 0,
                    decreases i - j,
                {
                    result.data[j] = 1;
                    j += 1;
                }
            }
            if recursion_found {
                result.data[i] = 1;
            }
        }
        i += 1;
    }
    proof {
        let first = set_size - anchor_count;
        assert forall|j: int|
            first <= j < set_size implies
            result@.cells[j] == recurrent_marks(cells, minimum)[j] by {
            filled_before_reaches(cells, first, j);
            filled_from_reaches(cells, j, set_size as int);
        }
        assert(result@.cells =~= recurrent_marks(cells, minimum));
    }

    result
}

} // verus!
