use crate::def::vmatrix::on_border;
use crate::def::vmatrix::Vmatrix;
use vstd::prelude::*;

verus! {

/// The number of reductions that [get_accumulation] makes at most.
pub const MAXIMUM_REDUCTIONS_DECORNERING: u32 = 10;

/// Three indexes that walk through a matrix together: an entry, the one a row before it and
/// the one a row after it.
pub struct CountingPointer {
    pub current: usize,
    pub up: usize,
    pub down: usize,
}

impl CountingPointer {
    /// Move all three indexes one entry further.
    pub fn all_up(&mut self)
        requires
            old(self).current < usize::MAX,
            old(self).up < usize::MAX,
            old(self).down < usize::MAX,
        ensures
            final(self).current == old(self).current + 1,
            final(self).up == old(self).up + 1,
            final(self).down == old(self).down + 1,
    {
        self.current += 1;
        self.down += 1;
        self.up += 1;
    }

    pub fn current(&self) -> (index: usize)
        ensures
            index == self.current,
    {
        self.current
    }

    pub fn down(&self) -> (index: usize)
        ensures
            index == self.down,
    {
        self.down
    }

    pub fn up(&self) -> (index: usize)
        ensures
            index == self.up,
    {
        self.up
    }
}

/// Whether the entry at index `k` lies strictly inside the matrix and holds, like its eight
/// neighbours, a value other than zero.
pub open spec fn surrounded(cells: Seq<u32>, size: int, k: int) -> bool {
    &&& size <= k < size * size - size
    &&& 0 < k % size < size - 1
    &&& cells[k - size - 1] > 0
    &&& cells[k - size] > 0
    &&& cells[k - size + 1] > 0
    &&& cells[k - 1] > 0
    &&& cells[k] > 0
    &&& cells[k + 1] > 0
    &&& cells[k + size - 1] > 0
    &&& cells[k + size] > 0
    &&& cells[k + size + 1] > 0
}

/// One reduction of a matrix: 1 on every surrounded entry, 0 on all others.
pub open spec fn eroded(cells: Seq<u32>, size: int) -> Seq<u32> {
    Seq::new(
        cells.len(),
        |k: int|
            if surrounded(cells, size, k) {
                1u32
            } else {
                0u32
            },
    )
}

/// Whether two surrounded entries lie side by side in a row.
pub open spec fn has_adjacent_marks(cells: Seq<u32>, size: int) -> bool {
    exists|k: int| #[trigger] surrounded(cells, size, k) && surrounded(cells, size, k + 1)
}

/// The matrix after the given number of reductions.
pub open spec fn erosion_round(cells: Seq<u32>, size: int, rounds: nat) -> Seq<u32>
    decreases rounds,
{
    if rounds == 0 {
        cells
    } else {
        eroded(erosion_round(cells, size, (rounds - 1) as nat), size)
    }
}

/// For one entry, the number of reductions among the first `rounds` that it survives.
pub open spec fn accumulated_cell(cells: Seq<u32>, size: int, k: int, rounds: nat) -> int
    decreases rounds,
{
    if rounds == 0 {
        0
    } else {
        accumulated_cell(cells, size, k, (rounds - 1) as nat) + erosion_round(cells, size, rounds)[k]
    }
}

/// For one entry, the sum of what the first `count` matrices of a list hold there.
pub open spec fn cell_total(grids: Seq<Vmatrix<u32>>, k: int, count: int) -> int
    decreases count,
{
    if count <= 0 {
        0
    } else {
        cell_total(grids, k, count - 1) + grids[count - 1]@.cells[k]
    }
}

/// Index arithmetic for an entry strictly inside a matrix: its row has a row before and a
/// row after it, and its eight neighbours are entries of the matrix.
pub proof fn interior_neighbours(size: int, k: int)
    requires
        0 < size,
        size <= k < size * size - size,
        0 < k % size < size - 1,
    ensures
        0 <= k - size - 1,
        k + size + 1 < size * size,
{
    vstd::arithmetic::div_mod::lemma_fundamental_div_mod(k, size);
    let row = k / size;
    let column = k % size;
    assert(row <= size - 2) by (nonlinear_arith)
        requires
            k == size * row + column,
            0 <= column,
            k < size * size - size,
            0 < size,
    ;
    assert(k + size + 1 < size * size) by (nonlinear_arith)
        requires
            k == size * row + column,
            column < size - 1,
            row <= size - 2,
            0 < size,
    ;
    assert(row >= 1) by (nonlinear_arith)
        requires
            k == size * row + column,
            column < size - 1,
            size <= k,
            0 < size,
    ;
    assert(k - size - 1 >= 0) by (nonlinear_arith)
        requires
            k == size * row + column,
            column > 0,
            row >= 1,
            0 < size,
    ;
}

/// A matrix without two surrounded entries side by side is empty after one more reduction.
pub proof fn lone_marks_vanish(cells: Seq<u32>, size: int)
    requires
        0 < size,
        cells.len() == size * size,
        !has_adjacent_marks(cells, size),
    ensures
        forall|k: int| 0 <= k < cells.len() ==> eroded(eroded(cells, size), size)[k] == 0,
{
    let once = eroded(cells, size);
    assert forall|k: int| 0 <= k < cells.len() implies !surrounded(once, size, k) by {
        if surrounded(once, size, k) {
            interior_neighbours(size, k);
            assert(once[k] > 0);
            assert(once[k + 1] > 0);
            assert(surrounded(cells, size, k) && surrounded(cells, size, k + 1));
        }
    }
}

/// An empty matrix stays empty under reduction.
pub proof fn empty_stays_empty(cells: Seq<u32>, size: int)
    requires
        0 < size,
        cells.len() == size * size,
        forall|k: int| 0 <= k < cells.len() ==> cells[k] == 0,
    ensures
        forall|k: int| 0 <= k < cells.len() ==> eroded(cells, size)[k] == 0,
{
    assert forall|k: int| 0 <= k < cells.len() implies !surrounded(cells, size, k) by {
        if surrounded(cells, size, k) {
            interior_neighbours(size, k);
        }
    }
}

/// In a matrix without a zero, the surrounded entries are exactly those strictly inside it:
/// one reduction leaves 1 there and 0 on the outermost rows and columns. Two of them lie side
/// by side exactly when a row holds at least four entries.
pub proof fn full_matrix_erodes_to_interior(cells: Seq<u32>, size: int)
    requires
        0 <= size,
        cells.len() == size * size,
        forall|k: int| 0 <= k < cells.len() ==> cells[k] > 0,
    ensures
        forall|k: int|
            0 <= k < cells.len() ==> eroded(cells, size)[k] == if on_border(size, k) {
                0u32
            } else {
                1u32
            },
        has_adjacent_marks(cells, size) == (size >= 4),
{
    assert forall|k: int| 0 <= k < cells.len() implies surrounded(cells, size, k) == !on_border(
        size,
        k,
    ) by {
        crate::def::vmatrix::mirrored_index(k, size);
        let row = k / size;
        let column = k % size;
        if 0 < row < size - 1 && 0 < column < size - 1 {
            assert(size <= k < size * size - size) by (nonlinear_arith)
                requires
                    k == row * size + column,
                    0 < row < size - 1,
                    0 < column < size - 1,
            ;
            interior_neighbours(size, k);
        } else if surrounded(cells, size, k) {
            assert(0 < row < size - 1) by (nonlinear_arith)
                requires
                    k == row * size + column,
                    size <= k < size * size - size,
                    0 <= column < size,
            ;
        }
    }
    if size >= 4 {
        let k = size + 1;
        assert(size * size - size >= size + 3 && 2 * size + 3 < size * size) by (nonlinear_arith)
            requires
                size >= 4,
        ;
        vstd::arithmetic::div_mod::lemma_fundamental_div_mod_converse(k, size, 1, 1);
        vstd::arithmetic::div_mod::lemma_fundamental_div_mod_converse(k + 1, size, 1, 2);
        assert(surrounded(cells, size, k) && surrounded(cells, size, k + 1));
    } else {
        assert forall|k: int| !(#[trigger] surrounded(cells, size, k) && surrounded(
            cells,
            size,
            k + 1,
        )) by {
            if surrounded(cells, size, k) && surrounded(cells, size, k + 1) {
                vstd::arithmetic::div_mod::lemma_fundamental_div_mod(k, size);
                vstd::arithmetic::div_mod::lemma_fundamental_div_mod(k + 1, size);
                assert(false) by (nonlinear_arith)
                    requires
                        size < 4,
                        0 < k % size < size - 1,
                        0 < (k + 1) % size < size - 1,
                        k == size * (k / size) + k % size,
                        k + 1 == size * ((k + 1) / size) + (k + 1) % size,
                ;
            }
        }
    }
}

/// Whether an entry lies at least two rows and two columns from every edge of the matrix.
pub open spec fn deep_inside(size: int, k: int) -> bool {
    &&& 2 <= k / size <= size - 3
    &&& 2 <= k % size <= size - 3
}

/// Row and column of a neighbour of an entry that does not lie in the first or last column.
proof fn neighbour_coordinates(size: int, k: int, dy: int, dx: int)
    requires
        size > 0,
        0 < k % size < size - 1,
        -1 <= dx <= 1,
    ensures
        (k + dy * size + dx) / size == k / size + dy,
        (k + dy * size + dx) % size == k % size + dx,
{
    vstd::arithmetic::div_mod::lemma_fundamental_div_mod(k, size);
    assert(k + dy * size + dx == (k / size + dy) * size + (k % size + dx)) by (nonlinear_arith)
        requires
            k == size * (k / size) + k % size,
    ;
    vstd::arithmetic::div_mod::lemma_fundamental_div_mod_converse(
        k + dy * size + dx,
        size,
        k / size + dy,
        k % size + dx,
    );
}

/// In a matrix that holds zeros on its outermost rows and columns and data everywhere else,
/// the surrounded entries are exactly those at least two steps from every edge: one
/// reduction leaves 1 there and 0 elsewhere. Two of them lie side by side exactly when a row
/// holds at least six entries.
pub proof fn framed_matrix_erodes_to_core(cells: Seq<u32>, size: int)
    requires
        0 <= size,
        cells.len() == size * size,
        forall|k: int| 0 <= k < cells.len() ==> (#[trigger] cells[k] > 0 <==> !on_border(size, k)),
    ensures
        forall|k: int|
            0 <= k < cells.len() ==> eroded(cells, size)[k] == if deep_inside(size, k) {
                1u32
            } else {
                0u32
            },
        has_adjacent_marks(cells, size) == (size >= 6),
{
    assert forall|k: int| 0 <= k < cells.len() implies surrounded(cells, size, k) == deep_inside(
        size,
        k,
    ) by {
        crate::def::vmatrix::mirrored_index(k, size);
        let row = k / size;
        let column = k % size;
        if deep_inside(size, k) {
            assert(size <= k < size * size - size) by (nonlinear_arith)
                requires
                    k == row * size + column,
                    2 <= row <= size - 3,
                    2 <= column <= size - 3,
            ;
            interior_neighbours(size, k);
            neighbour_coordinates(size, k, -1, -1);
            neighbour_coordinates(size, k, -1, 0);
            neighbour_coordinates(size, k, -1, 1);
            neighbour_coordinates(size, k, 0, -1);
            neighbour_coordinates(size, k, 0, 0);
            neighbour_coordinates(size, k, 0, 1);
            neighbour_coordinates(size, k, 1, -1);
            neighbour_coordinates(size, k, 1, 0);
            neighbour_coordinates(size, k, 1, 1);
            assert(k + (-1) * size + (-1) == k - size - 1);
            assert(k + (-1) * size + 0 == k - size);
            assert(k + (-1) * size + 1 == k - size + 1);
            assert(k + 0 * size + (-1) == k - 1);
            assert(k + 0 * size + 0 == k);
            assert(k + 0 * size + 1 == k + 1);
            assert(k + 1 * size + (-1) == k + size - 1);
            assert(k + 1 * size + 0 == k + size);
            assert(k + 1 * size + 1 == k + size + 1);
        } else if surrounded(cells, size, k) {
            interior_neighbours(size, k);
            neighbour_coordinates(size, k, -1, -1);
            neighbour_coordinates(size, k, 1, 1);
            assert(k + (-1) * size + (-1) == k - size - 1);
            assert(k + 1 * size + 1 == k + size + 1);
            assert(!on_border(size, k - size - 1));
            assert(!on_border(size, k + size + 1));
        }
    }
    if size >= 6 {
        let k = 2 * size + 2;
        assert(3 * size <= size * size) by (nonlinear_arith)
            requires
                size >= 6,
        ;
        vstd::arithmetic::div_mod::lemma_fundamental_div_mod_converse(k, size, 2, 2);
        vstd::arithmetic::div_mod::lemma_fundamental_div_mod_converse(k + 1, size, 2, 3);
        assert(deep_inside(size, k) && deep_inside(size, k + 1));
        assert(surrounded(cells, size, k) && surrounded(cells, size, k + 1));
    } else {
        assert forall|k: int| !(#[trigger] surrounded(cells, size, k) && surrounded(
            cells,
            size,
            k + 1,
        )) by {
            if surrounded(cells, size, k) && surrounded(cells, size, k + 1) {
                interior_neighbours(size, k);
                interior_neighbours(size, k + 1);
                neighbour_coordinates(size, k, 0, 1);
                assert(k + 0 * size + 1 == k + 1);
                assert(deep_inside(size, k) && deep_inside(size, k + 1));
            }
        }
    }
}

/// See [decorner_once]. As entries on the first and last row cannot be completely surrounded
/// by data, the result is set to zero on these rows.
pub fn set_bound_rows_to_zero(input_data: &mut Vmatrix<u32>)
    requires
        old(input_data).wf(),
    ensures
        final(input_data).size == old(input_data).size,
        final(input_data)@.cells.len() == old(input_data)@.cells.len(),
        forall|k: int|
            0 <= k < old(input_data)@.cells.len() ==> final(input_data)@.cells[k] == if k < old(input_data).size
                || k >= old(input_data)@.cells.len() - old(input_data).size {
                0u32
            } else {
                old(input_data)@.cells[k]
            },
{
    let input_size: usize = input_data.size;
    let last_entry: usize = input_data.data.len();
    assert(input_size <= last_entry) by (nonlinear_arith)
        requires
            last_entry == input_size * input_size,
    ;
    let mut i: usize = 0;
    while i < input_size
        invariant
            i <= input_size <= last_entry,
            input_data.size == input_size,
            input_data@.cells.len() == last_entry,
            last_entry == old(input_data)@.cells.len(),
            forall|k: int|
                0 <= k < last_entry ==> input_data@.cells[k] == if k < i || k >= last_entry - i {
                    0u32
                } else {
                    old(input_data)@.cells[k]
                },
        decreases input_size - i,
    {
        input_data.data[i] = 0;
        input_data.data[last_entry - 1 - i] = 0;
        i += 1;
    }
}

/// Goes through `input_data` and writes 1 to every entry of `output_data` whose counterpart
/// in `input_data` is surrounded; the other entries of `output_data` are left alone. Returns
/// whether two surrounded entries were found side by side.
pub fn process_corners(input_data: &Vmatrix<u32>, output_data: &mut Vmatrix<u32>) -> (two_points_in_a_row: bool)
    requires
        input_data.wf(),
        old(output_data).wf(),
        old(output_data).size == input_data.size,
    ensures
        final(output_data).size == old(output_data).size,
        final(output_data)@.cells.len() == old(output_data)@.cells.len(),
        forall|k: int|
            0 <= k < input_data@.cells.len() ==> final(output_data)@.cells[k] == if surrounded(
                input_data@.cells,
                input_data.size as int,
                k,
            ) {
                1u32
            } else {
                old(output_data)@.cells[k]
            },
        two_points_in_a_row == has_adjacent_marks(input_data@.cells, input_data.size as int),
{
    let row_size: usize = input_data.size;
    let ghost cells = input_data@.cells;
    let ghost size = row_size as int;
    if row_size < 3 {
        proof {
            assert forall|k: int| !surrounded(cells, size, k) by {
                if surrounded(cells, size, k) {
                    assert(size * size - size <= 2 * size) by (nonlinear_arith)
                        requires
                            0 <= size < 3,
                    ;
                }
            }
        }
        return false;
    }
    let total: usize = input_data.data.len();
    assert(total == size * size);
    assert(3 * size <= size * size) by (nonlinear_arith)
        requires
            size >= 3,
    ;

    let mut two_points_in_a_row = false;
    let mut previous_active = false;

    let mut pointer = CountingPointer { current: row_size + 1, up: 0 + 1, down: row_size * 2 + 1 };

    let last_pointer: usize = total - row_size;
    proof {
        vstd::arithmetic::div_mod::lemma_mod_self_0(size);
        assert forall|k: int| 0 <= k < size + 1 implies !surrounded(cells, size, k) by {}
    }

    while pointer.current() != last_pointer
        invariant
            size == row_size,
            size >= 3,
            cells == input_data@.cells,
            cells.len() == size * size,
            total == size * size,
            last_pointer == total - size,
            size + 1 <= pointer.current <= last_pointer,
            pointer.up == pointer.current - size,
            pointer.down == pointer.current + size,
            output_data.size == old(output_data).size,
            output_data@.cells.len() == total,
            old(output_data)@.cells.len() == total,
            forall|k: int|
                0 <= k < pointer.current ==> output_data@.cells[k] == if surrounded(cells, size, k) {
                    1u32
                } else {
                    old(output_data)@.cells[k]
                },
            forall|k: int|
                pointer.current <= k < total ==> output_data@.cells[k] == old(output_data)@.cells[k],
            previous_active == surrounded(cells, size, pointer.current - 1),
            two_points_in_a_row == exists|k: int|
                k + 1 < pointer.current && #[trigger] surrounded(cells, size, k) && surrounded(
                    cells,
                    size,
                    k + 1,
                ),
        decreases last_pointer - pointer.current,
    {
        let ghost at = pointer.current as int;
        let pointer_module: usize = pointer.current() % row_size;
        if pointer_module == 0 || pointer_module == row_size - 1 {
            previous_active = false;
            assert(!surrounded(cells, size, at));
        } else {
            proof {
                interior_neighbours(size, at);
            }
            let surrounding_all_non_zero: bool = input_data.data[pointer.current()] > 0
                && input_data.data[pointer.current() - 1] > 0 && input_data.data[pointer.current()
                + 1] > 0 && input_data.data[pointer.up()] > 0 && input_data.data[pointer.up() - 1]
                > 0 && input_data.data[pointer.up() + 1] > 0 && input_data.data[pointer.down()] > 0
                && input_data.data[pointer.down() - 1] > 0 && input_data.data[pointer.down() + 1]
                > 0;
            assert(surrounding_all_non_zero == surrounded(cells, size, at));

            if surrounding_all_non_zero {
                output_data.data[pointer.current()] = 1;

                if !two_points_in_a_row && previous_active {
                    two_points_in_a_row = true;
                    assert(surrounded(cells, size, at - 1) && surrounded(cells, size, at - 1 + 1));
                }
                previous_active = true;
            } else {
                previous_active = false;
            }
        }
        proof {
            let found = exists|k: int|
                k + 1 < at + 1 && #[trigger] surrounded(cells, size, k) && surrounded(
                    cells,
                    size,
                    k + 1,
                );
            if two_points_in_a_row {
                assert(found);
            } else if found {
                let k = choose|k: int|
                    k + 1 < at + 1 && #[trigger] surrounded(cells, size, k) && surrounded(
                        cells,
                        size,
                        k + 1,
                    );
                if k + 1 < at {
                    assert(false);
                } else {
                    assert(k == at - 1);
                    assert(false);
                }
            }
        }
        pointer.all_up();
    }
    proof {
        let at = pointer.current as int;
        assert forall|k: int| at <= k < total implies !surrounded(cells, size, k) by {}
        if has_adjacent_marks(cells, size) {
            let k = choose|k: int| #[trigger]
                surrounded(cells, size, k) && surrounded(cells, size, k + 1);
            assert(k + 1 < at);
        }
    }

    two_points_in_a_row
}

/// Remove any entry of the sample data that is not surrounded by data too: the result holds
/// 1 on the surrounded entries and 0 on the others. `two_points_in_row` reports whether two
/// surrounded entries lie side by side.
pub fn decorner_once(input_data: &Vmatrix<u32>, two_points_in_row: &mut bool) -> (result: Vmatrix<u32>)
    requires
        input_data.wf(),
    ensures
        result.size == input_data.size,
        result@.cells == eroded(input_data@.cells, input_data.size as int),
        *final(two_points_in_row) == has_adjacent_marks(input_data@.cells, input_data.size as int),
{
    let total: usize = input_data.data.len();
    assert(input_data.size * input_data.size == total);
    let mut result: Vmatrix<u32> = Vmatrix::<u32>::initialize(input_data.size, 0);

    set_bound_rows_to_zero(&mut result);
    *two_points_in_row = process_corners(input_data, &mut result);
    assert(result@.cells =~= eroded(input_data@.cells, input_data.size as int));

    result
}

/// Reductions keep the number of entries.
pub proof fn erosion_keeps_length(cells: Seq<u32>, size: int, rounds: nat)
    ensures
        erosion_round(cells, size, rounds).len() == cells.len(),
    decreases rounds,
{
    if rounds > 0 {
        erosion_keeps_length(cells, size, (rounds - 1) as nat);
    }
}

/// Once a reduction has found no two surrounded entries side by side, every reduction after
/// the next is empty.
pub proof fn later_rounds_are_empty(cells: Seq<u32>, size: int, quiet: nat, rounds: nat)
    requires
        0 < size,
        cells.len() == size * size,
        !has_adjacent_marks(erosion_round(cells, size, quiet), size),
        rounds >= quiet + 2,
    ensures
        forall|k: int| 0 <= k < cells.len() ==> erosion_round(cells, size, rounds)[k] == 0,
    decreases rounds,
{
    erosion_keeps_length(cells, size, quiet);
    erosion_keeps_length(cells, size, (rounds - 1) as nat);
    if rounds == quiet + 2 {
        lone_marks_vanish(erosion_round(cells, size, quiet), size);
        assert(erosion_round(cells, size, (quiet + 1) as nat) == eroded(
            erosion_round(cells, size, quiet),
            size,
        ));
    } else {
        later_rounds_are_empty(cells, size, quiet, (rounds - 1) as nat);
        empty_stays_empty(erosion_round(cells, size, (rounds - 1) as nat), size);
    }
}

/// The sum over a longer list of matrices is at least the sum over a part of it.
pub proof fn cell_total_grows(grids: Seq<Vmatrix<u32>>, k: int, count: int, longer: int)
    requires
        0 <= count <= longer,
    ensures
        0 <= cell_total(grids, k, count) <= cell_total(grids, k, longer),
    decreases longer,
{
    if count < longer {
        cell_total_grows(grids, k, count, longer - 1);
    } else if count > 0 {
        cell_total_grows(grids, k, count - 1, longer - 1);
    }
}

/// Sum all the entries of all the matrices of a list, entry by entry, into a single matrix
/// with the row size of the first.
pub fn accumulate_reductions(input_data: &Vec<Vmatrix<u32>>) -> (result: Vmatrix<u32>)
    requires
        input_data@.len() > 0,
        input_data@[0].wf(),
        forall|g: int|
            0 <= g < input_data@.len() ==> (#[trigger] input_data@[g])@.cells.len() >= input_data@[0]@.cells.len(),
        forall|k: int|
            0 <= k < input_data@[0]@.cells.len() ==> cell_total(
                input_data@,
                k,
                input_data@.len() as int,
            ) <= u32::MAX,
    ensures
        result.size == input_data@[0].size,
        result@.cells.len() == input_data@[0]@.cells.len(),
        forall|k: int|
            0 <= k < result@.cells.len() ==> result@.cells[k] == cell_total(
                input_data@,
                k,
                input_data@.len() as int,
            ),
{
    let data_length: usize = input_data[0].data.len();
    assert(input_data@[0].size * input_data@[0].size == data_length);
    let mut result: Vmatrix<u32> = Vmatrix::<u32>::initialize(input_data[0].size, 0);
    let count: usize = input_data.len();

    let mut g: usize = 0;
    while g < count
        invariant
            g <= count,
            count == input_data@.len(),
            data_length == input_data@[0]@.cells.len(),
            result.size == input_data@[0].size,
            result@.cells.len() == data_length,
            forall|m: int|
                0 <= m < input_data@.len() ==> (#[trigger] input_data@[m])@.cells.len() >= data_length,
            forall|k: int|
                0 <= k < data_length ==> cell_total(input_data@, k, count as int) <= u32::MAX,
            forall|k: int|
                0 <= k < data_length ==> result@.cells[k] == cell_total(input_data@, k, g as int),
        decreases count - g,
    {
        let item = &input_data[g];
        let mut x: usize = 0;
        while x < data_length
            invariant
                x <= data_length,
                g < count,
                count == input_data@.len(),
                *item == input_data@[g as int],
                item@.cells.len() >= data_length,
                result.size == input_data@[0].size,
                result@.cells.len() == data_length,
                forall|k: int|
                    0 <= k < data_length ==> cell_total(input_data@, k, count as int) <= u32::MAX,
                forall|k: int| 0 <= k < x ==> result@.cells[k] == cell_total(input_data@, k, g + 1),
                forall|k: int|
                    x <= k < data_length ==> result@.cells[k] == cell_total(input_data@, k, g as int),
            decreases data_length - x,
        {
            proof {
                cell_total_grows(input_data@, x as int, g + 1, count as int);
            }
            result.data[x] = result.data[x] + item.data[x];
            x += 1;
        }
        g += 1;
    }

    result
}

/// The successive reductions of a matrix, the first being the reduction of the input itself.
/// Reducing stops after the first reduction that finds no two surrounded entries side by
/// side, since everything after the next one is empty, and after
/// [MAXIMUM_REDUCTIONS_DECORNERING] reductions at the latest.
pub fn get_reductions(input_data: &Vmatrix<u32>) -> (reductions: Vec<Vmatrix<u32>>)
    requires
        input_data.wf(),
    ensures
        1 <= reductions@.len() <= MAXIMUM_REDUCTIONS_DECORNERING,
        forall|j: int|
            0 <= j < reductions@.len() ==> (#[trigger] reductions@[j]).size == input_data.size
                && reductions@[j]@.cells == erosion_round(
                input_data@.cells,
                input_data.size as int,
                (j + 1) as nat,
            ),
        forall|j: int|
            0 <= j < reductions@.len() - 1 ==> has_adjacent_marks(
                #[trigger] erosion_round(input_data@.cells, input_data.size as int, j as nat),
                input_data.size as int,
            ),
        reductions@.len() < MAXIMUM_REDUCTIONS_DECORNERING ==> !has_adjacent_marks(
            erosion_round(input_data@.cells, input_data.size as int, (reductions@.len() - 1) as nat),
            input_data.size as int,
        ),
{
    let mut working_data = input_data.normal_copy();
    let ghost cells = input_data@.cells;
    let ghost size = input_data.size as int;

    let mut reductions: u32 = 0;
    let mut process: bool = true;
    let mut accumulative_data: Vec<Vmatrix<u32>> = Vec::new();

    while process && reductions < MAXIMUM_REDUCTIONS_DECORNERING
        invariant
            cells == input_data@.cells,
            size == input_data.size,
            reductions <= MAXIMUM_REDUCTIONS_DECORNERING,
            accumulative_data@.len() == reductions,
            working_data.size == input_data.size,
            working_data.wf(),
            working_data@.cells == erosion_round(cells, size, reductions as nat),
            forall|j: int|
                0 <= j < accumulative_data@.len() ==> (#[trigger] accumulative_data@[j]).size
                    == input_data.size && accumulative_data@[j]@.cells == erosion_round(
                    cells,
                    size,
                    (j + 1) as nat,
                ),
            forall|j: int|
                0 <= j < accumulative_data@.len() - 1 ==> has_adjacent_marks(
                    #[trigger] erosion_round(cells, size, j as nat),
                    size,
                ),
            reductions == 0 ==> process,
            reductions > 0 ==> process == has_adjacent_marks(
                erosion_round(cells, size, (reductions - 1) as nat),
                size,
            ),
        decreases MAXIMUM_REDUCTIONS_DECORNERING - reductions,
    {
        let new_data: Vmatrix<u32> = decorner_once(&working_data, &mut process);
        proof {
            erosion_keeps_length(cells, size, (reductions + 1) as nat);
        }
        accumulative_data.push(new_data.normal_copy());
        working_data = new_data;
        reductions += 1;
    }

    accumulative_data
}

/// Let a set of data have entries with either values or a 0. Accumulation shows the entries
/// around which most of the data accumulates: the matrix is reduced
/// [MAXIMUM_REDUCTIONS_DECORNERING] times over, each
/// reduction keeping only the entries that are completely surrounded by data, and every entry
/// of the result counts the reductions that it survived.
pub fn get_accumulation(input_data: &Vmatrix<u32>) -> (result: Vmatrix<u32>)
    requires
        input_data.wf(),
    ensures
        result.size == input_data.size,
        result@.cells.len() == input_data@.cells.len(),
        forall|k: int|
            0 <= k < result@.cells.len() ==> result@.cells[k] == accumulated_cell(
                input_data@.cells,
                input_data.size as int,
                k,
                MAXIMUM_REDUCTIONS_DECORNERING as nat,
            ),
{
    let accumulative_data = get_reductions(input_data);
    let ghost cells = input_data@.cells;
    let ghost size = input_data.size as int;
    let ghost made = accumulative_data@.len() as nat;
    proof {
        assert forall|g: int| 0 <= g < accumulative_data@.len() implies (#[trigger] accumulative_data@[g])@.cells.len()
            == cells.len() by {
            erosion_keeps_length(cells, size, (g + 1) as nat);
        }
        assert forall|k: int| 0 <= k < cells.len() implies cell_total(
            accumulative_data@,
            k,
            made as int,
        ) == accumulated_cell(cells, size, k, 10) by {
            totals_are_accumulations(accumulative_data@, cells, size, k, made);
            if made < 10 {
                unmade_rounds_add_nothing(cells, size, k, made, 10);
            }
        }
        assert forall|k: int| 0 <= k < cells.len() implies accumulated_cell(cells, size, k, 10)
            <= 10 by {
            accumulation_is_bounded(cells, size, k, 10);
        }
    }
    accumulate_reductions(&accumulative_data)
}

/// The sum over the reductions that were made is the accumulation over as many rounds.
proof fn totals_are_accumulations(
    grids: Seq<Vmatrix<u32>>,
    cells: Seq<u32>,
    size: int,
    k: int,
    count: nat,
)
    requires
        count <= grids.len(),
        forall|j: int|
            0 <= j < grids.len() ==> (#[trigger] grids[j])@.cells == erosion_round(
                cells,
                size,
                (j + 1) as nat,
            ),
    ensures
        cell_total(grids, k, count as int) == accumulated_cell(cells, size, k, count),
    decreases count,
{
    if count > 0 {
        totals_are_accumulations(grids, cells, size, k, (count - 1) as nat);
        assert(grids[count - 1]@.cells == erosion_round(cells, size, count));
    }
}

/// The rounds after the one that found no two surrounded entries side by side add nothing.
proof fn unmade_rounds_add_nothing(cells: Seq<u32>, size: int, k: int, made: nat, rounds: nat)
    requires
        cells.len() == size * size,
        0 <= size,
        0 <= k < cells.len(),
        1 <= made <= rounds,
        !has_adjacent_marks(erosion_round(cells, size, (made - 1) as nat), size),
    ensures
        accumulated_cell(cells, size, k, rounds) == accumulated_cell(cells, size, k, made),
    decreases rounds,
{
    if rounds > made {
        unmade_rounds_add_nothing(cells, size, k, made, (rounds - 1) as nat);
        assert(0 < size) by (nonlinear_arith)
            requires
                0 <= size,
                0 < size * size,
        ;
        later_rounds_are_empty(cells, size, (made - 1) as nat, rounds);
    }
}

/// No entry survives more reductions than were made.
pub proof fn accumulation_is_bounded(cells: Seq<u32>, size: int, k: int, rounds: nat)
    requires
        0 <= k < cells.len(),
    ensures
        0 <= accumulated_cell(cells, size, k, rounds) <= rounds,
    decreases rounds,
{
    if rounds > 0 {
        accumulation_is_bounded(cells, size, k, (rounds - 1) as nat);
        erosion_keeps_length(cells, size, (rounds - 1) as nat);
    }
}

} // verus!
