use crate::def::trigonometric::Trigonometric;
use crate::def::vmatrix::on_border;
use crate::def::vmatrix::Vmatrix;
use crate::naudr::closed_curves::GlobalCurveData;
use vstd::prelude::*;

verus! {

/// The entry `steps` plain steps from `from` in a direction.
pub open spec fn side_cell(from: int, size: int, direction: Trigonometric, steps: int) -> int {
    from + steps * direction.unit_move(size)
}

/// Whether the entries one to `steps` plain steps from `from` all lie strictly inside the
/// matrix and, where `filled` is asked for, hold data.
pub open spec fn side_clear(
    cells: Seq<u32>,
    size: int,
    from: int,
    direction: Trigonometric,
    steps: int,
    filled: bool,
) -> bool {
    forall|j: int|
        1 <= j <= steps ==> {
            &&& !on_border(size, #[trigger] side_cell(from, size, direction, j))
            &&& filled ==> cells[side_cell(from, size, direction, j)] >= 1
        }
}

/// Whether the square ring of entries at `level - 1` steps around `index`, straight and
/// diagonal, holds data throughout and lies strictly inside the matrix. The ring is walked
/// from the entry straight south of `index`: east to the corner, north along the east side,
/// west along the north side, south along the west side and east again to where it began.
/// The entries between `index` and the ring must lie strictly inside the matrix too. At
/// level 1 the ring is the entry itself.
pub open spec fn traced_at(cells: Seq<u32>, size: int, index: int, level: int) -> bool {
    let half = level - 1;
    let south = index - half * size;
    &&& side_clear(cells, size, index, Trigonometric::SIN, half, false)
    &&& cells[south] >= 1
    &&& side_clear(cells, size, south, Trigonometric::COS, half, true)
    &&& side_clear(cells, size, south + half, Trigonometric::NSIN, 2 * half, true)
    &&& side_clear(cells, size, south + half + 2 * half * size, Trigonometric::NCOS, 2 * half, true)
    &&& side_clear(cells, size, south - half + 2 * half * size, Trigonometric::SIN, 2 * half, true)
    &&& side_clear(cells, size, south - half, Trigonometric::COS, half, true)
}

/// One pass of bloating at a level: every entry strictly inside the matrix that holds 1, is
/// not marked with the level yet and has its ring at that level takes the level as its mark.
pub open spec fn bloat_pass(cells: Seq<u32>, size: int, marks: Seq<u32>, level: int) -> Seq<u32> {
    Seq::new(
        marks.len(),
        |i: int|
            if !on_border(size, i) && cells[i] == 1 && marks[i] != level && traced_at(
                cells,
                size,
                i,
                level,
            ) {
                level as u32
            } else {
                marks[i]
            },
    )
}

/// The marks after bloating from a level on: passes are made at rising levels until one
/// changes no mark or the level reaches `maximum`.
pub open spec fn bloated(cells: Seq<u32>, size: int, marks: Seq<u32>, level: int, maximum: int) -> Seq<
    u32,
>
    decreases maximum - level,
{
    if level >= maximum {
        marks
    } else if bloat_pass(cells, size, marks, level) == marks {
        marks
    } else {
        bloated(cells, size, bloat_pass(cells, size, marks, level), level + 1, maximum)
    }
}

/// A plain step from an entry strictly inside a matrix leads to an entry of the matrix.
pub proof fn interior_step_stays(size: int, k: int, direction: Trigonometric)
    requires
        0 <= k,
        !on_border(size, k),
    ensures
        0 <= k + direction.unit_move(size) < size * size,
{
    vstd::arithmetic::div_mod::lemma_fundamental_div_mod(k, size);
    let row = k / size;
    let column = k % size;
    assert(size * (row - 1) + column >= 0 && size * (row + 1) + column < size * size
        && size * row + column + 1 < size * size) by (nonlinear_arith)
        requires
            0 < row < size - 1,
            0 < column < size - 1,
    ;
    assert(size * (row - 1) == size * row - size && size * (row + 1) == size * row + size)
        by (nonlinear_arith);
}

/// Walk `steps` plain steps from an entry strictly inside the matrix, and return the entry
/// reached if every entry on the way lies strictly inside the matrix and, where `filled` is
/// asked for, holds data; nothing otherwise.
pub fn trace_side(
    full_data: &Vmatrix<u32>,
    from: usize,
    direction: &Trigonometric,
    steps: u32,
    filled: bool,
) -> (reached: Option<usize>)
    requires
        full_data.wf(),
        !on_border(full_data.size as int, from as int),
    ensures
        reached is Some == side_clear(
            full_data@.cells,
            full_data.size as int,
            from as int,
            *direction,
            steps as int,
            filled,
        ),
        reached matches Some(end) ==> end == side_cell(
            from as int,
            full_data.size as int,
            *direction,
            steps as int,
        ) && !on_border(full_data.size as int, end as int),
{
    let row_size: usize = full_data.size;
    let length: usize = full_data.data.len();
    let ghost cells = full_data@.cells;
    let ghost size = row_size as int;
    let mut index: usize = from;
    let mut x: u32 = 0;
    while x < steps
        invariant
            x <= steps,
            full_data.wf(),
            cells == full_data@.cells,
            size == full_data.size,
            row_size == full_data.size,
            length == cells.len(),
            index == side_cell(from as int, size, *direction, x as int),
            !on_border(size, index as int),
            side_clear(cells, size, from as int, *direction, x as int, filled),
        decreases steps - x,
    {
        proof {
            interior_step_stays(size, index as int, *direction);
            assert(side_cell(from as int, size, *direction, x + 1) == index
                + direction.unit_move(size)) by (nonlinear_arith)
                requires
                    index == from + x * direction.unit_move(size),
                    side_cell(from as int, size, *direction, x + 1) == from + (x + 1)
                        * direction.unit_move(size),
            ;
        }
        index = Trigonometric::get_index_from_direction(index, row_size, direction, 0);
        if (filled && full_data.data[index] < 1) || full_data.test_border_index(index) {
            assert(!side_clear(cells, size, from as int, *direction, steps as int, filled)) by {
                let failed = side_cell(from as int, size, *direction, x + 1);
                assert(on_border(size, failed) || (filled && cells[failed] < 1));
            }
            return None;
        }
        x += 1;
    }
    Some(index)
}

/// Whether the ring of entries at `bloat_level - 1` steps around `current_index` holds data
/// throughout and lies strictly inside the matrix.
pub fn trace_at(full_data: &Vmatrix<u32>, bloat_level: u32, row_size: usize, current_index: usize) -> (traced:
    bool)
    requires
        full_data.wf(),
        row_size == full_data.size,
        current_index < full_data@.cells.len(),
        1 <= bloat_level <= 0x8000_0000,
        bloat_level == 1 || !on_border(full_data.size as int, current_index as int),
    ensures
        traced == traced_at(
            full_data@.cells,
            full_data.size as int,
            current_index as int,
            bloat_level as int,
        ),
        bloat_level > 1 ==> traced == (ring_fits(
            full_data.size as int,
            current_index as int,
            bloat_level - 1,
        ) && ring_filled(full_data@.cells, full_data.size as int, current_index as int, bloat_level - 1)),
{
    proof {
        if bloat_level > 1 {
            let cells = full_data@.cells;
            let size = full_data.size as int;
            let index = current_index as int;
            let half = bloat_level - 1;
            if traced_at(cells, size, index, half + 1) {
                traced_ring_is_filled(cells, size, index, half);
            }
            if ring_fits(size, index, half) && ring_filled(cells, size, index, half) {
                filled_ring_is_traced(cells, size, index, half);
            }
        }
    }
    let bloat_half_step: u32 = bloat_level - 1;
    let bloat_full_step: u32 = bloat_half_step * 2;
    let ghost cells = full_data@.cells;
    let ghost size = row_size as int;
    let ghost half = bloat_half_step as int;
    let ghost south = current_index - half * size;

    if bloat_half_step == 0 {
        assert(forall|d: Trigonometric, from: int|
            #![trigger side_clear(cells, size, from, d, 0, true)]
            side_clear(cells, size, from, d, 0, true) && side_clear(
                cells,
                size,
                from,
                d,
                0,
                false,
            ));
        assert(half * size == 0 && 2 * half * size == 0) by (nonlinear_arith)
            requires
                half == 0,
        ;
        return full_data.data[current_index] >= 1;
    }
    proof {
        assert(side_cell(current_index as int, size, Trigonometric::SIN, half) == south)
            by (nonlinear_arith)
            requires
                south == current_index - half * size,
                side_cell(current_index as int, size, Trigonometric::SIN, half) == current_index
                    + half * (-size),
        ;
        assert(side_cell(south, size, Trigonometric::COS, half) == south + half);
        assert(side_cell(south + half, size, Trigonometric::NSIN, 2 * half) == south + half + 2
            * half * size) by (nonlinear_arith)
            requires
                side_cell(south + half, size, Trigonometric::NSIN, 2 * half) == south + half + (2
                    * half) * size,
        ;
        assert(side_cell(south + half + 2 * half * size, size, Trigonometric::NCOS, 2 * half)
            == south - half + 2 * half * size);
        assert(side_cell(south - half + 2 * half * size, size, Trigonometric::SIN, 2 * half)
            == south - half) by (nonlinear_arith)
            requires
                side_cell(south - half + 2 * half * size, size, Trigonometric::SIN, 2 * half)
                    == south - half + 2 * half * size + (2 * half) * (-size),
        ;
    }

    let index_at_12: usize = match trace_side(
        full_data,
        current_index,
        &Trigonometric::SIN,
        bloat_half_step,
        false,
    ) {
        Some(index) => index,
        None => {
            return false;
        },
    };
    if full_data.data[index_at_12] < 1 {
        return false;
    }
    let index_until_hpone: usize = match trace_side(
        full_data,
        index_at_12,
        &Trigonometric::COS,
        bloat_half_step,
        true,
    ) {
        Some(index) => index,
        None => {
            return false;
        },
    };
    let index_until_hpfour: usize = match trace_side(
        full_data,
        index_until_hpone,
        &Trigonometric::NSIN,
        bloat_full_step,
        true,
    ) {
        Some(index) => index,
        None => {
            return false;
        },
    };
    let index_until_hpseven: usize = match trace_side(
        full_data,
        index_until_hpfour,
        &Trigonometric::NCOS,
        bloat_full_step,
        true,
    ) {
        Some(index) => index,
        None => {
            return false;
        },
    };
    let index_until_hpeleven: usize = match trace_side(
        full_data,
        index_until_hpseven,
        &Trigonometric::SIN,
        bloat_full_step,
        true,
    ) {
        Some(index) => index,
        None => {
            return false;
        },
    };
    match trace_side(full_data, index_until_hpeleven, &Trigonometric::COS, bloat_half_step, true) {
        Some(_) => true,
        None => false,
    }
}

/// Mark every entry with the widest level of bloat found around it. Passes are made at
/// rising levels, beginning with 1: an entry strictly inside the matrix that holds 1 takes
/// the level as its mark in the first matrix of `global_data` when its ring at that level
/// holds data throughout. The passes end with the first that changes no mark, and before the
/// level reaches half the row size.
pub fn write_bloats(global_data: &mut GlobalCurveData, input_data: &Vmatrix<u32>)
    requires
        old(global_data).wf(),
        input_data.wf(),
        input_data.size == old(global_data).row_size,
    ensures
        final(global_data).wf(),
        final(global_data).row_size == old(global_data).row_size,
        final(global_data).curves_global_orderd == old(global_data).curves_global_orderd,
        final(global_data).global_output_number == old(global_data).global_output_number,
        final(global_data).global_orderd_cardin == old(global_data).global_orderd_cardin,
        final(global_data).curves_global_output@.cells == bloated(
            input_data@.cells,
            input_data.size as int,
            old(global_data).curves_global_output@.cells,
            1,
            input_data.size as int / 2,
        ),
{
    let row_size: usize = global_data.row_size;
    let data_size: usize = input_data.data.len();
    assert(data_size == row_size * row_size);
    assert(row_size <= 0xFFFF_FFFF) by (nonlinear_arith)
        requires
            row_size * row_size <= usize::MAX,
            usize::MAX <= 0xFFFF_FFFF_FFFF_FFFF,
            0 <= row_size,
    ;

    let mut bloat_level: u32 = 1;
    let maximum_bloat: u32 = (row_size / 2) as u32;
    let mut bloat_increased = true;

    let ghost cells = input_data@.cells;
    let ghost size = row_size as int;
    let ghost goal = bloated(cells, size, old(global_data).curves_global_output@.cells, 1, size / 2);

    while bloat_level < maximum_bloat && bloat_increased
        invariant
            cells == input_data@.cells,
            size == row_size,
            input_data.wf(),
            input_data.size == row_size,
            data_size == cells.len(),
            maximum_bloat == size / 2,
            maximum_bloat <= 0x7FFF_FFFF,
            1 <= bloat_level,
            bloat_level <= maximum_bloat || bloat_level == 1,
            global_data.wf(),
            global_data.row_size == row_size,
            global_data.curves_global_orderd == old(global_data).curves_global_orderd,
            global_data.global_output_number == old(global_data).global_output_number,
            global_data.global_orderd_cardin == old(global_data).global_orderd_cardin,
            goal == bloated(cells, size, old(global_data).curves_global_output@.cells, 1, size / 2),
            bloat_increased ==> goal == bloated(
                cells,
                size,
                global_data.curves_global_output@.cells,
                bloat_level as int,
                size / 2,
            ),
            !bloat_increased ==> goal == global_data.curves_global_output@.cells,
        decreases maximum_bloat - bloat_level,
    {
        bloat_increased = false;
        let ghost marks = global_data.curves_global_output@.cells;
        let mut i: usize = 0;
        while i < data_size
            invariant
                i <= data_size,
                cells == input_data@.cells,
                size == row_size,
                input_data.wf(),
                input_data.size == row_size,
                data_size == cells.len(),
                1 <= bloat_level < maximum_bloat,
                maximum_bloat <= 0x7FFF_FFFF,
                global_data.wf(),
                global_data.row_size == row_size,
                marks.len() == data_size,
                global_data.curves_global_orderd == old(global_data).curves_global_orderd,
                global_data.global_output_number == old(global_data).global_output_number,
                global_data.global_orderd_cardin == old(global_data).global_orderd_cardin,
                forall|k: int|
                    0 <= k < i ==> global_data.curves_global_output@.cells[k] == bloat_pass(
                        cells,
                        size,
                        marks,
                        bloat_level as int,
                    )[k],
                forall|k: int|
                    i <= k < data_size ==> global_data.curves_global_output@.cells[k] == marks[k],
                bloat_increased == exists|k: int|
                    0 <= k < i && #[trigger] bloat_pass(cells, size, marks, bloat_level as int)[k]
                        != marks[k],
            decreases data_size - i,
        {
            if !input_data.test_border_index(i) {
                if input_data.data[i] == 1 && global_data.curves_global_output.data[i]
                    != bloat_level {
                    if trace_at(input_data, bloat_level, row_size, i) {
                        global_data.curves_global_output.data[i] = bloat_level;
                        bloat_increased = true;
                        assert(bloat_pass(cells, size, marks, bloat_level as int)[i as int]
                            != marks[i as int]);
                    }
                }
            }
            i += 1;
        }
        proof {
            let next = bloat_pass(cells, size, marks, bloat_level as int);
            assert(global_data.curves_global_output@.cells =~= next);
            if !bloat_increased {
                assert(next =~= marks);
            } else {
                let k = choose|k: int| 0 <= k < data_size && #[trigger] next[k] != marks[k];
                assert(next != marks);
            }
        }
        bloat_level += 1;
    }
}

/// The entry that lies `dy` rows and `dx` columns from an entry.
pub open spec fn ring_entry(index: int, size: int, dy: int, dx: int) -> int {
    index + dy * size + dx
}

/// Whether an entry `dy` rows and `dx` columns from the middle lies on the square ring at
/// `half` steps from the middle.
pub open spec fn on_ring(half: int, dy: int, dx: int) -> bool {
    &&& -half <= dy <= half
    &&& -half <= dx <= half
    &&& (dy == -half || dy == half || dx == -half || dx == half)
}

/// Whether the square ring at `half` steps around an entry lies strictly inside the matrix.
pub open spec fn ring_fits(size: int, index: int, half: int) -> bool {
    &&& 1 <= index / size - half
    &&& index / size + half <= size - 2
    &&& 1 <= index % size - half
    &&& index % size + half <= size - 2
}

/// Whether every entry of the square ring at `half` steps around an entry holds data.
pub open spec fn ring_filled(cells: Seq<u32>, size: int, index: int, half: int) -> bool {
    forall|dy: int, dx: int|
        on_ring(half, dy, dx) ==> cells[#[trigger] ring_entry(index, size, dy, dx)] >= 1
}

/// Row and column of an entry that lies `dy` rows and `dx` columns from another, as long as
/// the column stays inside the matrix.
pub proof fn entry_coordinates(size: int, index: int, dy: int, dx: int)
    requires
        size > 0,
        0 <= index % size + dx < size,
    ensures
        ring_entry(index, size, dy, dx) / size == index / size + dy,
        ring_entry(index, size, dy, dx) % size == index % size + dx,
{
    vstd::arithmetic::div_mod::lemma_fundamental_div_mod(index, size);
    assert(index + dy * size + dx == (index / size + dy) * size + (index % size + dx))
        by (nonlinear_arith)
        requires
            index == size * (index / size) + index % size,
    ;
    vstd::arithmetic::div_mod::lemma_fundamental_div_mod_converse(
        ring_entry(index, size, dy, dx),
        size,
        index / size + dy,
        index % size + dx,
    );
}

/// Entries that lie side by side strictly inside the matrix lie in one row: going east from
/// an entry, the column grows by one with every step.
pub proof fn east_stays_in_row(size: int, from: int, steps: int)
    requires
        size > 0,
        0 <= steps,
        forall|j: int|
            0 <= j <= steps ==> !on_border(size, #[trigger] ring_entry(from, size, 0, j)),
    ensures
        from % size + steps <= size - 2,
        ring_entry(from, size, 0, steps) % size == from % size + steps,
    decreases steps,
{
    if steps == 0 {
        assert(ring_entry(from, size, 0, 0) == from);
    } else {
        east_stays_in_row(size, from, steps - 1);
        entry_coordinates(size, from, 0, steps);
        assert(!on_border(size, ring_entry(from, size, 0, steps)));
    }
}

/// Going west from an entry, the column falls by one with every step, as long as the
/// entries lie strictly inside the matrix.
pub proof fn west_stays_in_row(size: int, from: int, steps: int)
    requires
        size > 0,
        0 <= steps,
        forall|j: int|
            0 <= j <= steps ==> !on_border(size, #[trigger] ring_entry(from, size, 0, -j)),
    ensures
        1 <= from % size - steps,
        ring_entry(from, size, 0, -steps) % size == from % size - steps,
    decreases steps,
{
    if steps == 0 {
        assert(ring_entry(from, size, 0, 0) == from);
        assert(!on_border(size, ring_entry(from, size, 0, -0)));
    } else {
        west_stays_in_row(size, from, steps - 1);
        vstd::arithmetic::div_mod::lemma_mod_bound(from, size);
        entry_coordinates(size, from, 0, -steps);
        assert(!on_border(size, ring_entry(from, size, 0, -steps)));
    }
}

/// A ring that lies strictly inside the matrix and holds data throughout is traced.
pub proof fn filled_ring_is_traced(cells: Seq<u32>, size: int, index: int, half: int)
    requires
        size > 0,
        half >= 1,
        ring_fits(size, index, half),
        ring_filled(cells, size, index, half),
    ensures
        traced_at(cells, size, index, half + 1),
{
    let south = index - half * size;
    assert forall|dy: int, dx: int| -half <= dy <= half && -half <= dx <= half implies !on_border(
        size,
        #[trigger] ring_entry(index, size, dy, dx),
    ) by {
        entry_coordinates(size, index, dy, dx);
    }
    assert forall|j: int| 1 <= j <= half implies !on_border(
        size,
        #[trigger] side_cell(index, size, Trigonometric::SIN, j),
    ) by {
        assert(side_cell(index, size, Trigonometric::SIN, j) == ring_entry(index, size, -j, 0))
            by (nonlinear_arith)
            requires
                side_cell(index, size, Trigonometric::SIN, j) == index + j * (-size),
                ring_entry(index, size, -j, 0) == index + (-j) * size + 0,
        ;
    }
    assert(south == ring_entry(index, size, -half, 0)) by (nonlinear_arith)
        requires
            south == index - half * size,
            ring_entry(index, size, -half, 0) == index + (-half) * size + 0,
    ;
    assert(on_ring(half, -half, 0));
    assert forall|j: int| 1 <= j <= half implies {
        &&& !on_border(size, #[trigger] side_cell(south, size, Trigonometric::COS, j))
        &&& cells[side_cell(south, size, Trigonometric::COS, j)] >= 1
    } by {
        assert(side_cell(south, size, Trigonometric::COS, j) == ring_entry(index, size, -half, j))
            by (nonlinear_arith)
            requires
                south == index - half * size,
                side_cell(south, size, Trigonometric::COS, j) == south + j * 1,
                ring_entry(index, size, -half, j) == index + (-half) * size + j,
        ;
        assert(on_ring(half, -half, j));
    }
    assert forall|j: int| 1 <= j <= 2 * half implies {
        &&& !on_border(size, #[trigger] side_cell(south + half, size, Trigonometric::NSIN, j))
        &&& cells[side_cell(south + half, size, Trigonometric::NSIN, j)] >= 1
    } by {
        assert(side_cell(south + half, size, Trigonometric::NSIN, j) == ring_entry(
            index,
            size,
            j - half,
            half,
        )) by (nonlinear_arith)
            requires
                south == index - half * size,
                side_cell(south + half, size, Trigonometric::NSIN, j) == south + half + j * size,
                ring_entry(index, size, j - half, half) == index + (j - half) * size + half,
        ;
        assert(on_ring(half, j - half, half));
    }
    assert forall|j: int| 1 <= j <= 2 * half implies {
        &&& !on_border(
            size,
            #[trigger] side_cell(south + half + 2 * half * size, size, Trigonometric::NCOS, j),
        )
        &&& cells[side_cell(south + half + 2 * half * size, size, Trigonometric::NCOS, j)] >= 1
    } by {
        assert(side_cell(south + half + 2 * half * size, size, Trigonometric::NCOS, j)
            == ring_entry(index, size, half, half - j)) by (nonlinear_arith)
            requires
                south == index - half * size,
                side_cell(south + half + 2 * half * size, size, Trigonometric::NCOS, j) == south
                    + half + 2 * half * size + j * (-1),
                ring_entry(index, size, half, half - j) == index + half * size + (half - j),
        ;
        assert(on_ring(half, half, half - j));
    }
    assert forall|j: int| 1 <= j <= 2 * half implies {
        &&& !on_border(
            size,
            #[trigger] side_cell(south - half + 2 * half * size, size, Trigonometric::SIN, j),
        )
        &&& cells[side_cell(south - half + 2 * half * size, size, Trigonometric::SIN, j)] >= 1
    } by {
        assert(side_cell(south - half + 2 * half * size, size, Trigonometric::SIN, j)
            == ring_entry(index, size, half - j, -half)) by (nonlinear_arith)
            requires
                south == index - half * size,
                side_cell(south - half + 2 * half * size, size, Trigonometric::SIN, j) == south
                    - half + 2 * half * size + j * (-size),
                ring_entry(index, size, half - j, -half) == index + (half - j) * size + (-half),
        ;
        assert(on_ring(half, half - j, -half));
    }
    assert forall|j: int| 1 <= j <= half implies {
        &&& !on_border(size, #[trigger] side_cell(south - half, size, Trigonometric::COS, j))
        &&& cells[side_cell(south - half, size, Trigonometric::COS, j)] >= 1
    } by {
        assert(side_cell(south - half, size, Trigonometric::COS, j) == ring_entry(
            index,
            size,
            -half,
            j - half,
        )) by (nonlinear_arith)
            requires
                south == index - half * size,
                side_cell(south - half, size, Trigonometric::COS, j) == south - half + j * 1,
                ring_entry(index, size, -half, j - half) == index + (-half) * size + (j - half),
        ;
        assert(on_ring(half, -half, j - half));
    }
}

/// A traced ring lies strictly inside the matrix and holds data throughout.
pub proof fn traced_ring_is_filled(cells: Seq<u32>, size: int, index: int, half: int)
    requires
        size > 0,
        half >= 1,
        traced_at(cells, size, index, half + 1),
    ensures
        ring_fits(size, index, half),
        ring_filled(cells, size, index, half),
{
    let south = index - half * size;
    let north = index + half * size;
    vstd::arithmetic::div_mod::lemma_mod_bound(index, size);
    // The four sides, as entries of the ring.
    assert forall|j: int| 1 <= j <= half implies !on_border(
        size,
        #[trigger] ring_entry(index, size, -j, 0),
    ) by {
        let cell = side_cell(index, size, Trigonometric::SIN, j);
        assert(cell == ring_entry(index, size, -j, 0)) by (nonlinear_arith)
            requires
                cell == index + j * (-size),
                ring_entry(index, size, -j, 0) == index + (-j) * size + 0,
        ;
    }
    assert(south == ring_entry(index, size, -half, 0)) by (nonlinear_arith)
        requires
            south == index - half * size,
            ring_entry(index, size, -half, 0) == index + (-half) * size + 0,
    ;
    assert forall|j: int| 1 <= j <= half implies {
        &&& !on_border(size, #[trigger] ring_entry(index, size, -half, j))
        &&& cells[ring_entry(index, size, -half, j)] >= 1
    } by {
        let cell = side_cell(south, size, Trigonometric::COS, j);
        assert(cell == ring_entry(index, size, -half, j)) by (nonlinear_arith)
            requires
                south == index - half * size,
                cell == south + j * 1,
                ring_entry(index, size, -half, j) == index + (-half) * size + j,
        ;
    }
    assert forall|j: int| 1 <= j <= 2 * half implies {
        &&& !on_border(size, #[trigger] ring_entry(index, size, j - half, half))
        &&& cells[ring_entry(index, size, j - half, half)] >= 1
    } by {
        let cell = side_cell(south + half, size, Trigonometric::NSIN, j);
        assert(cell == ring_entry(index, size, j - half, half)) by (nonlinear_arith)
            requires
                south == index - half * size,
                cell == south + half + j * size,
                ring_entry(index, size, j - half, half) == index + (j - half) * size + half,
        ;
    }
    assert forall|j: int| 1 <= j <= 2 * half implies {
        &&& !on_border(size, #[trigger] ring_entry(index, size, half, half - j))
        &&& cells[ring_entry(index, size, half, half - j)] >= 1
    } by {
        let cell = side_cell(south + half + 2 * half * size, size, Trigonometric::NCOS, j);
        assert(cell == ring_entry(index, size, half, half - j)) by (nonlinear_arith)
            requires
                south == index - half * size,
                cell == south + half + 2 * half * size + j * (-1),
                ring_entry(index, size, half, half - j) == index + half * size + (half - j),
        ;
    }
    assert forall|j: int| 1 <= j <= 2 * half implies {
        &&& !on_border(size, #[trigger] ring_entry(index, size, half - j, -half))
        &&& cells[ring_entry(index, size, half - j, -half)] >= 1
    } by {
        let cell = side_cell(south - half + 2 * half * size, size, Trigonometric::SIN, j);
        assert(cell == ring_entry(index, size, half - j, -half)) by (nonlinear_arith)
            requires
                south == index - half * size,
                cell == south - half + 2 * half * size + j * (-size),
                ring_entry(index, size, half - j, -half) == index + (half - j) * size + (-half),
        ;
    }
    assert forall|j: int| 1 <= j <= half implies {
        &&& !on_border(size, #[trigger] ring_entry(index, size, -half, j - half))
        &&& cells[ring_entry(index, size, -half, j - half)] >= 1
    } by {
        let cell = side_cell(south - half, size, Trigonometric::COS, j);
        assert(cell == ring_entry(index, size, -half, j - half)) by (nonlinear_arith)
            requires
                south == index - half * size,
                cell == south - half + j * 1,
                ring_entry(index, size, -half, j - half) == index + (-half) * size + (j - half),
        ;
    }
    // Rows of the ring.
    entry_coordinates(size, index, -half, 0);
    entry_coordinates(size, index, half, 0);
    assert(!on_border(size, ring_entry(index, size, -half, 0)));
    assert(!on_border(size, ring_entry(index, size, half, half - half)));
    // Columns of the ring, along its south side.
    assert forall|j: int| 0 <= j <= half implies !on_border(
        size,
        #[trigger] ring_entry(south, size, 0, j),
    ) by {
        assert(ring_entry(south, size, 0, j) == ring_entry(index, size, -half, j));
    }
    east_stays_in_row(size, south, half);
    assert(!on_border(size, ring_entry(index, size, half - 2 * half, -half)));
    assert forall|j: int| 0 <= j <= half implies !on_border(
        size,
        #[trigger] ring_entry(south, size, 0, -j),
    ) by {
        assert(ring_entry(south, size, 0, -j) == ring_entry(index, size, -half, (half - j) - half));
        if j == half {
            assert(ring_entry(south, size, 0, -j) == ring_entry(
                index,
                size,
                half - 2 * half,
                -half,
            ));
        }
    }
    west_stays_in_row(size, south, half);
    assert(south % size == index % size);
    // Every entry of the ring lies on one of the sides.
    assert forall|dy: int, dx: int| on_ring(half, dy, dx) implies cells[#[trigger] ring_entry(
        index,
        size,
        dy,
        dx,
    )] >= 1 by {
        if dy == -half {
            if dx == 0 {
            } else if dx > 0 {
                assert(cells[ring_entry(index, size, -half, dx)] >= 1);
            } else if dx > -half {
                assert(cells[ring_entry(index, size, -half, (dx + half) - half)] >= 1);
            } else {
                assert(cells[ring_entry(index, size, half - 2 * half, -half)] >= 1);
            }
        } else if dx == half {
            assert(cells[ring_entry(index, size, (dy + half) - half, half)] >= 1);
        } else if dy == half {
            assert(cells[ring_entry(index, size, half, half - (half - dx))] >= 1);
        } else {
            assert(cells[ring_entry(index, size, half - (half - dy), -half)] >= 1);
        }
    }
}

} // verus!
