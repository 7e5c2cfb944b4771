use crate::def::trigonometric::Trigonometric;
use crate::def::vmatrix::Vmatrix;
use vstd::prelude::*;

verus! {

/// A walk along a curve checks at most this many times the number of entries before it gives
/// up. The bound is there to stop a walk that circles without ever closing, not to tune
/// performance.
pub const MAX_CHECKS_FACTOR: usize = 8;

/// Shared data for a series of closed curve operations.
pub struct GlobalCurveData {
    /// All operations share the row size.
    pub row_size: usize,
    /// All the points that define separate curves.
    pub curves_global_output: Vmatrix<u32>,
    /// The order of the points that define each curve.
    pub curves_global_orderd: Vmatrix<u32>,
    /// Each new curve is defined by this increasing value.
    pub global_output_number: usize,
    /// Each new point within the current curve is ordered according to this increasing value.
    pub global_orderd_cardin: usize,
}

/// A walk along a curve gave up: it used all its checks without closing the curve or coming
/// to rest. `index` is the entry at which the walk began.
pub struct CurveFailure {
    pub index: usize,
}

impl GlobalCurveData {
    /// Whether both matrices are square with rows of `row_size` entries.
    pub open spec fn wf(&self) -> bool {
        &&& self.curves_global_output.wf()
        &&& self.curves_global_orderd.wf()
        &&& self.curves_global_output.size == self.row_size
        &&& self.curves_global_orderd.size == self.row_size
    }

    /// Set the initial values for the data that will be shared throughout the operation:
    /// two matrices of zeros, the first curve numbered 1 and no point ordered yet.
    pub fn new(size: usize) -> (data: GlobalCurveData)
        requires
            size * size <= usize::MAX,
        ensures
            data.wf(),
            data.row_size == size,
            forall|k: int| 0 <= k < size * size ==> data.curves_global_output@.cells[k] == 0,
            forall|k: int| 0 <= k < size * size ==> data.curves_global_orderd@.cells[k] == 0,
            data.global_output_number == 1,
            data.global_orderd_cardin == 0,
    {
        GlobalCurveData {
            row_size: size,
            curves_global_output: Vmatrix::<u32>::initialize(size, 0),
            curves_global_orderd: Vmatrix::<u32>::initialize(size, 0),
            global_output_number: 1,
            global_orderd_cardin: 0,
        }
    }

    /// Transpose both internal matrices, which allows to operate against fixed data that
    /// cannot be transposed itself.
    pub fn transpose_internal(&mut self)
        requires
            old(self).wf(),
        ensures
            final(self).wf(),
            final(self).row_size == old(self).row_size,
            final(self).curves_global_output@.cells == crate::def::vmatrix::transposed(
                old(self).curves_global_output@.cells,
                old(self).row_size as int,
            ),
            final(self).curves_global_orderd@.cells == crate::def::vmatrix::transposed(
                old(self).curves_global_orderd@.cells,
                old(self).row_size as int,
            ),
            final(self).global_output_number == old(self).global_output_number,
            final(self).global_orderd_cardin == old(self).global_orderd_cardin,
    {
        self.curves_global_output.transpose();
        self.curves_global_orderd.transpose();
    }
}

/// The number of checks a walk over `length` entries may make.
pub open spec fn check_budget(length: int) -> int {
    length * MAX_CHECKS_FACTOR
}

/// One attempt to move while drawing: the entry one step from `from` is taken when it lies
/// inside the data, holds 1 in `cells` and is not marked 1 in `output`. It is then marked 2,
/// and the attempt gives the marked output and the entry; otherwise it gives the output as
/// it was and `from`.
pub open spec fn paint_attempt(
    cells: Seq<u32>,
    output: Seq<u32>,
    from: int,
    row_size: int,
    direction: Trigonometric,
    offset: int,
) -> (Seq<u32>, int) {
    let target = Trigonometric::index_from_direction(from, row_size, direction, offset);
    if 0 <= target < cells.len() && cells[target] == 1 && output[target] != 1 {
        (output.update(target, 2), target)
    } else {
        (output, from)
    }
}

/// State of a walk that draws a curve.
pub struct DrawWalk {
    /// The marks made so far.
    pub output: Seq<u32>,
    /// The direction in which the walk tries to go on.
    pub direction: Trigonometric,
    /// The entry on which the walk stands.
    pub index: int,
    /// Quarter turns made since the last move.
    pub turns: int,
    /// Checks made so far.
    pub checks: int,
}

/// How a walk that draws a curve ended.
pub struct DrawEnd {
    /// The marks when the walk ended.
    pub output: Seq<u32>,
    /// Whether the walk used up its checks on a turn.
    pub gave_up: bool,
}

/// The three attempts of one check, in order: straight on, diagonally toward the next
/// direction of the cycle, and in that next direction. The first attempt that reaches another
/// entry ends the check.
pub open spec fn draw_attempts(
    cells: Seq<u32>,
    output: Seq<u32>,
    from: int,
    row_size: int,
    direction: Trigonometric,
) -> (Seq<u32>, int) {
    let straight = paint_attempt(cells, output, from, row_size, direction, 0);
    if straight.1 != from {
        straight
    } else {
        let diagonal = paint_attempt(cells, straight.0, from, row_size, direction, -1);
        if diagonal.1 != from {
            diagonal
        } else {
            paint_attempt(cells, diagonal.0, from, row_size, direction.spec_derivative(), 0)
        }
    }
}

/// The end of a walk that draws the outline of a body of entries holding 1, from the given
/// state on. The walk rests when it stands outside the data, has no check left or has turned
/// four times in place. Otherwise it makes its attempts: a move back to `start` closes the
/// curve, any other move is followed with the turns counted anew. When no attempt moves, the
/// walk turns to the next direction; it gives up when that was its last check.
pub open spec fn draw_from(
    cells: Seq<u32>,
    row_size: int,
    start: int,
    budget: int,
    walk: DrawWalk,
) -> DrawEnd
    decreases budget - walk.checks,
{
    if walk.index >= cells.len() || walk.checks >= budget || walk.turns >= 4 {
        DrawEnd { output: walk.output, gave_up: false }
    } else {
        let tried = draw_attempts(cells, walk.output, walk.index, row_size, walk.direction);
        if tried.1 != walk.index {
            if tried.1 == start {
                DrawEnd { output: tried.0, gave_up: false }
            } else {
                draw_from(
                    cells,
                    row_size,
                    start,
                    budget,
                    DrawWalk {
                        output: tried.0,
                        direction: walk.direction,
                        index: tried.1,
                        turns: 0,
                        checks: walk.checks + 1,
                    },
                )
            }
        } else if walk.checks + 1 >= budget {
            DrawEnd { output: tried.0, gave_up: true }
        } else {
            draw_from(
                cells,
                row_size,
                start,
                budget,
                DrawWalk {
                    output: tried.0,
                    direction: walk.direction.spec_derivative(),
                    index: walk.index,
                    turns: walk.turns + 1,
                    checks: walk.checks + 1,
                },
            )
        }
    }
}

/// Whether marks were only added by drawing: every entry is as it was, or was not marked 1,
/// holds 1 in `cells` and is now marked 2.
pub open spec fn drawn_over(cells: Seq<u32>, before: Seq<u32>, after: Seq<u32>) -> bool {
    &&& after.len() == before.len()
    &&& forall|k: int|
        0 <= k < before.len() ==> #[trigger] after[k] == before[k] || (after[k] == 2 && cells[k] == 1
            && before[k] != 1)
}

/// The attempts of one check only add marks by drawing.
pub proof fn attempts_draw_over(
    cells: Seq<u32>,
    output: Seq<u32>,
    from: int,
    row_size: int,
    direction: Trigonometric,
)
    requires
        output.len() == cells.len(),
    ensures
        drawn_over(cells, output, draw_attempts(cells, output, from, row_size, direction).0),
{
    let straight = paint_attempt(cells, output, from, row_size, direction, 0);
    let diagonal = paint_attempt(cells, straight.0, from, row_size, direction, -1);
    let turned = paint_attempt(cells, diagonal.0, from, row_size, direction.spec_derivative(), 0);
    assert(drawn_over(cells, output, straight.0));
    assert(drawn_over(cells, output, diagonal.0));
    assert(drawn_over(cells, output, turned.0));
}

/// A walk that draws a curve writes nothing but the mark 2, and only on entries that hold 1
/// in the data and are not marked 1: every other entry is at the end as it was before.
pub proof fn draw_only_marks_filled(
    cells: Seq<u32>,
    row_size: int,
    start: int,
    budget: int,
    walk: DrawWalk,
)
    requires
        walk.output.len() == cells.len(),
    ensures
        drawn_over(cells, walk.output, draw_from(cells, row_size, start, budget, walk).output),
    decreases budget - walk.checks,
{
    if !(walk.index >= cells.len() || walk.checks >= budget || walk.turns >= 4) {
        let tried = draw_attempts(cells, walk.output, walk.index, row_size, walk.direction);
        attempts_draw_over(cells, walk.output, walk.index, row_size, walk.direction);
        if tried.1 != walk.index {
            if tried.1 != start {
                let next = DrawWalk {
                    output: tried.0,
                    direction: walk.direction,
                    index: tried.1,
                    turns: 0,
                    checks: walk.checks + 1,
                };
                draw_only_marks_filled(cells, row_size, start, budget, next);
                let end = draw_from(cells, row_size, start, budget, next).output;
                assert(drawn_over(cells, walk.output, end));
            }
        } else if walk.checks + 1 < budget {
            let next = DrawWalk {
                output: tried.0,
                direction: walk.direction.spec_derivative(),
                index: walk.index,
                turns: walk.turns + 1,
                checks: walk.checks + 1,
            };
            draw_only_marks_filled(cells, row_size, start, budget, next);
            let end = draw_from(cells, row_size, start, budget, next).output;
            assert(drawn_over(cells, walk.output, end));
        }
    }
}

/// The state in which a walk begins at `start`: heading east, with no turn and no check made.
pub open spec fn draw_begin(output: Seq<u32>, start: int) -> DrawWalk {
    DrawWalk { output, direction: Trigonometric::COS, index: start, turns: 0, checks: 0 }
}

/// Whether the scan of [hollow_set] stands behind an anchor of the same row from which only
/// entries other than zero in `cells` lead up to index `i`.
pub open spec fn anchor_open(
    cells: Seq<u32>,
    output: Seq<u32>,
    row_size: int,
    anchor: u32,
    i: int,
) -> bool
    decreases i,
{
    if i <= 0 || row_size <= 0 || i % row_size == 0 {
        false
    } else {
        output[i - 1] == anchor || (anchor_open(cells, output, row_size, anchor, i - 1) && cells[i
            - 1] != 0)
    }
}

/// Whether an anchor stands before index `i` in its row, with nothing but entries other
/// than zero in `cells` between the two.
pub open spec fn anchored_before(
    cells: Seq<u32>,
    output: Seq<u32>,
    row_size: int,
    anchor: u32,
    i: int,
) -> bool {
    exists|j: int|
        i - i % row_size <= j < i && #[trigger] output[j] == anchor && forall|k: int|
            j < k < i ==> #[trigger] cells[k] != 0
}

/// The scan stands behind an open anchor exactly where an anchor stands before in the row
/// with nothing but filled entries in between.
pub proof fn anchor_open_is_anchored(
    cells: Seq<u32>,
    output: Seq<u32>,
    row_size: int,
    anchor: u32,
    i: int,
)
    requires
        row_size > 0,
        0 <= i,
    ensures
        anchor_open(cells, output, row_size, anchor, i) == anchored_before(
            cells,
            output,
            row_size,
            anchor,
            i,
        ),
    decreases i,
{
    if i <= 0 || i % row_size == 0 {
        if i == 0 {
            vstd::arithmetic::div_mod::lemma_small_mod(0, row_size as nat);
        }
        assert(!anchored_before(cells, output, row_size, anchor, i));
    } else {
        anchor_open_is_anchored(cells, output, row_size, anchor, i - 1);
        vstd::arithmetic::div_mod::lemma_fundamental_div_mod(i, row_size);
        vstd::arithmetic::div_mod::lemma_mod_pos_bound(i, row_size);
        assert(i - 1 == (i / row_size) * row_size + (i % row_size - 1)) by (nonlinear_arith)
            requires
                i == row_size * (i / row_size) + i % row_size,
        ;
        vstd::arithmetic::div_mod::lemma_fundamental_div_mod_converse(
            i - 1,
            row_size,
            i / row_size,
            i % row_size - 1,
        );
        let first = i - i % row_size;
        assert(first == (i - 1) - (i - 1) % row_size);
        if output[i - 1] == anchor {
            assert(first <= i - 1 < i && output[i - 1] == anchor);
        } else if anchored_before(cells, output, row_size, anchor, i - 1) && cells[i - 1] != 0 {
            let j = choose|j: int|
                first <= j < i - 1 && #[trigger] output[j] == anchor && forall|k: int|
                    j < k < i - 1 ==> #[trigger] cells[k] != 0;
            assert(first <= j < i && output[j] == anchor && forall|k: int|
                j < k < i ==> #[trigger] cells[k] != 0);
        } else if anchored_before(cells, output, row_size, anchor, i) {
            let j = choose|j: int|
                first <= j < i && #[trigger] output[j] == anchor && forall|k: int|
                    j < k < i ==> #[trigger] cells[k] != 0;
            assert(j < i - 1);
            assert(cells[i - 1] != 0);
            assert(first <= j < i - 1 && output[j] == anchor && forall|k: int|
                j < k < i - 1 ==> #[trigger] cells[k] != 0);
        }
    }
}

/// The marks after hollowing: behind an anchor, every entry that is filled in `cells` and is
/// not an anchor itself takes the hollow value.
pub open spec fn hollowed(
    cells: Seq<u32>,
    output: Seq<u32>,
    row_size: int,
    anchor: u32,
    hollow: u32,
) -> Seq<u32> {
    Seq::new(
        output.len(),
        |i: int|
            if anchor_open(cells, output, row_size, anchor, i) && cells[i] != 0 && output[i]
                != anchor {
                hollow
            } else {
                output[i]
            },
    )
}

/// The outlines of all bodies from entry `i` on, and the entry at which a walk gave up, if
/// one did. Every entry that holds 1 in `cells` and is still unmarked begins a curve: it is
/// marked 2, the curve is drawn from it, and the marks are hollowed.
pub open spec fn curves_from(
    cells: Seq<u32>,
    row_size: int,
    output: Seq<u32>,
    i: int,
) -> (Seq<u32>, Option<int>)
    decreases cells.len() - i,
{
    if i < 0 || i >= cells.len() {
        (output, None)
    } else if cells[i] == 1 && output[i] == 0 {
        let end = draw_from(
            cells,
            row_size,
            i,
            check_budget(cells.len() as int),
            draw_begin(output.update(i, 2), i),
        );
        if end.gave_up {
            (end.output, Some(i))
        } else {
            curves_from(cells, row_size, hollowed(cells, end.output, row_size, 2, 1), i + 1)
        }
    } else {
        curves_from(cells, row_size, output, i + 1)
    }
}

/// Try to move one step from `from_index`: when the entry reached lies inside the data, holds
/// 1 in `input_data` and is not marked 1 in `result_output`, it is marked 2 and returned.
/// Otherwise nothing changes and `from_index` is returned.
pub fn paint_on_direction(
    from_index: usize,
    row_size: usize,
    direction: &Trigonometric,
    offset: i32,
    input_data: &Vmatrix<u32>,
    result_output: &mut Vmatrix<u32>,
) -> (new_index: usize)
    requires
        old(result_output)@.cells.len() == input_data@.cells.len(),
    ensures
        final(result_output).size == old(result_output).size,
        final(result_output)@.cells.len() == old(result_output)@.cells.len(),
        final(result_output)@.cells == paint_attempt(
            input_data@.cells,
            old(result_output)@.cells,
            from_index as int,
            row_size as int,
            *direction,
            offset as int,
        ).0,
        new_index == paint_attempt(
            input_data@.cells,
            old(result_output)@.cells,
            from_index as int,
            row_size as int,
            *direction,
            offset as int,
        ).1,
{
    let mut new_index = from_index;
    let set_length: usize = input_data.data.len();
    let ghost target = Trigonometric::index_from_direction(
        from_index as int,
        row_size as int,
        *direction,
        offset as int,
    );

    match Trigonometric::checked_index_from_direction(from_index, row_size, direction, offset) {
        Some(result_direction) => {
            if result_direction < set_length {
                if input_data.data[result_direction] == 1 && result_output.data[result_direction]
                    != 1 {
                    result_output.data[result_direction] = 2;
                    new_index = result_direction;
                    assert(result_output@.cells =~= old(result_output)@.cells.update(target, 2));
                }
            }
        },
        None => {
            assert(!(0 <= target < input_data@.cells.len()));
        },
    }

    new_index
}

/// From `input_data`, paint on `result_output` the outline of the closed body that holds the
/// entry `index`, with the row size taken from `global_data`. The walk begins at `index`
/// heading east and marks every entry it moves to with 2. It fails when it uses up its checks
/// without closing the curve or coming to rest.
pub fn draw_curve_on(
    input_data: &Vmatrix<u32>,
    result_output: &mut Vmatrix<u32>,
    global_data: &GlobalCurveData,
    index: usize,
) -> (outcome: Result<(), CurveFailure>)
    requires
        old(result_output)@.cells.len() == input_data@.cells.len(),
    ensures
        final(result_output).size == old(result_output).size,
        final(result_output)@.cells.len() == old(result_output)@.cells.len(),
        ({
            let end = draw_from(
                input_data@.cells,
                global_data.row_size as int,
                index as int,
                check_budget(input_data@.cells.len() as int),
                draw_begin(old(result_output)@.cells, index as int),
            );
            &&& final(result_output)@.cells == end.output
            &&& outcome.is_err() == end.gave_up
            &&& outcome matches Err(failure) ==> failure.index == index
        }),
        drawn_over(input_data@.cells, old(result_output)@.cells, final(result_output)@.cells),
{
    let row_size: usize = global_data.row_size;
    let mut current_direction = Trigonometric::COS;
    let mut current_index: usize = index;
    let set_length: usize = input_data.data.len();
    let mut number_of_checks: u128 = 0;
    let maximum_checks: u128 = set_length as u128 * MAX_CHECKS_FACTOR as u128;
    let mut cardinal_changes: usize = 0;

    let ghost cells = input_data@.cells;
    let ghost rs = row_size as int;
    let ghost start = index as int;
    let ghost budget = check_budget(cells.len() as int);
    let ghost goal = draw_from(cells, rs, start, budget, draw_begin(old(result_output)@.cells, start));
    proof {
        draw_only_marks_filled(cells, rs, start, budget, draw_begin(old(result_output)@.cells, start));
    }

    while current_index < set_length && number_of_checks < maximum_checks && cardinal_changes < 4
        invariant
            cells == input_data@.cells,
            rs == row_size,
            row_size == global_data.row_size,
            start == index,
            set_length == cells.len(),
            budget == maximum_checks,
            budget == check_budget(cells.len() as int),
            result_output.size == old(result_output).size,
            result_output@.cells.len() == set_length,
            number_of_checks <= maximum_checks,
            cardinal_changes <= 4,
            old(result_output)@.cells.len() == set_length,
            drawn_over(cells, old(result_output)@.cells, goal.output),
            goal == draw_from(cells, rs, start, budget, draw_begin(old(result_output)@.cells, start)),
            goal == draw_from(
                cells,
                rs,
                start,
                budget,
                DrawWalk {
                    output: result_output@.cells,
                    direction: current_direction,
                    index: current_index as int,
                    turns: cardinal_changes as int,
                    checks: number_of_checks as int,
                },
            ),
        decreases maximum_checks - number_of_checks,
    {
        let ghost walk = DrawWalk {
            output: result_output@.cells,
            direction: current_direction,
            index: current_index as int,
            turns: cardinal_changes as int,
            checks: number_of_checks as int,
        };
        let mut moved_to: usize = paint_on_direction(
            current_index,
            row_size,
            &current_direction,
            0,
            input_data,
            result_output,
        );
        if moved_to == current_index {
            moved_to =
            paint_on_direction(
                current_index,
                row_size,
                &current_direction,
                -1,
                input_data,
                result_output,
            );
        }
        if moved_to == current_index {
            moved_to =
            paint_on_direction(
                current_index,
                row_size,
                &Trigonometric::derivative(&current_direction),
                0,
                input_data,
                result_output,
            );
        }
        assert((result_output@.cells, moved_to as int) == draw_attempts(
            cells,
            walk.output,
            walk.index,
            rs,
            walk.direction,
        ));
        if moved_to != current_index {
            current_index = moved_to;
            cardinal_changes = 0;
            number_of_checks += 1;
            if moved_to == index {
                return Ok(());
            }
        } else {
            current_direction = Trigonometric::derivative(&current_direction);
            cardinal_changes += 1;
            number_of_checks += 1;
            if number_of_checks >= maximum_checks {
                return Err(CurveFailure { index });
            }
        }
    }
    Ok(())
}

/// Mark the entries that lie behind an anchor in their row, so that no curve is drawn out
/// of them again. Row by row, an entry takes `hollow_value` when it is filled in
/// `input_data`, is not an anchor itself, and an entry marked `anchor_value` precedes it in
/// the row with nothing but filled entries in between.
pub fn hollow_set(
    anchor_value: u32,
    hollow_value: u32,
    row_size: usize,
    input_data: &Vmatrix<u32>,
    result_set: &mut Vmatrix<u32>,
)
    requires
        anchor_value != hollow_value,
        old(result_set)@.cells.len() <= input_data@.cells.len(),
    ensures
        final(result_set).size == old(result_set).size,
        final(result_set)@.cells == hollowed(
            input_data@.cells,
            old(result_set)@.cells,
            row_size as int,
            anchor_value,
            hollow_value,
        ),
{
    let set_size: usize = result_set.data.len();
    let mut anchor_enabled: bool = false;
    let ghost cells = input_data@.cells;
    let ghost before = old(result_set)@.cells;
    let ghost rs = row_size as int;

    let mut i: usize = 0;
    while i < set_size
        invariant
            i <= set_size,
            cells == input_data@.cells,
            before == old(result_set)@.cells,
            rs == row_size,
            anchor_value != hollow_value,
            set_size == before.len(),
            set_size <= cells.len(),
            result_set.size == old(result_set).size,
            result_set@.cells.len() == set_size,
            anchor_enabled == anchor_open(cells, before, rs, anchor_value, i as int),
            forall|k: int|
                0 <= k < i ==> result_set@.cells[k] == hollowed(
                    cells,
                    before,
                    rs,
                    anchor_value,
                    hollow_value,
                )[k],
            forall|k: int| i <= k < set_size ==> result_set@.cells[k] == before[k],
        decreases set_size - i,
    {
        if anchor_enabled && input_data.data[i] != 0 && result_set.data[i] != anchor_value {
            result_set.data[i] = hollow_value;
        }
        if anchor_enabled && input_data.data[i] == 0 {
            anchor_enabled = false;
        }
        if result_set.data[i] == anchor_value {
            anchor_enabled = true;
        }
        if row_size == 0 || (i + 1) % row_size == 0 {
            anchor_enabled = false;
        }
        i += 1;
    }
    assert(result_set@.cells =~= hollowed(cells, before, rs, anchor_value, hollow_value));
}

/// On a data set, find all the closed bodies of entries holding 1 and return their outlines:
/// a matrix of zeros on which every body has its outline marked 2 and the filled entries
/// behind the outline, row by row, marked 1. The entries are visited in index order, and
/// every one that holds 1 and is still unmarked begins a curve. Fails with the entry at which
/// a curve began whose walk gave up.
pub fn get_curves(global_data: &mut GlobalCurveData, input_data: &Vmatrix<u32>) -> (outcome: Result<
    Vmatrix<u32>,
    CurveFailure,
>)
    requires
        input_data.wf(),
        input_data.size == old(global_data).row_size,
    ensures
        *final(global_data) == *old(global_data),
        ({
            let end = curves_from(
                input_data@.cells,
                input_data.size as int,
                Seq::new(input_data@.cells.len(), |k: int| 0u32),
                0,
            );
            match outcome {
                Ok(outlines) => end.1 is None && outlines@.cells == end.0 && outlines.size
                    == input_data.size && outlines.wf(),
                Err(failure) => end.1 == Some(failure.index as int),
            }
        }),
{
    let set_length: usize = input_data.data.len();
    assert(input_data.size * input_data.size == set_length);
    let mut result_set = Vmatrix::<u32>::initialize(global_data.row_size, 0);
    let ghost cells = input_data@.cells;
    let ghost rs = input_data.size as int;
    let ghost goal = curves_from(cells, rs, Seq::new(cells.len(), |k: int| 0u32), 0);
    assert(result_set@.cells =~= Seq::new(cells.len(), |k: int| 0u32));

    let mut i: usize = 0;
    while i < set_length
        invariant
            i <= set_length,
            cells == input_data@.cells,
            rs == input_data.size,
            set_length == cells.len(),
            *global_data == *old(global_data),
            global_data.row_size == input_data.size,
            result_set.size == input_data.size,
            result_set@.cells.len() == set_length,
            goal == curves_from(cells, rs, Seq::new(cells.len(), |k: int| 0u32), 0),
            goal == curves_from(cells, rs, result_set@.cells, i as int),
        decreases set_length - i,
    {
        if input_data.data[i] == 1 && result_set.data[i] == 0 {
            result_set.data[i] = 2;
            match draw_curve_on(input_data, &mut result_set, global_data, i) {
                Ok(()) => {},
                Err(failure) => {
                    return Err(failure);
                },
            }
            hollow_set(2, 1, global_data.row_size, input_data, &mut result_set);
        }
        i += 1;
    }

    Ok(result_set)
}

/// One attempt to move while following an outline: the entry one step from `from` is taken
/// when it lies inside the data and holds 2 in `cells`. It is then marked 1, unless it is
/// marked 3, and the attempt gives the output and the entry; otherwise it gives the output
/// as it was and `from`.
pub open spec fn follow_attempt(
    cells: Seq<u32>,
    output: Seq<u32>,
    from: int,
    row_size: int,
    direction: Trigonometric,
    offset: int,
) -> (Seq<u32>, int) {
    let target = Trigonometric::index_from_direction(from, row_size, direction, offset);
    if 0 <= target < cells.len() && cells[target] == 2 {
        (
            if output[target] != 3 {
                output.update(target, 1)
            } else {
                output
            },
            target,
        )
    } else {
        (output, from)
    }
}

/// The three attempts of one check while following an outline, in the order of
/// [draw_attempts].
pub open spec fn follow_attempts(
    cells: Seq<u32>,
    output: Seq<u32>,
    from: int,
    row_size: int,
    direction: Trigonometric,
) -> (Seq<u32>, int) {
    let straight = follow_attempt(cells, output, from, row_size, direction, 0);
    if straight.1 != from {
        straight
    } else {
        let diagonal = follow_attempt(cells, straight.0, from, row_size, direction, -1);
        if diagonal.1 != from {
            diagonal
        } else {
            follow_attempt(cells, diagonal.0, from, row_size, direction.spec_derivative(), 0)
        }
    }
}

/// State of a walk that follows an outline.
pub struct FollowWalk {
    /// The marks made so far.
    pub output: Seq<u32>,
    /// The direction in which the walk tries to go on.
    pub direction: Trigonometric,
    /// The entry on which the walk stands.
    pub index: int,
    /// Quarter turns made since the last move.
    pub turns: int,
    /// Checks made so far.
    pub checks: int,
    /// The entry farthest from the start among those moved to.
    pub farthest: int,
    /// Square of the distance between the start and that entry.
    pub distance: int,
}

/// How a walk that follows an outline ended.
pub struct FollowEnd {
    /// The marks when the walk ended.
    pub output: Seq<u32>,
    /// The entry that the walk reports: the farthest one when the outline closed, else the
    /// entry on which the walk came to rest.
    pub index: int,
    /// Whether the walk used up its checks on a turn.
    pub gave_up: bool,
}

/// The state in which a walk begins to follow an outline at `start`.
pub open spec fn follow_begin(output: Seq<u32>, start: int) -> FollowWalk {
    FollowWalk {
        output,
        direction: Trigonometric::COS,
        index: start,
        turns: 0,
        checks: 0,
        farthest: 0,
        distance: 0,
    }
}

/// The end of a walk that follows an outline of entries holding 2, from the given state on.
/// It moves and turns as [draw_from] does. After every move it keeps the entry moved to when
/// that lies farther from `start`, in a straight line, than every entry before it. When a
/// move leads back to `start` the outline is closed: the farthest entry is marked 3 and
/// reported.
pub open spec fn follow_from(
    cells: Seq<u32>,
    row_size: int,
    start: int,
    budget: int,
    walk: FollowWalk,
) -> FollowEnd
    decreases budget - walk.checks,
{
    if walk.index >= cells.len() || walk.checks >= budget || walk.turns >= 4 {
        FollowEnd { output: walk.output, index: walk.index, gave_up: false }
    } else {
        let tried = follow_attempts(cells, walk.output, walk.index, row_size, walk.direction);
        if tried.1 != walk.index {
            let reached = crate::def::maths::index_distance_squared(start, tried.1, row_size);
            let farthest = if reached > walk.distance {
                tried.1
            } else {
                walk.farthest
            };
            let distance = if reached > walk.distance {
                reached
            } else {
                walk.distance
            };
            if tried.1 == start {
                FollowEnd { output: tried.0.update(farthest, 3), index: farthest, gave_up: false }
            } else {
                follow_from(
                    cells,
                    row_size,
                    start,
                    budget,
                    FollowWalk {
                        output: tried.0,
                        direction: walk.direction,
                        index: tried.1,
                        turns: 0,
                        checks: walk.checks + 1,
                        farthest,
                        distance,
                    },
                )
            }
        } else if walk.checks + 1 >= budget {
            FollowEnd { output: tried.0, index: walk.index, gave_up: true }
        } else {
            follow_from(
                cells,
                row_size,
                start,
                budget,
                FollowWalk {
                    output: tried.0,
                    direction: walk.direction.spec_derivative(),
                    index: walk.index,
                    turns: walk.turns + 1,
                    checks: walk.checks + 1,
                    farthest: walk.farthest,
                    distance: walk.distance,
                },
            )
        }
    }
}

/// Whether marks were only added by following an outline: every entry is as it was, or
/// holds 2 in `cells` and is now marked 1 or 3.
pub open spec fn followed_over(cells: Seq<u32>, before: Seq<u32>, after: Seq<u32>) -> bool {
    &&& after.len() == before.len()
    &&& forall|k: int|
        0 <= k < before.len() ==> #[trigger] after[k] == before[k] || (cells[k] == 2 && (after[k]
            == 1 || after[k] == 3))
}

/// Two different entries of a matrix lie apart.
pub proof fn distance_of_different_entries(from: int, to: int, row_size: int)
    requires
        row_size > 0,
        0 <= from,
        0 <= to,
        from != to,
    ensures
        crate::def::maths::index_distance_squared(from, to, row_size) > 0,
{
    vstd::arithmetic::div_mod::lemma_fundamental_div_mod(from, row_size);
    vstd::arithmetic::div_mod::lemma_fundamental_div_mod(to, row_size);
    let dx = to % row_size - from % row_size;
    let dy = to / row_size - from / row_size;
    assert(dx != 0 || dy != 0);
    assert(dx * dx + dy * dy > 0) by (nonlinear_arith)
        requires
            dx != 0 || dy != 0,
    ;
}

/// Whether the farthest entry of a walk is known: it is an entry of the outline, or the walk
/// has not moved yet.
pub open spec fn farthest_known(cells: Seq<u32>, start: int, walk: FollowWalk) -> bool {
    &&& walk.distance >= 0
    &&& (0 <= walk.farthest < cells.len() && cells[walk.farthest] == 2) || (walk.distance == 0
        && walk.index == start)
}

/// A walk that follows an outline writes nothing but the marks 1 and 3, and only on entries
/// of the outline: every other entry is at the end as it was before.
pub proof fn follow_only_marks_outline(
    cells: Seq<u32>,
    row_size: int,
    start: int,
    budget: int,
    walk: FollowWalk,
)
    requires
        row_size > 0,
        0 <= start,
        walk.output.len() == cells.len(),
        farthest_known(cells, start, walk),
    ensures
        followed_over(cells, walk.output, follow_from(cells, row_size, start, budget, walk).output),
    decreases budget - walk.checks,
{
    if !(walk.index >= cells.len() || walk.checks >= budget || walk.turns >= 4) {
        let straight = follow_attempt(cells, walk.output, walk.index, row_size, walk.direction, 0);
        let diagonal = follow_attempt(cells, straight.0, walk.index, row_size, walk.direction, -1);
        let turned = follow_attempt(
            cells,
            diagonal.0,
            walk.index,
            row_size,
            walk.direction.spec_derivative(),
            0,
        );
        assert(followed_over(cells, walk.output, straight.0));
        assert(followed_over(cells, walk.output, diagonal.0));
        assert(followed_over(cells, walk.output, turned.0));
        let tried = follow_attempts(cells, walk.output, walk.index, row_size, walk.direction);
        assert(followed_over(cells, walk.output, tried.0));
        if tried.1 != walk.index {
            assert(0 <= tried.1 < cells.len() && cells[tried.1] == 2);
            let reached = crate::def::maths::index_distance_squared(start, tried.1, row_size);
            let farthest = if reached > walk.distance {
                tried.1
            } else {
                walk.farthest
            };
            let distance = if reached > walk.distance {
                reached
            } else {
                walk.distance
            };
            if tried.1 != start {
                distance_of_different_entries(start, tried.1, row_size);
                let next = FollowWalk {
                    output: tried.0,
                    direction: walk.direction,
                    index: tried.1,
                    turns: 0,
                    checks: walk.checks + 1,
                    farthest,
                    distance,
                };
                follow_only_marks_outline(cells, row_size, start, budget, next);
                let end = follow_from(cells, row_size, start, budget, next).output;
                assert(followed_over(cells, walk.output, end));
            } else {
                assert(reached == 0) by (nonlinear_arith)
                    requires
                        reached == (start % row_size - start % row_size) * (start % row_size - start
                            % row_size) + (start / row_size - start / row_size) * (start / row_size
                            - start / row_size),
                ;
                assert(followed_over(cells, walk.output, tried.0.update(farthest, 3)));
            }
        } else if walk.checks + 1 < budget {
            let next = FollowWalk {
                output: tried.0,
                direction: walk.direction.spec_derivative(),
                index: walk.index,
                turns: walk.turns + 1,
                checks: walk.checks + 1,
                farthest: walk.farthest,
                distance: walk.distance,
            };
            follow_only_marks_outline(cells, row_size, start, budget, next);
            let end = follow_from(cells, row_size, start, budget, next).output;
            assert(followed_over(cells, walk.output, end));
        }
    }
}

/// The marks with every entry from `first` to `last`, both included, set to 1.
pub open spec fn flattened(output: Seq<u32>, first: int, last: int) -> Seq<u32> {
    Seq::new(
        output.len(),
        |k: int|
            if first <= k <= last {
                1u32
            } else {
                output[k]
            },
    )
}

/// The curve points from entry `i` on, and the entry at which a walk gave up, if one did.
/// Every entry that holds 2 in `cells` and is still unmarked is marked 3 and begins a walk
/// along its outline. When the walk reports an entry of the same row and the curve is not a
/// dominant one, all entries from the first to the reported one become 1; otherwise, when the
/// walk reports the entry where it began, that entry becomes 1.
pub open spec fn marks_from(
    cells: Seq<u32>,
    row_size: int,
    dominant_curve: bool,
    output: Seq<u32>,
    i: int,
) -> (Seq<u32>, Option<int>)
    decreases cells.len() - i,
{
    if i < 0 || i >= cells.len() {
        (output, None)
    } else if cells[i] == 2 && output[i] == 0 {
        let end = follow_from(
            cells,
            row_size,
            i,
            check_budget(cells.len() as int),
            follow_begin(output.update(i, 3), i),
        );
        if end.gave_up {
            (end.output, Some(i))
        } else if i / row_size == end.index / row_size && !dominant_curve {
            marks_from(cells, row_size, dominant_curve, flattened(end.output, i, end.index), i + 1)
        } else if end.index == i {
            marks_from(cells, row_size, dominant_curve, end.output.update(i, 1), i + 1)
        } else {
            marks_from(cells, row_size, dominant_curve, end.output, i + 1)
        }
    } else {
        marks_from(cells, row_size, dominant_curve, output, i + 1)
    }
}

/// Try to move one step from `from_index` along an outline: when the entry reached lies
/// inside the data and holds 2 in `input_data`, it is returned, and marked 1 in
/// `result_output` unless it is marked 3 there. Otherwise nothing changes and `from_index` is
/// returned.
pub fn get_if_curve_value(
    input_data: &Vmatrix<u32>,
    result_output: &mut Vmatrix<u32>,
    from_index: usize,
    global_data: &GlobalCurveData,
    direction: &Trigonometric,
    offset: i32,
) -> (new_index: usize)
    requires
        old(result_output)@.cells.len() == input_data@.cells.len(),
    ensures
        final(result_output).size == old(result_output).size,
        final(result_output)@.cells.len() == old(result_output)@.cells.len(),
        final(result_output)@.cells == follow_attempt(
            input_data@.cells,
            old(result_output)@.cells,
            from_index as int,
            global_data.row_size as int,
            *direction,
            offset as int,
        ).0,
        new_index == follow_attempt(
            input_data@.cells,
            old(result_output)@.cells,
            from_index as int,
            global_data.row_size as int,
            *direction,
            offset as int,
        ).1,
        new_index == from_index || new_index < input_data@.cells.len(),
{
    let mut new_index = from_index;
    let row_size: usize = global_data.row_size;
    let length: usize = input_data.data.len();
    let ghost target = Trigonometric::index_from_direction(
        from_index as int,
        row_size as int,
        *direction,
        offset as int,
    );

    match Trigonometric::checked_index_from_direction(from_index, row_size, direction, offset) {
        Some(result_direction) => {
            if result_direction < length {
                if input_data.data[result_direction] == 2 {
                    if result_output.data[result_direction] != 3 {
                        result_output.data[result_direction] = 1;
                        assert(result_output@.cells =~= old(result_output)@.cells.update(target, 1));
                    }
                    new_index = result_direction;
                }
            }
        },
        None => {
            assert(!(0 <= target < input_data@.cells.len()));
        },
    }

    new_index
}

/// Follow the outline, marked 2 in `input_data`, that holds the entry `index`, and return the
/// entry of it that lies farthest from `index` in a straight line; that entry is marked 3 in
/// `result_output`, the others that the walk moves to are marked 1. When the walk comes to
/// rest before the outline closes, the entry on which it rests is returned instead. It fails
/// when it uses up its checks without closing the outline or coming to rest.
pub fn find_curve_on(
    input_data: &Vmatrix<u32>,
    result_output: &mut Vmatrix<u32>,
    global_data: &GlobalCurveData,
    index: usize,
) -> (outcome: Result<usize, CurveFailure>)
    requires
        old(result_output)@.cells.len() == input_data@.cells.len(),
        global_data.row_size > 0,
    ensures
        final(result_output).size == old(result_output).size,
        final(result_output)@.cells.len() == old(result_output)@.cells.len(),
        ({
            let end = follow_from(
                input_data@.cells,
                global_data.row_size as int,
                index as int,
                check_budget(input_data@.cells.len() as int),
                follow_begin(old(result_output)@.cells, index as int),
            );
            &&& final(result_output)@.cells == end.output
            &&& match outcome {
                Ok(found) => !end.gave_up && found == end.index,
                Err(failure) => end.gave_up && failure.index == index,
            }
        }),
        outcome matches Ok(found) ==> found == index || found < input_data@.cells.len(),
        followed_over(input_data@.cells, old(result_output)@.cells, final(result_output)@.cells),
{
    let row_size: usize = global_data.row_size;
    let mut current_direction = Trigonometric::COS;
    let mut current_index: usize = index;
    let set_length: usize = input_data.data.len();
    let mut number_of_checks: u128 = 0;
    let maximum_checks: u128 = set_length as u128 * MAX_CHECKS_FACTOR as u128;
    let mut cardinal_changes: usize = 0;
    let mut index_of_best_distance: usize = 0;
    let mut current_distance_best: u128 = 0;

    let ghost cells = input_data@.cells;
    let ghost rs = row_size as int;
    let ghost start = index as int;
    let ghost budget = check_budget(cells.len() as int);
    let ghost goal = follow_from(cells, rs, start, budget, follow_begin(old(result_output)@.cells, start));
    proof {
        follow_only_marks_outline(
            cells,
            rs,
            start,
            budget,
            follow_begin(old(result_output)@.cells, start),
        );
    }

    while current_index < set_length && number_of_checks < maximum_checks && cardinal_changes < 4
        invariant
            cells == input_data@.cells,
            rs == row_size,
            rs > 0,
            row_size == global_data.row_size,
            start == index,
            set_length == cells.len(),
            budget == maximum_checks,
            budget == check_budget(cells.len() as int),
            result_output.size == old(result_output).size,
            result_output@.cells.len() == set_length,
            number_of_checks <= maximum_checks,
            cardinal_changes <= 4,
            old(result_output)@.cells.len() == set_length,
            current_index == index || current_index < set_length,
            index_of_best_distance == 0 || index_of_best_distance < set_length,
            followed_over(cells, old(result_output)@.cells, goal.output),
            goal == follow_from(cells, rs, start, budget, follow_begin(old(result_output)@.cells, start)),
            goal == follow_from(
                cells,
                rs,
                start,
                budget,
                FollowWalk {
                    output: result_output@.cells,
                    direction: current_direction,
                    index: current_index as int,
                    turns: cardinal_changes as int,
                    checks: number_of_checks as int,
                    farthest: index_of_best_distance as int,
                    distance: current_distance_best as int,
                },
            ),
        decreases maximum_checks - number_of_checks,
    {
        let ghost walk = FollowWalk {
            output: result_output@.cells,
            direction: current_direction,
            index: current_index as int,
            turns: cardinal_changes as int,
            checks: number_of_checks as int,
            farthest: index_of_best_distance as int,
            distance: current_distance_best as int,
        };
        let mut moved_to: usize = get_if_curve_value(
            input_data,
            result_output,
            current_index,
            global_data,
            &current_direction,
            0,
        );
        if moved_to == current_index {
            moved_to =
            get_if_curve_value(
                input_data,
                result_output,
                current_index,
                global_data,
                &current_direction,
                -1,
            );
        }
        if moved_to == current_index {
            moved_to =
            get_if_curve_value(
                input_data,
                result_output,
                current_index,
                global_data,
                &Trigonometric::derivative(&current_direction),
                0,
            );
        }
        assert((result_output@.cells, moved_to as int) == follow_attempts(
            cells,
            walk.output,
            walk.index,
            rs,
            walk.direction,
        ));
        if moved_to != current_index {
            current_index = moved_to;
            cardinal_changes = 0;
            number_of_checks += 1;

            let current_index_distance: u128 = crate::def::maths::get_index_distance_squared(
                index,
                current_index,
                row_size,
            );
            if current_index_distance > current_distance_best {
                current_distance_best = current_index_distance;
                index_of_best_distance = current_index;
            }
            if moved_to == index {
                result_output.data[index_of_best_distance] = 3;
                assert(result_output@.cells =~= goal.output);
                return Ok(index_of_best_distance);
            }
        } else {
            current_direction = Trigonometric::derivative(&current_direction);
            cardinal_changes += 1;
            number_of_checks += 1;
            if number_of_checks >= maximum_checks {
                return Err(CurveFailure { index });
            }
        }
    }
    Ok(current_index)
}

/// Mark the points of all curves whose outlines `input_data` holds. The entries are visited
/// in index order; every one that holds 2 and is still unmarked in `result_set` is marked 3
/// and its outline is followed. The point count of `global_data` is set back to zero. Fails
/// with the entry at which an outline began whose walk gave up.
pub fn mark_curve_points(
    input_data: &Vmatrix<u32>,
    result_set: &mut Vmatrix<u32>,
    global_data: &mut GlobalCurveData,
    dominant_curve: bool,
) -> (outcome: Result<(), CurveFailure>)
    requires
        old(result_set)@.cells.len() == input_data@.cells.len(),
        input_data@.cells.len() > 0 ==> old(global_data).row_size > 0,
    ensures
        final(result_set).size == old(result_set).size,
        final(result_set)@.cells.len() == old(result_set)@.cells.len(),
        final(global_data).row_size == old(global_data).row_size,
        final(global_data).curves_global_output == old(global_data).curves_global_output,
        final(global_data).curves_global_orderd == old(global_data).curves_global_orderd,
        final(global_data).global_output_number == old(global_data).global_output_number,
        final(global_data).global_orderd_cardin == if input_data@.cells.len() > 0 {
            0
        } else {
            old(global_data).global_orderd_cardin
        },
        ({
            let end = marks_from(
                input_data@.cells,
                old(global_data).row_size as int,
                dominant_curve,
                old(result_set)@.cells,
                0,
            );
            &&& final(result_set)@.cells == end.0
            &&& match outcome {
                Ok(()) => end.1 is None,
                Err(failure) => end.1 == Some(failure.index as int),
            }
        }),
{
    let row_size: usize = global_data.row_size;
    let set_length: usize = input_data.data.len();
    let ghost cells = input_data@.cells;
    let ghost rs = row_size as int;
    let ghost goal = marks_from(cells, rs, dominant_curve, old(result_set)@.cells, 0);

    let mut i: usize = 0;
    while i < set_length
        invariant
            i <= set_length,
            cells == input_data@.cells,
            rs == row_size,
            set_length > 0 ==> rs > 0,
            set_length == cells.len(),
            result_set.size == old(result_set).size,
            result_set@.cells.len() == set_length,
            old(result_set)@.cells.len() == set_length,
            global_data.row_size == row_size,
            old(global_data).row_size == row_size,
            global_data.curves_global_output == old(global_data).curves_global_output,
            global_data.curves_global_orderd == old(global_data).curves_global_orderd,
            global_data.global_output_number == old(global_data).global_output_number,
            global_data.global_orderd_cardin == if i > 0 {
                0
            } else {
                old(global_data).global_orderd_cardin
            },
            goal == marks_from(cells, rs, dominant_curve, old(result_set)@.cells, 0),
            goal == marks_from(cells, rs, dominant_curve, result_set@.cells, i as int),
        decreases set_length - i,
    {
        global_data.global_orderd_cardin = 0;

        if input_data.data[i] == 2 && result_set.data[i] == 0 {
            result_set.data[i] = 3;
            let returning_index: usize = match find_curve_on(input_data, result_set, global_data, i) {
                Ok(found) => found,
                Err(failure) => {
                    return Err(failure);
                },
            };
            if i / row_size == returning_index / row_size && !dominant_curve {
                let ghost walked = result_set@.cells;
                let mut x: usize = i;
                while x <= returning_index
                    invariant
                        i <= x,
                        returning_index < set_length,
                        x <= returning_index + 1 || x == i,
                        result_set.size == old(result_set).size,
                        result_set@.cells.len() == set_length,
                        walked.len() == set_length,
                        forall|k: int|
                            0 <= k < set_length ==> result_set@.cells[k] == if i <= k < x {
                                1u32
                            } else {
                                walked[k]
                            },
                    decreases returning_index + 1 - x,
                {
                    result_set.data[x] = 1;
                    x += 1;
                }
                assert(result_set@.cells =~= flattened(walked, i as int, returning_index as int));
            } else if returning_index == i {
                result_set.data[i] = 1;
            }
        }
        i += 1;
    }
    Ok(())
}

/// The entry midway between two points, when it differs from both and holds 1; nothing
/// otherwise.
pub fn get_smooth_curves(
    input_data: &Vmatrix<u32>,
    from_point: usize,
    to_point: usize,
    row_size: usize,
) -> (result_list: Vec<usize>)
    requires
        0 < row_size <= i32::MAX,
        from_point <= i32::MAX,
        to_point <= i32::MAX,
        crate::def::maths::middle_point(from_point as int, to_point as int, row_size as int)
            < input_data@.cells.len(),
        crate::def::maths::middle_point(from_point as int, to_point as int, row_size as int)
            <= i32::MAX,
    ensures
        ({
            let middle = crate::def::maths::middle_point(
                from_point as int,
                to_point as int,
                row_size as int,
            );
            result_list@ == if middle != from_point && middle != to_point && input_data@.cells[middle]
                == 1 {
                seq![middle as usize]
            } else {
                Seq::<usize>::empty()
            }
        }),
{
    let mut result_list: Vec<usize> = Vec::new();

    let mut delta1 = crate::def::maths::Vector2::new(0i32, 0i32);
    let mut delta2 = crate::def::maths::Vector2::new(0i32, 0i32);

    let middle_point: usize = crate::def::maths::get_middle_point(
        from_point as i32,
        to_point as i32,
        row_size,
        &mut delta1,
        &mut delta2,
    );
    if middle_point == from_point || middle_point == to_point {
        return result_list;
    }
    if input_data.data[middle_point] == 1 {
        result_list.push(middle_point);
        assert(result_list@ =~= seq![middle_point]);
    }

    result_list
}

} // verus!
