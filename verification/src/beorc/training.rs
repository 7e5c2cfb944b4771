use crate::beorc::def::coordinates_within;
use crate::beorc::def::trace_of;
use crate::beorc::def::trace_views;
use crate::beorc::def::DefinitionUnit;
use crate::beorc::def::DefinitionView;
use crate::beorc::def::Trace;
use crate::beorc::def::TraceView;
use crate::beorc::def::COORDINATE_LIMIT;
use vstd::prelude::*;

verus! {

/// Two ballots count as tied when they differ by less than one part in this many of a
/// full vote.
pub const TIE_PARTS: i128 = 100;

/// How often `cell` occurs among the first `count` indexes of a run.
pub open spec fn occurrences(indexes: Seq<i64>, cell: int, count: int) -> int
    decreases count,
{
    if count <= 0 {
        0
    } else {
        occurrences(indexes, cell, count - 1) + if indexes[count - 1] == cell {
            1int
        } else {
            0int
        }
    }
}

/// The trace that the valid instance `j` holds at a slot.
pub open spec fn slot_trace(
    instances: Seq<DefinitionView>,
    valid: Seq<usize>,
    j: int,
    slot: int,
) -> TraceView {
    instances[valid[j] as int].traces[slot]
}

/// Votes of the first `count` valid instances for a cell as content of a slot: one for
/// every time the cell occurs in the run of the instance.
pub open spec fn content_votes(
    instances: Seq<DefinitionView>,
    valid: Seq<usize>,
    slot: int,
    cell: int,
    count: int,
) -> int
    decreases count,
{
    if count <= 0 {
        0
    } else {
        let run = slot_trace(instances, valid, count - 1, slot).indexes;
        content_votes(instances, valid, slot, cell, count - 1) + occurrences(
            run,
            cell,
            run.len() as int,
        )
    }
}

/// Votes of the first `count` valid instances for a cell as the first index of a slot.
pub open spec fn vanguard_votes(
    instances: Seq<DefinitionView>,
    valid: Seq<usize>,
    slot: int,
    cell: int,
    count: int,
) -> int
    decreases count,
{
    if count <= 0 {
        0
    } else {
        vanguard_votes(instances, valid, slot, cell, count - 1) + if slot_trace(
            instances,
            valid,
            count - 1,
            slot,
        ).indexes.first() == cell {
            1int
        } else {
            0int
        }
    }
}

/// Votes of the first `count` valid instances for a cell as the last index of a slot.
pub open spec fn rearguard_votes(
    instances: Seq<DefinitionView>,
    valid: Seq<usize>,
    slot: int,
    cell: int,
    count: int,
) -> int
    decreases count,
{
    if count <= 0 {
        0
    } else {
        rearguard_votes(instances, valid, slot, cell, count - 1) + if slot_trace(
            instances,
            valid,
            count - 1,
            slot,
        ).indexes.last() == cell {
            1int
        } else {
            0int
        }
    }
}

/// What one full vote weighs in a ballot: ballots are kept multiplied by the number of
/// valid instances, so that they stay whole numbers; without valid instances a vote weighs 1.
pub open spec fn vote_unit(valid_count: int) -> int {
    if valid_count > 0 {
        valid_count
    } else {
        1
    }
}

/// The ballot of a cell after `count` of the valid instances have voted, in units of which
/// [vote_unit] make a full vote. The base gives the cell a full vote if it holds it. Every
/// instance that has voted takes back its share of a full vote from the cell, and gives
/// twice its share for every vote it casts for the cell.
pub open spec fn ballot(base_holds: bool, votes: int, valid_count: int, count: int) -> int {
    (if base_holds {
        vote_unit(valid_count)
    } else {
        0
    }) - count + 2 * votes
}

/// Whether a run can vote on `data_size` cells: it holds at least one index, not more than
/// the ballots can count, and every index is a cell.
pub open spec fn votes_fit(indexes: Seq<i64>, data_size: int) -> bool {
    &&& 0 < indexes.len() <= u32::MAX
    &&& forall|k: int| 0 <= k < indexes.len() ==> 0 <= #[trigger] indexes[k] < data_size
}

/// Whether all valid instances can vote on a slot: there are not more of them than the
/// ballots can count, each is an instance, and each holds at the slot a run that can vote.
pub open spec fn electorate_fits(
    instances: Seq<DefinitionView>,
    valid: Seq<usize>,
    slot: int,
    data_size: int,
) -> bool {
    &&& valid.len() <= u32::MAX
    &&& forall|j: int|
        0 <= j < valid.len() ==> {
            &&& (#[trigger] valid[j]) < instances.len()
            &&& 0 <= slot < instances[valid[j] as int].traces.len()
            &&& votes_fit(instances[valid[j] as int].traces[slot].indexes, data_size)
        }
}

/// The views of a list of definitions.
pub open spec fn definition_views(definitions: Seq<DefinitionUnit>) -> Seq<DefinitionView> {
    Seq::new(definitions.len(), |i: int| definitions[i]@)
}

/// Ballots are compared only while they do not exceed this bound in absolute value.
pub const BALLOT_LIMIT: i128 = 0x1_0000_0000_0000_0000_0000;

/// Whether every ballot lies within [BALLOT_LIMIT] of zero.
pub open spec fn ballots_within(ballots: Seq<i128>) -> bool {
    forall|c: int| 0 <= c < ballots.len() ==> -BALLOT_LIMIT <= #[trigger] ballots[c] <= BALLOT_LIMIT
}

/// The three ballots of one slot, cell by cell.
pub struct Ballots {
    pub content: Vec<i128>,
    pub vanguard: Vec<i128>,
    pub rearguard: Vec<i128>,
}

/// A ballot of `data_size` cells that all hold `value`.
fn filled_ballot(data_size: usize, value: i128) -> (votes: Vec<i128>)
    ensures
        votes@.len() == data_size,
        forall|c: int| 0 <= c < data_size ==> votes@[c] == value,
{
    let mut votes: Vec<i128> = Vec::new();
    let mut x: usize = 0;
    while x < data_size
        invariant
            x <= data_size,
            votes@.len() == x,
            forall|c: int| 0 <= c < x ==> votes@[c] == value,
        decreases data_size - x,
    {
        votes.push(value);
        x += 1;
    }
    votes
}

/// Give every cell that a run holds the value of a full vote.
fn mark_cells(votes: &mut Vec<i128>, indexes: &Vec<i64>, value: i128)
    requires
        forall|k: int| 0 <= k < indexes@.len() ==> 0 <= #[trigger] indexes@[k] < old(votes)@.len(),
    ensures
        final(votes)@.len() == old(votes)@.len(),
        forall|c: int|
            0 <= c < old(votes)@.len() ==> final(votes)@[c] == if occurrences(
                indexes@,
                c,
                indexes@.len() as int,
            ) > 0 {
                value
            } else {
                old(votes)@[c]
            },
{
    let size: usize = votes.len();
    let mut k: usize = 0;
    while k < indexes.len()
        invariant
            k <= indexes@.len(),
            size == votes@.len(),
            votes@.len() == old(votes)@.len(),
            forall|m: int| 0 <= m < indexes@.len() ==> 0 <= #[trigger] indexes@[m] < votes@.len(),
            forall|c: int|
                0 <= c < votes@.len() ==> #[trigger] votes@[c] == if occurrences(
                    indexes@,
                    c,
                    k as int,
                ) > 0 {
                    value
                } else {
                    old(votes)@[c]
                },
        decreases indexes@.len() - k,
    {
        let cell: usize = indexes[k] as usize;
        let ghost head = votes@;
        votes[cell] = value;
        proof {
            assert forall|c: int| 0 <= c < size implies #[trigger] votes@[c] == if occurrences(
                indexes@,
                c,
                k + 1,
            ) > 0 {
                value
            } else {
                old(votes)@[c]
            } by {
                occurrences_bounded(indexes@, c, k as int);
                if c != cell {
                    assert(votes@[c] == head[c]);
                }
            }
        }
        k += 1;
    }
}

/// Take one unit from every cell.
fn lower_all(votes: &mut Vec<i128>)
    requires
        forall|c: int| 0 <= c < old(votes)@.len() ==> old(votes)@[c] > i128::MIN,
    ensures
        final(votes)@.len() == old(votes)@.len(),
        forall|c: int|
            0 <= c < old(votes)@.len() ==> #[trigger] final(votes)@[c] == old(votes)@[c] - 1,
{
    let mut x: usize = 0;
    while x < votes.len()
        invariant
            x <= votes@.len(),
            votes@.len() == old(votes)@.len(),
            forall|c: int| 0 <= c < old(votes)@.len() ==> old(votes)@[c] > i128::MIN,
            forall|c: int| 0 <= c < x ==> votes@[c] == old(votes)@[c] - 1,
            forall|c: int| x <= c < votes@.len() ==> votes@[c] == old(votes)@[c],
        decreases votes@.len() - x,
    {
        votes[x] = votes[x] - 1;
        x += 1;
    }
}

/// Give two units to a cell for every time that a run holds it.
fn raise_cells(votes: &mut Vec<i128>, indexes: &Vec<i64>)
    requires
        votes_fit(indexes@, old(votes)@.len() as int),
        forall|c: int|
            0 <= c < old(votes)@.len() ==> old(votes)@[c] <= i128::MAX - 0x2_0000_0000,
    ensures
        final(votes)@.len() == old(votes)@.len(),
        forall|c: int|
            0 <= c < old(votes)@.len() ==> #[trigger] final(votes)@[c] == old(votes)@[c] + 2
                * occurrences(indexes@, c, indexes@.len() as int),
{
    let size: usize = votes.len();
    let mut k: usize = 0;
    while k < indexes.len()
        invariant
            k <= indexes@.len(),
            size == votes@.len(),
            votes@.len() == old(votes)@.len(),
            votes_fit(indexes@, old(votes)@.len() as int),
            forall|c: int|
                0 <= c < old(votes)@.len() ==> old(votes)@[c] <= i128::MAX - 0x2_0000_0000,
            forall|c: int|
                0 <= c < votes@.len() ==> #[trigger] votes@[c] == old(votes)@[c] + 2 * occurrences(
                    indexes@,
                    c,
                    k as int,
                ),
        decreases indexes@.len() - k,
    {
        let cell: usize = indexes[k] as usize;
        let ghost head = votes@;
        proof {
            occurrences_bounded(indexes@, cell as int, k as int);
        }
        votes[cell] = votes[cell] + 2;
        proof {
            assert forall|c: int| 0 <= c < size implies #[trigger] votes@[c] == old(votes)@[c] + 2
                * occurrences(indexes@, c, k + 1) by {
                if c != cell {
                    assert(votes@[c] == head[c]);
                }
            }
        }
        k += 1;
    }
}

/// Give two units to one cell.
fn raise_cell(votes: &mut Vec<i128>, index: i64)
    requires
        0 <= index < old(votes)@.len(),
        old(votes)@[index as int] <= i128::MAX - 2,
    ensures
        final(votes)@.len() == old(votes)@.len(),
        forall|c: int|
            0 <= c < old(votes)@.len() ==> #[trigger] final(votes)@[c] == old(votes)@[c] + if c
                == index {
                2int
            } else {
                0int
            },
{
    let size: usize = votes.len();
    let cell: usize = index as usize;
    votes[cell] = votes[cell] + 2;
}

/// The ballots of one slot: what the base and all valid instances vote on every cell, for the
/// content of the trace, for its first index and for its last.
pub fn cast_ballots(
    base_trace: &Trace,
    training_instances: &Vec<DefinitionUnit>,
    valid_instances: &Vec<usize>,
    trace_index: usize,
    data_size: usize,
) -> (ballots: Ballots)
    requires
        votes_fit(base_trace@.indexes, data_size as int),
        electorate_fits(
            definition_views(training_instances@),
            valid_instances@,
            trace_index as int,
            data_size as int,
        ),
    ensures
        ballots.content@.len() == data_size,
        ballots.vanguard@.len() == data_size,
        ballots.rearguard@.len() == data_size,
        ballots_within(ballots.content@),
        ballots_within(ballots.vanguard@),
        ballots_within(ballots.rearguard@),
        forall|c: int|
            0 <= c < data_size ==> #[trigger] ballots.content@[c] == ballot(
                occurrences(base_trace@.indexes, c, base_trace@.indexes.len() as int) > 0,
                content_votes(
                    definition_views(training_instances@),
                    valid_instances@,
                    trace_index as int,
                    c,
                    valid_instances@.len() as int,
                ),
                valid_instances@.len() as int,
                valid_instances@.len() as int,
            ),
        forall|c: int|
            0 <= c < data_size ==> #[trigger] ballots.vanguard@[c] == ballot(
                base_trace@.indexes.first() == c,
                vanguard_votes(
                    definition_views(training_instances@),
                    valid_instances@,
                    trace_index as int,
                    c,
                    valid_instances@.len() as int,
                ),
                valid_instances@.len() as int,
                valid_instances@.len() as int,
            ),
        forall|c: int|
            0 <= c < data_size ==> #[trigger] ballots.rearguard@[c] == ballot(
                base_trace@.indexes.last() == c,
                rearguard_votes(
                    definition_views(training_instances@),
                    valid_instances@,
                    trace_index as int,
                    c,
                    valid_instances@.len() as int,
                ),
                valid_instances@.len() as int,
                valid_instances@.len() as int,
            ),
{
    let valid_count: usize = valid_instances.len();
    let unit: i128 = if valid_count > 0 {
        valid_count as i128
    } else {
        1
    };
    let ghost instances = definition_views(training_instances@);
    let ghost valid = valid_instances@;
    let ghost slot = trace_index as int;
    let ghost base = base_trace@.indexes;
    let ghost total = valid_count as int;

    let mut content_votes_now: Vec<i128> = filled_ballot(data_size, 0);
    let mut vanguard_votes_now: Vec<i128> = filled_ballot(data_size, 0);
    let mut rearguard_votes_now: Vec<i128> = filled_ballot(data_size, 0);

    mark_cells(&mut content_votes_now, &base_trace.indexes, unit);
    let first_cell: usize = base_trace.indexes[0] as usize;
    let last_cell: usize = base_trace.indexes[base_trace.indexes.len() - 1] as usize;
    vanguard_votes_now[first_cell] = unit;
    rearguard_votes_now[last_cell] = unit;

    let mut j: usize = 0;
    while j < valid_count
        invariant
            j <= valid_count,
            valid_count == valid.len(),
            total == valid_count,
            valid == valid_instances@,
            slot == trace_index,
            base == base_trace@.indexes,
            instances == definition_views(training_instances@),
            electorate_fits(instances, valid, slot, data_size as int),
            votes_fit(base, data_size as int),
            content_votes_now@.len() == data_size,
            vanguard_votes_now@.len() == data_size,
            rearguard_votes_now@.len() == data_size,
            forall|c: int|
                0 <= c < data_size ==> #[trigger] content_votes_now@[c] == ballot(
                    occurrences(base, c, base.len() as int) > 0,
                    content_votes(instances, valid, slot, c, j as int),
                    total,
                    j as int,
                ),
            forall|c: int|
                0 <= c < data_size ==> #[trigger] vanguard_votes_now@[c] == ballot(
                    base.first() == c,
                    vanguard_votes(instances, valid, slot, c, j as int),
                    total,
                    j as int,
                ),
            forall|c: int|
                0 <= c < data_size ==> #[trigger] rearguard_votes_now@[c] == ballot(
                    base.last() == c,
                    rearguard_votes(instances, valid, slot, c, j as int),
                    total,
                    j as int,
                ),
        decreases valid_count - j,
    {
        let instance_index: usize = valid_instances[j];
        assert(valid[j as int] < instances.len());
        let entry_trace: &Trace = &training_instances[instance_index].traces[trace_index];
        proof {
            assert(instances[instance_index as int] == training_instances@[instance_index as int]@);
            assert(trace_views(training_instances@[instance_index as int].traces@)[slot]
                == entry_trace@);
            assert(entry_trace@ == slot_trace(instances, valid, j as int, slot));
            assert(j * 0x1_0000_0000 <= 0xFFFF_FFFF * 0x1_0000_0000) by (nonlinear_arith)
                requires
                    0 <= j <= 0xFFFF_FFFF,
            ;
        }
        let ghost run = entry_trace@.indexes;
        let ghost content_head = content_votes_now@;
        let ghost vanguard_head = vanguard_votes_now@;
        let ghost rearguard_head = rearguard_votes_now@;
        proof {
            assert forall|c: int| 0 <= c < data_size implies -0x1_0000_0000 <= (
            #[trigger] content_head[c]) <= 0x4_0000_0000_0000_0000 by {
                votes_bounded(instances, valid, slot, data_size as int, c, j as int);
            }
            assert forall|c: int| 0 <= c < data_size implies -0x1_0000_0000 <= (
            #[trigger] vanguard_head[c]) <= 0x4_0000_0000_0000_0000 by {
                votes_bounded(instances, valid, slot, data_size as int, c, j as int);
            }
            assert forall|c: int| 0 <= c < data_size implies -0x1_0000_0000 <= (
            #[trigger] rearguard_head[c]) <= 0x4_0000_0000_0000_0000 by {
                votes_bounded(instances, valid, slot, data_size as int, c, j as int);
            }
        }

        lower_all(&mut content_votes_now);
        lower_all(&mut vanguard_votes_now);
        lower_all(&mut rearguard_votes_now);

        raise_cells(&mut content_votes_now, &entry_trace.indexes);
        raise_cell(&mut vanguard_votes_now, entry_trace.indexes[0]);
        raise_cell(&mut rearguard_votes_now, entry_trace.indexes[entry_trace.indexes.len() - 1]);

        proof {
            assert(run.first() == entry_trace.indexes@[0]);
            assert(run.last() == entry_trace.indexes@[run.len() - 1]);
            assert forall|c: int| 0 <= c < data_size implies #[trigger] content_votes_now@[c]
                == ballot(
                occurrences(base, c, base.len() as int) > 0,
                content_votes(instances, valid, slot, c, j + 1),
                total,
                j + 1,
            ) by {
                assert(content_votes_now@[c] == content_head[c] - 1 + 2 * occurrences(
                    run,
                    c,
                    run.len() as int,
                ));
            }
            assert forall|c: int| 0 <= c < data_size implies #[trigger] vanguard_votes_now@[c]
                == ballot(
                base.first() == c,
                vanguard_votes(instances, valid, slot, c, j + 1),
                total,
                j + 1,
            ) by {
                assert(vanguard_votes_now@[c] == vanguard_head[c] - 1 + if c == run.first() {
                    2int
                } else {
                    0int
                });
            }
            assert forall|c: int| 0 <= c < data_size implies #[trigger] rearguard_votes_now@[c]
                == ballot(
                base.last() == c,
                rearguard_votes(instances, valid, slot, c, j + 1),
                total,
                j + 1,
            ) by {
                assert(rearguard_votes_now@[c] == rearguard_head[c] - 1 + if c == run.last() {
                    2int
                } else {
                    0int
                });
            }
        }
        j += 1;
    }

    proof {
        assert forall|c: int| 0 <= c < data_size implies -BALLOT_LIMIT <= (
        #[trigger] content_votes_now@[c]) <= BALLOT_LIMIT by {
            votes_bounded(instances, valid, slot, data_size as int, c, total);
        }
        assert forall|c: int| 0 <= c < data_size implies -BALLOT_LIMIT <= (
        #[trigger] vanguard_votes_now@[c]) <= BALLOT_LIMIT by {
            votes_bounded(instances, valid, slot, data_size as int, c, total);
        }
        assert forall|c: int| 0 <= c < data_size implies -BALLOT_LIMIT <= (
        #[trigger] rearguard_votes_now@[c]) <= BALLOT_LIMIT by {
            votes_bounded(instances, valid, slot, data_size as int, c, total);
        }
    }

    Ballots { content: content_votes_now, vanguard: vanguard_votes_now, rearguard: rearguard_votes_now }
}

/// The votes for a cell are bounded by what the valid instances that have voted can cast.
pub proof fn votes_bounded(
    instances: Seq<DefinitionView>,
    valid: Seq<usize>,
    slot: int,
    data_size: int,
    cell: int,
    count: int,
)
    requires
        electorate_fits(instances, valid, slot, data_size),
        0 <= count <= valid.len(),
    ensures
        0 <= content_votes(instances, valid, slot, cell, count) <= count * 0x1_0000_0000,
        0 <= vanguard_votes(instances, valid, slot, cell, count) <= count,
        0 <= rearguard_votes(instances, valid, slot, cell, count) <= count,
        count * 0x1_0000_0000 <= 0x1_0000_0000_0000_0000,
    decreases count,
{
    assert(count * 0x1_0000_0000 <= 0x1_0000_0000_0000_0000) by (nonlinear_arith)
        requires
            0 <= count <= 0xFFFF_FFFF,
    ;
    if count > 0 {
        votes_bounded(instances, valid, slot, data_size, cell, count - 1);
        let run = slot_trace(instances, valid, count - 1, slot).indexes;
        assert(valid[count - 1] < instances.len());
        occurrences_bounded(run, cell, run.len() as int);
        assert((count - 1) * 0x1_0000_0000 + 0x1_0000_0000 == count * 0x1_0000_0000)
            by (nonlinear_arith);
    }
}

/// A cell occurs in a run no more often than the run is long.
pub proof fn occurrences_bounded(indexes: Seq<i64>, cell: int, count: int)
    requires
        0 <= count,
    ensures
        0 <= occurrences(indexes, cell, count) <= count,
    decreases count,
{
    if count > 0 {
        occurrences_bounded(indexes, cell, count - 1);
    }
}

/// Whether two ballots are tied: whether they are equal, or differ by less than one part in
/// [TIE_PARTS] of a full vote.
pub open spec fn close_ballots(first: int, second: int, unit: int) -> bool {
    first == second || if first > second {
        TIE_PARTS * (first - second) < unit
    } else {
        TIE_PARTS * (second - first) < unit
    }
}

/// The greatest ballot among the first `count` cells.
pub open spec fn greatest_ballot(ballots: Seq<i128>, count: int) -> int
    decreases count,
{
    if count <= 1 {
        ballots[0] as int
    } else if ballots[count - 1] > greatest_ballot(ballots, count - 1) {
        ballots[count - 1] as int
    } else {
        greatest_ballot(ballots, count - 1)
    }
}

/// The first of the first `count` cells that holds the greatest ballot among them.
pub open spec fn leading_cell(ballots: Seq<i128>, count: int) -> int
    decreases count,
{
    if count <= 1 {
        0
    } else if ballots[count - 1] > greatest_ballot(ballots, count - 1) {
        count - 1
    } else {
        leading_cell(ballots, count - 1)
    }
}

/// Whether, among the first `count` cells, another cell than the leading one holds a ballot
/// tied with the greatest, be it before the leading cell or behind it.
pub open spec fn leaders_tied(ballots: Seq<i128>, unit: int, count: int) -> bool {
    exists|j: int|
        0 <= j < count && j != leading_cell(ballots, count) && close_ballots(
            #[trigger] ballots[j] as int,
            greatest_ballot(ballots, count),
            unit,
        )
}

/// The first or last index that a ballot elects: the leading cell, unless another cell is
/// tied with it; then the index that the base has stays. Without cells, cell 0 is elected.
pub open spec fn chosen_guard(ballots: Seq<i128>, unit: int, count: int, current_guard: i64) -> i64 {
    if leaders_tied(ballots, unit, count) {
        current_guard
    } else {
        leading_cell(ballots, count) as i64
    }
}

/// The leading cell holds the greatest ballot, which no cell exceeds, and is the first to
/// hold it.
pub proof fn leader_is_first_greatest(ballots: Seq<i128>, count: int)
    requires
        1 <= count <= ballots.len(),
    ensures
        0 <= leading_cell(ballots, count) < count,
        ballots[leading_cell(ballots, count)] == greatest_ballot(ballots, count),
        forall|j: int| 0 <= j < count ==> #[trigger] ballots[j] <= greatest_ballot(ballots, count),
        forall|j: int|
            0 <= j < leading_cell(ballots, count) ==> #[trigger] ballots[j] < greatest_ballot(
                ballots,
                count,
            ),
    decreases count,
{
    if count > 1 {
        leader_is_first_greatest(ballots, count - 1);
    }
}

/// The cells among the first `count` whose ballot is positive, in rising order.
pub open spec fn positive_cells(content: Seq<i128>, count: int) -> Seq<i64>
    decreases count,
{
    if count <= 0 {
        Seq::empty()
    } else if content[count - 1] > 0 {
        positive_cells(content, count - 1).push((count - 1) as i64)
    } else {
        positive_cells(content, count - 1)
    }
}

/// The first index of a trained run followed by those of the first `count` indexes of the
/// content that are not in the run yet and are not the last index.
pub open spec fn combined_body(content: Seq<i64>, vanguard: i64, rearguard: i64, count: int) -> Seq<
    i64,
>
    decreases count,
{
    if count <= 0 {
        seq![vanguard]
    } else {
        let body = combined_body(content, vanguard, rearguard, count - 1);
        if !body.contains(content[count - 1]) && content[count - 1] != rearguard {
            body.push(content[count - 1])
        } else {
            body
        }
    }
}

/// A trained run: the first index, the content without repetitions and without the last
/// index, and the last index.
pub open spec fn combined_run(content: Seq<i64>, vanguard: i64, rearguard: i64) -> Seq<i64> {
    combined_body(content, vanguard, rearguard, content.len() as int).push(rearguard)
}

/// The positive cells are exactly the cells with a positive ballot, each once and in rising
/// order.
pub proof fn positive_cells_are_those(content: Seq<i128>, count: int)
    requires
        0 <= count <= content.len(),
        count <= i64::MAX,
    ensures
        forall|k: int|
            0 <= k < positive_cells(content, count).len() ==> 0 <= #[trigger] positive_cells(
                content,
                count,
            )[k] < count && content[positive_cells(content, count)[k] as int] > 0,
        forall|a: int, b: int|
            0 <= a < b < positive_cells(content, count).len() ==> positive_cells(content, count)[a]
                < positive_cells(content, count)[b],
        forall|c: int|
            0 <= c < count && #[trigger] content[c] > 0 ==> positive_cells(content, count).contains(
                c as i64,
            ),
    decreases count,
{
    if count > 0 {
        positive_cells_are_those(content, count - 1);
        let before = positive_cells(content, count - 1);
        let now = positive_cells(content, count);
        assert forall|c: int| 0 <= c < count && #[trigger] content[c] > 0 implies now.contains(
            c as i64,
        ) by {
            if c < count - 1 {
                let k = choose|k: int| 0 <= k < before.len() && before[k] == c as i64;
                assert(now[k] == c as i64);
            } else {
                assert(now[now.len() - 1] == c as i64);
            }
        }
    }
}

/// A trained run begins with its first index, and what follows of the content holds no
/// index twice, nor the first index, nor the last.
pub proof fn combined_body_is_distinct(content: Seq<i64>, vanguard: i64, rearguard: i64, count: int)
    requires
        0 <= count <= content.len(),
    ensures
        combined_body(content, vanguard, rearguard, count).len() >= 1,
        combined_body(content, vanguard, rearguard, count)[0] == vanguard,
        forall|a: int, b: int|
            0 <= a < b < combined_body(content, vanguard, rearguard, count).len()
                ==> combined_body(content, vanguard, rearguard, count)[a] != combined_body(
                content,
                vanguard,
                rearguard,
                count,
            )[b],
        forall|k: int|
            1 <= k < combined_body(content, vanguard, rearguard, count).len() ==> #[trigger] combined_body(
                content,
                vanguard,
                rearguard,
                count,
            )[k] != rearguard,
        forall|m: int|
            0 <= m < count ==> #[trigger] content[m] == rearguard || combined_body(
                content,
                vanguard,
                rearguard,
                count,
            ).contains(content[m]),
    decreases count,
{
    if count > 0 {
        combined_body_is_distinct(content, vanguard, rearguard, count - 1);
        let before = combined_body(content, vanguard, rearguard, count - 1);
        let now = combined_body(content, vanguard, rearguard, count);
        assert forall|m: int| 0 <= m < count implies #[trigger] content[m] == rearguard
            || now.contains(content[m]) by {
            if content[m] != rearguard {
                if m < count - 1 || before.contains(content[count - 1]) {
                    let k = choose|k: int| 0 <= k < before.len() && before[k] == content[m];
                    assert(now[k] == content[m]);
                } else {
                    assert(now[now.len() - 1] == content[m]);
                }
            }
        }
    }
}

/// The trace that the ballots of a slot elect in place of the trace of the base.
pub open spec fn trained_trace(
    base: TraceView,
    content: Seq<i128>,
    vanguard: Seq<i128>,
    rearguard: Seq<i128>,
    unit: int,
) -> TraceView {
    trace_of(
        base.time_stamp,
        combined_run(
            positive_cells(content, content.len() as int),
            chosen_guard(vanguard, unit, content.len() as int, base.indexes.first()),
            chosen_guard(rearguard, unit, content.len() as int, base.indexes.last()),
        ),
        base.resolution,
    )
}

/// An index that is a cell of the ballots lies within the limit in column and row.
pub proof fn cell_within(index: int, resolution: int, limit: int)
    requires
        0 <= index <= limit,
        resolution > 0,
    ensures
        coordinates_within(index, resolution, limit),
{
    vstd::arithmetic::div_mod::lemma_fundamental_div_mod(index, resolution);
    let q = index / resolution;
    let r = index % resolution;
    assert(0 <= q <= index) by (nonlinear_arith)
        requires
            index == resolution * q + r,
            0 <= r < resolution,
            0 <= index,
    ;
}

/// Whether a list holds a value.
fn holds(list: &Vec<i64>, value: i64) -> (found: bool)
    ensures
        found == list@.contains(value),
{
    let mut k: usize = 0;
    while k < list.len()
        invariant
            k <= list@.len(),
            forall|m: int| 0 <= m < k ==> list@[m] != value,
        decreases list@.len() - k,
    {
        if list[k] == value {
            return true;
        }
        k += 1;
    }
    false
}

/// Whether two ballots are tied.
fn is_close(first: i128, second: i128, unit: i128) -> (close: bool)
    requires
        -BALLOT_LIMIT <= first <= BALLOT_LIMIT,
        -BALLOT_LIMIT <= second <= BALLOT_LIMIT,
    ensures
        close == close_ballots(first as int, second as int, unit as int),
{
    if first == second {
        true
    } else if first > second {
        TIE_PARTS * (first - second) < unit
    } else {
        TIE_PARTS * (second - first) < unit
    }
}

/// Elect the first or last index of a trace from its ballot, among the first
/// `maximum_index` cells: the first cell with the greatest ballot, or `current_guard` if
/// another cell is tied with it.
pub fn choose_guard(ballots: &Vec<i128>, maximum_index: usize, unit: i128, current_guard: i64) -> (guard:
    i64)
    requires
        maximum_index <= ballots@.len(),
        maximum_index <= i64::MAX,
        ballots_within(ballots@),
    ensures
        guard == chosen_guard(ballots@, unit as int, maximum_index as int, current_guard),
        guard == current_guard || 0 <= guard < maximum_index || (guard == 0 && maximum_index == 0),
{
    if maximum_index == 0 {
        return 0;
    }
    let mut greatest_value_found: i128 = ballots[0];
    let mut index_greatest_value: usize = 0;
    let mut index_check: usize = 1;
    while index_check < maximum_index
        invariant
            1 <= index_check <= maximum_index <= ballots@.len(),
            ballots_within(ballots@),
            greatest_value_found == greatest_ballot(ballots@, index_check as int),
            index_greatest_value == leading_cell(ballots@, index_check as int),
            index_greatest_value < index_check,
        decreases maximum_index - index_check,
    {
        let current_value: i128 = ballots[index_check];
        if current_value > greatest_value_found {
            greatest_value_found = current_value;
            index_greatest_value = index_check;
        }
        index_check += 1;
    }
    proof {
        leader_is_first_greatest(ballots@, maximum_index as int);
    }

    let ghost count = maximum_index as int;
    let mut two_greatest_values: bool = false;
    index_check = 0;
    while index_check < maximum_index
        invariant
            index_check <= maximum_index <= ballots@.len(),
            count == maximum_index,
            ballots_within(ballots@),
            -BALLOT_LIMIT <= greatest_value_found <= BALLOT_LIMIT,
            greatest_value_found == greatest_ballot(ballots@, count),
            index_greatest_value == leading_cell(ballots@, count),
            two_greatest_values == exists|j: int|
                0 <= j < index_check && j != leading_cell(ballots@, count) && close_ballots(
                    #[trigger] ballots@[j] as int,
                    greatest_ballot(ballots@, count),
                    unit as int,
                ),
        decreases maximum_index - index_check,
    {
        if index_check != index_greatest_value && is_close(
            ballots[index_check],
            greatest_value_found,
            unit,
        ) {
            two_greatest_values = true;
        }
        index_check += 1;
    }

    if two_greatest_values {
        current_guard
    } else {
        index_greatest_value as i64
    }
}

/// The cells with a positive ballot, in rising order.
pub fn collect_positive(content: &Vec<i128>) -> (cells: Vec<i64>)
    requires
        content@.len() <= i64::MAX,
    ensures
        cells@ == positive_cells(content@, content@.len() as int),
        forall|k: int| 0 <= k < cells@.len() ==> 0 <= #[trigger] cells@[k] < content@.len(),
{
    let mut new_content: Vec<i64> = Vec::new();
    let mut index_check: usize = 0;
    let maximum_index: usize = content.len();
    while index_check < maximum_index
        invariant
            index_check <= maximum_index,
            maximum_index == content@.len(),
            maximum_index <= i64::MAX,
            new_content@ == positive_cells(content@, index_check as int),
            forall|k: int|
                0 <= k < new_content@.len() ==> 0 <= #[trigger] new_content@[k] < index_check,
        decreases maximum_index - index_check,
    {
        if content[index_check] > 0 {
            new_content.push(index_check as i64);
        }
        index_check += 1;
    }
    new_content
}

/// Assemble a trained run from its first index, its content and its last index, and make
/// the trace of it.
pub fn combine_into_trace(
    content: Vec<i64>,
    vanguard: i64,
    rearguard: i64,
    time_stamp: &i64,
    resolution: &i64,
) -> (trace: Trace)
    requires
        *resolution > 0,
        coordinates_within(vanguard as int, *resolution as int, COORDINATE_LIMIT as int),
        coordinates_within(rearguard as int, *resolution as int, COORDINATE_LIMIT as int),
        forall|k: int|
            0 <= k < content@.len() ==> coordinates_within(
                #[trigger] content@[k] as int,
                *resolution as int,
                COORDINATE_LIMIT as int,
            ),
    ensures
        trace@ == trace_of(
            *time_stamp as int,
            combined_run(content@, vanguard, rearguard),
            *resolution as int,
        ),
        trace.wf(),
{
    let mut new_trace_data: Vec<i64> = Vec::new();
    new_trace_data.push(vanguard);
    assert(new_trace_data@ =~= seq![vanguard]);
    let ghost rs = *resolution as int;
    let ghost limit = COORDINATE_LIMIT as int;
    let mut k: usize = 0;
    while k < content.len()
        invariant
            k <= content@.len(),
            rs == *resolution,
            limit == COORDINATE_LIMIT,
            new_trace_data@ == combined_body(content@, vanguard, rearguard, k as int),
            new_trace_data@.len() > 0,
            forall|m: int|
                0 <= m < content@.len() ==> coordinates_within(
                    #[trigger] content@[m] as int,
                    rs,
                    limit,
                ),
            forall|m: int|
                0 <= m < new_trace_data@.len() ==> coordinates_within(
                    #[trigger] new_trace_data@[m] as int,
                    rs,
                    limit,
                ),
        decreases content@.len() - k,
    {
        let entry: i64 = content[k];
        if !holds(&new_trace_data, entry) && entry != rearguard {
            new_trace_data.push(entry);
        }
        k += 1;
    }
    new_trace_data.push(rearguard);

    Trace::new(*time_stamp, new_trace_data, *resolution)
}

/// Train one trace from the ballots of its slot. The new run holds every cell whose content
/// ballot is positive; its first and last index are those that the other two ballots elect.
/// `unit` is the weight of a full vote in the ballots.
pub fn train_trace_with(
    base_trace: &Trace,
    content: &Vec<i128>,
    vanguard: &Vec<i128>,
    rearguard: &Vec<i128>,
    unit: i128,
) -> (trained: Trace)
    requires
        base_trace@.indexes.len() > 0,
        base_trace.resolution > 0,
        content@.len() <= vanguard@.len(),
        content@.len() <= rearguard@.len(),
        content@.len() <= COORDINATE_LIMIT,
        coordinates_within(
            base_trace@.indexes.first() as int,
            base_trace.resolution as int,
            COORDINATE_LIMIT as int,
        ),
        coordinates_within(
            base_trace@.indexes.last() as int,
            base_trace.resolution as int,
            COORDINATE_LIMIT as int,
        ),
        ballots_within(vanguard@),
        ballots_within(rearguard@),
        0 < unit <= BALLOT_LIMIT,
    ensures
        trained@ == trained_trace(base_trace@, content@, vanguard@, rearguard@, unit as int),
        trained.wf(),
{
    let new_content: Vec<i64> = collect_positive(content);
    let maximum_index: usize = content.len();

    let new_vanguard: i64 = choose_guard(vanguard, maximum_index, unit, base_trace.indexes[0]);
    let new_rearguard: i64 = choose_guard(
        rearguard,
        maximum_index,
        unit,
        base_trace.indexes[base_trace.indexes.len() - 1],
    );
    proof {
        let rs = base_trace.resolution as int;
        let limit = COORDINATE_LIMIT as int;
        if new_vanguard != base_trace@.indexes.first() {
            cell_within(new_vanguard as int, rs, limit);
        }
        if new_rearguard != base_trace@.indexes.last() {
            cell_within(new_rearguard as int, rs, limit);
        }
        assert forall|k: int| 0 <= k < new_content@.len() implies coordinates_within(
            #[trigger] new_content@[k] as int,
            rs,
            limit,
        ) by {
            cell_within(new_content@[k] as int, rs, limit);
        }
    }

    combine_into_trace(
        new_content,
        new_vanguard,
        new_rearguard,
        &base_trace.time_stamp,
        &base_trace.resolution,
    )
}

/// The content ballot of a slot, as [cast_ballots] makes it.
pub open spec fn content_ballot(
    base: TraceView,
    instances: Seq<DefinitionView>,
    valid: Seq<usize>,
    slot: int,
    data_size: int,
) -> Seq<i128> {
    Seq::new(
        data_size as nat,
        |c: int|
            ballot(
                occurrences(base.indexes, c, base.indexes.len() as int) > 0,
                content_votes(instances, valid, slot, c, valid.len() as int),
                valid.len() as int,
                valid.len() as int,
            ) as i128,
    )
}

/// The ballot on the first index of a slot.
pub open spec fn vanguard_ballot(
    base: TraceView,
    instances: Seq<DefinitionView>,
    valid: Seq<usize>,
    slot: int,
    data_size: int,
) -> Seq<i128> {
    Seq::new(
        data_size as nat,
        |c: int|
            ballot(
                base.indexes.first() == c,
                vanguard_votes(instances, valid, slot, c, valid.len() as int),
                valid.len() as int,
                valid.len() as int,
            ) as i128,
    )
}

/// The ballot on the last index of a slot.
pub open spec fn rearguard_ballot(
    base: TraceView,
    instances: Seq<DefinitionView>,
    valid: Seq<usize>,
    slot: int,
    data_size: int,
) -> Seq<i128> {
    Seq::new(
        data_size as nat,
        |c: int|
            ballot(
                base.indexes.last() == c,
                rearguard_votes(instances, valid, slot, c, valid.len() as int),
                valid.len() as int,
                valid.len() as int,
            ) as i128,
    )
}

/// The trace that training puts in a slot of the new definition.
pub open spec fn trained_slot(
    base: DefinitionView,
    instances: Seq<DefinitionView>,
    valid: Seq<usize>,
    slot: int,
) -> TraceView {
    let data_size = base.resolution * base.resolution;
    trained_trace(
        base.traces[slot],
        content_ballot(base.traces[slot], instances, valid, slot, data_size),
        vanguard_ballot(base.traces[slot], instances, valid, slot, data_size),
        rearguard_ballot(base.traces[slot], instances, valid, slot, data_size),
        vote_unit(valid.len() as int),
    )
}

/// Whether a base can be trained by the valid instances within the machine's limits: the
/// square of the resolution can be the size of a ballot, every trace of the base is read by
/// a resolution above zero and holds a run that can vote, and so does every valid instance
/// at every slot of the base.
pub open spec fn ready_to_train(
    base: DefinitionView,
    instances: Seq<DefinitionView>,
    valid: Seq<usize>,
) -> bool {
    &&& base.resolution * base.resolution <= usize::MAX
    &&& base.resolution * base.resolution <= COORDINATE_LIMIT
    &&& forall|slot: int|
        0 <= slot < base.traces.len() ==> {
            &&& (#[trigger] base.traces[slot]).resolution > 0
            &&& votes_fit(base.traces[slot].indexes, base.resolution * base.resolution)
            &&& electorate_fits(instances, valid, slot, base.resolution * base.resolution)
        }
}

/// Train a new definition from a base and the instances that were found valid, slot by
/// slot and by majority: a cell belongs to the new trace when the base and the instances
/// together give it a positive ballot. `training_instances` holds the instances as they
/// entered the comparison with the base, and `valid_instances` the positions of the valid
/// ones among them. The new definition has the id and the resolution of the base.
pub fn train_definition(
    base: &DefinitionUnit,
    training_instances: &Vec<DefinitionUnit>,
    valid_instances: &Vec<usize>,
) -> (new_definition: DefinitionUnit)
    requires
        ready_to_train(base@, definition_views(training_instances@), valid_instances@),
    ensures
        new_definition@.id == base@.id,
        new_definition@.resolution == base@.resolution,
        new_definition@.traces.len() == base@.traces.len(),
        forall|slot: int|
            0 <= slot < base@.traces.len() ==> #[trigger] new_definition@.traces[slot]
                == trained_slot(
                base@,
                definition_views(training_instances@),
                valid_instances@,
                slot,
            ),
{
    let mut new_definition = DefinitionUnit::new(base.resolution);
    new_definition.id = base.id.clone();

    let ghost instances = definition_views(training_instances@);
    let ghost valid = valid_instances@;
    let ghost square = base.resolution * base.resolution;
    assert(0 <= square) by (nonlinear_arith)
        requires
            square == base.resolution * base.resolution,
    ;
    let data_size: usize = (base.resolution as i128 * base.resolution as i128) as usize;
    let valid_count: usize = valid_instances.len();
    let unit: i128 = if valid_count > 0 {
        valid_count as i128
    } else {
        1
    };

    let mut trace_index: usize = 0;
    let max_trace_index: usize = base.traces.len();
    assert(trace_views(base.traces@).len() == max_trace_index);
    assert(trace_views(new_definition.traces@).len() == 0);
    while trace_index < max_trace_index
        invariant
            trace_index <= max_trace_index,
            max_trace_index == base.traces@.len(),
            instances == definition_views(training_instances@),
            valid == valid_instances@,
            valid_count == valid.len(),
            unit == vote_unit(valid.len() as int),
            data_size == base.resolution * base.resolution,
            ready_to_train(base@, instances, valid),
            new_definition.id@ == base.id@,
            new_definition.resolution == base.resolution,
            new_definition.traces@.len() == trace_index,
            forall|slot: int|
                0 <= slot < trace_index ==> (#[trigger] new_definition.traces@[slot])@
                    == trained_slot(base@, instances, valid, slot),
        decreases max_trace_index - trace_index,
    {
        let base_trace: &Trace = &base.traces[trace_index];
        let ghost slot = trace_index as int;
        assert(base@.traces[slot] == base_trace@);
        assert(valid.len() <= u32::MAX) by {
            assert(electorate_fits(instances, valid, slot, data_size as int));
        }
        let ballots = cast_ballots(
            base_trace,
            training_instances,
            valid_instances,
            trace_index,
            data_size,
        );
        proof {
            assert(ballots.content@ =~= content_ballot(
                base_trace@,
                instances,
                valid,
                slot,
                data_size as int,
            ));
            assert(ballots.vanguard@ =~= vanguard_ballot(
                base_trace@,
                instances,
                valid,
                slot,
                data_size as int,
            ));
            assert(ballots.rearguard@ =~= rearguard_ballot(
                base_trace@,
                instances,
                valid,
                slot,
                data_size as int,
            ));
            let run = base_trace@.indexes;
            cell_within(run.first() as int, base_trace.resolution as int, COORDINATE_LIMIT as int);
            cell_within(run.last() as int, base_trace.resolution as int, COORDINATE_LIMIT as int);
        }
        let trained_trace: Trace = train_trace_with(
            base_trace,
            &ballots.content,
            &ballots.vanguard,
            &ballots.rearguard,
            unit,
        );
        new_definition.traces.push(trained_trace);
        trace_index += 1;
    }
    proof {
        assert(trace_views(new_definition.traces@).len() == max_trace_index);
        assert forall|slot: int| 0 <= slot < base@.traces.len() implies #[trigger] new_definition@.traces[slot]
            == trained_slot(base@, instances, valid, slot) by {
            assert(new_definition@.traces[slot] == new_definition.traces@[slot]@);
        }
    }

    new_definition
}

/// Whether a run can vote on `data_size` cells: see [votes_fit].
pub fn check_votes_fit(indexes: &Vec<i64>, data_size: usize) -> (fits: bool)
    ensures
        fits == votes_fit(indexes@, data_size as int),
{
    if indexes.len() == 0 || indexes.len() > 0xFFFF_FFFF {
        return false;
    }
    let mut k: usize = 0;
    while k < indexes.len()
        invariant
            k <= indexes@.len(),
            forall|m: int| 0 <= m < k ==> 0 <= #[trigger] indexes@[m] < data_size,
        decreases indexes@.len() - k,
    {
        if indexes[k] < 0 || indexes[k] as u64 >= data_size as u64 {
            assert(!(0 <= indexes@[k as int] < data_size));
            return false;
        }
        k += 1;
    }
    true
}

/// Whether all valid instances can vote on a slot: see [electorate_fits].
pub fn check_electorate_fits(
    training_instances: &Vec<DefinitionUnit>,
    valid_instances: &Vec<usize>,
    trace_index: usize,
    data_size: usize,
) -> (fits: bool)
    ensures
        fits == electorate_fits(
            definition_views(training_instances@),
            valid_instances@,
            trace_index as int,
            data_size as int,
        ),
{
    if valid_instances.len() > 0xFFFF_FFFF {
        return false;
    }
    let ghost instances = definition_views(training_instances@);
    let ghost valid = valid_instances@;
    let mut j: usize = 0;
    while j < valid_instances.len()
        invariant
            j <= valid.len(),
            valid == valid_instances@,
            instances == definition_views(training_instances@),
            forall|m: int|
                0 <= m < j ==> {
                    &&& (#[trigger] valid[m]) < instances.len()
                    &&& 0 <= trace_index < instances[valid[m] as int].traces.len()
                    &&& votes_fit(
                        instances[valid[m] as int].traces[trace_index as int].indexes,
                        data_size as int,
                    )
                },
        decreases valid.len() - j,
    {
        let position: usize = valid_instances[j];
        if position >= training_instances.len() {
            assert(!(valid[j as int] < instances.len()));
            return false;
        }
        let instance = &training_instances[position];
        assert(instances[position as int] == instance@);
        assert(instance@.traces.len() == instance.traces@.len());
        if trace_index >= instance.traces.len() {
            assert(!(trace_index < instances[valid[j as int] as int].traces.len()));
            return false;
        }
        assert(instance@.traces[trace_index as int] == instance.traces@[trace_index as int]@);
        if !check_votes_fit(&instance.traces[trace_index].indexes, data_size) {
            assert(!votes_fit(
                instances[valid[j as int] as int].traces[trace_index as int].indexes,
                data_size as int,
            ));
            return false;
        }
        j += 1;
    }
    true
}

/// Whether a base can be trained by the valid instances within the machine's limits: see
/// [ready_to_train].
pub fn check_ready_to_train(
    base: &DefinitionUnit,
    training_instances: &Vec<DefinitionUnit>,
    valid_instances: &Vec<usize>,
) -> (ready: bool)
    ensures
        ready == ready_to_train(base@, definition_views(training_instances@), valid_instances@),
{
    assert(0 <= base.resolution * base.resolution <= 0x4000_0000_0000_0000_0000_0000_0000_0000)
        by (nonlinear_arith)
        requires
            -0x8000_0000_0000_0000 <= base.resolution <= 0x7FFF_FFFF_FFFF_FFFF,
    ;
    let square: i128 = base.resolution as i128 * base.resolution as i128;
    if square > usize::MAX as i128 || square > COORDINATE_LIMIT as i128 {
        return false;
    }
    let data_size: usize = square as usize;
    let ghost instances = definition_views(training_instances@);
    let ghost valid = valid_instances@;
    assert(base@.traces.len() == base.traces@.len());
    let mut slot: usize = 0;
    while slot < base.traces.len()
        invariant
            slot <= base.traces@.len(),
            base@.traces.len() == base.traces@.len(),
            instances == definition_views(training_instances@),
            valid == valid_instances@,
            data_size == base@.resolution * base@.resolution,
            forall|m: int|
                0 <= m < slot ==> {
                    &&& (#[trigger] base@.traces[m]).resolution > 0
                    &&& votes_fit(base@.traces[m].indexes, data_size as int)
                    &&& electorate_fits(instances, valid, m, data_size as int)
                },
        decreases base.traces@.len() - slot,
    {
        let trace = &base.traces[slot];
        assert(base@.traces[slot as int] == trace@);
        if trace.resolution <= 0 || !check_votes_fit(&trace.indexes, data_size)
            || !check_electorate_fits(training_instances, valid_instances, slot, data_size) {
            return false;
        }
        slot += 1;
    }
    true
}

} // verus!
