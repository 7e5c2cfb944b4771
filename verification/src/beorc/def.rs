use crate::def::maths::cos_exceeds_threshold;
use crate::def::maths::cos_is_greater;
use crate::def::maths::cosine_above_threshold;
use crate::def::maths::cosine_greater;
use crate::def::maths::floor_divide;
use crate::def::maths::get_coordinates_from;
use crate::def::maths::quotient;
use crate::def::maths::remainder;
use crate::def::maths::sub_vectors;
use crate::def::maths::within_reach;
use crate::def::maths::Vector2;
use crate::def::maths::SIMILARITY_REACH;
use crate::def::text::append_list;
use crate::def::text::list_text;
use vstd::prelude::*;

verus! {

/// A trace is made of indexes whose column and row do not exceed this bound in absolute
/// value, so that the difference of two of them fits the machine integer.
pub const COORDINATE_LIMIT: i64 = 0x3FFF_FFFF_FFFF_FFFF;

/// Whether column and row of an index, on rows of `resolution` entries, lie within `limit`
/// of zero.
pub open spec fn coordinates_within(index: int, resolution: int, limit: int) -> bool {
    &&& -limit <= remainder(index, resolution) <= limit
    &&& -limit <= quotient(index, resolution) <= limit
}

/// Whether a run of indexes holds at least one index, rows hold at least one entry, and
/// every index lies within `limit` of zero in column and row.
pub open spec fn run_within(indexes: Seq<i64>, resolution: int, limit: int) -> bool {
    &&& resolution > 0
    &&& indexes.len() > 0
    &&& forall|k: int|
        0 <= k < indexes.len() ==> coordinates_within(
            #[trigger] indexes[k] as int,
            resolution,
            limit,
        )
}

/// Sum of the columns of the first `count` indexes of a run.
pub open spec fn column_sum(indexes: Seq<i64>, resolution: int, count: int) -> int
    decreases count,
{
    if count <= 0 {
        0
    } else {
        column_sum(indexes, resolution, count - 1) + remainder(
            indexes[count - 1] as int,
            resolution,
        )
    }
}

/// Sum of the rows of the first `count` indexes of a run.
pub open spec fn row_sum(indexes: Seq<i64>, resolution: int, count: int) -> int
    decreases count,
{
    if count <= 0 {
        0
    } else {
        row_sum(indexes, resolution, count - 1) + quotient(indexes[count - 1] as int, resolution)
    }
}

/// What a trace holds, over the unbounded integers.
pub struct TraceView {
    pub time_stamp: int,
    pub indexes: Seq<i64>,
    pub trace: Vector2<int>,
    pub average_offset: Vector2<int>,
    pub resolution: int,
}

/// The trace of a run of indexes: its displacement leads from the first index to the last,
/// and its average offset from the first index to the mean of all, rounded down.
pub open spec fn trace_of(time_stamp: int, indexes: Seq<i64>, resolution: int) -> TraceView {
    let first = indexes[0] as int;
    let last = indexes[indexes.len() - 1] as int;
    TraceView {
        time_stamp,
        indexes,
        trace: Vector2 {
            x: remainder(last, resolution) - remainder(first, resolution),
            y: quotient(last, resolution) - quotient(first, resolution),
        },
        average_offset: Vector2 {
            x: column_sum(indexes, resolution, indexes.len() as int) / (indexes.len() as int)
                - remainder(first, resolution),
            y: row_sum(indexes, resolution, indexes.len() as int) / (indexes.len() as int)
                - quotient(first, resolution),
        },
        resolution,
    }
}

/// The sums over a run lie within as many times the limit as indexes were added.
pub proof fn sums_within(indexes: Seq<i64>, resolution: int, limit: int, count: int)
    requires
        run_within(indexes, resolution, limit),
        0 <= count <= indexes.len(),
    ensures
        -(count * limit) <= column_sum(indexes, resolution, count) <= count * limit,
        -(count * limit) <= row_sum(indexes, resolution, count) <= count * limit,
    decreases count,
{
    if count > 0 {
        sums_within(indexes, resolution, limit, count - 1);
        assert(coordinates_within(indexes[count - 1] as int, resolution, limit));
        assert((count - 1) * limit + limit == count * limit) by (nonlinear_arith);
    }
}

/// A mean, rounded down, lies within the limit that bounds what was summed.
pub proof fn mean_within(sum: int, count: int, limit: int)
    requires
        count > 0,
        -(count * limit) <= sum <= count * limit,
    ensures
        -limit <= sum / count <= limit,
{
    vstd::arithmetic::div_mod::lemma_fundamental_div_mod(sum, count);
    let q = sum / count;
    let r = sum % count;
    assert(q <= limit) by (nonlinear_arith)
        requires
            sum == count * q + r,
            0 <= r,
            count > 0,
            sum <= count * limit,
    ;
    assert(q >= -limit) by (nonlinear_arith)
        requires
            sum == count * q + r,
            r < count,
            count > 0,
            -(count * limit) <= sum,
    ;
}

/// The vectors of the trace of a run lie within twice the limit of the run.
pub proof fn trace_vectors_within(time_stamp: int, indexes: Seq<i64>, resolution: int, limit: int)
    requires
        run_within(indexes, resolution, limit),
    ensures
        -2 * limit <= trace_of(time_stamp, indexes, resolution).trace.x <= 2 * limit,
        -2 * limit <= trace_of(time_stamp, indexes, resolution).trace.y <= 2 * limit,
        -2 * limit <= trace_of(time_stamp, indexes, resolution).average_offset.x <= 2 * limit,
        -2 * limit <= trace_of(time_stamp, indexes, resolution).average_offset.y <= 2 * limit,
{
    let count = indexes.len() as int;
    sums_within(indexes, resolution, limit, count);
    mean_within(column_sum(indexes, resolution, count), count, limit);
    mean_within(row_sum(indexes, resolution, count), count, limit);
    assert(coordinates_within(indexes[0] as int, resolution, limit));
    assert(coordinates_within(indexes[count - 1] as int, resolution, limit));
}

/// One stroke: the indexes it ran through, in order, and what they sum up to.
pub struct Trace {
    pub time_stamp: i64,
    pub indexes: Vec<i64>,
    /// Displacement from the first index to the last.
    pub trace: Vector2<i64>,
    /// Displacement from the first index to the mean of all indexes.
    pub average_offset: Vector2<i64>,
    /// The row size by which the indexes are read.
    pub resolution: i64,
}

impl View for Trace {
    type V = TraceView;

    open spec fn view(&self) -> TraceView {
        TraceView {
            time_stamp: self.time_stamp as int,
            indexes: self.indexes@,
            trace: self.trace@,
            average_offset: self.average_offset@,
            resolution: self.resolution as int,
        }
    }
}

impl Clone for Trace {
    fn clone(&self) -> (copy: Self)
        ensures
            copy@ == self@,
    {
        Trace {
            time_stamp: self.time_stamp,
            indexes: self.indexes.clone(),
            trace: self.trace,
            average_offset: self.average_offset,
            resolution: self.resolution,
        }
    }
}

impl Trace {
    /// Whether the vectors of the trace are those of its indexes.
    pub open spec fn wf(&self) -> bool {
        &&& run_within(self.indexes@, self.resolution as int, COORDINATE_LIMIT as int)
        &&& self@ == trace_of(self.time_stamp as int, self.indexes@, self.resolution as int)
    }

    /// The trace of a run of indexes on rows of `resolution` entries.
    pub fn new(time_stamp: i64, indexes: Vec<i64>, resolution: i64) -> (trace: Trace)
        requires
            run_within(indexes@, resolution as int, COORDINATE_LIMIT as int),
        ensures
            trace@ == trace_of(time_stamp as int, indexes@, resolution as int),
            trace.wf(),
    {
        let count: usize = indexes.len();
        let first_index: i64 = indexes[0];
        let last_index: i64 = indexes[count - 1];
        let ghost run = indexes@;
        let ghost rs = resolution as int;
        let ghost limit = COORDINATE_LIMIT as int;
        assert(coordinates_within(run[0] as int, rs, limit));
        assert(coordinates_within(run[count - 1] as int, rs, limit));

        let first_displacement = get_coordinates_from(first_index, resolution);
        let last_displacement = get_coordinates_from(last_index, resolution);

        let trace_value = sub_vectors(&last_displacement, &first_displacement);

        let mut total_x: i128 = 0;
        let mut total_y: i128 = 0;
        let mut element_count: usize = 0;
        while element_count < count
            invariant
                element_count <= count,
                count == run.len(),
                run == indexes@,
                rs == resolution,
                limit == COORDINATE_LIMIT,
                run_within(run, rs, limit),
                total_x == column_sum(run, rs, element_count as int),
                total_y == row_sum(run, rs, element_count as int),
            decreases count - element_count,
        {
            proof {
                sums_within(run, rs, limit, element_count as int);
                sums_within(run, rs, limit, element_count + 1);
                assert(coordinates_within(run[element_count as int] as int, rs, limit));
                assert(element_count * limit <= 0xFFFF_FFFF_FFFF_FFFF * 0x3FFF_FFFF_FFFF_FFFF)
                    by (nonlinear_arith)
                    requires
                        0 <= element_count <= 0xFFFF_FFFF_FFFF_FFFF,
                        limit == 0x3FFF_FFFF_FFFF_FFFF,
                ;
            }
            let result = get_coordinates_from(indexes[element_count], resolution);
            total_x = total_x + result.x as i128;
            total_y = total_y + result.y as i128;
            element_count += 1;
        }
        proof {
            sums_within(run, rs, limit, count as int);
            mean_within(total_x as int, count as int, limit);
            mean_within(total_y as int, count as int, limit);
            assert(count * limit <= 0xFFFF_FFFF_FFFF_FFFF * 0x3FFF_FFFF_FFFF_FFFF)
                by (nonlinear_arith)
                requires
                    0 <= count <= 0xFFFF_FFFF_FFFF_FFFF,
                    limit == 0x3FFF_FFFF_FFFF_FFFF,
            ;
        }
        let mean_x: i128 = floor_divide(total_x, count as i128);
        let mean_y: i128 = floor_divide(total_y, count as i128);
        let mean = Vector2::new(mean_x as i64, mean_y as i64);
        let aoffset_value = sub_vectors(&mean, &first_displacement);

        Trace {
            time_stamp,
            indexes,
            trace: trace_value,
            average_offset: aoffset_value,
            resolution,
        }
    }

    /// A trace without indexes, marked by the time stamp -1.
    pub fn empty() -> (trace: Trace)
        ensures
            trace.time_stamp == -1,
            trace.indexes@.len() == 0,
            trace.trace@ == (Vector2 { x: 0int, y: 0int }),
            trace.average_offset@ == (Vector2 { x: 0int, y: 0int }),
            trace.resolution == 0,
    {
        Trace {
            time_stamp: -1,
            indexes: Vec::new(),
            trace: Vector2::new(0, 0),
            average_offset: Vector2::new(0, 0),
            resolution: 0,
        }
    }
}

/// The views of a list of traces.
pub open spec fn trace_views(traces: Seq<Trace>) -> Seq<TraceView> {
    Seq::new(traces.len(), |k: int| traces[k]@)
}

/// What a definition holds, over the unbounded integers.
pub struct DefinitionView {
    pub id: Seq<char>,
    pub resolution: int,
    pub traces: Seq<TraceView>,
}

/// One labelled pattern of several strokes.
pub struct DefinitionUnit {
    pub id: String,
    pub resolution: i64,
    pub traces: Vec<Trace>,
}

impl View for DefinitionUnit {
    type V = DefinitionView;

    open spec fn view(&self) -> DefinitionView {
        DefinitionView {
            id: self.id@,
            resolution: self.resolution as int,
            traces: trace_views(self.traces@),
        }
    }
}

/// A copy of a list of traces.
pub fn copy_traces(traces: &Vec<Trace>) -> (copy: Vec<Trace>)
    ensures
        trace_views(copy@) == trace_views(traces@),
{
    let mut copy: Vec<Trace> = Vec::new();
    let mut k: usize = 0;
    while k < traces.len()
        invariant
            k <= traces@.len(),
            copy@.len() == k,
            forall|m: int| 0 <= m < k ==> (#[trigger] copy@[m])@ == traces@[m]@,
        decreases traces@.len() - k,
    {
        copy.push(traces[k].clone());
        k += 1;
    }
    assert(trace_views(copy@) =~= trace_views(traces@));
    copy
}

impl Clone for DefinitionUnit {
    fn clone(&self) -> (copy: Self)
        ensures
            copy@ == self@,
    {
        DefinitionUnit {
            id: self.id.clone(),
            resolution: self.resolution,
            traces: copy_traces(&self.traces),
        }
    }
}

impl DefinitionUnit {
    /// A definition without traces, under the id "bbeorrcc".
    pub fn new(resolution: i64) -> (unit: DefinitionUnit)
        ensures
            unit@ == (DefinitionView {
                id: "bbeorrcc"@,
                resolution: resolution as int,
                traces: Seq::<TraceView>::empty(),
            }),
    {
        let unit = DefinitionUnit { id: "bbeorrcc".to_owned(), resolution, traces: Vec::new() };
        assert(trace_views(unit.traces@) =~= Seq::<TraceView>::empty());
        unit
    }

    /// Add the trace of a run of indexes, read by the resolution of the definition.
    pub fn feed(&mut self, time_stamp: i64, indexes: Vec<i64>)
        requires
            run_within(indexes@, old(self).resolution as int, COORDINATE_LIMIT as int),
        ensures
            final(self)@ == (DefinitionView {
                traces: old(self)@.traces.push(
                    trace_of(time_stamp as int, indexes@, old(self).resolution as int),
                ),
                ..old(self)@
            }),
    {
        let new_trace = Trace::new(time_stamp, indexes, self.resolution);
        self.traces.push(new_trace);
        assert(trace_views(self.traces@) =~= trace_views(old(self).traces@).push(new_trace@));
    }
}

/// What a report on one reconstructed trace holds.
pub struct ReconstructionView {
    pub base: Seq<i64>,
    pub check: Seq<i64>,
    pub accepted: bool,
}

/// Report on one reconstructed trace: the indexes of the trace that was to be matched, the
/// indexes that were taken for it, and whether they are alike.
pub struct ReconstructionReport {
    pub base: Vec<i64>,
    pub check: Vec<i64>,
    pub accepted: bool,
}

impl View for ReconstructionReport {
    type V = ReconstructionView;

    open spec fn view(&self) -> ReconstructionView {
        ReconstructionView { base: self.base@, check: self.check@, accepted: self.accepted }
    }
}

/// The text of a report: both runs of indexes and the verdict, a line each, between two
/// lines of question marks.
pub open spec fn report_text(report: ReconstructionView) -> Seq<char> {
    "??????????????????????\n"@ + "Tried to reconstruct: "@ + list_text(report.base) + "\n"@
        + "Got: "@ + list_text(report.check) + "\n"@ + "ACCEPTED: "@ + (if report.accepted {
        "true"@
    } else {
        "false"@
    }) + "\n"@ + "??????????????????????\n"@
}

impl ReconstructionReport {
    pub fn new(base: Vec<i64>, check: Vec<i64>, accepted: bool) -> (report: ReconstructionReport)
        ensures
            report@ == (ReconstructionView { base: base@, check: check@, accepted }),
    {
        ReconstructionReport { base, check, accepted }
    }

    /// The report as text.
    pub fn to_string(&self) -> (text: String)
        ensures
            text@ == report_text(self@),
    {
        let mut result_string: String = "??????????????????????\n".to_owned();
        result_string.append("Tried to reconstruct: ");
        append_list(&mut result_string, &self.base);
        result_string.append("\n");
        result_string.append("Got: ");
        append_list(&mut result_string, &self.check);
        result_string.append("\n");
        result_string.append("ACCEPTED: ");
        if self.accepted {
            result_string.append("true");
        } else {
            result_string.append("false");
        }
        result_string.append("\n");
        result_string.append("??????????????????????\n");
        assert(result_string@ =~= report_text(self@));

        result_string
    }
}

/// The number of indexes of a trace differs little from that of another when this many times
/// the difference is less than the resolution.
pub const ERROR_PARTS: i128 = 5;

/// Indexes of traces that are merged lie within this bound of zero in column and row, so
/// that the vectors of the merged trace lie within [SIMILARITY_REACH].
pub const MERGE_REACH: i64 = 524_288;

/// Whether displacement and average offset of `entry` are both like those of `base`.
pub open spec fn alike(base: TraceView, entry: TraceView) -> bool {
    &&& cosine_above_threshold(base.trace, entry.trace)
    &&& cosine_above_threshold(base.average_offset, entry.average_offset)
}

/// By how many indexes the runs of two traces differ in length.
pub open spec fn length_gap(base: TraceView, entry: TraceView) -> int {
    if base.indexes.len() >= entry.indexes.len() {
        base.indexes.len() - entry.indexes.len()
    } else {
        entry.indexes.len() - base.indexes.len()
    }
}

/// How many of three comparisons the merged trace wins against the single one: being more
/// like `base` in displacement, being more like it in average offset, and being closer to it
/// in the number of indexes.
pub open spec fn votes_for_merged(base: TraceView, single: TraceView, merged: TraceView) -> int {
    (if cosine_greater(base.trace, merged.trace, single.trace) {
        1int
    } else {
        0int
    }) + (if cosine_greater(base.average_offset, merged.average_offset, single.average_offset) {
        1int
    } else {
        0int
    }) + (if length_gap(base, merged) < length_gap(base, single) {
        1int
    } else {
        0int
    })
}

/// Whether a trace of the candidate merged with the one after it is taken for `base` rather
/// than the trace alone. When both are like `base`, the merged one is taken unless the single
/// one is closer in the number of indexes. Otherwise the merged one is taken when it is like
/// `base` and closer in the number of indexes, or else when it wins two of the three
/// comparisons.
pub open spec fn prefers_merged(base: TraceView, single: TraceView, merged: TraceView) -> bool {
    if alike(base, single) && alike(base, merged) {
        !(length_gap(base, single) < length_gap(base, merged))
    } else if length_gap(base, merged) < length_gap(base, single) && alike(base, merged) {
        true
    } else {
        votes_for_merged(base, single, merged) >= 2
    }
}

/// Whether the last trace of the candidate, which has no trace after it to merge with, is
/// accepted for `base`: whether two of these hold: it is like `base` in displacement, it is
/// like it in average offset, and its number of indexes differs little.
pub open spec fn lone_accepted(base: TraceView, single: TraceView) -> bool {
    (if cosine_above_threshold(base.trace, single.trace) {
        1int
    } else {
        0int
    }) + (if cosine_above_threshold(base.average_offset, single.average_offset) {
        1int
    } else {
        0int
    }) + (if ERROR_PARTS * length_gap(base, single) < base.resolution {
        1int
    } else {
        0int
    }) >= 2
}

/// One trace of a reconstruction: the trace taken, and whether it was accepted.
pub struct Rebuilt {
    pub trace: TraceView,
    pub accepted: bool,
}

/// The reconstruction of a candidate against a base, from the trace `b` of the base and the
/// trace `e` of the candidate on. Every trace of the base takes one trace of the candidate
/// or two merged into one, under the time stamp of the trace of the base, until either side
/// runs out. A merged trace is the trace of both runs of indexes one after the other, read
/// by the resolution of the trace of the base.
pub open spec fn reconstruction(
    base: Seq<TraceView>,
    entry: Seq<TraceView>,
    b: int,
    e: int,
) -> Seq<Rebuilt>
    decreases entry.len() - e,
{
    if b < 0 || e < 0 || b >= base.len() || e >= entry.len() {
        Seq::empty()
    } else if e + 1 < entry.len() {
        let merged = trace_of(0, entry[e].indexes + entry[e + 1].indexes, base[b].resolution);
        if prefers_merged(base[b], entry[e], merged) {
            seq![
                Rebuilt {
                    trace: TraceView { time_stamp: base[b].time_stamp, ..merged },
                    accepted: alike(base[b], merged),
                },
            ] + reconstruction(base, entry, b + 1, e + 2)
        } else {
            seq![
                Rebuilt {
                    trace: TraceView { time_stamp: base[b].time_stamp, ..entry[e] },
                    accepted: alike(base[b], entry[e]),
                },
            ] + reconstruction(base, entry, b + 1, e + 1)
        }
    } else {
        seq![
            Rebuilt {
                trace: TraceView { time_stamp: base[b].time_stamp, ..entry[e] },
                accepted: lone_accepted(base[b], entry[e]),
            },
        ] + reconstruction(base, entry, b + 1, e + 1)
    }
}

/// A reconstruction holds a trace for each trace of the base in turn, under its time
/// stamp, and no more traces than the base or the candidate have left.
pub proof fn reconstruction_follows_base(
    base: Seq<TraceView>,
    entry: Seq<TraceView>,
    b: int,
    e: int,
)
    requires
        0 <= b <= base.len(),
        0 <= e,
    ensures
        reconstruction(base, entry, b, e).len() <= base.len() - b,
        e <= entry.len() ==> reconstruction(base, entry, b, e).len() <= entry.len() - e,
        forall|k: int|
            0 <= k < reconstruction(base, entry, b, e).len() ==> (#[trigger] reconstruction(
                base,
                entry,
                b,
                e,
            )[k]).trace.time_stamp == base[b + k].time_stamp,
    decreases entry.len() - e,
{
    if !(b >= base.len() || e >= entry.len()) {
        reconstruction_follows_base(base, entry, b + 1, e + 1);
        if e + 1 < entry.len() {
            reconstruction_follows_base(base, entry, b + 1, e + 2);
        }
    }
}

/// The traces of a reconstruction.
pub open spec fn rebuilt_traces(rebuilt: Seq<Rebuilt>) -> Seq<TraceView> {
    Seq::new(rebuilt.len(), |k: int| rebuilt[k].trace)
}

/// The reports on a reconstruction: one for every trace taken, with the indexes of the trace
/// of the base that it was taken for.
pub open spec fn rebuilt_reports(base: Seq<TraceView>, rebuilt: Seq<Rebuilt>) -> Seq<
    ReconstructionView,
> {
    Seq::new(
        rebuilt.len(),
        |k: int|
            ReconstructionView {
                base: base[k].indexes,
                check: rebuilt[k].trace.indexes,
                accepted: rebuilt[k].accepted,
            },
    )
}

/// The views of a list of reports.
pub open spec fn report_views(reports: Seq<ReconstructionReport>) -> Seq<ReconstructionView> {
    Seq::new(reports.len(), |k: int| reports[k]@)
}

/// Whether a candidate can be reconstructed against a base within the machine's limits: the
/// traces of the base are read by its resolution, the vectors of all traces lie within
/// [SIMILARITY_REACH], and the indexes of the candidate, read by the resolution of the base,
/// lie within [MERGE_REACH].
pub open spec fn ready_to_match(base: DefinitionView, entry: DefinitionView) -> bool {
    &&& base.resolution > 0
    &&& forall|b: int|
        0 <= b < base.traces.len() ==> {
            &&& (#[trigger] base.traces[b]).resolution == base.resolution
            &&& within_reach(base.traces[b].trace)
            &&& within_reach(base.traces[b].average_offset)
        }
    &&& forall|e: int|
        0 <= e < entry.traces.len() ==> {
            &&& within_reach((#[trigger] entry.traces[e]).trace)
            &&& within_reach(entry.traces[e].average_offset)
            &&& run_within(entry.traces[e].indexes, base.resolution, MERGE_REACH as int)
        }
}

/// Whether the number of traces of a candidate is at least that of the base and at most
/// twice as large.
pub fn trace_within_range(base_count: usize, entry_count: usize) -> (within: bool)
    ensures
        within == (base_count <= entry_count <= 2 * base_count),
{
    entry_count >= base_count && entry_count as u128 <= base_count as u128 * 2
}

/// Whether displacement and average offset of `entry` are both like those of `base`.
pub fn is_alike(base: &Trace, entry: &Trace) -> (like: bool)
    requires
        within_reach(base@.trace),
        within_reach(base@.average_offset),
        within_reach(entry@.trace),
        within_reach(entry@.average_offset),
    ensures
        like == alike(base@, entry@),
{
    cos_exceeds_threshold(&base.trace, &entry.trace) && cos_exceeds_threshold(
        &base.average_offset,
        &entry.average_offset,
    )
}

/// By how many indexes the runs of two traces differ in length.
pub fn get_length_gap(base: &Trace, entry: &Trace) -> (gap: usize)
    ensures
        gap == length_gap(base@, entry@),
{
    if base.indexes.len() >= entry.indexes.len() {
        base.indexes.len() - entry.indexes.len()
    } else {
        entry.indexes.len() - base.indexes.len()
    }
}

/// Decide between a trace of the candidate and the same trace merged with the one after it.
pub fn choose_merged(base: &Trace, single: &Trace, merged: &Trace) -> (take_merged: bool)
    requires
        within_reach(base@.trace),
        within_reach(base@.average_offset),
        within_reach(single@.trace),
        within_reach(single@.average_offset),
        within_reach(merged@.trace),
        within_reach(merged@.average_offset),
    ensures
        take_merged == prefers_merged(base@, single@, merged@),
{
    let single_alike: bool = is_alike(base, single);
    let merged_alike: bool = is_alike(base, merged);
    let elements_difference_1: usize = get_length_gap(base, single);
    let elements_difference_2: usize = get_length_gap(base, merged);

    // If both are valid, select the one with the best elements match
    if single_alike && merged_alike {
        return !(elements_difference_1 < elements_difference_2);
    }
    // If not, the combined match is taken right away if its number of elements is closer,
    // but only if it is within the margin

    if elements_difference_2 < elements_difference_1 && merged_alike {
        return true;
    }
    // Finally, the best match of the three comparisons decides

    let mut best_match_new: u8 = 0;
    if cos_is_greater(&base.trace, &merged.trace, &single.trace) {
        best_match_new += 1;
    }
    if cos_is_greater(&base.average_offset, &merged.average_offset, &single.average_offset) {
        best_match_new += 1;
    }
    if elements_difference_2 < elements_difference_1 {
        best_match_new += 1;
    }
    best_match_new >= 2
}

/// Decide whether the last trace of the candidate is accepted for `base`.
pub fn accept_lone(base: &Trace, single: &Trace) -> (accepted: bool)
    requires
        within_reach(base@.trace),
        within_reach(base@.average_offset),
        within_reach(single@.trace),
        within_reach(single@.average_offset),
    ensures
        accepted == lone_accepted(base@, single@),
{
    let elements_difference_1: usize = get_length_gap(base, single);
    let mut match_check: u8 = 0;
    if cos_exceeds_threshold(&base.trace, &single.trace) {
        match_check += 1;
    }
    if cos_exceeds_threshold(&base.average_offset, &single.average_offset) {
        match_check += 1;
    }
    if ERROR_PARTS * (elements_difference_1 as i128) < base.resolution as i128 {
        match_check += 1;
    }
    match_check > 1
}

/// The indexes of two runs, one after the other.
pub fn join_runs(first: &Vec<i64>, second: &Vec<i64>) -> (joined: Vec<i64>)
    ensures
        joined@ == first@ + second@,
{
    let mut joined: Vec<i64> = first.clone();
    let mut k: usize = 0;
    while k < second.len()
        invariant
            k <= second@.len(),
            joined@ == first@ + second@.subrange(0, k as int),
        decreases second@.len() - k,
    {
        joined.push(second[k]);
        assert(joined@ =~= first@ + second@.subrange(0, k + 1));
        k += 1;
    }
    assert(joined@ =~= first@ + second@);
    joined
}

/// Two runs within a limit are within it when joined.
pub proof fn joined_run_within(first: Seq<i64>, second: Seq<i64>, resolution: int, limit: int)
    requires
        run_within(first, resolution, limit),
        run_within(second, resolution, limit),
    ensures
        run_within(first + second, resolution, limit),
{
    let joined = first + second;
    assert forall|k: int| 0 <= k < joined.len() implies coordinates_within(
        #[trigger] joined[k] as int,
        resolution,
        limit,
    ) by {
        if k < first.len() {
            assert(joined[k] == first[k]);
        } else {
            assert(joined[k] == second[k - first.len()]);
        }
    }
}

/// Align the traces of a candidate with those of a base: walk through both, and for every
/// trace of the base take one trace of the candidate, or two merged into one, whichever is
/// more like it. The traces taken make up the definition returned, under the time stamps of
/// the base; for each of them a report is added to `reports`.
pub fn reconstruct_traces(
    base_unit: &DefinitionUnit,
    entry_unit: &DefinitionUnit,
    reports: &mut Vec<ReconstructionReport>,
) -> (result: DefinitionUnit)
    requires
        ready_to_match(base_unit@, entry_unit@),
    ensures
        ({
            let rebuilt = reconstruction(base_unit@.traces, entry_unit@.traces, 0, 0);
            &&& result@ == (DefinitionView {
                id: "bbeorrcc"@,
                resolution: base_unit@.resolution,
                traces: rebuilt_traces(rebuilt),
            })
            &&& report_views(final(reports)@) == report_views(old(reports)@) + rebuilt_reports(
                base_unit@.traces,
                rebuilt,
            )
        }),
{
    let mut result = DefinitionUnit::new(base_unit.resolution);

    let mut index_for_base: usize = 0;
    let maximum_base_index: usize = base_unit.traces.len();
    let mut index_for_entry: usize = 0;
    let maximum_entry_index: usize = entry_unit.traces.len();

    let ghost base = base_unit@.traces;
    let ghost entry = entry_unit@.traces;
    let ghost goal = reconstruction(base, entry, 0, 0);
    let ghost mut done: Seq<Rebuilt> = Seq::empty();
    assert(report_views(reports@) =~= report_views(old(reports)@) + rebuilt_reports(base, done));

    while index_for_entry < maximum_entry_index && index_for_base < maximum_base_index
        invariant
            base == base_unit@.traces,
            entry == entry_unit@.traces,
            ready_to_match(base_unit@, entry_unit@),
            maximum_base_index == base.len(),
            maximum_entry_index == entry.len(),
            index_for_base <= maximum_base_index,
            index_for_entry <= maximum_entry_index + 1,
            done.len() == index_for_base,
            goal == reconstruction(base, entry, 0, 0),
            goal == done + reconstruction(base, entry, index_for_base as int, index_for_entry as int),
            result.id@ == "bbeorrcc"@,
            result.resolution == base_unit.resolution,
            trace_views(result.traces@) == rebuilt_traces(done),
            report_views(reports@) == report_views(old(reports)@) + rebuilt_reports(base, done),
        decreases maximum_entry_index - index_for_entry,
    {
        let compare_against = &base_unit.traces[index_for_base];
        let mut first_entry: Trace = entry_unit.traces[index_for_entry].clone();
        let ghost b = index_for_base as int;
        let ghost e = index_for_entry as int;
        let ghost rest = reconstruction(base, entry, b, e);
        assert(compare_against@ == base[b]);
        assert(first_entry@ == entry[e]);
        assert(base[b].resolution == base_unit@.resolution);
        let ghost taken: Rebuilt;
        let ghost next_e: int;
        let ghost traces_before = result.traces@;
        let ghost reports_before = reports@;

        if index_for_entry + 1 < maximum_entry_index {
            let second_entry = &entry_unit.traces[index_for_entry + 1];
            assert(second_entry@ == entry[e + 1]);
            let combined_vector: Vec<i64> = join_runs(&first_entry.indexes, &second_entry.indexes);
            proof {
                joined_run_within(
                    entry[e].indexes,
                    entry[e + 1].indexes,
                    base_unit@.resolution,
                    MERGE_REACH as int,
                );
                trace_vectors_within(
                    0,
                    combined_vector@,
                    base_unit@.resolution,
                    MERGE_REACH as int,
                );
            }
            let mut combined_entry: Trace = Trace::new(
                0,
                combined_vector,
                compare_against.resolution,
            );
            let ghost merged = combined_entry@;

            if choose_merged(compare_against, &first_entry, &combined_entry) {
                let accepted: bool = is_alike(compare_against, &combined_entry);
                combined_entry.time_stamp = compare_against.time_stamp;
                reports.push(
                    ReconstructionReport::new(
                        compare_against.indexes.clone(),
                        combined_entry.indexes.clone(),
                        accepted,
                    ),
                );
                proof {
                    taken = Rebuilt { trace: combined_entry@, accepted };
                    next_e = e + 2;
                }
                result.traces.push(combined_entry);
                index_for_entry += 1;
            } else {
                let accepted: bool = is_alike(compare_against, &first_entry);
                first_entry.time_stamp = compare_against.time_stamp;
                reports.push(
                    ReconstructionReport::new(
                        compare_against.indexes.clone(),
                        first_entry.indexes.clone(),
                        accepted,
                    ),
                );
                proof {
                    taken = Rebuilt { trace: first_entry@, accepted };
                    next_e = e + 1;
                }
                result.traces.push(first_entry);
            }
        } else {
            let accepted: bool = accept_lone(compare_against, &first_entry);
            first_entry.time_stamp = compare_against.time_stamp;
            reports.push(
                ReconstructionReport::new(
                    compare_against.indexes.clone(),
                    first_entry.indexes.clone(),
                    accepted,
                ),
            );
            proof {
                taken = Rebuilt { trace: first_entry@, accepted };
                next_e = e + 1;
            }
            result.traces.push(first_entry);
        }
        proof {
            assert(rest == seq![taken] + reconstruction(base, entry, b + 1, next_e));
            assert(goal =~= done.push(taken) + reconstruction(base, entry, b + 1, next_e));
            assert(result.traces@.len() == traces_before.len() + 1);
            assert(result.traces@.last()@ == taken.trace);
            assert(trace_views(traces_before).len() == traces_before.len());
            assert(rebuilt_traces(done).len() == done.len());
            assert(rebuilt_traces(done.push(taken)).len() == done.len() + 1);
            assert(report_views(reports_before).len() == reports_before.len());
            assert(report_views(old(reports)@).len() == old(reports)@.len());
            assert(rebuilt_reports(base, done).len() == done.len());
            assert(rebuilt_reports(base, done.push(taken)).len() == done.len() + 1);
            assert forall|k: int| 0 <= k < traces_before.len() implies result.traces@[k]
                == traces_before[k] by {}
            assert forall|k: int| 0 <= k < result.traces@.len() implies trace_views(
                result.traces@,
            )[k] == rebuilt_traces(done.push(taken))[k] by {
                if k < traces_before.len() {
                    assert(trace_views(traces_before)[k] == rebuilt_traces(done)[k]);
                }
            }
            assert(trace_views(result.traces@) =~= rebuilt_traces(done.push(taken)));
            assert(reports@.len() == reports_before.len() + 1);
            assert(reports@.last()@ == (ReconstructionView {
                base: base[b].indexes,
                check: taken.trace.indexes,
                accepted: taken.accepted,
            }));
            assert forall|k: int| 0 <= k < reports_before.len() implies reports@[k]
                == reports_before[k] by {}
            let wanted = report_views(old(reports)@) + rebuilt_reports(base, done.push(taken));
            assert forall|k: int| 0 <= k < reports@.len() implies report_views(reports@)[k]
                == wanted[k] by {
                if k < reports_before.len() {
                    assert(report_views(reports_before)[k] == (report_views(old(reports)@)
                        + rebuilt_reports(base, done))[k]);
                }
            }
            assert(report_views(reports@) =~= report_views(old(reports)@) + rebuilt_reports(
                base,
                done.push(taken),
            ));
            done = done.push(taken);
        }
        index_for_base += 1;
        index_for_entry += 1;
    }
    proof {
        assert(reconstruction(base, entry, index_for_base as int, index_for_entry as int)
            =~= Seq::<Rebuilt>::empty());
        assert(goal =~= done);
    }

    result
}

/// The candidate as it enters the comparison with a base. When its number of traces is
/// within range of the base but differs from it, the candidate is reconstructed; the
/// reconstruction stands in for it if it has exactly as many traces as the base. In every
/// other case the candidate stands for itself.
pub fn reconstruct_instance(
    base_unit: &DefinitionUnit,
    entry_unit: &DefinitionUnit,
    reports: &mut Vec<ReconstructionReport>,
) -> (instance: DefinitionUnit)
    requires
        (base_unit@.traces.len() < entry_unit@.traces.len() <= 2 * base_unit@.traces.len())
            ==> ready_to_match(base_unit@, entry_unit@),
    ensures
        ({
            let rebuilt = reconstruction(base_unit@.traces, entry_unit@.traces, 0, 0);
            if base_unit@.traces.len() < entry_unit@.traces.len() <= 2 * base_unit@.traces.len() {
                &&& report_views(final(reports)@) == report_views(old(reports)@) + rebuilt_reports(
                    base_unit@.traces,
                    rebuilt,
                )
                &&& instance@ == if rebuilt.len() == base_unit@.traces.len() {
                    DefinitionView {
                        id: "bbeorrcc"@,
                        resolution: base_unit@.resolution,
                        traces: rebuilt_traces(rebuilt),
                    }
                } else {
                    entry_unit@
                }
            } else {
                &&& report_views(final(reports)@) == report_views(old(reports)@)
                &&& instance@ == entry_unit@
            }
        }),
{
    let maximum_index_entry: usize = entry_unit.traces.len();
    let maximum_index_base: usize = base_unit.traces.len();
    assert(trace_views(entry_unit.traces@).len() == maximum_index_entry);
    assert(trace_views(base_unit.traces@).len() == maximum_index_base);

    if trace_within_range(maximum_index_base, maximum_index_entry) && maximum_index_entry
        != maximum_index_base {
        let reconstruction_result = reconstruct_traces(base_unit, entry_unit, reports);
        assert(trace_views(reconstruction_result.traces@).len()
            == reconstruction_result.traces@.len());
        assert(trace_views(base_unit.traces@).len() == base_unit.traces@.len());
        if reconstruction_result.traces.len() == base_unit.traces.len() {
            return reconstruction_result;
        }
    }
    entry_unit.clone()
}

/// Whether a run of indexes, read by a resolution, lies within a limit: see [run_within].
pub fn run_fits(indexes: &Vec<i64>, resolution: i64, limit: i64) -> (fits: bool)
    requires
        0 <= limit,
    ensures
        fits == run_within(indexes@, resolution as int, limit as int),
{
    if resolution <= 0 || indexes.len() == 0 {
        return false;
    }
    let mut k: usize = 0;
    while k < indexes.len()
        invariant
            k <= indexes@.len(),
            resolution > 0,
            0 <= limit,
            forall|m: int|
                0 <= m < k ==> coordinates_within(
                    #[trigger] indexes@[m] as int,
                    resolution as int,
                    limit as int,
                ),
        decreases indexes@.len() - k,
    {
        let place = get_coordinates_from(indexes[k], resolution);
        if place.x < -limit || place.x > limit || place.y < -limit || place.y > limit {
            assert(!coordinates_within(indexes@[k as int] as int, resolution as int, limit as int));
            return false;
        }
        k += 1;
    }
    true
}

/// Whether both components of a vector lie within [SIMILARITY_REACH] of zero.
pub fn vector_within_reach(vector: &Vector2<i64>) -> (within: bool)
    ensures
        within == within_reach(vector@),
{
    -SIMILARITY_REACH <= vector.x && vector.x <= SIMILARITY_REACH && -SIMILARITY_REACH <= vector.y
        && vector.y <= SIMILARITY_REACH
}

/// Whether a candidate can be reconstructed against a base within the machine's limits: see
/// [ready_to_match].
pub fn check_ready_to_match(base_unit: &DefinitionUnit, entry_unit: &DefinitionUnit) -> (ready: bool)
    ensures
        ready == ready_to_match(base_unit@, entry_unit@),
{
    if base_unit.resolution <= 0 {
        return false;
    }
    let ghost base = base_unit@;
    let ghost entry = entry_unit@;
    assert(base.traces.len() == base_unit.traces@.len());
    assert(entry.traces.len() == entry_unit.traces@.len());
    let mut b: usize = 0;
    while b < base_unit.traces.len()
        invariant
            b <= base_unit.traces@.len(),
            base == base_unit@,
            base.traces.len() == base_unit.traces@.len(),
            forall|m: int|
                0 <= m < b ==> {
                    &&& (#[trigger] base.traces[m]).resolution == base.resolution
                    &&& within_reach(base.traces[m].trace)
                    &&& within_reach(base.traces[m].average_offset)
                },
        decreases base_unit.traces@.len() - b,
    {
        let trace = &base_unit.traces[b];
        assert(base.traces[b as int] == trace@);
        if trace.resolution != base_unit.resolution || !vector_within_reach(&trace.trace)
            || !vector_within_reach(&trace.average_offset) {
            return false;
        }
        b += 1;
    }
    let mut e: usize = 0;
    while e < entry_unit.traces.len()
        invariant
            e <= entry_unit.traces@.len(),
            base == base_unit@,
            entry == entry_unit@,
            entry.traces.len() == entry_unit.traces@.len(),
            forall|m: int|
                0 <= m < e ==> {
                    &&& within_reach((#[trigger] entry.traces[m]).trace)
                    &&& within_reach(entry.traces[m].average_offset)
                    &&& run_within(entry.traces[m].indexes, base.resolution, MERGE_REACH as int)
                },
        decreases entry_unit.traces@.len() - e,
    {
        let trace = &entry_unit.traces[e];
        assert(entry.traces[e as int] == trace@);
        if !vector_within_reach(&trace.trace) || !vector_within_reach(&trace.average_offset)
            || !run_fits(&trace.indexes, base_unit.resolution, MERGE_REACH) {
            return false;
        }
        e += 1;
    }
    true
}

/// What a trace of an instance adds to the timing rating, in parts of which the resolution
/// makes a full share: the resolution less [ERROR_PARTS] times the difference of the time
/// stamps, and nothing if that many times the difference is not less than the resolution.
pub open spec fn timing_share(base: TraceView, entry: TraceView, resolution: int) -> int {
    let difference = if base.time_stamp >= entry.time_stamp {
        base.time_stamp - entry.time_stamp
    } else {
        entry.time_stamp - base.time_stamp
    };
    if ERROR_PARTS * difference < resolution {
        resolution - ERROR_PARTS * difference
    } else {
        0
    }
}

/// The sum of the timing shares of the first `count` traces.
pub open spec fn timing_total(
    base: Seq<TraceView>,
    entry: Seq<TraceView>,
    resolution: int,
    count: int,
) -> int
    decreases count,
{
    if count <= 0 {
        0
    } else {
        timing_total(base, entry, resolution, count - 1) + timing_share(
            base[count - 1],
            entry[count - 1],
            resolution,
        )
    }
}

/// The number of traces that a base and an instance are compared in: that of the shorter.
pub open spec fn compared_traces(base: DefinitionView, entry: DefinitionView) -> int {
    if base.traces.len() <= entry.traces.len() {
        base.traces.len() as int
    } else {
        entry.traces.len() as int
    }
}

/// The timing rating of an instance against a base, as a numerator and a denominator. Trace
/// by trace, an instance earns a full share of the rating for a time stamp equal to that of
/// the base, and less in proportion as the time stamps differ; every trace of the base has
/// one share to give. The rating is zero when the numerator is.
pub fn get_timing_rating(base_unit: &DefinitionUnit, entry_unit: &DefinitionUnit) -> (rating: (
    i128,
    i128,
))
    ensures
        rating.0 == timing_total(
            base_unit@.traces,
            entry_unit@.traces,
            base_unit@.resolution,
            compared_traces(base_unit@, entry_unit@),
        ),
        rating.1 == base_unit@.traces.len() * base_unit@.resolution,
        0 <= rating.0,
        base_unit@.resolution > 0 ==> rating.0 <= compared_traces(base_unit@, entry_unit@)
            * base_unit@.resolution,
{
    let maximum_index_entry: usize = entry_unit.traces.len();
    let maximum_index_base: usize = base_unit.traces.len();
    let compared: usize = if maximum_index_base <= maximum_index_entry {
        maximum_index_base
    } else {
        maximum_index_entry
    };
    let resolution: i128 = base_unit.resolution as i128;
    let ghost base = base_unit@.traces;
    let ghost entry = entry_unit@.traces;
    assert(base.len() == maximum_index_base);
    assert(entry.len() == maximum_index_entry);

    let mut timing_value: i128 = 0;
    let mut entry_index_check: usize = 0;
    while entry_index_check < compared
        invariant
            entry_index_check <= compared,
            compared <= base_unit.traces@.len(),
            compared <= entry_unit.traces@.len(),
            base == base_unit@.traces,
            entry == entry_unit@.traces,
            resolution == base_unit.resolution,
            timing_value == timing_total(base, entry, resolution as int, entry_index_check as int),
            0 <= timing_value,
            resolution > 0 ==> timing_value <= entry_index_check * resolution,
            resolution <= 0 ==> timing_value == 0,
        decreases compared - entry_index_check,
    {
        let ts_base: i128 = base_unit.traces[entry_index_check].time_stamp as i128;
        let ts_entr: i128 = entry_unit.traces[entry_index_check].time_stamp as i128;
        assert(base[entry_index_check as int] == base_unit.traces@[entry_index_check as int]@);
        assert(entry[entry_index_check as int] == entry_unit.traces@[entry_index_check as int]@);
        let timing_difference: i128 = if ts_base >= ts_entr {
            ts_base - ts_entr
        } else {
            ts_entr - ts_base
        };
        proof {
            assert(entry_index_check * resolution <= 0xFFFF_FFFF_FFFF_FFFF * 0x7FFF_FFFF_FFFF_FFFF)
                by (nonlinear_arith)
                requires
                    0 <= entry_index_check <= 0xFFFF_FFFF_FFFF_FFFF,
                    resolution <= 0x7FFF_FFFF_FFFF_FFFF,
                    entry_index_check < 0xFFFF_FFFF_FFFF_FFFF || resolution >= 0,
            ;
            assert((entry_index_check + 1) * resolution == entry_index_check * resolution
                + resolution) by (nonlinear_arith);
        }
        if ERROR_PARTS * timing_difference < resolution {
            timing_value = timing_value + (resolution - ERROR_PARTS * timing_difference);
        }
        entry_index_check += 1;
    }
    assert(maximum_index_base * resolution <= 0xFFFF_FFFF_FFFF_FFFF * 0x8000_0000_0000_0000
        && maximum_index_base * resolution >= -(0xFFFF_FFFF_FFFF_FFFF * 0x8000_0000_0000_0000))
        by (nonlinear_arith)
        requires
            0 <= maximum_index_base <= 0xFFFF_FFFF_FFFF_FFFF,
            -0x8000_0000_0000_0000 <= resolution <= 0x7FFF_FFFF_FFFF_FFFF,
    ;
    (timing_value, maximum_index_base as i128 * resolution)
}

} // verus!
