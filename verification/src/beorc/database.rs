use crate::beorc::def::run_fits;
use crate::beorc::def::run_within;
use crate::beorc::def::trace_of;
use crate::beorc::def::trace_views;
use crate::beorc::def::DefinitionUnit;
use crate::beorc::def::DefinitionView;
use crate::beorc::def::TraceView;
use crate::beorc::def::COORDINATE_LIMIT;
use crate::beorc::training::definition_views;
use crate::def::text::append_decimal;
use crate::def::text::decimal_text;
use crate::def::maths::Vector2;
use crate::def::text::chars_of;
use crate::def::text::marks_fields;
use crate::def::text::number_of;
use crate::def::text::parse_number;
use crate::def::text::split_on;
use crate::def::text::split_ranges;
use vstd::prelude::*;
use vstd::string::StrSliceExecFns;

verus! {

/// What is kept of a trace for quick access: the id of the definition it belongs to, its
/// displacement and its average offset.
pub struct QuickTrace {
    pub id: String,
    pub trace: Vector2<i64>,
    pub average: Vector2<i64>,
}

impl Clone for QuickTrace {
    fn clone(&self) -> (copy: Self)
        ensures
            copy.id@ == self.id@,
            copy.trace == self.trace,
            copy.average == self.average,
    {
        QuickTrace { id: self.id.clone(), trace: self.trace, average: self.average }
    }
}

impl QuickTrace {
    /// A quick trace that belongs to no definition yet, under the id "Untreated trace".
    pub fn empty() -> (quick: QuickTrace)
        ensures
            quick.id@ == "Untreated trace"@,
            quick.trace@ == (Vector2 { x: 0int, y: 0int }),
            quick.average@ == (Vector2 { x: 0int, y: 0int }),
    {
        QuickTrace {
            id: "Untreated trace".to_owned(),
            trace: Vector2::new(0, 0),
            average: Vector2::new(0, 0),
        }
    }

    pub fn new(id: String, trace: Vector2<i64>, average: Vector2<i64>) -> (quick: QuickTrace)
        ensures
            quick.id == id,
            quick.trace == trace,
            quick.average == average,
    {
        QuickTrace { id, trace, average }
    }
}

/// The quick traces of all definitions at one time step.
pub struct TraceGroup {
    pub group_content: Vec<QuickTrace>,
}

impl TraceGroup {
    pub fn empty() -> (group: TraceGroup)
        ensures
            group.group_content@.len() == 0,
    {
        TraceGroup { group_content: Vec::new() }
    }
}

/// The definitions that are known, and their traces once more by time step for quick access.
pub struct LivingDataUnit {
    pub definitions: Vec<DefinitionUnit>,
    pub trace_groups: Vec<TraceGroup>,
}

impl LivingDataUnit {
    pub fn empty() -> (unit: LivingDataUnit)
        ensures
            unit.definitions@.len() == 0,
            unit.trace_groups@.len() == 0,
    {
        LivingDataUnit { definitions: Vec::new(), trace_groups: Vec::new() }
    }
}

/// The lines of a text: what lies between line feeds, without the carriage return that
/// may stand before a line feed. What follows the last line feed is a line only if it is
/// not empty.
pub open spec fn lines_of(text: Seq<char>) -> Seq<Seq<char>> {
    let raw = split_on(text, '\n');
    Seq::new(
        if raw.last().len() == 0 {
            (raw.len() - 1) as nat
        } else {
            raw.len()
        },
        |k: int|
            if k < raw.len() - 1 && raw[k].len() > 0 && raw[k].last() == '\r' {
                raw[k].drop_last()
            } else {
                raw[k]
            },
    )
}

/// The numbers among the first `count` fields, in order; fields that are no numbers are
/// passed over.
pub open spec fn numbers_among(fields: Seq<Seq<char>>, count: int) -> Seq<i64>
    decreases count,
{
    if count <= 0 {
        Seq::empty()
    } else {
        match number_of(fields[count - 1]) {
            Some(number) => numbers_among(fields, count - 1).push(number),
            None => numbers_among(fields, count - 1),
        }
    }
}

/// The numbers that a text holds between commas.
pub open spec fn values_of(text: Seq<char>) -> Seq<i64> {
    numbers_among(split_on(text, ','), split_on(text, ',').len() as int)
}

/// Whether the first `count` groups of a line can be made traces: the runs that are not
/// empty lie within the limit of a trace.
pub open spec fn heavy_fits(groups: Seq<Seq<char>>, count: int, resolution: int) -> bool {
    &&& count <= i64::MAX
    &&& forall|t: int|
        0 <= t < count && values_of(#[trigger] groups[t]).len() > 0 ==> run_within(
            values_of(groups[t]),
            resolution,
            COORDINATE_LIMIT as int,
        )
}

/// The traces that the first `count` groups of a line stand for: every group is the run of
/// one time step, and an empty run leaves its time step out.
pub open spec fn heavy_traces(groups: Seq<Seq<char>>, count: int, resolution: int) -> Seq<
    TraceView,
>
    decreases count,
{
    if count <= 0 {
        Seq::empty()
    } else if values_of(groups[count - 1]).len() > 0 {
        heavy_traces(groups, count - 1, resolution).push(
            trace_of(count - 1, values_of(groups[count - 1]), resolution),
        )
    } else {
        heavy_traces(groups, count - 1, resolution)
    }
}

/// The definition that a line of the full data stands for: an id, a full stop, and the runs
/// of its time steps, each closed by a semicolon and made of indexes parted by commas. None
/// if the line has no full stop, or if a run cannot be made a trace.
pub open spec fn heavy_definition(line: Seq<char>, resolution: int) -> Option<DefinitionView> {
    let parts = split_on(line, '.');
    let groups = split_on(parts[1], ';');
    if parts.len() < 2 || !heavy_fits(groups, groups.len() as int, resolution) {
        None
    } else {
        Some(
            DefinitionView {
                id: parts[0],
                resolution,
                traces: heavy_traces(groups, groups.len() as int, resolution),
            },
        )
    }
}

/// The definitions that the first `count` lines of the full data stand for; none if one of
/// the lines stands for none.
pub open spec fn heavy_definitions(lines: Seq<Seq<char>>, count: int, resolution: int) -> Option<
    Seq<DefinitionView>,
>
    decreases count,
{
    if count <= 0 {
        Some(Seq::empty())
    } else {
        match (
            heavy_definitions(lines, count - 1, resolution),
            heavy_definition(lines[count - 1], resolution),
        ) {
            (Some(before), Some(definition)) => Some(before.push(definition)),
            _ => None,
        }
    }
}

/// What a quick trace holds, over the unbounded integers.
pub struct QuickView {
    pub id: Seq<char>,
    pub trace: Vector2<int>,
    pub average: Vector2<int>,
}

impl View for QuickTrace {
    type V = QuickView;

    open spec fn view(&self) -> QuickView {
        QuickView { id: self.id@, trace: self.trace@, average: self.average@ }
    }
}

/// The views of the quick traces of a group.
pub open spec fn quick_views(group: Seq<QuickTrace>) -> Seq<QuickView> {
    Seq::new(group.len(), |k: int| group[k]@)
}

/// The views of a list of groups.
pub open spec fn group_views(groups: Seq<TraceGroup>) -> Seq<Seq<QuickView>> {
    Seq::new(groups.len(), |k: int| quick_views(groups[k].group_content@))
}

/// The quick traces that the first `count` parts of a line stand for. The parts come in
/// pairs: an id, and four numbers parted by commas, which are the displacement and the
/// average offset. None if a part holds fewer than four numbers where numbers are due.
pub open spec fn quick_entries(parts: Seq<Seq<char>>, count: int) -> Option<Seq<QuickView>>
    decreases count,
{
    if count <= 0 {
        Some(Seq::empty())
    } else {
        match quick_entries(parts, count - 1) {
            None => None,
            Some(before) => if (count - 1) % 2 == 0 {
                Some(before)
            } else if values_of(parts[count - 1]).len() < 4 {
                None
            } else {
                Some(
                    before.push(
                        QuickView {
                            id: parts[count - 2],
                            trace: Vector2 {
                                x: values_of(parts[count - 1])[0] as int,
                                y: values_of(parts[count - 1])[1] as int,
                            },
                            average: Vector2 {
                                x: values_of(parts[count - 1])[2] as int,
                                y: values_of(parts[count - 1])[3] as int,
                            },
                        },
                    ),
                )
            },
        }
    }
}

/// The group that a line of the quick data stands for: its parts are parted by full stops,
/// and what follows the last full stop is passed over.
pub open spec fn quick_group(line: Seq<char>) -> Option<Seq<QuickView>> {
    quick_entries(split_on(line, '.'), split_on(line, '.').len() - 1)
}

/// The groups that the first `count` lines of the quick data stand for; none if one of the
/// lines stands for none.
pub open spec fn quick_groups(lines: Seq<Seq<char>>, count: int) -> Option<Seq<Seq<QuickView>>>
    decreases count,
{
    if count <= 0 {
        Some(Seq::empty())
    } else {
        match (quick_groups(lines, count - 1), quick_group(lines[count - 1])) {
            (Some(before), Some(group)) => Some(before.push(group)),
            _ => None,
        }
    }
}

/// Whether the quick traces of a group that bear an id have the vectors of a trace.
pub open spec fn group_view_agrees(group: Seq<QuickView>, id: Seq<char>, trace: TraceView) -> bool {
    forall|q: int|
        0 <= q < group.len() && (#[trigger] group[q]).id == id ==> group[q].trace == trace.trace
            && group[q].average == trace.average_offset
}

/// The outcome of checking the first `count` traces of a definition against the groups, one
/// time step after the other: false at the first quick trace that disagrees, none at the
/// first time step without a group, true if neither is met.
pub open spec fn definition_check(
    groups: Seq<Seq<QuickView>>,
    definition: DefinitionView,
    count: int,
) -> Option<bool>
    decreases count,
{
    if count <= 0 {
        Some(true)
    } else {
        match definition_check(groups, definition, count - 1) {
            Some(true) => if count - 1 >= groups.len() {
                None
            } else {
                Some(
                    group_view_agrees(
                        groups[count - 1],
                        definition.id,
                        definition.traces[count - 1],
                    ),
                )
            },
            other => other,
        }
    }
}

/// The outcome of checking the first `count` definitions against the groups, one after the
/// other: that of the first definition whose check is not true, or true.
pub open spec fn database_check(
    groups: Seq<Seq<QuickView>>,
    definitions: Seq<DefinitionView>,
    count: int,
) -> Option<bool>
    decreases count,
{
    if count <= 0 {
        Some(true)
    } else {
        match database_check(groups, definitions, count - 1) {
            Some(true) => definition_check(
                groups,
                definitions[count - 1],
                definitions[count - 1].traces.len() as int,
            ),
            other => other,
        }
    }
}

/// Where the lines of a text begin and end.
pub fn line_ranges(text: &Vec<char>) -> (ranges: Vec<(usize, usize)>)
    ensures
        ranges@.len() == lines_of(text@).len(),
        forall|k: int|
            0 <= k < ranges@.len() ==> (#[trigger] ranges@[k]).0 <= ranges@[k].1 <= text@.len()
                && text@.subrange(ranges@[k].0 as int, ranges@[k].1 as int) == lines_of(text@)[k],
{
    let raw = split_ranges(text, 0, text.len(), '\n');
    assert(text@.subrange(0, text@.len() as int) =~= text@);
    let ghost fields = split_on(text@, '\n');
    let mut ranges: Vec<(usize, usize)> = Vec::new();
    let count: usize = raw.len();
    let last = raw[count - 1];
    let kept: usize = if last.0 == last.1 {
        count - 1
    } else {
        count
    };
    assert(fields.last() == text@.subrange(last.0 as int, last.1 as int));
    let mut k: usize = 0;
    while k < kept
        invariant
            k <= kept <= count,
            count == raw@.len(),
            count == fields.len(),
            fields == split_on(text@, '\n'),
            kept == lines_of(text@).len(),
            marks_fields(text@, 0, text@.len() as int, '\n', raw@),
            text@.subrange(0, text@.len() as int) == text@,
            ranges@.len() == k,
            forall|m: int|
                0 <= m < k ==> (#[trigger] ranges@[m]).0 <= ranges@[m].1 <= text@.len()
                    && text@.subrange(ranges@[m].0 as int, ranges@[m].1 as int) == lines_of(
                    text@,
                )[m],
        decreases kept - k,
    {
        let range = raw[k];
        assert(text@.subrange(range.0 as int, range.1 as int) == fields[k as int]);
        if k < count - 1 && range.0 < range.1 && text[range.1 - 1] == '\r' {
            assert(text@.subrange(range.0 as int, range.1 - 1) =~= fields[k as int].drop_last());
            ranges.push((range.0, range.1 - 1));
        } else {
            ranges.push(range);
        }
        k += 1;
    }
    ranges
}

/// Read the numbers that a stretch of a text holds between commas.
pub fn read_values(text: &Vec<char>, from: usize, end: usize) -> (values: Vec<i64>)
    requires
        from <= end <= text@.len(),
    ensures
        values@ == values_of(text@.subrange(from as int, end as int)),
{
    let fields = split_ranges(text, from, end, ',');
    let ghost parts = split_on(text@.subrange(from as int, end as int), ',');
    let mut values: Vec<i64> = Vec::new();
    let mut k: usize = 0;
    while k < fields.len()
        invariant
            k <= fields@.len(),
            from <= end <= text@.len(),
            parts == split_on(text@.subrange(from as int, end as int), ','),
            marks_fields(text@, from as int, end as int, ',', fields@),
            values@ == numbers_among(parts, k as int),
        decreases fields@.len() - k,
    {
        let field = fields[k];
        assert(text@.subrange(field.0 as int, field.1 as int) == parts[k as int]);
        match parse_number(text, field.0, field.1) {
            Some(value) => {
                values.push(value);
            },
            None => {},
        }
        k += 1;
    }
    values
}

/// Read the definition that a line of the full data stands for.
pub fn read_heavy_line(
    content: &str,
    text: &Vec<char>,
    from: usize,
    end: usize,
    resolution: i64,
) -> (read: Option<DefinitionUnit>)
    requires
        text@ == content@,
        from <= end <= text@.len(),
    ensures
        match read {
            Some(definition) => heavy_definition(
                text@.subrange(from as int, end as int),
                resolution as int,
            ) == Some(definition@),
            None => heavy_definition(text@.subrange(from as int, end as int), resolution as int)
                is None,
        },
{
    let ghost line = text@.subrange(from as int, end as int);
    let parts = split_ranges(text, from, end, '.');
    if parts.len() < 2 {
        return None;
    }
    let id_range = parts[0];
    let traces_range = parts[1];
    let ghost fields = split_on(line, '.');
    assert(text@.subrange(id_range.0 as int, id_range.1 as int) == fields[0]);
    assert(text@.subrange(traces_range.0 as int, traces_range.1 as int) == fields[1]);

    let mut new_definition_unit = DefinitionUnit::new(resolution);
    new_definition_unit.id = content.substring_char(id_range.0, id_range.1).to_owned();

    let groups = split_ranges(text, traces_range.0, traces_range.1, ';');
    let ghost runs = split_on(fields[1], ';');
    let mut time_stamp: i64 = 0;
    let mut t: usize = 0;
    assert(trace_views(new_definition_unit.traces@) =~= heavy_traces(runs, 0, resolution as int));
    while t < groups.len()
        invariant
            t <= groups@.len(),
            from <= end <= text@.len(),
            fields == split_on(text@.subrange(from as int, end as int), '.'),
            fields.len() >= 2,
            runs == split_on(fields[1], ';'),
            traces_range.0 <= traces_range.1 <= text@.len(),
            runs == split_on(text@.subrange(traces_range.0 as int, traces_range.1 as int), ';'),
            marks_fields(text@, traces_range.0 as int, traces_range.1 as int, ';', groups@),
            time_stamp == t,
            new_definition_unit.id@ == fields[0],
            new_definition_unit.resolution == resolution,
            heavy_fits(runs, t as int, resolution as int),
            trace_views(new_definition_unit.traces@) == heavy_traces(
                runs,
                t as int,
                resolution as int,
            ),
        decreases groups@.len() - t,
    {
        let group = groups[t];
        assert(text@.subrange(group.0 as int, group.1 as int) == runs[t as int]);
        let trace_values: Vec<i64> = read_values(text, group.0, group.1);
        if time_stamp == i64::MAX {
            assert(!heavy_fits(runs, runs.len() as int, resolution as int));
            return None;
        }
        if trace_values.len() > 0 {
            if !run_fits(&trace_values, resolution, COORDINATE_LIMIT) {
                assert(!heavy_fits(runs, runs.len() as int, resolution as int));
                return None;
            }
            let ghost before = new_definition_unit.traces@;
            new_definition_unit.feed(time_stamp, trace_values);
        }
        time_stamp += 1;
        t += 1;
    }

    Some(new_definition_unit)
}

/// Read the group that a line of the quick data stands for.
pub fn read_quick_line(content: &str, text: &Vec<char>, from: usize, end: usize) -> (read: Option<
    TraceGroup,
>)
    requires
        text@ == content@,
        from <= end <= text@.len(),
    ensures
        match read {
            Some(group) => quick_group(text@.subrange(from as int, end as int)) == Some(
                quick_views(group.group_content@),
            ),
            None => quick_group(text@.subrange(from as int, end as int)) is None,
        },
{
    let ghost line = text@.subrange(from as int, end as int);
    let mut new_trace_group = TraceGroup::empty();

    let collected_entries = split_ranges(text, from, end, '.');
    let ghost parts = split_on(line, '.');
    let last_index: usize = collected_entries.len() - 1;
    let mut current_index: usize = 0;
    assert(quick_views(new_trace_group.group_content@) =~= Seq::<QuickView>::empty());
    while current_index < last_index
        invariant
            current_index <= last_index,
            last_index == collected_entries@.len() - 1,
            text@ == content@,
            from <= end <= text@.len(),
            parts == split_on(text@.subrange(from as int, end as int), '.'),
            marks_fields(text@, from as int, end as int, '.', collected_entries@),
            quick_entries(parts, current_index as int) == Some(
                quick_views(new_trace_group.group_content@),
            ),
        decreases last_index - current_index,
    {
        if current_index % 2 == 1 {
            let named = collected_entries[current_index - 1];
            let selected_entry = collected_entries[current_index];
            assert(text@.subrange(named.0 as int, named.1 as int) == parts[current_index - 1]);
            assert(text@.subrange(selected_entry.0 as int, selected_entry.1 as int)
                == parts[current_index as int]);
            let index_values: Vec<i64> = read_values(text, selected_entry.0, selected_entry.1);
            if index_values.len() < 4 {
                proof {
                    quick_entries_fail(parts, current_index + 1, last_index as int);
                }
                return None;
            }
            let new_quick_trace = QuickTrace::new(
                content.substring_char(named.0, named.1).to_owned(),
                Vector2::new(index_values[0], index_values[1]),
                Vector2::new(index_values[2], index_values[3]),
            );
            let ghost before = new_trace_group.group_content@;
            new_trace_group.group_content.push(new_quick_trace);
            assert(quick_views(new_trace_group.group_content@) =~= quick_views(before).push(
                new_quick_trace@,
            ));
        }
        current_index += 1;
    }

    Some(new_trace_group)
}

/// Once the parts of a line stand for no group, more parts do not mend it.
pub proof fn quick_entries_fail(parts: Seq<Seq<char>>, failed: int, count: int)
    requires
        failed <= count,
        quick_entries(parts, failed) is None,
    ensures
        quick_entries(parts, count) is None,
    decreases count - failed,
{
    if failed < count {
        quick_entries_fail(parts, failed, count - 1);
    }
}

/// Once the lines of the full data stand for no definitions, more lines do not mend it.
pub proof fn heavy_definitions_fail(
    lines: Seq<Seq<char>>,
    failed: int,
    count: int,
    resolution: int,
)
    requires
        failed <= count,
        heavy_definitions(lines, failed, resolution) is None,
    ensures
        heavy_definitions(lines, count, resolution) is None,
    decreases count - failed,
{
    if failed < count {
        heavy_definitions_fail(lines, failed, count - 1, resolution);
    }
}

/// Once the lines of the quick data stand for no groups, more lines do not mend it.
pub proof fn quick_groups_fail(lines: Seq<Seq<char>>, failed: int, count: int)
    requires
        failed <= count,
        quick_groups(lines, failed) is None,
    ensures
        quick_groups(lines, count) is None,
    decreases count - failed,
{
    if failed < count {
        quick_groups_fail(lines, failed, count - 1);
    }
}

/// Read the definitions that the full data stands for, a line each.
pub fn read_heavy(heavy_content: &str, resolution: i64) -> (read: Option<Vec<DefinitionUnit>>)
    ensures
        match read {
            Some(definitions) => heavy_definitions(
                lines_of(heavy_content@),
                lines_of(heavy_content@).len() as int,
                resolution as int,
            ) == Some(definition_views(definitions@)),
            None => heavy_definitions(
                lines_of(heavy_content@),
                lines_of(heavy_content@).len() as int,
                resolution as int,
            ) is None,
        },
{
    let text = chars_of(heavy_content);
    let lines = line_ranges(&text);
    let ghost all = lines_of(heavy_content@);
    let mut definitions: Vec<DefinitionUnit> = Vec::new();
    let mut k: usize = 0;
    assert(definition_views(definitions@) =~= Seq::<DefinitionView>::empty());
    while k < lines.len()
        invariant
            k <= lines@.len(),
            text@ == heavy_content@,
            all == lines_of(text@),
            lines@.len() == all.len(),
            forall|m: int|
                0 <= m < lines@.len() ==> (#[trigger] lines@[m]).0 <= lines@[m].1 <= text@.len()
                    && text@.subrange(lines@[m].0 as int, lines@[m].1 as int) == all[m],
            heavy_definitions(all, k as int, resolution as int) == Some(
                definition_views(definitions@),
            ),
        decreases lines@.len() - k,
    {
        let line = lines[k];
        match read_heavy_line(heavy_content, &text, line.0, line.1, resolution) {
            Some(definition) => {
                let ghost before = definitions@;
                definitions.push(definition);
                assert(definition_views(definitions@) =~= definition_views(before).push(
                    definition@,
                ));
            },
            None => {
                proof {
                    heavy_definitions_fail(all, k + 1, all.len() as int, resolution as int);
                }
                return None;
            },
        }
        k += 1;
    }
    Some(definitions)
}

/// Read the groups that the quick data stands for, a line each.
pub fn read_quick(quick_content: &str) -> (read: Option<Vec<TraceGroup>>)
    ensures
        match read {
            Some(groups) => quick_groups(
                lines_of(quick_content@),
                lines_of(quick_content@).len() as int,
            ) == Some(group_views(groups@)),
            None => quick_groups(lines_of(quick_content@), lines_of(quick_content@).len() as int)
                is None,
        },
{
    let text = chars_of(quick_content);
    let lines = line_ranges(&text);
    let ghost all = lines_of(quick_content@);
    let mut groups: Vec<TraceGroup> = Vec::new();
    let mut k: usize = 0;
    assert(group_views(groups@) =~= Seq::<Seq<QuickView>>::empty());
    while k < lines.len()
        invariant
            k <= lines@.len(),
            text@ == quick_content@,
            all == lines_of(text@),
            lines@.len() == all.len(),
            forall|m: int|
                0 <= m < lines@.len() ==> (#[trigger] lines@[m]).0 <= lines@[m].1 <= text@.len()
                    && text@.subrange(lines@[m].0 as int, lines@[m].1 as int) == all[m],
            quick_groups(all, k as int) == Some(group_views(groups@)),
        decreases lines@.len() - k,
    {
        let line = lines[k];
        match read_quick_line(quick_content, &text, line.0, line.1) {
            Some(group) => {
                let ghost before = groups@;
                groups.push(group);
                assert(group_views(groups@) =~= group_views(before).push(
                    quick_views(group.group_content@),
                ));
            },
            None => {
                proof {
                    quick_groups_fail(all, k + 1, all.len() as int);
                }
                return None;
            },
        }
        k += 1;
    }
    Some(groups)
}

/// The first `count` indexes of a run as text, parted by commas.
pub open spec fn run_text(indexes: Seq<i64>, count: int) -> Seq<char>
    decreases count,
{
    if count <= 0 {
        Seq::empty()
    } else if count == 1 {
        decimal_text(indexes[0] as int)
    } else {
        run_text(indexes, count - 1) + seq![','] + decimal_text(indexes[count - 1] as int)
    }
}

/// The runs of the first `count` traces as text, each closed by a semicolon.
pub open spec fn runs_text(traces: Seq<TraceView>, count: int) -> Seq<char>
    decreases count,
{
    if count <= 0 {
        Seq::empty()
    } else {
        runs_text(traces, count - 1) + run_text(
            traces[count - 1].indexes,
            traces[count - 1].indexes.len() as int,
        ) + seq![';']
    }
}

/// The full data of the first `count` definitions as text: a line for each, with its id, a
/// full stop and its runs.
pub open spec fn heavy_text(definitions: Seq<DefinitionView>, count: int) -> Seq<char>
    decreases count,
{
    if count <= 0 {
        Seq::empty()
    } else {
        heavy_text(definitions, count - 1) + definitions[count - 1].id + seq!['.'] + runs_text(
            definitions[count - 1].traces,
            definitions[count - 1].traces.len() as int,
        ) + seq!['\n']
    }
}

/// A trace as text for quick access: the id of its definition, a full stop, the components
/// of its displacement and of its average offset, each followed by a comma, and a full stop.
pub open spec fn quick_entry_text(id: Seq<char>, trace: TraceView) -> Seq<char> {
    id + seq!['.'] + decimal_text(trace.trace.x) + seq![','] + decimal_text(trace.trace.y)
        + seq![','] + decimal_text(trace.average_offset.x) + seq![','] + decimal_text(
        trace.average_offset.y,
    ) + seq![',', '.']
}

/// The traces that the first `count` definitions hold at a time step, as text for quick
/// access.
pub open spec fn quick_row_text(definitions: Seq<DefinitionView>, step: int, count: int) -> Seq<
    char,
>
    decreases count,
{
    if count <= 0 {
        Seq::empty()
    } else if step < definitions[count - 1].traces.len() {
        quick_row_text(definitions, step, count - 1) + quick_entry_text(
            definitions[count - 1].id,
            definitions[count - 1].traces[step],
        )
    } else {
        quick_row_text(definitions, step, count - 1)
    }
}

/// The quick data of the first `steps` time steps as text: a line for each.
pub open spec fn quick_text(definitions: Seq<DefinitionView>, steps: int) -> Seq<char>
    decreases steps,
{
    if steps <= 0 {
        Seq::empty()
    } else {
        quick_text(definitions, steps - 1) + quick_row_text(
            definitions,
            steps - 1,
            definitions.len() as int,
        ) + seq!['\n']
    }
}

/// The greatest number of traces that one of the first `count` definitions holds.
pub open spec fn longest_definition(definitions: Seq<DefinitionView>, count: int) -> int
    decreases count,
{
    if count <= 0 {
        0
    } else if definitions[count - 1].traces.len() > longest_definition(definitions, count - 1) {
        definitions[count - 1].traces.len() as int
    } else {
        longest_definition(definitions, count - 1)
    }
}

impl LivingDataUnit {
    /// Check the quick traces against the definitions in order, definition by definition
    /// and time step by time step: false at the first quick trace that bears the id of a
    /// definition and has not the vectors of its trace, none at the first time step for
    /// which there is no group, true if neither is met.
    pub fn check_in_order(&self) -> (matching: Option<bool>)
        ensures
            matching == database_check(
                group_views(self.trace_groups@),
                definition_views(self.definitions@),
                self.definitions@.len() as int,
            ),
    {
        let ghost groups = group_views(self.trace_groups@);
        let ghost definitions = definition_views(self.definitions@);
        let mut d: usize = 0;
        while d < self.definitions.len()
            invariant
                d <= self.definitions@.len(),
                groups == group_views(self.trace_groups@),
                definitions == definition_views(self.definitions@),
                database_check(groups, definitions, d as int) == Some(true),
            decreases self.definitions@.len() - d,
        {
            let definition_found = &self.definitions[d];
            let ghost definition = definitions[d as int];
            assert(definition == definition_found@);
            let trace_length: usize = definition_found.traces.len();
            assert(definition.traces.len() == trace_length);
            let mut current_index: usize = 0;
            while current_index < trace_length
                invariant
                    current_index <= trace_length,
                    d < self.definitions@.len(),
                    *definition_found == self.definitions@[d as int],
                    definition == definition_found@,
                    definition == definitions[d as int],
                    definition.traces.len() == trace_length,
                    trace_length == definition_found.traces@.len(),
                    groups == group_views(self.trace_groups@),
                    definitions == definition_views(self.definitions@),
                    database_check(groups, definitions, d as int) == Some(true),
                    definition_check(groups, definition, current_index as int) == Some(true),
                decreases trace_length - current_index,
            {
                if current_index >= self.trace_groups.len() {
                    proof {
                        definition_check_stays(
                            groups,
                            definition,
                            current_index + 1,
                            trace_length as int,
                        );
                        database_check_stays(
                            groups,
                            definitions,
                            d + 1,
                            self.definitions@.len() as int,
                        );
                    }
                    return None;
                }
                let heavy_trace = &definition_found.traces[current_index];
                let group = &self.trace_groups[current_index];
                let ghost shown = groups[current_index as int];
                assert(shown == quick_views(group.group_content@));
                assert(definition.traces[current_index as int] == heavy_trace@);
                let mut q: usize = 0;
                while q < group.group_content.len()
                    invariant
                        q <= group.group_content@.len(),
                        shown == quick_views(group.group_content@),
                        definition == definition_found@,
                        current_index < trace_length,
                        trace_length == definition.traces.len(),
                        d < self.definitions@.len(),
                        groups == group_views(self.trace_groups@),
                        definitions == definition_views(self.definitions@),
                        definition == definitions[d as int],
                        current_index < groups.len(),
                        shown == groups[current_index as int],
                        heavy_trace@ == definition.traces[current_index as int],
                        database_check(groups, definitions, d as int) == Some(true),
                        definition_check(groups, definition, current_index as int) == Some(true),
                        forall|m: int|
                            0 <= m < q && (#[trigger] shown[m]).id == definition.id ==> shown[m].trace
                                == heavy_trace@.trace && shown[m].average
                                == heavy_trace@.average_offset,
                    decreases group.group_content@.len() - q,
                {
                    let quick_trace = &group.group_content[q];
                    assert(shown[q as int] == quick_trace@);
                    if quick_trace.id == definition_found.id {
                        if !quick_trace.trace.equals(&heavy_trace.trace)
                            || !quick_trace.average.equals(&heavy_trace.average_offset) {
                            proof {
                                assert(!group_view_agrees(shown, definition.id, heavy_trace@));
                                definition_check_stays(
                                    groups,
                                    definition,
                                    current_index + 1,
                                    trace_length as int,
                                );
                                database_check_stays(
                                    groups,
                                    definitions,
                                    d + 1,
                                    self.definitions@.len() as int,
                                );
                            }
                            return Some(false);
                        }
                    }
                    q += 1;
                }
                assert(group_view_agrees(shown, definition.id, heavy_trace@));
                current_index += 1;
            }
            d += 1;
        }
        Some(true)
    }

    /// Take the definitions from the text of the full data and their quick traces from the
    /// text of the quick data, and check the one against the other. The outcome is that of
    /// the check; it is none, and the unit is left empty, if one of the texts cannot be read.
    pub fn load_from_text(&mut self, quick_content: &str, heavy_content: &str, resolution: i64) -> (loaded:
        Option<bool>)
        ensures
            match (
                heavy_definitions(
                    lines_of(heavy_content@),
                    lines_of(heavy_content@).len() as int,
                    resolution as int,
                ),
                quick_groups(lines_of(quick_content@), lines_of(quick_content@).len() as int),
            ) {
                (Some(definitions), Some(groups)) => {
                    &&& definition_views(final(self).definitions@) == definitions
                    &&& group_views(final(self).trace_groups@) == groups
                    &&& loaded == database_check(groups, definitions, definitions.len() as int)
                },
                _ => {
                    &&& loaded is None
                    &&& final(self).definitions@.len() == 0
                    &&& final(self).trace_groups@.len() == 0
                },
            },
    {
        self.definitions = Vec::new();
        self.trace_groups = Vec::new();

        let definitions = match read_heavy(heavy_content, resolution) {
            Some(definitions) => definitions,
            None => {
                return None;
            },
        };
        let groups = match read_quick(quick_content) {
            Some(groups) => groups,
            None => {
                return None;
            },
        };
        self.definitions = definitions;
        self.trace_groups = groups;
        assert(definition_views(self.definitions@).len() == self.definitions@.len());

        self.check_in_order()
    }

    /// The text of the full data: a line for every definition, with its id, a full stop,
    /// and the runs of its traces, each closed by a semicolon and made of indexes parted by
    /// commas.
    pub fn heavy_output(&self) -> (text: String)
        ensures
            text@ == heavy_text(
                definition_views(self.definitions@),
                self.definitions@.len() as int,
            ),
    {
        proof {
            reveal_strlit(".");
            reveal_strlit(",");
            reveal_strlit(";");
            reveal_strlit("\n");
        }
        let mut heavy_output: String = String::new();
        let ghost definitions = definition_views(self.definitions@);
        let mut current_check: usize = 0;
        assert(heavy_output@ =~= heavy_text(definitions, 0));
        while current_check < self.definitions.len()
            invariant
                current_check <= self.definitions@.len(),
                definitions == definition_views(self.definitions@),
                "."@ == seq!['.'],
                ","@ == seq![','],
                ";"@ == seq![';'],
                "\n"@ == seq!['\n'],
                heavy_output@ == heavy_text(definitions, current_check as int),
            decreases self.definitions@.len() - current_check,
        {
            let selected_definition = &self.definitions[current_check];
            let ghost before = heavy_output@;
            let ghost definition = definitions[current_check as int];
            assert(definition == selected_definition@);
            heavy_output.append(selected_definition.id.as_str());
            heavy_output.append(".");
            let ghost headed = heavy_output@;
            let mut t: usize = 0;
            assert(heavy_output@ =~= headed + runs_text(definition.traces, 0));
            assert(definition.traces.len() == selected_definition.traces@.len());
            while t < selected_definition.traces.len()
                invariant
                    t <= selected_definition.traces@.len(),
                    definition == selected_definition@,
                    definition.traces.len() == selected_definition.traces@.len(),
                    ","@ == seq![','],
                    ";"@ == seq![';'],
                    heavy_output@ == headed + runs_text(definition.traces, t as int),
                decreases selected_definition.traces@.len() - t,
            {
                let trace = &selected_definition.traces[t];
                assert(definition.traces[t as int] == trace@);
                let ghost started = heavy_output@;
                let mut x: usize = 0;
                assert(heavy_output@ =~= started + run_text(trace.indexes@, 0));
                while x < trace.indexes.len()
                    invariant
                        x <= trace.indexes@.len(),
                        ","@ == seq![','],
                        heavy_output@ == started + run_text(trace.indexes@, x as int),
                    decreases trace.indexes@.len() - x,
                {
                    if x > 0 {
                        heavy_output.append(",");
                    }
                    append_decimal(&mut heavy_output, trace.indexes[x]);
                    assert(heavy_output@ =~= started + run_text(trace.indexes@, x + 1));
                    x += 1;
                }
                heavy_output.append(";");
                assert(heavy_output@ =~= headed + runs_text(definition.traces, t + 1));
                t += 1;
            }
            heavy_output.append("\n");
            assert(heavy_output@ =~= heavy_text(definitions, current_check + 1));
            current_check += 1;
        }
        heavy_output
    }

    /// The text of the quick data: a line for every time step, with the traces that the
    /// definitions hold at that time step, each as its id, a full stop, the components of
    /// its displacement and of its average offset with a comma after each, and a full stop.
    pub fn quick_output(&self) -> (text: String)
        ensures
            text@ == quick_text(
                definition_views(self.definitions@),
                longest_definition(
                    definition_views(self.definitions@),
                    self.definitions@.len() as int,
                ),
            ),
    {
        proof {
            reveal_strlit(".");
            reveal_strlit(",");
            reveal_strlit(",.");
            reveal_strlit("\n");
        }
        let ghost definitions = definition_views(self.definitions@);
        let definitions_size: usize = self.definitions.len();
        let mut steps: usize = 0;
        let mut x: usize = 0;
        while x < definitions_size
            invariant
                x <= definitions_size,
                definitions_size == self.definitions@.len(),
                definitions == definition_views(self.definitions@),
                steps == longest_definition(definitions, x as int),
            decreases definitions_size - x,
        {
            assert(definitions[x as int] == self.definitions@[x as int]@);
            assert(definitions[x as int].traces.len() == self.definitions@[x as int].traces@.len());
            if self.definitions[x].traces.len() > steps {
                steps = self.definitions[x].traces.len();
            }
            x += 1;
        }

        let mut quick_output: String = String::new();
        let mut current_check: usize = 0;
        assert(quick_output@ =~= quick_text(definitions, 0));
        while current_check < steps
            invariant
                current_check <= steps,
                definitions_size == self.definitions@.len(),
                definitions == definition_views(self.definitions@),
                "."@ == seq!['.'],
                ","@ == seq![','],
                ",."@ == seq![',', '.'],
                "\n"@ == seq!['\n'],
                quick_output@ == quick_text(definitions, current_check as int),
            decreases steps - current_check,
        {
            let ghost before = quick_output@;
            let mut x: usize = 0;
            assert(quick_output@ =~= before + quick_row_text(definitions, current_check as int, 0));
            while x < definitions_size
                invariant
                    x <= definitions_size,
                    definitions_size == self.definitions@.len(),
                    definitions == definition_views(self.definitions@),
                    "."@ == seq!['.'],
                    ","@ == seq![','],
                    ",."@ == seq![',', '.'],
                    quick_output@ == before + quick_row_text(
                        definitions,
                        current_check as int,
                        x as int,
                    ),
                decreases definitions_size - x,
            {
                let selected_definition = &self.definitions[x];
                let ghost definition = definitions[x as int];
                assert(definition == selected_definition@);
                assert(definition.traces.len() == selected_definition.traces@.len());
                if current_check < selected_definition.traces.len() {
                    let selected_trace = &selected_definition.traces[current_check];
                    assert(definition.traces[current_check as int] == selected_trace@);
                    quick_output.append(selected_definition.id.as_str());
                    quick_output.append(".");
                    append_decimal(&mut quick_output, selected_trace.trace.x);
                    quick_output.append(",");
                    append_decimal(&mut quick_output, selected_trace.trace.y);
                    quick_output.append(",");
                    append_decimal(&mut quick_output, selected_trace.average_offset.x);
                    quick_output.append(",");
                    append_decimal(&mut quick_output, selected_trace.average_offset.y);
                    quick_output.append(",.");
                }
                assert(quick_output@ =~= before + quick_row_text(
                    definitions,
                    current_check as int,
                    x + 1,
                ));
                x += 1;
            }
            quick_output.append("\n");
            assert(quick_output@ =~= quick_text(definitions, current_check + 1));
            current_check += 1;
        }
        quick_output
    }
}

/// Once the check of a definition is not true, more time steps do not change it.
pub proof fn definition_check_stays(
    groups: Seq<Seq<QuickView>>,
    definition: DefinitionView,
    failed: int,
    count: int,
)
    requires
        failed <= count,
        definition_check(groups, definition, failed) != Some(true),
    ensures
        definition_check(groups, definition, count) == definition_check(
            groups,
            definition,
            failed,
        ),
    decreases count - failed,
{
    if failed < count {
        definition_check_stays(groups, definition, failed, count - 1);
    }
}

/// Once the check of the definitions is not true, more definitions do not change it.
pub proof fn database_check_stays(
    groups: Seq<Seq<QuickView>>,
    definitions: Seq<DefinitionView>,
    failed: int,
    count: int,
)
    requires
        failed <= count,
        database_check(groups, definitions, failed) != Some(true),
    ensures
        database_check(groups, definitions, count) == database_check(groups, definitions, failed),
    decreases count - failed,
{
    if failed < count {
        database_check_stays(groups, definitions, failed, count - 1);
    }
}

/// Whether a time step of a definition has a group, and the quick traces of the group that
/// bear the id of the definition have the vectors of its trace.
pub open spec fn step_agrees(groups: Seq<Seq<QuickView>>, definition: DefinitionView, t: int) -> bool {
    t < groups.len() && group_view_agrees(groups[t], definition.id, definition.traces[t])
}

/// Whether the groups agree with a definition at every time step.
pub open spec fn definition_agrees(groups: Seq<Seq<QuickView>>, definition: DefinitionView) -> bool {
    forall|t: int|
        0 <= t < definition.traces.len() ==> #[trigger] step_agrees(groups, definition, t)
}

/// The check of a definition is true exactly when the groups agree with it at its first
/// `count` time steps.
pub proof fn definition_check_is_agreement(
    groups: Seq<Seq<QuickView>>,
    definition: DefinitionView,
    count: int,
)
    requires
        0 <= count <= definition.traces.len(),
    ensures
        definition_check(groups, definition, count) == Some(true) <==> forall|t: int|
            0 <= t < count ==> #[trigger] step_agrees(groups, definition, t),
    decreases count,
{
    if count > 0 {
        definition_check_is_agreement(groups, definition, count - 1);
        if definition_check(groups, definition, count) != Some(true) {
            if definition_check(groups, definition, count - 1) == Some(true) {
                assert(!step_agrees(groups, definition, count - 1));
            }
        }
    }
}

/// The check of the data is true exactly when the groups agree with every definition.
pub proof fn database_check_is_agreement(
    groups: Seq<Seq<QuickView>>,
    definitions: Seq<DefinitionView>,
    count: int,
)
    requires
        0 <= count <= definitions.len(),
    ensures
        database_check(groups, definitions, count) == Some(true) <==> forall|d: int|
            0 <= d < count ==> definition_agrees(groups, #[trigger] definitions[d]),
    decreases count,
{
    if count > 0 {
        database_check_is_agreement(groups, definitions, count - 1);
        let last = definitions[count - 1];
        definition_check_is_agreement(groups, last, last.traces.len() as int);
    }
}

} // verus!
