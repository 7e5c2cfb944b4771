use crate::beorc::def::trace_views;
use crate::beorc::def::DefinitionUnit;
use crate::beorc::def::DefinitionView;
use crate::beorc::def::Trace;
use crate::beorc::def::TraceView;
use crate::def::text::append_decimal;
use crate::def::text::append_repeated;
use crate::def::text::count_digits;
use crate::def::text::decimal_text;
use crate::def::text::digits_text;
use crate::def::text::padded_text;
use crate::def::text::repeated;
use vstd::prelude::*;

verus! {

/// A rising list without repetitions, with one more value put in its place.
pub open spec fn inserted(sorted: Seq<i64>, value: i64) -> Seq<i64>
    decreases sorted.len(),
{
    if sorted.len() == 0 {
        seq![value]
    } else if sorted.last() == value {
        sorted
    } else if sorted.last() < value {
        sorted.push(value)
    } else {
        inserted(sorted.drop_last(), value).push(sorted.last())
    }
}

/// A rising list with the first `count` indexes of a run put in.
pub open spec fn run_inserted(sorted: Seq<i64>, indexes: Seq<i64>, count: int) -> Seq<i64>
    decreases count,
{
    if count <= 0 {
        sorted
    } else {
        inserted(run_inserted(sorted, indexes, count - 1), indexes[count - 1])
    }
}

/// All indexes of the first `count` traces, in rising order and without repetitions.
pub open spec fn shown_values(traces: Seq<TraceView>, count: int) -> Seq<i64>
    decreases count,
{
    if count <= 0 {
        Seq::empty()
    } else {
        run_inserted(
            shown_values(traces, count - 1),
            traces[count - 1].indexes,
            traces[count - 1].indexes.len() as int,
        )
    }
}

/// Whether a list rises strictly.
pub open spec fn rising(values: Seq<i64>) -> bool {
    forall|a: int, b: int| 0 <= a < b < values.len() ==> values[a] < values[b]
}

/// Putting a value into a rising list gives the list with the value at the first place where
/// no smaller value follows, unless it is there already.
pub proof fn inserted_at(sorted: Seq<i64>, value: i64, place: int)
    requires
        0 <= place <= sorted.len(),
        forall|k: int| place <= k < sorted.len() ==> sorted[k] > value,
        place == 0 || sorted[place - 1] <= value,
    ensures
        inserted(sorted, value) == if place > 0 && sorted[place - 1] == value {
            sorted
        } else {
            sorted.subrange(0, place).push(value) + sorted.subrange(place, sorted.len() as int)
        },
    decreases sorted.len() - place,
{
    if place == sorted.len() {
        assert(sorted.subrange(0, place) =~= sorted);
        assert(sorted.subrange(place, sorted.len() as int) =~= Seq::<i64>::empty());
        assert(sorted.push(value) + Seq::<i64>::empty() =~= sorted.push(value));
        if sorted.len() == 0 {
            assert(sorted.push(value) =~= seq![value]);
        }
    } else {
        let shorter = sorted.drop_last();
        inserted_at(shorter, value, place);
        assert(shorter.subrange(0, place) =~= sorted.subrange(0, place));
        if place > 0 && sorted[place - 1] == value {
            assert(shorter.push(sorted.last()) =~= sorted);
        } else {
            assert((shorter.subrange(0, place).push(value) + shorter.subrange(
                place,
                shorter.len() as int,
            )).push(sorted.last()) =~= sorted.subrange(0, place).push(value) + sorted.subrange(
                place,
                sorted.len() as int,
            ));
        }
    }
}

/// Putting a value into a rising list gives a rising list, which holds the value and what
/// the list held, and nothing else.
pub proof fn inserted_is_rising(sorted: Seq<i64>, value: i64)
    requires
        rising(sorted),
    ensures
        rising(inserted(sorted, value)),
        inserted(sorted, value).len() >= 1,
        inserted(sorted, value).last() == if sorted.len() > 0 && sorted.last() > value {
            sorted.last()
        } else {
            value
        },
        forall|x: i64|
            #![trigger inserted(sorted, value).contains(x)]
            inserted(sorted, value).contains(x) <==> sorted.contains(x) || x == value,
    decreases sorted.len(),
{
    let now = inserted(sorted, value);
    if sorted.len() == 0 {
        assert(now[0] == value);
    } else if sorted.last() == value {
        assert(sorted[sorted.len() - 1] == value);
    } else if sorted.last() < value {
        assert(now[now.len() - 1] == value);
        assert forall|x: i64| #![trigger now.contains(x)] now.contains(x) <==> sorted.contains(x) || x == value by {
            if sorted.contains(x) {
                let k = choose|k: int| 0 <= k < sorted.len() && sorted[k] == x;
                assert(now[k] == x);
            }
        }
    } else {
        let shorter = sorted.drop_last();
        inserted_is_rising(shorter, value);
        let inner = inserted(shorter, value);
        assert forall|x: i64| #![trigger now.contains(x)] now.contains(x) <==> sorted.contains(x) || x == value by {
            if now.contains(x) {
                let k = choose|k: int| 0 <= k < now.len() && now[k] == x;
                if k < inner.len() {
                    assert(inner[k] == x);
                    assert(inner.contains(x));
                    if shorter.contains(x) {
                        let m = choose|m: int| 0 <= m < shorter.len() && shorter[m] == x;
                        assert(sorted[m] == x);
                    }
                } else {
                    assert(sorted[sorted.len() - 1] == x);
                }
            }
            if sorted.contains(x) || x == value {
                let m = if sorted.contains(x) {
                    choose|m: int| 0 <= m < sorted.len() && sorted[m] == x
                } else {
                    0
                };
                if sorted.contains(x) && m == sorted.len() - 1 {
                    assert(now[now.len() - 1] == x);
                } else {
                    if sorted.contains(x) {
                        assert(shorter[m] == x);
                        assert(shorter.contains(x));
                    }
                    assert(inner.contains(x));
                    let k = choose|k: int| 0 <= k < inner.len() && inner[k] == x;
                    assert(now[k] == x);
                }
            }
        }
        assert forall|a: int, b: int| 0 <= a < b < now.len() implies now[a] < now[b] by {
            if b == now.len() - 1 {
                assert(inner[a] <= inner.last());
                if shorter.len() > 0 {
                    assert(shorter.last() == sorted[sorted.len() - 2]);
                }
            }
        }
    }
}

/// Whether a value is among the first `count` indexes of a run.
pub open spec fn in_run(indexes: Seq<i64>, count: int, value: i64) -> bool {
    exists|k: int| 0 <= k < count && #[trigger] indexes[k] == value
}

/// Whether a value is among the indexes of the first `count` traces.
pub open spec fn in_traces(traces: Seq<TraceView>, count: int, value: i64) -> bool {
    exists|t: int|
        0 <= t < count && in_run((#[trigger] traces[t]).indexes, traces[t].indexes.len() as int, value)
}

/// Putting the indexes of a run into a rising list gives a rising list, which holds these
/// indexes and what the list held, and nothing else.
pub proof fn run_inserted_is_rising(sorted: Seq<i64>, indexes: Seq<i64>, count: int)
    requires
        rising(sorted),
        0 <= count <= indexes.len(),
    ensures
        rising(run_inserted(sorted, indexes, count)),
        forall|x: i64|
            #![trigger run_inserted(sorted, indexes, count).contains(x)]
            run_inserted(sorted, indexes, count).contains(x) <==> sorted.contains(x) || in_run(
                indexes,
                count,
                x,
            ),
    decreases count,
{
    if count > 0 {
        run_inserted_is_rising(sorted, indexes, count - 1);
        let before = run_inserted(sorted, indexes, count - 1);
        let now = run_inserted(sorted, indexes, count);
        inserted_is_rising(before, indexes[count - 1]);
        assert forall|x: i64| #![trigger now.contains(x)] now.contains(x) <==> sorted.contains(x)
            || in_run(indexes, count, x) by {
            if in_run(indexes, count, x) {
                let k = choose|k: int| 0 <= k < count && #[trigger] indexes[k] == x;
                if k < count - 1 {
                    assert(in_run(indexes, count - 1, x));
                }
                assert(before.contains(x) || x == indexes[count - 1]);
            }
            if now.contains(x) {
                assert(before.contains(x) || x == indexes[count - 1]);
                if before.contains(x) && !sorted.contains(x) {
                    let k = choose|k: int| 0 <= k < count - 1 && #[trigger] indexes[k] == x;
                    assert(0 <= k < count && indexes[k] == x);
                } else if !sorted.contains(x) {
                    assert(indexes[count - 1] == x);
                }
            }
        }
    } else {
        assert forall|x: i64| !in_run(indexes, 0, x) by {}
    }
}

/// The values shown are the indexes of all traces, each once and in rising order.
pub proof fn shown_values_are_rising(traces: Seq<TraceView>, count: int)
    requires
        0 <= count <= traces.len(),
    ensures
        rising(shown_values(traces, count)),
        forall|x: i64|
            #![trigger shown_values(traces, count).contains(x)]
            shown_values(traces, count).contains(x) <==> in_traces(traces, count, x),
    decreases count,
{
    if count > 0 {
        shown_values_are_rising(traces, count - 1);
        let before = shown_values(traces, count - 1);
        let now = shown_values(traces, count);
        let run = traces[count - 1].indexes;
        run_inserted_is_rising(before, run, run.len() as int);
        assert forall|x: i64| #![trigger now.contains(x)] now.contains(x) <==> in_traces(
            traces,
            count,
            x,
        ) by {
            if in_traces(traces, count, x) {
                let t = choose|t: int|
                    0 <= t < count && in_run(
                        (#[trigger] traces[t]).indexes,
                        traces[t].indexes.len() as int,
                        x,
                    );
                if t < count - 1 {
                    assert(in_traces(traces, count - 1, x));
                    assert(before.contains(x));
                }
                assert(now.contains(x));
            }
            if now.contains(x) {
                assert(before.contains(x) || in_run(run, run.len() as int, x));
                if before.contains(x) {
                    assert(in_traces(traces, count - 1, x));
                    let t = choose|t: int|
                        0 <= t < count - 1 && in_run(
                            (#[trigger] traces[t]).indexes,
                            traces[t].indexes.len() as int,
                            x,
                        );
                    assert(0 <= t < count && in_run(
                        traces[t].indexes,
                        traces[t].indexes.len() as int,
                        x,
                    ));
                } else {
                    assert(in_run(
                        traces[count - 1].indexes,
                        traces[count - 1].indexes.len() as int,
                        x,
                    ));
                }
            }
        }
    } else {
        assert forall|x: i64|
            #![trigger shown_values(traces, count).contains(x)]
            shown_values(traces, count).contains(x) <==> in_traces(traces, count, x) by {
            assert(shown_values(traces, 0).len() == 0);
        }
    }
}

/// The end of a line, if a row is full after `painted` cells.
pub open spec fn row_end(painted: int, row: int) -> Seq<char> {
    if painted % row == 0 {
        seq!['\n']
    } else {
        Seq::empty()
    }
}

/// The cells from `from` up to, not including, `until`, shown as asterisks, with the line
/// ended after every full row.
pub open spec fn blank_text(from: int, until: int, row: int, width: int) -> Seq<char>
    decreases until - from,
{
    if until <= from {
        Seq::empty()
    } else {
        blank_text(from, until - 1, row, width) + repeated('*', width) + row_end(until, row)
    }
}

/// The cell that is reached before a value is shown: the value itself, or the end of the
/// matrix if the value lies beyond it, or the cell already reached if that lies beyond.
pub open spec fn cell_before(painted: int, value: int, last_possible: int) -> int {
    if painted < value && painted < last_possible {
        if value < last_possible {
            value
        } else {
            last_possible
        }
    } else {
        painted
    }
}

/// The text after the first `count` values have been shown, and the number of cells that it
/// stands for. Before a value the cells up to it are shown as asterisks. The value is shown
/// if its cell has been reached exactly, moved to the right to the width of a cell; in any
/// case it takes up one cell.
pub open spec fn shown_text(
    values: Seq<i64>,
    count: int,
    row: int,
    width: int,
    last_possible: int,
) -> (Seq<char>, int)
    decreases count,
{
    if count <= 0 {
        (Seq::empty(), 0)
    } else {
        let before = shown_text(values, count - 1, row, width, last_possible);
        let value = values[count - 1] as int;
        let reached = cell_before(before.1, value, last_possible);
        (
            before.0 + blank_text(before.1, reached, row, width) + (if reached == value {
                padded_text(decimal_text(value), width)
            } else {
                Seq::empty()
            }) + row_end(reached + 1, row),
            reached + 1,
        )
    }
}

/// A definition as text: the matrix of its resolution, row by row, where every cell that
/// one of its traces runs through shows its index and every other cell shows asterisks. A
/// cell is as wide as the number of cells is long.
pub open spec fn definition_text(definition: DefinitionView) -> Seq<char> {
    let row = if definition.resolution < 0 {
        -definition.resolution
    } else {
        definition.resolution
    };
    let last_possible = definition.resolution * definition.resolution;
    let width = digits_text(last_possible).len() as int;
    let values = shown_values(definition.traces, definition.traces.len() as int);
    let shown = shown_text(values, values.len() as int, row, width, last_possible);
    shown.0 + blank_text(shown.1, last_possible, row, width)
}

/// Whether no trace of a definition holds an index.
pub open spec fn holds_no_index(definition: DefinitionView) -> bool {
    forall|t: int|
        0 <= t < definition.traces.len() ==> (#[trigger] definition.traces[t]).indexes.len() == 0
}

/// Traces without indexes show no value.
pub proof fn no_index_shows_nothing(definition: DefinitionView, count: int)
    requires
        holds_no_index(definition),
        0 <= count <= definition.traces.len(),
    ensures
        shown_values(definition.traces, count) == Seq::<i64>::empty(),
    decreases count,
{
    if count > 0 {
        no_index_shows_nothing(definition, count - 1);
        assert(definition.traces[count - 1].indexes.len() == 0);
    }
}

/// Put a value into a rising list, unless it is there already.
fn insert_value(sorted: &mut Vec<i64>, value: i64)
    requires
        rising(old(sorted)@),
    ensures
        rising(final(sorted)@),
        final(sorted)@ == inserted(old(sorted)@, value),
{
    let mut place: usize = sorted.len();
    while place > 0 && sorted[place - 1] > value
        invariant
            place <= sorted@.len(),
            sorted@ == old(sorted)@,
            forall|k: int| place <= k < sorted@.len() ==> sorted@[k] > value,
        decreases place,
    {
        place -= 1;
    }
    proof {
        inserted_at(sorted@, value, place as int);
    }
    if place > 0 && sorted[place - 1] == value {
        return ;
    }
    sorted.insert(place, value);
    assert(sorted@ =~= old(sorted)@.subrange(0, place as int).push(value) + old(sorted)@.subrange(
        place as int,
        old(sorted)@.len() as int,
    ));
}

/// All indexes of a list of traces, in rising order and without repetitions.
fn collect_values(traces: &Vec<Trace>) -> (all_values: Vec<i64>)
    ensures
        all_values@ == shown_values(trace_views(traces@), traces@.len() as int),
        rising(all_values@),
{
    let mut all_values: Vec<i64> = Vec::new();
    let ghost views = trace_views(traces@);
    let mut t: usize = 0;
    while t < traces.len()
        invariant
            t <= traces@.len(),
            views == trace_views(traces@),
            rising(all_values@),
            all_values@ == shown_values(views, t as int),
        decreases traces@.len() - t,
    {
        let entry = &traces[t];
        assert(views[t as int].indexes == entry.indexes@);
        let mut k: usize = 0;
        while k < entry.indexes.len()
            invariant
                k <= entry.indexes@.len(),
                rising(all_values@),
                all_values@ == run_inserted(shown_values(views, t as int), entry.indexes@, k as int),
            decreases entry.indexes@.len() - k,
        {
            insert_value(&mut all_values, entry.indexes[k]);
            k += 1;
        }
        t += 1;
    }
    all_values
}

/// Write the cells from `from` up to `until` as asterisks at the end of a text.
fn append_blanks(text: &mut String, from: i128, until: i128, row: i128, width: usize)
    requires
        0 <= from,
        until <= 0x1_0000_0000_0000_0000_0000,
        row > 0,
    ensures
        final(text)@ == old(text)@ + blank_text(from as int, until as int, row as int, width as int),
{
    proof {
        reveal_strlit("*");
        reveal_strlit("\n");
    }
    let mut painted: i128 = from;
    assert(text@ =~= old(text)@ + blank_text(from as int, from as int, row as int, width as int));
    while painted < until
        invariant
            0 <= from <= painted,
            painted <= until || painted == from,
            until <= 0x1_0000_0000_0000_0000_0000,
            row > 0,
            "*"@ == seq!['*'],
            "\n"@ == seq!['\n'],
            text@ == old(text)@ + blank_text(from as int, painted as int, row as int, width as int),
        decreases until - painted,
    {
        append_repeated(text, "*", '*', width);
        painted += 1;
        if painted % row == 0 {
            text.append("\n");
        }
        assert(text@ =~= old(text)@ + blank_text(
            from as int,
            painted as int,
            row as int,
            width as int,
        ));
    }
}

impl DefinitionUnit {
    /// The definition as text, for the eye: see [definition_text]. A definition without
    /// resolution can be shown only while it holds no index; its text is empty.
    pub fn to_string(&self) -> (text: String)
        requires
            self.resolution == 0 ==> holds_no_index(self@),
            self.resolution * self.resolution <= i64::MAX,
        ensures
            text@ == definition_text(self@),
    {
        let mut output: String = String::new();
        if self.resolution == 0 {
            proof {
                no_index_shows_nothing(self@, self@.traces.len() as int);
                assert(output@ =~= definition_text(self@));
            }
            return output;
        }
        let all_values: Vec<i64> = collect_values(&self.traces);
        assert(trace_views(self.traces@).len() == self.traces@.len());

        let row: i128 = if self.resolution < 0 {
            -(self.resolution as i128)
        } else {
            self.resolution as i128
        };
        assert(row * row == self.resolution * self.resolution) by (nonlinear_arith)
            requires
                row == self.resolution || row == -self.resolution,
        ;
        assert(0 <= self.resolution * self.resolution) by (nonlinear_arith);
        let last_possible_index: i128 = row * row;
        let longest_element_number: usize = count_digits(last_possible_index as u64);

        let ghost values = all_values@;
        let ghost width = longest_element_number as int;
        proof {
            reveal_strlit(" ");
            reveal_strlit("\n");
        }

        let mut last_painted_index: i128 = 0;
        let mut k: usize = 0;
        assert(output@ =~= shown_text(values, 0, row as int, width, last_possible_index as int).0);
        while k < all_values.len()
            invariant
                k <= all_values@.len(),
                values == all_values@,
                width == longest_element_number,
                row > 0,
                0 <= last_possible_index <= i64::MAX,
                0 <= last_painted_index <= i64::MAX + k,
                " "@ == seq![' '],
                "\n"@ == seq!['\n'],
                (output@, last_painted_index as int) == shown_text(
                    values,
                    k as int,
                    row as int,
                    width,
                    last_possible_index as int,
                ),
            decreases all_values@.len() - k,
        {
            let value: i64 = all_values[k];
            let ghost before = output@;
            let reached: i128 = if last_painted_index < value as i128 && last_painted_index
                < last_possible_index {
                if (value as i128) < last_possible_index {
                    value as i128
                } else {
                    last_possible_index
                }
            } else {
                last_painted_index
            };
            append_blanks(&mut output, last_painted_index, reached, row, longest_element_number);
            last_painted_index = reached;
            if last_painted_index == value as i128 {
                let mut shown: String = String::new();
                append_decimal(&mut shown, value);
                let length: usize = shown.as_str().unicode_len();
                if length < longest_element_number {
                    append_repeated(&mut output, " ", ' ', longest_element_number - length);
                }
                output.append(shown.as_str());
                assert(shown@ =~= decimal_text(value as int));
                assert(repeated(' ', width - shown@.len()) =~= if length < longest_element_number {
                    repeated(' ', (longest_element_number - length) as int)
                } else {
                    Seq::<char>::empty()
                });
            }
            last_painted_index += 1;
            if last_painted_index % row == 0 {
                output.append("\n");
            }
            assert(output@ =~= shown_text(
                values,
                k + 1,
                row as int,
                width,
                last_possible_index as int,
            ).0);
            k += 1;
        }
        append_blanks(
            &mut output,
            last_painted_index,
            last_possible_index,
            row,
            longest_element_number,
        );

        output
    }
}

} // verus!
