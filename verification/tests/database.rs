use mvecops::beorc::database::line_ranges;
use mvecops::beorc::database::read_heavy;
use mvecops::beorc::database::read_quick;
use mvecops::beorc::database::read_values;
use mvecops::beorc::def::run_fits;
use mvecops::beorc::database::LivingDataUnit;
use mvecops::beorc::database::QuickTrace;
use mvecops::beorc::database::TraceGroup;
use mvecops::beorc::def::DefinitionUnit;
use mvecops::def::maths::Vector2;
use mvecops::def::text::chars_of;
use mvecops::def::text::parse_number;
use mvecops::def::text::split_ranges;

fn characters(text: &str) -> Vec<char> {
    text.chars().collect()
}

fn number(text: &str) -> Option<i64> {
    let chars = characters(text);
    parse_number(&chars, 0, chars.len())
}

const HEAVY: &str = "a.6,7,8;14,18,23;\nb.1,2;;5;\n";
const QUICK: &str = "a.2,0,1,0,.b.1,0,0,0,.\na.-1,2,-1,1,.b.0,0,0,0,.\n";

#[test]
fn quick_traces_are_made() {
    let empty = QuickTrace::empty();
    assert_eq!(empty.id, "Untreated trace");
    assert_eq!((empty.trace.x, empty.trace.y, empty.average.x, empty.average.y), (0, 0, 0, 0));
    let quick = QuickTrace::new(String::from("a"), Vector2::new(1, 2), Vector2::new(3, 4));
    let copy = quick.clone();
    assert_eq!(copy.id, "a");
    assert_eq!((copy.trace.x, copy.trace.y, copy.average.x, copy.average.y), (1, 2, 3, 4));
    assert_eq!(TraceGroup::empty().group_content.len(), 0);
    let unit = LivingDataUnit::empty();
    assert_eq!(unit.definitions.len(), 0);
    assert_eq!(unit.trace_groups.len(), 0);
}

#[test]
fn characters_are_taken_one_by_one() {
    assert_eq!(chars_of("a\u{e9}\u{4e2d}b"), vec!['a', '\u{e9}', '\u{4e2d}', 'b']);
    assert_eq!(chars_of(""), Vec::<char>::new());
}

#[test]
fn fields_are_parted_by_the_separator() {
    let text = characters("ab,,c,");
    assert_eq!(split_ranges(&text, 0, 6, ','), vec![(0, 2), (3, 3), (4, 5), (6, 6)]);
    assert_eq!(split_ranges(&text, 1, 4, ','), vec![(1, 2), (3, 3), (4, 4)]);
    assert_eq!(split_ranges(&text, 2, 2, ','), vec![(2, 2)]);
    assert_eq!(split_ranges(&text, 0, 6, ';'), vec![(0, 6)]);
}

#[test]
fn numbers_are_read() {
    assert_eq!(number("0"), Some(0));
    assert_eq!(number("-45"), Some(-45));
    assert_eq!(number("+45"), Some(45));
    assert_eq!(number("007"), Some(7));
    assert_eq!(number("9223372036854775807"), Some(i64::MAX));
    assert_eq!(number("-9223372036854775808"), Some(i64::MIN));
}

#[test]
fn what_is_no_number_is_refused() {
    assert_eq!(number(""), None);
    assert_eq!(number("-"), None);
    assert_eq!(number("+"), None);
    assert_eq!(number("4 "), None);
    assert_eq!(number(" 4"), None);
    assert_eq!(number("4-"), None);
    assert_eq!(number("--4"), None);
    assert_eq!(number("1.5"), None);
    assert_eq!(number("\u{661}"), None);
    assert_eq!(number("9223372036854775808"), None);
    assert_eq!(number("-9223372036854775809"), None);
    assert_eq!(number("100000000000000000000000000000000000000000"), None);
}

#[test]
fn values_between_commas_are_read() {
    let text = characters("x;6,y,+7,,-8,99999999999999999999;");
    assert_eq!(read_values(&text, 2, 33), vec![6, 7, -8]);
    assert_eq!(read_values(&text, 0, 1), Vec::<i64>::new());
    assert_eq!(read_values(&text, 1, 1), Vec::<i64>::new());
}

#[test]
fn lines_end_at_line_feeds() {
    let text = characters("ab\r\nc\n\nd\r");
    assert_eq!(line_ranges(&text), vec![(0, 2), (4, 5), (6, 6), (7, 9)]);
    let closed = characters("ab\n");
    assert_eq!(line_ranges(&closed), vec![(0, 2)]);
    assert_eq!(line_ranges(&characters("")), Vec::<(usize, usize)>::new());
    assert_eq!(line_ranges(&characters("\r\n")), vec![(0, 0)]);
}

#[test]
fn runs_fit_within_the_limit() {
    let limit: i64 = 0x3FFF_FFFF_FFFF_FFFF;
    assert!(run_fits(&vec![0, 24, -7], 5, limit));
    assert!(!run_fits(&vec![], 5, limit));
    assert!(!run_fits(&vec![1], 0, limit));
    assert!(!run_fits(&vec![1], -5, limit));
    assert!(!run_fits(&vec![1, i64::MAX], 1, limit));
    assert!(run_fits(&vec![1, i64::MAX], 2, limit));
    assert!(run_fits(&vec![0, 24], 5, 4));
    assert!(!run_fits(&vec![0, 25], 5, 4));
    assert!(!run_fits(&vec![-1, -25], 5, 4));
    assert!(run_fits(&vec![-24], 5, 4));
}

#[test]
fn full_data_is_read() {
    match read_heavy(HEAVY, 5) {
        Some(definitions) => {
            assert_eq!(definitions.len(), 2);
            assert_eq!(definitions[0].id, "a");
            assert_eq!(definitions[0].resolution, 5);
            assert_eq!(definitions[0].traces.len(), 2);
            assert_eq!(definitions[0].traces[1].indexes, vec![14, 18, 23]);
            assert_eq!(definitions[0].traces[1].time_stamp, 1);
            assert_eq!(definitions[1].id, "b");
            assert_eq!(definitions[1].traces.len(), 2);
            assert_eq!(definitions[1].traces[0].indexes, vec![1, 2]);
            assert_eq!(definitions[1].traces[1].indexes, vec![5]);
            assert_eq!(definitions[1].traces[1].time_stamp, 2);
        }
        None => panic!("the full data was refused"),
    }
}

#[test]
fn full_data_without_a_full_stop_is_refused() {
    assert!(read_heavy("a.6;\nb 7;\n", 5).is_none());
    assert!(read_heavy("a.6;\n\n", 5).is_none());
    assert!(read_heavy("a.6;", 0).is_none());
    assert!(read_heavy("a.x;", 0).is_some());
    assert!(read_heavy("", 5).is_some());
}

#[test]
fn what_follows_a_second_full_stop_is_passed_over() {
    match read_heavy("id.1,2;3.9;9;9", 5) {
        Some(definitions) => {
            assert_eq!(definitions.len(), 1);
            assert_eq!(definitions[0].id, "id");
            assert_eq!(definitions[0].traces.len(), 2);
            assert_eq!(definitions[0].traces[1].indexes, vec![3]);
        }
        None => panic!("the full data was refused"),
    }
}

#[test]
fn quick_data_is_read() {
    match read_quick(QUICK) {
        Some(groups) => {
            assert_eq!(groups.len(), 2);
            assert_eq!(groups[0].group_content.len(), 2);
            let quick = &groups[1].group_content[0];
            assert_eq!(quick.id, "a");
            assert_eq!((quick.trace.x, quick.trace.y), (-1, 2));
            assert_eq!((quick.average.x, quick.average.y), (-1, 1));
            assert_eq!(groups[1].group_content[1].id, "b");
        }
        None => panic!("the quick data was refused"),
    }
}

#[test]
fn quick_data_with_too_few_numbers_is_refused() {
    assert!(read_quick("a.1,2,3,.").is_none());
    assert!(read_quick("a.1,2,3,4").is_some());
    match read_quick("a.1,2,3,4") {
        Some(groups) => assert_eq!(groups[0].group_content.len(), 0),
        None => panic!("the quick data was refused"),
    }
    match read_quick("a.1,2,3,4,5.b") {
        Some(groups) => {
            assert_eq!(groups[0].group_content.len(), 1);
            assert_eq!(groups[0].group_content[0].average.y, 4);
        }
        None => panic!("the quick data was refused"),
    }
}

#[test]
fn loading_checks_the_quick_data() {
    let mut unit = LivingDataUnit::empty();
    assert_eq!(unit.load_from_text(QUICK, HEAVY, 5), Some(true));
    assert_eq!(unit.definitions.len(), 2);
    assert_eq!(unit.trace_groups.len(), 2);
    assert_eq!(unit.check_in_order(), Some(true));
}

#[test]
fn loading_reports_a_mismatch() {
    let mut unit = LivingDataUnit::empty();
    let quick = "a.2,0,1,0,.b.1,0,0,0,.\na.-1,2,-1,1,.b.0,0,0,1,.\n";
    assert_eq!(unit.load_from_text(quick, HEAVY, 5), Some(false));
    assert_eq!(unit.check_in_order(), Some(false));
    let other = "c.9,9,9,9,.\nc.9,9,9,9,.\n";
    assert_eq!(unit.load_from_text(other, HEAVY, 5), Some(true));
    assert_eq!(unit.load_from_text(QUICK, HEAVY, 6), Some(false));
}

#[test]
fn loading_fails_without_a_group_for_a_time_step() {
    let mut unit = LivingDataUnit::empty();
    assert_eq!(unit.load_from_text("a.2,0,1,0,.\n", HEAVY, 5), None);
    assert_eq!(unit.definitions.len(), 2);
    assert_eq!(unit.load_from_text("a.2,0,1,1,.\n", HEAVY, 5), Some(false));
    assert_eq!(unit.load_from_text("", "", 5), Some(true));
}

#[test]
fn loading_fails_on_what_cannot_be_read() {
    let mut unit = LivingDataUnit::empty();
    assert_eq!(unit.load_from_text(QUICK, HEAVY, 5), Some(true));
    assert_eq!(unit.load_from_text(QUICK, "a6,7;\n", 5), None);
    assert_eq!(unit.definitions.len(), 0);
    assert_eq!(unit.trace_groups.len(), 0);
    assert_eq!(unit.load_from_text("a.1,.\n", HEAVY, 5), None);
    assert_eq!(unit.definitions.len(), 0);
    assert_eq!(unit.load_from_text(QUICK, HEAVY, 0), None);
}

#[test]
fn data_is_written_as_it_is_read() {
    let mut unit = LivingDataUnit::empty();
    assert_eq!(unit.load_from_text(QUICK, HEAVY, 5), Some(true));
    assert_eq!(unit.quick_output(), QUICK);
    assert_eq!(unit.heavy_output(), "a.6,7,8;14,18,23;\nb.1,2;5;\n");
    let empty = LivingDataUnit::empty();
    assert_eq!(empty.quick_output(), "");
    assert_eq!(empty.heavy_output(), "");
}

#[test]
fn quick_data_has_a_line_for_each_time_step() {
    let mut unit = LivingDataUnit::empty();
    let mut long = DefinitionUnit::new(5);
    long.id = String::from("long");
    long.feed(0, vec![6, 7, 8]);
    long.feed(1, vec![24, 0]);
    long.feed(2, vec![12]);
    let mut none = DefinitionUnit::new(5);
    none.id = String::from("none");
    let mut short = DefinitionUnit::new(5);
    short.id = String::from("short");
    short.feed(4, vec![0, 6]);
    unit.definitions = vec![long, none, short];
    assert_eq!(
        unit.quick_output(),
        "long.2,0,1,0,.short.1,1,0,0,.\nlong.-4,-4,-2,-2,.\nlong.0,0,0,0,.\n"
    );
    assert_eq!(unit.heavy_output(), "long.6,7,8;24,0;12;\nnone.\nshort.0,6;\n");
}
