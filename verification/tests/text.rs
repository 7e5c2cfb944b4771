use mvecops::beorc::def::DefinitionUnit;
use mvecops::beorc::def::ReconstructionReport;
use mvecops::def::text::append_decimal;
use mvecops::def::text::append_digits;
use mvecops::def::text::append_list;
use mvecops::def::text::append_repeated;
use mvecops::def::text::count_digits;
use mvecops::def::vmatrix::compose_standard_name;
use mvecops::def::vmatrix::Vmatrix;
use mvecops::text_to_int_vector;
use mvecops::text_to_vmatrix;

#[test]
fn print_definition_unit() {
    let mut dunit_sample: DefinitionUnit = DefinitionUnit::new(5);
    let trace_1: Vec<i64> = vec![6, 7, 8];
    let trace_2: Vec<i64> = vec![14, 18, 23];
    let trace_3: Vec<i64> = vec![5, 10, 15, 20];

    dunit_sample.feed(0, trace_1);
    dunit_sample.feed(1, trace_2);
    dunit_sample.feed(2, trace_3);

    println!("{}", dunit_sample.to_string());
}

#[test]
fn definition_shows_its_cells() {
    let mut unit: DefinitionUnit = DefinitionUnit::new(5);
    unit.feed(0, vec![6, 7, 8]);
    unit.feed(1, vec![14, 18, 23]);
    unit.feed(2, vec![5, 10, 15, 20]);
    assert_eq!(
        unit.to_string(),
        "**********\n 5 6 7 8**\n10******14\n15****18**\n20****23**\n"
    );
    let empty: DefinitionUnit = DefinitionUnit::new(2);
    assert_eq!(empty.to_string(), "**\n**\n");
}

#[test]
fn definition_shows_wide_cells() {
    let mut unit: DefinitionUnit = DefinitionUnit::new(10);
    unit.feed(0, vec![99, 5]);
    let mut expected = String::from("***************  5************\n");
    for _ in 0..8 {
        expected += "******************************\n";
    }
    expected += "*************************** 99\n";
    assert_eq!(unit.to_string(), expected);
}

#[test]
fn indexes_outside_the_matrix_take_up_a_cell() {
    let mut unit: DefinitionUnit = DefinitionUnit::new(2);
    unit.feed(0, vec![3, -1, 7, 4, 3]);
    assert_eq!(unit.to_string(), "*\n*3\n4\n");
    let mut turned: DefinitionUnit = DefinitionUnit::new(-2);
    turned.traces = unit.traces.clone();
    turned.traces[0].indexes = vec![0];
    assert_eq!(turned.to_string(), "0*\n**\n");
}

#[test]
fn reconstruction_report_as_text() {
    let report = ReconstructionReport::new(vec![6, 7, 8], vec![-6], true);
    assert_eq!(
        report.to_string(),
        "??????????????????????\nTried to reconstruct: [6, 7, 8]\nGot: [-6]\nACCEPTED: true\n??????????????????????\n"
    );
    let refused = ReconstructionReport::new(vec![], vec![10, 200], false);
    assert_eq!(
        refused.to_string(),
        "??????????????????????\nTried to reconstruct: []\nGot: [10, 200]\nACCEPTED: false\n??????????????????????\n"
    );
}

#[test]
fn numbers_are_written_in_decimal() {
    let mut text = String::from("x");
    append_decimal(&mut text, 0);
    append_decimal(&mut text, -45);
    append_decimal(&mut text, 1203);
    assert_eq!(text, "x0-451203");
    let mut ends = String::new();
    append_decimal(&mut ends, i64::MIN);
    append_decimal(&mut ends, i64::MAX);
    assert_eq!(ends, "-92233720368547758089223372036854775807");
    let mut wide = String::new();
    append_digits(&mut wide, u64::MAX);
    assert_eq!(wide, "18446744073709551615");
}

#[test]
fn digits_are_counted() {
    assert_eq!(count_digits(0), 1);
    assert_eq!(count_digits(9), 1);
    assert_eq!(count_digits(10), 2);
    assert_eq!(count_digits(25), 2);
    assert_eq!(count_digits(100), 3);
    assert_eq!(count_digits(u64::MAX), 20);
}

#[test]
fn lists_and_repetitions_are_written() {
    let mut text = String::new();
    append_list(&mut text, &vec![1, -2, 30]);
    append_repeated(&mut text, "*", '*', 3);
    append_list(&mut text, &vec![]);
    append_repeated(&mut text, " ", ' ', 0);
    append_list(&mut text, &vec![7]);
    assert_eq!(text, "[1, -2, 30]***[][7]");
}

#[test]
fn matrix_as_text_has_a_line_for_each_row() {
    let grid: Vmatrix<u32> = Vmatrix::build(3, vec![0, 1, 0, 12, 0, 3, 1, 1, 1, 9]);
    assert_eq!(grid.to_text(), "010\n1203\n111\n");
    let none: Vmatrix<u32> = Vmatrix::new(0);
    assert_eq!(none.to_text(), "");
}

#[test]
fn standard_names_are_composed() {
    assert_eq!(compose_standard_name("reduction", 3), "reduction#3.txt");
    assert_eq!(compose_standard_name("", 120), "#120.txt");
}

#[test]
fn digits_of_a_text_are_its_data() {
    assert_eq!(text_to_int_vector("0110\n10 7x\n"), vec![0, 1, 1, 0, 1, 0, 7]);
    assert_eq!(text_to_int_vector(""), Vec::<u32>::new());
    assert_eq!(text_to_int_vector("a\u{661}b\u{ff11}9"), vec![9]);
    let grid = text_to_vmatrix("01\n10\n", 2);
    assert_eq!(grid.size, 2);
    assert_eq!(grid.data, vec![0, 1, 1, 0]);
}

#[test]
fn definition_without_resolution_is_empty_text() {
    let blank: DefinitionUnit = DefinitionUnit::new(0);
    assert_eq!(blank.to_string(), "");
    let mut hollow: DefinitionUnit = DefinitionUnit::new(5);
    hollow.feed(0, vec![6]);
    hollow.resolution = 0;
    hollow.traces[0].indexes = vec![];
    assert_eq!(hollow.to_string(), "");
}
