use mvecops::beorc::def::check_ready_to_match;
use mvecops::beorc::def::vector_within_reach;
use mvecops::beorc::def::DefinitionUnit;
use mvecops::beorc::training::check_electorate_fits;
use mvecops::beorc::training::check_ready_to_train;
use mvecops::beorc::training::check_votes_fit;
use mvecops::def::maths::floor_divide;
use mvecops::def::maths::Vector2;
use mvecops::def::vmatrix::Vmatrix;
use mvecops::get_accumulations_from_data;
use mvecops::get_bloat_data;
use mvecops::get_combined_data;
use mvecops::get_complete_inflexions_from_data;
use mvecops::get_curve_no_reductions;
use mvecops::get_dominant_plus_bloat;
use mvecops::get_inflexions_from_vector;
use mvecops::get_inflexions_no_reduction;
use mvecops::get_substractions_from_data;
use mvecops::naudr::closed_curves::GlobalCurveData;

fn bars_and_corner() -> Vec<u32> {
    let mut cells: Vec<u32> = vec![0; 64];
    for column in 1..7 {
        cells[2 * 8 + column] = 1;
    }
    for row in 1..7 {
        cells[row * 8 + 5] = 1;
    }
    for k in [42, 49, 50] {
        cells[k] = 1;
    }
    cells
}

fn corner_only() -> Vec<u32> {
    let mut cells: Vec<u32> = vec![0; 64];
    for k in [42, 49, 50] {
        cells[k] = 1;
    }
    cells
}

fn tangle() -> Vec<u32> {
    vec![
        1, 1, 1, 1, 0, 1, 0, 0, 0, 1, 0, 0, 1, 1, 0, 0, 1, 0, 1, 0, 1, 1, 0, 0, 1, 0, 1, 0, 0, 1,
        1, 1, 0, 1, 0, 0,
    ]
}

fn assert_blank(data: &GlobalCurveData, size: usize) {
    assert_eq!(data.row_size, size);
    assert_eq!(data.curves_global_output.data, vec![0; size * size]);
    assert_eq!(data.curves_global_orderd.data, vec![0; size * size]);
    assert_eq!(data.curves_global_output.size, size);
    assert_eq!(data.curves_global_orderd.size, size);
    assert_eq!(data.global_output_number, 1);
    assert_eq!(data.global_orderd_cardin, 0);
}

#[test]
fn straight_runs_are_taken_out() {
    let result = get_substractions_from_data(Vmatrix::build(8, bars_and_corner()), 8, 4);
    assert_eq!(result.data, corner_only());
    assert_eq!(result.size, 8);
}

#[test]
fn runs_shorter_than_the_recurrency_stay() {
    let mut cells: Vec<u32> = vec![0; 100];
    for row in 1..9 {
        for column in 1..9 {
            cells[row * 10 + column] = 1;
        }
    }
    let kept = get_substractions_from_data(Vmatrix::build(10, cells.clone()), 10, 9);
    assert_eq!(kept.data, cells);
    let gone = get_substractions_from_data(Vmatrix::build(10, cells), 10, 8);
    assert_eq!(gone.data, vec![0; 100]);
}

#[test]
fn accumulations_from_data_count_reductions() {
    let full: Vmatrix<u32> = Vmatrix::initialize(5, 1);
    let result = get_accumulations_from_data(full, 5);
    assert_eq!(
        result.data,
        vec![0, 0, 0, 0, 0, 0, 1, 1, 1, 0, 0, 1, 2, 1, 0, 0, 1, 1, 1, 0, 0, 0, 0, 0, 0]
    );
    let thin = get_accumulations_from_data(Vmatrix::build(8, bars_and_corner()), 8);
    assert_eq!(thin.data, vec![0; 64]);
}

#[test]
fn inflexions_leave_the_shared_data_blank() {
    match get_curve_no_reductions(bars_and_corner(), 8, 4) {
        Ok(data) => assert_blank(&data, 8),
        Err(_) => panic!("a walk gave up"),
    }
    match get_inflexions_no_reduction(&Vmatrix::build(8, bars_and_corner()), 8, 4) {
        Ok(data) => assert_blank(&data, 8),
        Err(_) => panic!("a walk gave up"),
    }
    match get_inflexions_from_vector(bars_and_corner(), 8, 4) {
        Ok(data) => assert_blank(&data, 8),
        Err(_) => panic!("a walk gave up"),
    }
    match get_complete_inflexions_from_data(&Vmatrix::build(8, bars_and_corner()), 8, 4) {
        Ok(data) => assert_blank(&data, 8),
        Err(_) => panic!("a walk gave up"),
    }
    match get_curve_no_reductions(Vec::new(), 0, 4) {
        Ok(data) => assert_blank(&data, 0),
        Err(_) => panic!("a walk gave up"),
    }
}

#[test]
fn inflexions_fail_where_a_walk_gives_up() {
    match get_curve_no_reductions(tangle(), 6, 3) {
        Ok(_) => panic!("the walk should have given up"),
        Err(failure) => assert_eq!(failure.index, 9),
    }
    match get_inflexions_no_reduction(&Vmatrix::build(6, tangle()), 6, 3) {
        Ok(_) => panic!("the walk should have given up"),
        Err(failure) => assert_eq!(failure.index, 9),
    }
    assert!(get_inflexions_from_vector(tangle(), 6, 3).is_ok());
}

#[test]
fn bloat_data_marks_the_levels() {
    let mut cells: Vec<u32> = vec![0; 36];
    for row in 1..5 {
        for column in 1..5 {
            cells[row * 6 + column] = 1;
        }
    }
    let data = get_bloat_data(cells, 6);
    let mut expected: Vec<u32> = vec![0; 36];
    for row in 1..5 {
        for column in 1..5 {
            expected[row * 6 + column] = 1;
        }
    }
    for k in [14, 15, 20, 21] {
        expected[k] = 2;
    }
    assert_eq!(data.curves_global_output.data, expected);
    assert_eq!(data.curves_global_orderd.data, vec![0; 36]);
    assert_eq!(data.row_size, 6);
    assert_eq!(data.global_output_number, 1);
}

#[test]
fn dominants_and_bloat_come_together() {
    match get_combined_data(bars_and_corner(), 8, 4) {
        Ok((curves, bloats)) => {
            assert_blank(&curves, 8);
            assert_eq!(bloats.curves_global_output.data, corner_only());
            assert_eq!(bloats.row_size, 8);
        }
        Err(_) => panic!("a walk gave up"),
    }
    match get_dominant_plus_bloat(&Vmatrix::build(8, bars_and_corner()), 8, 4) {
        Ok((curves, bloats)) => {
            assert_blank(&curves, 8);
            assert_eq!(bloats.curves_global_output.data, corner_only());
        }
        Err(_) => panic!("a walk gave up"),
    }
}

#[test]
fn floor_division_rounds_down() {
    assert_eq!(floor_divide(7, 2), 3);
    assert_eq!(floor_divide(-7, 2), -4);
    assert_eq!(floor_divide(-8, 2), -4);
    assert_eq!(floor_divide(0, 5), 0);
    assert_eq!(floor_divide(-1, 5), -1);
}

fn definition(resolution: i64, traces: Vec<(i64, Vec<i64>)>) -> DefinitionUnit {
    let mut unit = DefinitionUnit::new(resolution);
    for (time_stamp, indexes) in traces {
        unit.feed(time_stamp, indexes);
    }
    unit
}

#[test]
fn readiness_to_match_is_checked() {
    let base = definition(5, vec![(0, vec![6, 7, 8])]);
    let entry = definition(5, vec![(0, vec![6]), (1, vec![7, 8])]);
    assert!(check_ready_to_match(&base, &entry));
    assert!(check_ready_to_match(&base, &definition(7, vec![(0, vec![6])])));
    assert!(!check_ready_to_match(&definition(0, vec![]), &entry));
    assert!(!check_ready_to_match(&definition(-5, vec![]), &entry));
    let mut other = definition(5, vec![(0, vec![6, 7, 8])]);
    other.traces[0].resolution = 6;
    assert!(!check_ready_to_match(&other, &entry));
    let far = definition(5, vec![(0, vec![0, 5 * 524_289])]);
    assert!(!check_ready_to_match(&base, &far));
    let near = definition(5, vec![(0, vec![0, 5 * 524_288])]);
    assert!(check_ready_to_match(&base, &near));
    let mut wide = definition(5, vec![(0, vec![6])]);
    wide.traces[0].trace = Vector2::new(1_048_577, 0);
    assert!(!check_ready_to_match(&base, &wide));
    assert!(!check_ready_to_match(&wide, &entry));
    let mut empty = definition(5, vec![(0, vec![6])]);
    empty.traces[0].indexes = vec![];
    assert!(!check_ready_to_match(&base, &empty));
}

#[test]
fn reach_of_vectors_is_checked() {
    assert!(vector_within_reach(&Vector2::new(1_048_576, -1_048_576)));
    assert!(!vector_within_reach(&Vector2::new(1_048_577, 0)));
    assert!(!vector_within_reach(&Vector2::new(0, -1_048_577)));
}

#[test]
fn readiness_to_train_is_checked() {
    let base = definition(5, vec![(0, vec![6, 7, 8]), (1, vec![24])]);
    let instances =
        vec![definition(5, vec![(0, vec![6]), (1, vec![0])]), definition(5, vec![(0, vec![25])])];
    assert!(check_ready_to_train(&base, &instances, &vec![0]));
    assert!(check_ready_to_train(&base, &instances, &vec![]));
    assert!(check_ready_to_train(&base, &instances, &vec![0, 0]));
    assert!(!check_ready_to_train(&base, &instances, &vec![1]));
    assert!(!check_ready_to_train(&base, &instances, &vec![2]));
    assert!(!check_ready_to_train(&definition(5, vec![(0, vec![25])]), &instances, &vec![]));
    assert!(!check_ready_to_train(&definition(5, vec![(0, vec![-1])]), &instances, &vec![]));
    assert!(check_ready_to_train(&definition(0, vec![]), &instances, &vec![0]));
    assert!(check_ready_to_train(&definition(-5, vec![]), &instances, &vec![0]));
    let mut turned = definition(5, vec![(0, vec![6])]);
    turned.traces[0].resolution = 0;
    assert!(!check_ready_to_train(&turned, &instances, &vec![]));
    assert!(!check_ready_to_train(&definition(i64::MAX, vec![]), &instances, &vec![]));
}

#[test]
fn voters_are_checked() {
    assert!(check_votes_fit(&vec![0, 24, 3], 25));
    assert!(!check_votes_fit(&vec![0, 25], 25));
    assert!(!check_votes_fit(&vec![-1], 25));
    assert!(!check_votes_fit(&vec![], 25));
    let instances = vec![definition(5, vec![(0, vec![6]), (1, vec![0])])];
    assert!(check_electorate_fits(&instances, &vec![0], 1, 25));
    assert!(!check_electorate_fits(&instances, &vec![0], 2, 25));
    assert!(!check_electorate_fits(&instances, &vec![0], 0, 6));
    assert!(check_electorate_fits(&instances, &vec![], 7, 0));
}
