use mvecops::def::trigonometric::Trigonometric;
use mvecops::def::vmatrix::Vmatrix;
use mvecops::naudr::closed_curves::draw_curve_on;
use mvecops::naudr::closed_curves::find_curve_on;
use mvecops::naudr::closed_curves::get_curves;
use mvecops::naudr::closed_curves::get_if_curve_value;
use mvecops::naudr::closed_curves::get_smooth_curves;
use mvecops::naudr::closed_curves::hollow_set;
use mvecops::naudr::closed_curves::mark_curve_points;
use mvecops::naudr::closed_curves::paint_on_direction;
use mvecops::naudr::closed_curves::GlobalCurveData;

fn ring_and_corner() -> Vmatrix<u32> {
    let mut cells: Vec<u32> = vec![0; 64];
    for (row, column) in
        [(1, 1), (1, 2), (1, 3), (2, 1), (2, 3), (3, 1), (3, 2), (3, 3), (5, 5), (5, 6), (6, 5)]
    {
        cells[row * 8 + column] = 1;
    }
    Vmatrix::build(8, cells)
}

fn outlines() -> Vec<u32> {
    vec![
        0, 0, 0, 0, 0, 0, 0, 0, 0, 2, 2, 2, 0, 0, 0, 0, 0, 2, 0, 2, 0, 0, 0, 0, 0, 2, 2, 2, 0, 0,
        0, 0, 0, 0, 0, 0, 0, 0, 0, 0, 0, 0, 0, 0, 0, 2, 2, 0, 0, 0, 0, 0, 0, 2, 0, 0, 0, 0, 0, 0,
        0, 0, 0, 0,
    ]
}

#[test]
fn new_global_data_is_blank() {
    let data = GlobalCurveData::new(3);
    assert_eq!(data.row_size, 3);
    assert_eq!(data.curves_global_output.data, vec![0; 9]);
    assert_eq!(data.curves_global_orderd.data, vec![0; 9]);
    assert_eq!(data.curves_global_output.size, 3);
    assert_eq!(data.global_output_number, 1);
    assert_eq!(data.global_orderd_cardin, 0);
}

#[test]
fn transpose_internal_turns_both_matrices() {
    let mut data = GlobalCurveData::new(2);
    data.curves_global_output.data = vec![1, 2, 3, 4];
    data.curves_global_orderd.data = vec![5, 6, 7, 8];
    data.transpose_internal();
    assert_eq!(data.curves_global_output.data, vec![1, 3, 2, 4]);
    assert_eq!(data.curves_global_orderd.data, vec![5, 7, 6, 8]);
}

#[test]
fn paint_marks_a_filled_neighbour() {
    let input: Vmatrix<u32> = Vmatrix::build(3, vec![0, 1, 1, 0, 1, 0, 0, 0, 0]);
    let mut output: Vmatrix<u32> = Vmatrix::initialize(3, 0);
    assert_eq!(paint_on_direction(1, 3, &Trigonometric::COS, 0, &input, &mut output), 2);
    assert_eq!(output.data, vec![0, 0, 2, 0, 0, 0, 0, 0, 0]);
    assert_eq!(paint_on_direction(1, 3, &Trigonometric::NCOS, 0, &input, &mut output), 1);
    assert_eq!(paint_on_direction(1, 3, &Trigonometric::NSIN, 0, &input, &mut output), 4);
    assert_eq!(paint_on_direction(0, 3, &Trigonometric::SIN, 0, &input, &mut output), 0);
    assert_eq!(paint_on_direction(7, 3, &Trigonometric::NSIN, 0, &input, &mut output), 7);
    assert_eq!(output.data, vec![0, 0, 2, 0, 2, 0, 0, 0, 0]);
    output.data[1] = 1;
    assert_eq!(paint_on_direction(0, 3, &Trigonometric::COS, 0, &input, &mut output), 0);
    assert_eq!(paint_on_direction(0, 3, &Trigonometric::COS, -1, &input, &mut output), 4);
}

#[test]
fn curves_are_outlined() {
    let mut global = GlobalCurveData::new(8);
    match get_curves(&mut global, &ring_and_corner()) {
        Ok(result) => {
            assert_eq!(result.data, outlines());
            assert_eq!(result.size, 8);
        }
        Err(_) => panic!("the walk gave up"),
    }
    assert_eq!(global.curves_global_output.data, vec![0; 64]);
}

#[test]
fn filled_body_is_hollowed() {
    let mut cells: Vec<u32> = vec![0; 25];
    for k in [6, 7, 8, 11, 12, 13, 16, 17, 18] {
        cells[k] = 1;
    }
    let mut global = GlobalCurveData::new(5);
    match get_curves(&mut global, &Vmatrix::build(5, cells)) {
        Ok(result) => {
            let mut expected: Vec<u32> = vec![0; 25];
            for k in [6, 7, 8, 11, 13, 16, 17, 18] {
                expected[k] = 2;
            }
            expected[12] = 1;
            assert_eq!(result.data, expected);
        }
        Err(_) => panic!("the walk gave up"),
    }
}

#[test]
fn a_walk_that_never_closes_gives_up() {
    let cells: Vec<u32> = vec![1, 0, 0, 1, 1, 1, 0, 0, 1, 1, 0, 1, 0, 1, 1, 0];
    let mut global = GlobalCurveData::new(4);
    match get_curves(&mut global, &Vmatrix::build(4, cells)) {
        Ok(_) => panic!("the walk should have given up"),
        Err(failure) => assert_eq!(failure.index, 11),
    }
}

#[test]
fn draw_from_a_lone_entry_turns_in_place() {
    let input: Vmatrix<u32> = Vmatrix::build(3, vec![0, 0, 0, 0, 1, 0, 0, 0, 0]);
    let mut output: Vmatrix<u32> = Vmatrix::build(3, vec![0, 0, 0, 0, 2, 0, 0, 0, 0]);
    let global = GlobalCurveData::new(3);
    assert!(draw_curve_on(&input, &mut output, &global, 4).is_ok());
    assert_eq!(output.data, vec![0, 0, 0, 0, 2, 0, 0, 0, 0]);
}

#[test]
fn hollow_marks_what_lies_behind_an_anchor() {
    let input: Vmatrix<u32> = Vmatrix::build(4, vec![1, 1, 1, 1, 1, 0, 1, 1, 1, 1, 1, 1, 0, 0, 0, 0]);
    let mut result: Vmatrix<u32> =
        Vmatrix::build(4, vec![2, 0, 0, 2, 2, 0, 0, 0, 0, 2, 0, 0, 0, 0, 0, 0]);
    hollow_set(2, 1, 4, &input, &mut result);
    assert_eq!(result.data, vec![2, 1, 1, 2, 2, 0, 0, 0, 0, 2, 1, 1, 0, 0, 0, 0]);
}

#[test]
fn curve_points_are_marked() {
    let input: Vmatrix<u32> = Vmatrix::build(8, outlines());
    let mut result: Vmatrix<u32> = Vmatrix::initialize(8, 0);
    let mut global = GlobalCurveData::new(8);
    global.global_orderd_cardin = 5;
    assert!(mark_curve_points(&input, &mut result, &mut global, false).is_ok());
    let expected: Vec<u32> = vec![
        0, 0, 0, 0, 0, 0, 0, 0, 0, 3, 1, 1, 0, 0, 0, 0, 0, 1, 0, 1, 0, 0, 0, 0, 0, 1, 1, 3, 0, 0,
        0, 0, 0, 0, 0, 0, 0, 0, 0, 0, 0, 0, 0, 0, 0, 1, 1, 0, 0, 0, 0, 0, 0, 1, 0, 0, 0, 0, 0, 0,
        0, 0, 0, 0,
    ];
    assert_eq!(result.data, expected);
    assert_eq!(global.global_orderd_cardin, 0);
}

#[test]
fn dominant_curves_keep_their_row_points() {
    let input: Vmatrix<u32> = Vmatrix::build(8, outlines());
    let mut result: Vmatrix<u32> = Vmatrix::initialize(8, 0);
    let mut global = GlobalCurveData::new(8);
    assert!(mark_curve_points(&input, &mut result, &mut global, true).is_ok());
    let expected: Vec<u32> = vec![
        0, 0, 0, 0, 0, 0, 0, 0, 0, 3, 1, 1, 0, 0, 0, 0, 0, 1, 0, 1, 0, 0, 0, 0, 0, 1, 1, 3, 0, 0,
        0, 0, 0, 0, 0, 0, 0, 0, 0, 0, 0, 0, 0, 0, 0, 3, 3, 0, 0, 0, 0, 0, 0, 1, 0, 0, 0, 0, 0, 0,
        0, 0, 0, 0,
    ];
    assert_eq!(result.data, expected);
}

#[test]
fn find_curve_reports_the_farthest_entry() {
    let input: Vmatrix<u32> = Vmatrix::build(8, outlines());
    let mut result: Vmatrix<u32> = Vmatrix::initialize(8, 0);
    result.data[9] = 3;
    let global = GlobalCurveData::new(8);
    match find_curve_on(&input, &mut result, &global, 9) {
        Ok(found) => assert_eq!(found, 27),
        Err(_) => panic!("the walk gave up"),
    }
    assert_eq!(result.data[27], 3);
    assert_eq!(result.data[9], 3);
    assert_eq!(result.data[10], 1);
}

#[test]
fn curve_value_is_followed() {
    let input: Vmatrix<u32> = Vmatrix::build(3, vec![0, 2, 2, 0, 1, 0, 0, 0, 0]);
    let mut output: Vmatrix<u32> = Vmatrix::build(3, vec![0, 0, 3, 0, 0, 0, 0, 0, 0]);
    let global = GlobalCurveData::new(3);
    assert_eq!(get_if_curve_value(&input, &mut output, 0, &global, &Trigonometric::COS, 0), 1);
    assert_eq!(output.data, vec![0, 1, 3, 0, 0, 0, 0, 0, 0]);
    assert_eq!(get_if_curve_value(&input, &mut output, 1, &global, &Trigonometric::COS, 0), 2);
    assert_eq!(output.data, vec![0, 1, 3, 0, 0, 0, 0, 0, 0]);
    assert_eq!(get_if_curve_value(&input, &mut output, 1, &global, &Trigonometric::NSIN, 0), 1);
    assert_eq!(get_if_curve_value(&input, &mut output, 0, &global, &Trigonometric::NCOS, 0), 0);
}

#[test]
fn smooth_curve_takes_the_filled_middle() {
    let mut cells: Vec<u32> = vec![0; 25];
    cells[12] = 1;
    let input: Vmatrix<u32> = Vmatrix::build(5, cells);
    assert_eq!(get_smooth_curves(&input, 0, 24, 5), vec![12]);
    assert_eq!(get_smooth_curves(&input, 6, 7, 5), Vec::<usize>::new());
    assert_eq!(get_smooth_curves(&input, 0, 4, 5), Vec::<usize>::new());
}
