use mvecops::def::trigonometric::Trigonometric;
use mvecops::def::vmatrix::Vmatrix;
use mvecops::naudr::bloat::trace_at;
use mvecops::naudr::bloat::trace_side;
use mvecops::naudr::bloat::write_bloats;
use mvecops::naudr::closed_curves::GlobalCurveData;

fn filled_square() -> Vmatrix<u32> {
    let mut cells: Vec<u32> = vec![0; 100];
    for row in 1..9 {
        for column in 1..9 {
            cells[row * 10 + column] = 1;
        }
    }
    Vmatrix::build(10, cells)
}

#[test]
fn bloat_levels_rise_toward_the_middle() {
    let mut global = GlobalCurveData::new(10);
    write_bloats(&mut global, &filled_square());
    let expected: Vec<u32> = vec![
        0, 0, 0, 0, 0, 0, 0, 0, 0, 0, 0, 1, 1, 1, 1, 1, 1, 1, 1, 0, 0, 1, 2, 2, 2, 2, 2, 2, 1, 0,
        0, 1, 2, 3, 3, 3, 3, 2, 1, 0, 0, 1, 2, 3, 4, 4, 3, 2, 1, 0, 0, 1, 2, 3, 4, 4, 3, 2, 1, 0,
        0, 1, 2, 3, 3, 3, 3, 2, 1, 0, 0, 1, 2, 2, 2, 2, 2, 2, 1, 0, 0, 1, 1, 1, 1, 1, 1, 1, 1, 0,
        0, 0, 0, 0, 0, 0, 0, 0, 0, 0,
    ];
    assert_eq!(global.curves_global_output.data, expected);
    assert_eq!(global.curves_global_orderd.data, vec![0; 100]);
}

#[test]
fn bloat_stops_when_a_level_changes_nothing() {
    let mut cells: Vec<u32> = vec![0; 100];
    cells[55] = 1;
    let mut global = GlobalCurveData::new(10);
    global.curves_global_output.data[55] = 1;
    global.curves_global_output.data[0] = 9;
    write_bloats(&mut global, &Vmatrix::build(10, cells));
    let mut expected: Vec<u32> = vec![0; 100];
    expected[55] = 1;
    expected[0] = 9;
    assert_eq!(global.curves_global_output.data, expected);
}

#[test]
fn rings_are_traced() {
    let square = filled_square();
    assert!(trace_at(&square, 2, 10, 22));
    assert!(!trace_at(&square, 2, 10, 11));
    assert!(trace_at(&square, 3, 10, 33));
    assert!(!trace_at(&square, 3, 10, 22));
    assert!(!trace_at(&square, 1, 10, 0));
    assert!(trace_at(&square, 1, 10, 11));
}

#[test]
fn ring_with_a_gap_is_not_traced() {
    let mut square = filled_square();
    square.data[34] = 0;
    assert!(!trace_at(&square, 2, 10, 44));
    assert!(!trace_at(&square, 2, 10, 33));
    assert!(trace_at(&square, 3, 10, 44));
    assert!(trace_at(&square, 2, 10, 55));
}

#[test]
fn sides_are_walked_inside_the_matrix() {
    let square = filled_square();
    assert_eq!(trace_side(&square, 11, &Trigonometric::COS, 7, true), Some(18));
    assert_eq!(trace_side(&square, 11, &Trigonometric::COS, 8, true), None);
    assert_eq!(trace_side(&square, 11, &Trigonometric::NSIN, 3, true), Some(41));
    assert_eq!(trace_side(&square, 44, &Trigonometric::SIN, 0, true), Some(44));
    let mut gap = filled_square();
    gap.data[13] = 0;
    assert_eq!(trace_side(&gap, 11, &Trigonometric::COS, 3, true), None);
    assert_eq!(trace_side(&gap, 11, &Trigonometric::COS, 3, false), Some(14));
}
