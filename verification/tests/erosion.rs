use mvecops::def::vmatrix::Vmatrix;
use mvecops::naudr::accumulate::accumulate_reductions;
use mvecops::naudr::accumulate::decorner_once;
use mvecops::naudr::accumulate::get_accumulation;
use mvecops::naudr::accumulate::get_reductions;
use mvecops::naudr::accumulate::process_corners;
use mvecops::naudr::accumulate::set_bound_rows_to_zero;
use mvecops::naudr::recurrent::recurrent_trace;

fn square_with_hole() -> Vmatrix<u32> {
    let mut cells: Vec<u32> = vec![0; 64];
    for row in 1..7 {
        for column in 1..7 {
            cells[row * 8 + column] = 1;
        }
    }
    cells[2 * 8 + 2] = 0;
    Vmatrix::build(8, cells)
}

#[test]
fn decorner_keeps_the_surrounded_entries() {
    let mut two_points = false;
    let result = decorner_once(&square_with_hole(), &mut two_points);
    let expected: Vec<u32> = vec![
        0, 0, 0, 0, 0, 0, 0, 0, 0, 0, 0, 0, 0, 0, 0, 0, 0, 0, 0, 0, 1, 1, 0, 0, 0, 0, 0, 0, 1, 1,
        0, 0, 0, 0, 1, 1, 1, 1, 0, 0, 0, 0, 1, 1, 1, 1, 0, 0, 0, 0, 0, 0, 0, 0, 0, 0, 0, 0, 0, 0,
        0, 0, 0, 0,
    ];
    assert_eq!(result.data, expected);
    assert_eq!(result.size, 8);
    assert!(two_points);
}

#[test]
fn decorner_of_a_full_matrix_is_its_interior() {
    for size in 0..7usize {
        let full: Vmatrix<u32> = Vmatrix::initialize(size, 1);
        let mut two_points = true;
        let result = decorner_once(&full, &mut two_points);
        for index in 0..size * size {
            let expected = if full.test_border_index(index) { 0 } else { 1 };
            assert_eq!(result.data[index], expected);
        }
        assert_eq!(two_points, size >= 4);
    }
}

#[test]
fn decorner_of_a_filled_square_inside_zeroed_borders() {
    let mut cells: Vec<u32> = vec![1; 36];
    for k in 0..6 {
        cells[k] = 0;
        cells[30 + k] = 0;
        cells[k * 6] = 0;
        cells[k * 6 + 5] = 0;
    }
    let mut two_points = false;
    let result = decorner_once(&Vmatrix::build(6, cells), &mut two_points);
    let mut expected: Vec<u32> = vec![0; 36];
    for k in [14, 15, 20, 21] {
        expected[k] = 1;
    }
    assert_eq!(result.data, expected);
    assert!(two_points);
}

#[test]
fn lone_surrounded_entry_raises_no_flag() {
    let full: Vmatrix<u32> = Vmatrix::initialize(3, 4);
    let mut two_points = true;
    let result = decorner_once(&full, &mut two_points);
    assert_eq!(result.data, vec![0, 0, 0, 0, 1, 0, 0, 0, 0]);
    assert!(!two_points);
}

#[test]
fn process_corners_leaves_other_entries_alone() {
    let full: Vmatrix<u32> = Vmatrix::initialize(4, 1);
    let mut output: Vmatrix<u32> = Vmatrix::initialize(4, 7);
    let flag = process_corners(&full, &mut output);
    assert_eq!(output.data, vec![7, 7, 7, 7, 7, 1, 1, 7, 7, 1, 1, 7, 7, 7, 7, 7]);
    assert!(flag);
}

#[test]
fn bound_rows_are_zeroed() {
    let mut grid: Vmatrix<u32> = Vmatrix::initialize(3, 5);
    set_bound_rows_to_zero(&mut grid);
    assert_eq!(grid.data, vec![0, 0, 0, 5, 5, 5, 0, 0, 0]);
}

#[test]
fn accumulation_counts_surviving_reductions() {
    let full: Vmatrix<u32> = Vmatrix::initialize(8, 1);
    let result = get_accumulation(&full);
    let expected: Vec<u32> = vec![
        0, 0, 0, 0, 0, 0, 0, 0, 0, 1, 1, 1, 1, 1, 1, 0, 0, 1, 2, 2, 2, 2, 1, 0, 0, 1, 2, 3, 3, 2,
        1, 0, 0, 1, 2, 3, 3, 2, 1, 0, 0, 1, 2, 2, 2, 2, 1, 0, 0, 1, 1, 1, 1, 1, 1, 0, 0, 0, 0, 0,
        0, 0, 0, 0,
    ];
    assert_eq!(result.data, expected);
    assert_eq!(result.size, 8);
}

#[test]
fn accumulation_of_the_square_with_hole() {
    let result = get_accumulation(&square_with_hole());
    let mut two_points = false;
    let once = decorner_once(&square_with_hole(), &mut two_points);
    assert_eq!(result.data, once.data);
}

#[test]
fn reductions_stop_when_nothing_is_side_by_side() {
    let full: Vmatrix<u32> = Vmatrix::initialize(8, 1);
    let reductions = get_reductions(&full);
    assert_eq!(reductions.len(), 4);
    assert_eq!(reductions[3].data, vec![0; 64]);
    let holed = get_reductions(&square_with_hole());
    assert_eq!(holed.len(), 2);
    let large: Vmatrix<u32> = Vmatrix::initialize(30, 1);
    assert_eq!(get_reductions(&large).len(), 10);
}

#[test]
fn accumulate_reductions_sums_entry_by_entry() {
    let list = vec![
        Vmatrix::build(2, vec![1u32, 2, 3, 4]),
        Vmatrix::build(2, vec![10u32, 20, 30, 40]),
        Vmatrix::build(2, vec![0u32, 0, 0, 5, 9]),
    ];
    let result = accumulate_reductions(&list);
    assert_eq!(result.data, vec![11, 22, 33, 49]);
    assert_eq!(result.size, 2);
}

#[test]
fn recurrent_trace_keeps_long_runs() {
    let grid: Vmatrix<u32> = Vmatrix::build(4, vec![1, 1, 1, 0, 1, 1, 0, 0, 1, 1, 1, 1, 0, 1, 0, 0]);
    let result = recurrent_trace(&grid, 3);
    assert_eq!(result.data, vec![1, 1, 1, 0, 0, 0, 0, 0, 1, 1, 1, 1, 0, 0, 0, 0]);
    assert_eq!(result.size, 4);
}

#[test]
fn recurrent_trace_reads_on_across_rows() {
    let grid: Vmatrix<u32> = Vmatrix::build(3, vec![0, 0, 5, 7, 0, 0, 0, 0, 0]);
    let result = recurrent_trace(&grid, 2);
    assert_eq!(result.data, vec![0, 0, 1, 1, 0, 0, 0, 0, 0]);
}

#[test]
fn recurrent_trace_drops_runs_below_the_minimum() {
    let grid: Vmatrix<u32> = Vmatrix::build(3, vec![1, 1, 0, 1, 1, 1, 0, 1, 1]);
    assert_eq!(recurrent_trace(&grid, 3).data, vec![0, 0, 0, 1, 1, 1, 0, 0, 0]);
    assert_eq!(recurrent_trace(&grid, 4).data, vec![0; 9]);
    assert_eq!(recurrent_trace(&grid, 2).data, vec![1, 1, 0, 1, 1, 1, 0, 1, 1]);
}

#[test]
fn recurrent_trace_with_minimum_one_keeps_all_data() {
    let grid: Vmatrix<u32> = Vmatrix::build(3, vec![1, 0, 0, 3, 3, 0, 0, 0, 9]);
    assert_eq!(recurrent_trace(&grid, 1).data, vec![1, 0, 0, 1, 1, 0, 0, 0, 1]);
    assert_eq!(recurrent_trace(&grid, 0).data, vec![1, 0, 0, 1, 1, 0, 0, 0, 1]);
}

#[test]
fn accumulation_makes_ten_reductions_at_most() {
    let full: Vmatrix<u32> = Vmatrix::initialize(23, 1);
    let result = get_accumulation(&full);
    assert_eq!(result.data[264], 10);
    assert_eq!(result.data[263], 10);
    assert_eq!(result.data[241], 10);
    assert_eq!(result.data[24], 1);
    assert_eq!(result.data[0], 0);
    assert!(result.data.iter().all(|count| *count <= 10));
    let larger: Vmatrix<u32> = Vmatrix::initialize(30, 1);
    let capped = get_accumulation(&larger);
    assert_eq!(capped.data[15 * 30 + 15], 10);
    assert_eq!(capped.data[9 * 30 + 9], 9);
    assert!(capped.data.iter().all(|count| *count <= 10));
    let smaller: Vmatrix<u32> = Vmatrix::initialize(21, 1);
    assert_eq!(get_accumulation(&smaller).data[220], 10);
    assert_eq!(get_reductions(&smaller).len(), 10);
    let nineteen: Vmatrix<u32> = Vmatrix::initialize(19, 1);
    assert_eq!(get_accumulation(&nineteen).data[180], 9);
    assert_eq!(get_reductions(&nineteen).len(), 9);
}
