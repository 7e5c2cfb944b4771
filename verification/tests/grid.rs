use mvecops::def::vmatrix::Vmatrix;

#[test]
fn transpose_swaps_rows_and_columns() {
    let mut grid: Vmatrix<u32> = Vmatrix::build(2, vec![1, 2, 3, 4]);
    grid.transpose();
    assert_eq!(grid.data, vec![1, 3, 2, 4]);
    assert_eq!(grid.size, 2);
}

#[test]
fn transpose_twice_gives_the_matrix_back() {
    let cells: Vec<u32> = vec![1, 2, 3, 4, 5, 6, 7, 8, 9];
    let mut grid: Vmatrix<u32> = Vmatrix::build(3, cells.clone());
    grid.transpose();
    assert_eq!(grid.data, vec![1, 4, 7, 2, 5, 8, 3, 6, 9]);
    grid.transpose();
    assert_eq!(grid.data, cells);
}

#[test]
fn transpose_leaves_entries_beyond_the_square() {
    let mut grid: Vmatrix<u32> = Vmatrix::build(2, vec![1, 2, 3, 4, 5, 6]);
    grid.transpose();
    assert_eq!(grid.data, vec![1, 3, 2, 4, 5, 6]);
}

#[test]
fn new_matrix_is_empty() {
    let grid: Vmatrix<u32> = Vmatrix::new(7);
    assert_eq!(grid.size, 7);
    assert_eq!(grid.data.len(), 0);
    assert!(!grid.test_index(0));
}

#[test]
fn initialize_fills_the_square() {
    let grid: Vmatrix<u32> = Vmatrix::initialize(3, 5);
    assert_eq!(grid.size, 3);
    assert_eq!(grid.data, vec![5; 9]);
    let none: Vmatrix<u32> = Vmatrix::initialize(0, 5);
    assert_eq!(none.data.len(), 0);
}

#[test]
fn copies_are_independent() {
    let grid: Vmatrix<u32> = Vmatrix::build(2, vec![1, 2, 3, 4]);
    let mut copy = grid.normal_copy();
    copy.data[0] = 9;
    assert_eq!(grid.data, vec![1, 2, 3, 4]);
    assert_eq!(copy.data, vec![9, 2, 3, 4]);
    let turned = grid.transposed_copy();
    assert_eq!(turned.data, vec![1, 3, 2, 4]);
    assert_eq!(grid.data, vec![1, 2, 3, 4]);
    let cloned = grid.clone();
    assert_eq!(cloned.data, grid.data);
    assert_eq!(cloned.size, 2);
}

#[test]
fn test_index_checks_the_buffer_only() {
    let grid: Vmatrix<u32> = Vmatrix::build(2, vec![1, 2, 3, 4, 5]);
    assert!(grid.test_index(0));
    assert!(grid.test_index(4));
    assert!(!grid.test_index(5));
}

#[test]
fn border_is_the_outermost_ring() {
    let grid: Vmatrix<u32> = Vmatrix::initialize(4, 0);
    let border: Vec<bool> = (0..16).map(|i| grid.test_border_index(i)).collect();
    let expected = vec![
        true, true, true, true, true, false, false, true, true, false, false, true, true, true,
        true, true,
    ];
    assert_eq!(border, expected);
    assert!(grid.test_border_index(16));
    assert!(grid.test_border_index(21));
    let none: Vmatrix<u32> = Vmatrix::new(0);
    assert!(none.test_border_index(0));
}

#[test]
fn xor_keeps_what_only_the_first_holds() {
    let first: Vmatrix<u32> = Vmatrix::build(2, vec![3, 0, 1, 7]);
    let second: Vmatrix<u32> = Vmatrix::build(2, vec![0, 0, 2, 0]);
    let result = first.xor(&second);
    assert_eq!(result.data, vec![1, 0, 0, 1]);
    assert_eq!(result.size, 2);
}

#[test]
fn xor_with_itself_is_all_zero() {
    let grid: Vmatrix<u32> = Vmatrix::build(3, vec![1, 0, 2, 0, 5, 0, 9, 9, 0]);
    let result = grid.xor(&grid);
    assert_eq!(result.data, vec![0; 9]);
}
