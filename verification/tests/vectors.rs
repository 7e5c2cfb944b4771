use mvecops::def::maths::array_position_vector_displacement;
use mvecops::def::maths::column_distance;
use mvecops::def::maths::cos_exceeds_threshold;
use mvecops::def::maths::cos_is_greater;
use mvecops::def::maths::get_coordinates_from;
use mvecops::def::maths::get_index_as_coordinates;
use mvecops::def::maths::get_index_distance_squared;
use mvecops::def::maths::get_middle_point;
use mvecops::def::maths::orthogonal_from_antiparallel;
use mvecops::def::maths::row_distance;
use mvecops::def::maths::scale_vector;
use mvecops::def::maths::sub_vectors;
use mvecops::def::maths::sum_i64_vectors;
use mvecops::def::maths::sum_vectors;
use mvecops::def::maths::Vector2;

#[test]
fn vectors_add_and_subtract_by_component() {
    let sum = sum_vectors(&Vector2::new(1, -2), &Vector2::new(10, 20));
    assert_eq!((sum.x, sum.y), (11, 18));
    let wide = sum_i64_vectors(&Vector2::new(1i64 << 40, -2), &Vector2::new(10, 20));
    assert_eq!((wide.x, wide.y), ((1i64 << 40) + 10, 18));
    let difference = sub_vectors(&Vector2::new(1, -2), &Vector2::new(10, 20));
    assert_eq!((difference.x, difference.y), (-9, -22));
}

#[test]
fn equals_compares_both_components() {
    let first: Vector2<i64> = Vector2::new(3, 4);
    assert!(first.equals(&Vector2::new(3, 4)));
    assert!(!first.equals(&Vector2::new(3, 5)));
    assert!(!first.equals(&Vector2::new(4, 4)));
    let narrow: Vector2<i32> = Vector2::new(3, 4);
    assert!(narrow.equals(&Vector2::new(3, 4)));
    assert!(!narrow.equals(&Vector2::new(-3, 4)));
}

#[test]
fn scale_vector_rounds_down() {
    let scaled = scale_vector(&Vector2::new(7, -7), 2);
    assert_eq!((scaled.x, scaled.y), (3, -4));
    let exact = scale_vector(&Vector2::new(-8, 9), 3);
    assert_eq!((exact.x, exact.y), (-3, 3));
    let negative = scale_vector(&Vector2::new(7, -7), -2);
    assert_eq!((negative.x, negative.y), (-4, 3));
}

#[test]
fn scale_vector_by_zero_goes_to_the_ends() {
    let scaled = scale_vector(&Vector2::new(5, -5), 0);
    assert_eq!((scaled.x, scaled.y), (i64::MAX, i64::MIN));
    let zero = scale_vector(&Vector2::new(0, 0), 0);
    assert_eq!((zero.x, zero.y), (0, 0));
    let top = scale_vector(&Vector2::new(i64::MIN, i64::MAX), -1);
    assert_eq!((top.x, top.y), (i64::MAX, -i64::MAX));
}

#[test]
fn coordinates_are_column_and_row() {
    let small = get_index_as_coordinates(13, 5);
    assert_eq!((small.x, small.y), (3, 2));
    let wide = get_coordinates_from(23, 5);
    assert_eq!((wide.x, wide.y), (3, 4));
    let negative = get_coordinates_from(-7, 5);
    assert_eq!((negative.x, negative.y), (-2, -1));
}

#[test]
fn distances_count_rows_and_columns() {
    assert_eq!(row_distance(6, 23, 5), 3);
    assert_eq!(row_distance(23, 6, 5), -3);
    assert_eq!(column_distance(6, 23, 5), 2);
    assert_eq!(column_distance(9, 5, 5), -4);
    assert_eq!(get_index_distance_squared(6, 23, 5), 13);
    assert_eq!(get_index_distance_squared(23, 6, 5), 13);
    assert_eq!(get_index_distance_squared(7, 7, 5), 0);
}

#[test]
fn middle_point_lies_between() {
    let mut delta1: Vector2<i32> = Vector2::new(0, 0);
    let mut delta2: Vector2<i32> = Vector2::new(0, 0);
    let middle = get_middle_point(0, 24, 5, &mut delta1, &mut delta2);
    assert_eq!(middle, 12);
    assert_eq!((delta1.x, delta1.y), (2, 2));
    assert_eq!((delta2.x, delta2.y), (-2, -2));
    let back = get_middle_point(24, 0, 5, &mut delta1, &mut delta2);
    assert_eq!(back, 12);
    assert_eq!((delta1.x, delta1.y), (-2, -2));
    let near = get_middle_point(6, 7, 5, &mut delta1, &mut delta2);
    assert_eq!(near, 7);
    assert_eq!((delta1.x, delta1.y), (0, 0));
}

#[test]
fn orthogonals_of_antiparallel_vectors() {
    let mut orthogonal1: Vector2<i32> = Vector2::new(0, 0);
    let mut orthogonal2: Vector2<i32> = Vector2::new(0, 0);
    orthogonal_from_antiparallel(
        &Vector2::new(2, 3),
        &Vector2::new(-2, -3),
        &mut orthogonal1,
        &mut orthogonal2,
    );
    assert_eq!((orthogonal1.x, orthogonal1.y), (-3, 2));
    assert_eq!((orthogonal2.x, orthogonal2.y), (3, -2));
}

#[test]
fn displacement_moves_an_index() {
    assert_eq!(array_position_vector_displacement(12, 5, &Vector2::new(1, 1)), 18);
    assert_eq!(array_position_vector_displacement(12, 5, &Vector2::new(-2, -2)), 0);
    assert_eq!(array_position_vector_displacement(0, 5, &Vector2::new(-1, 0)), -1);
}

#[test]
fn cosine_threshold_on_known_vectors() {
    assert!(cos_exceeds_threshold(&Vector2::new(3, 0), &Vector2::new(4, 1)));
    assert!(!cos_exceeds_threshold(&Vector2::new(3, 0), &Vector2::new(0, 3)));
    assert!(!cos_exceeds_threshold(&Vector2::new(3, 0), &Vector2::new(-2, 0)));
    assert!(cos_exceeds_threshold(&Vector2::new(62, -93), &Vector2::new(92, -61)));
    assert!(!cos_exceeds_threshold(&Vector2::new(5, 3), &Vector2::new(5, 0)));
    assert!(cos_exceeds_threshold(&Vector2::new(5, 2), &Vector2::new(5, 0)));
}

#[test]
fn cosine_threshold_on_vectors_without_direction() {
    assert!(cos_exceeds_threshold(&Vector2::new(0, 0), &Vector2::new(0, 0)));
    assert!(!cos_exceeds_threshold(&Vector2::new(0, 0), &Vector2::new(1, 0)));
    assert!(!cos_exceeds_threshold(&Vector2::new(0, -7), &Vector2::new(0, 0)));
    assert!(cos_exceeds_threshold(&Vector2::new(-7, 3), &Vector2::new(-7, 3)));
    assert!(cos_exceeds_threshold(
        &Vector2::new(1_048_576, -1_048_576),
        &Vector2::new(1_048_576, -1_048_576)
    ));
}

#[test]
fn cosines_are_ordered_exactly() {
    let base = Vector2::new(3, 0);
    assert!(cos_is_greater(&base, &Vector2::new(4, 1), &Vector2::new(0, 3)));
    assert!(!cos_is_greater(&base, &Vector2::new(0, 3), &Vector2::new(4, 1)));
    assert!(cos_is_greater(&base, &Vector2::new(0, 3), &Vector2::new(-2, 0)));
    assert!(cos_is_greater(&base, &Vector2::new(-1, 5), &Vector2::new(-1, 1)));
    assert!(!cos_is_greater(&base, &Vector2::new(1, 1), &Vector2::new(2, 2)));
    assert!(!cos_is_greater(&base, &Vector2::new(2, 2), &Vector2::new(1, 1)));
    assert!(cos_is_greater(&base, &Vector2::new(-5, 0), &Vector2::new(0, 0)));
    assert!(!cos_is_greater(&base, &Vector2::new(0, 0), &Vector2::new(-5, 0)));
    let zero = Vector2::new(0, 0);
    assert!(cos_is_greater(&zero, &Vector2::new(0, 0), &Vector2::new(1, 0)));
    assert!(!cos_is_greater(&zero, &Vector2::new(1, 0), &Vector2::new(0, 0)));
    assert!(!cos_is_greater(&zero, &Vector2::new(1, 0), &Vector2::new(0, 1)));
}
