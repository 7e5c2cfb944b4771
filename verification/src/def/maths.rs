use vstd::prelude::*;

verus! {

/// A simple two-dimensional vector.
pub struct Vector2<T> {
    pub x: T,
    pub y: T,
}

impl<T> Vector2<T> {
    /// Create a new vector with the given values.
    pub fn new(x: T, y: T) -> (vector: Vector2<T>)
        ensures
            vector.x == x,
            vector.y == y,
    {
        Vector2 { x, y }
    }
}

impl<T: Copy> Clone for Vector2<T> {
    fn clone(&self) -> (copy: Self)
        ensures
            copy == *self,
    {
        Vector2 { x: self.x, y: self.y }
    }
}

impl<T: Copy> Copy for Vector2<T> {

}

impl View for Vector2<i64> {
    type V = Vector2<int>;

    /// The vector over the unbounded integers.
    open spec fn view(&self) -> Vector2<int> {
        Vector2 { x: self.x as int, y: self.y as int }
    }
}

impl Vector2<i64> {
    /// Check if the vectors have the same content.
    pub fn equals(&self, other: &Vector2<i64>) -> (same: bool)
        ensures
            same == (self.x == other.x && self.y == other.y),
            same == (*self == *other),
    {
        self.x == other.x && self.y == other.y
    }
}

impl Vector2<i32> {
    /// Check if the vectors have the same content.
    pub fn equals(&self, other: &Vector2<i32>) -> (same: bool)
        ensures
            same == (self.x == other.x && self.y == other.y),
            same == (*self == *other),
    {
        self.x == other.x && self.y == other.y
    }
}

/// Quotient of `a` by a positive `b`, rounded toward zero.
pub open spec fn quotient(a: int, b: int) -> int
    recommends
        b > 0,
{
    if a >= 0 {
        a / b
    } else {
        -((-a) / b)
    }
}

/// Remainder of `a` by a positive `b`; it has the sign of `a`.
pub open spec fn remainder(a: int, b: int) -> int
    recommends
        b > 0,
{
    if a >= 0 {
        a % b
    } else {
        -((-a) % b)
    }
}

/// Quotient of `a` by a nonzero `b`, rounded toward negative infinity.
pub open spec fn floor_quotient(a: int, b: int) -> int
    recommends
        b != 0,
{
    if b > 0 {
        a / b
    } else {
        (-a) / (-b)
    }
}

/// Column (`x`) and row (`y`) of an index on a grid whose rows hold `row_size` entries.
pub open spec fn coordinates_of(index: int, row_size: int) -> (int, int)
    recommends
        row_size > 0,
{
    (remainder(index, row_size), quotient(index, row_size))
}

/// One component of a vector divided by `scale_factor` and rounded down. Division by zero
/// gives the largest value for a positive component, the smallest for a negative one and
/// zero for zero; a quotient above the largest value is replaced by it.
pub open spec fn scaled_component(value: int, scale_factor: int) -> int {
    if scale_factor == 0 {
        if value > 0 {
            i64::MAX as int
        } else if value < 0 {
            i64::MIN as int
        } else {
            0
        }
    } else if floor_quotient(value, scale_factor) > i64::MAX {
        i64::MAX as int
    } else {
        floor_quotient(value, scale_factor)
    }
}

/// The coordinate midway between `first` and `second`, where half the distance is rounded
/// toward zero and taken from `first` when it is positive, from `second` otherwise.
pub open spec fn middle_component(first: int, second: int) -> int {
    let delta = quotient(second - first, 2);
    if delta > 0 {
        first + delta
    } else {
        second - delta
    }
}

/// The index midway between the entries `from` and `to`.
pub open spec fn middle_point(from: int, to: int, row_size: int) -> int
    recommends
        row_size > 0,
{
    middle_component(remainder(from, row_size), remainder(to, row_size)) + row_size
        * middle_component(quotient(from, row_size), quotient(to, row_size))
}

/// Square of the straight-line distance between two entries of a grid.
pub open spec fn index_distance_squared(from: int, to: int, row_size: int) -> int
    recommends
        row_size > 0,
{
    let dx = remainder(to, row_size) - remainder(from, row_size);
    let dy = quotient(to, row_size) - quotient(from, row_size);
    dx * dx + dy * dy
}

/// Returns the sum of two integer vectors.
pub fn sum_vectors(input1: &Vector2<i32>, input2: &Vector2<i32>) -> (sum: Vector2<i32>)
    requires
        i32::MIN <= input1.x + input2.x <= i32::MAX,
        i32::MIN <= input1.y + input2.y <= i32::MAX,
    ensures
        sum.x == input1.x + input2.x,
        sum.y == input1.y + input2.y,
{
    Vector2 { x: input1.x + input2.x, y: input1.y + input2.y }
}

/// See [sum_vectors].
pub fn sum_i64_vectors(input1: &Vector2<i64>, input2: &Vector2<i64>) -> (sum: Vector2<i64>)
    requires
        i64::MIN <= input1.x + input2.x <= i64::MAX,
        i64::MIN <= input1.y + input2.y <= i64::MAX,
    ensures
        sum.x == input1.x + input2.x,
        sum.y == input1.y + input2.y,
{
    Vector2 { x: input1.x + input2.x, y: input1.y + input2.y }
}

/// Returns the difference of two vectors.
pub fn sub_vectors(input1: &Vector2<i64>, input2: &Vector2<i64>) -> (difference: Vector2<i64>)
    requires
        i64::MIN <= input1.x - input2.x <= i64::MAX,
        i64::MIN <= input1.y - input2.y <= i64::MAX,
    ensures
        difference.x == input1.x - input2.x,
        difference.y == input1.y - input2.y,
{
    Vector2 { x: input1.x - input2.x, y: input1.y - input2.y }
}

/// Floor division on machine integers, for a positive divisor.
pub fn floor_divide(value: i128, divisor: i128) -> (result: i128)
    requires
        divisor > 0,
        i128::MIN < value,
    ensures
        result == value as int / divisor as int,
{
    if value >= 0 {
        value / divisor
    } else {
        let positive: i128 = -value;
        let whole: i128 = positive / divisor;
        let rest: i128 = positive % divisor;
        proof {
            vstd::arithmetic::div_mod::lemma_fundamental_div_mod(positive as int, divisor as int);
            if rest == 0 {
                assert(value == (-whole) * divisor + 0) by (nonlinear_arith)
                    requires
                        -value == divisor * whole,
                ;
                vstd::arithmetic::div_mod::lemma_fundamental_div_mod_converse(
                    value as int,
                    divisor as int,
                    -(whole as int),
                    0,
                );
            } else {
                assert(value == (-whole - 1) * divisor + (divisor - rest)) by (nonlinear_arith)
                    requires
                        -value == divisor * whole + rest,
                ;
                vstd::arithmetic::div_mod::lemma_fundamental_div_mod_converse(
                    value as int,
                    divisor as int,
                    -(whole as int) - 1,
                    divisor as int - rest as int,
                );
            }
        }
        if rest == 0 {
            -whole
        } else {
            -whole - 1
        }
    }
}

/// One component of [scale_vector].
fn scale_component(value: i64, scale_factor: i64) -> (result: i64)
    ensures
        result == scaled_component(value as int, scale_factor as int),
{
    if scale_factor == 0 {
        if value > 0 {
            i64::MAX
        } else if value < 0 {
            i64::MIN
        } else {
            0
        }
    } else {
        let wide: i128 = if scale_factor > 0 {
            floor_divide(value as i128, scale_factor as i128)
        } else {
            floor_divide(-(value as i128), -(scale_factor as i128))
        };
        proof {
            let a: int = if scale_factor > 0 { value as int } else { -(value as int) };
            let b: int = if scale_factor > 0 { scale_factor as int } else { -(scale_factor as int) };
            vstd::arithmetic::div_mod::lemma_fundamental_div_mod(a, b);
            assert(wide >= i64::MIN) by (nonlinear_arith)
                requires
                    a == b * wide + a % b,
                    0 <= a % b < b,
                    b >= 1,
                    a >= -0x8000_0000_0000_0000,
            ;
        }
        if wide > i64::MAX as i128 {
            i64::MAX
        } else {
            wide as i64
        }
    }
}

/// Returns the input divided by `scale_factor`, each component rounded down.
pub fn scale_vector(input: &Vector2<i64>, scale_factor: i64) -> (scaled: Vector2<i64>)
    ensures
        scaled.x == scaled_component(input.x as int, scale_factor as int),
        scaled.y == scaled_component(input.y as int, scale_factor as int),
{
    Vector2::new(scale_component(input.x, scale_factor), scale_component(input.y, scale_factor))
}

/// Get the index that is in the middle of the line that connects two entries in a matrix.
/// `delta1` receives half the displacement from `from` to `to`, `delta2` its opposite.
pub fn get_middle_point(
    from: i32,
    to: i32,
    row_size: usize,
    delta1: &mut Vector2<i32>,
    delta2: &mut Vector2<i32>,
) -> (middle: usize)
    requires
        0 < row_size <= i32::MAX,
        0 <= from,
        0 <= to,
        middle_point(from as int, to as int, row_size as int) <= i32::MAX,
    ensures
        middle == middle_point(from as int, to as int, row_size as int),
        final(delta1).x == quotient(
            remainder(to as int, row_size as int) - remainder(from as int, row_size as int),
            2,
        ),
        final(delta1).y == quotient(
            quotient(to as int, row_size as int) - quotient(from as int, row_size as int),
            2,
        ),
        final(delta2).x == -final(delta1).x,
        final(delta2).y == -final(delta1).y,
{
    let internal_rs: i32 = row_size as i32;

    let x1: i32 = from % internal_rs;
    let x2: i32 = to % internal_rs;

    let y1: i32 = from / internal_rs;
    let y2: i32 = to / internal_rs;

    let x_delta: i32 = (x2 - x1) / 2;
    let x_plus_delta: i32 = if x_delta > 0 {
        x1 + x_delta
    } else {
        x2 - x_delta
    };

    let y_delta: i32 = (y2 - y1) / 2;
    let y_plus_delta: i32 = if y_delta > 0 {
        y1 + y_delta
    } else {
        y2 - y_delta
    };

    *delta1 = Vector2::new(x_delta, y_delta);
    *delta2 = Vector2::new(-x_delta, -y_delta);

    assert(0 <= y_plus_delta);
    assert(0 <= x_plus_delta < internal_rs);
    assert(0 <= internal_rs * y_plus_delta) by (nonlinear_arith)
        requires
            0 < internal_rs,
            0 <= y_plus_delta,
    ;
    let middle: i32 = x_plus_delta + internal_rs * y_plus_delta;
    middle as usize
}

/// Get how many rows separate two indexes within a matrix.
pub fn row_distance(from: i32, to: i32, row_size: usize) -> (rows: i32)
    requires
        0 < row_size <= i32::MAX,
        i32::MIN <= quotient(to as int, row_size as int) - quotient(from as int, row_size as int)
            <= i32::MAX,
    ensures
        rows == quotient(to as int, row_size as int) - quotient(from as int, row_size as int),
{
    let internal_rs: i32 = row_size as i32;

    let y1: i32 = from / internal_rs;
    let y2: i32 = to / internal_rs;

    y2 - y1
}

/// Get how many columns separate two indexes within a matrix.
pub fn column_distance(from: i32, to: i32, row_size: usize) -> (columns: i32)
    requires
        0 < row_size <= i32::MAX,
        i32::MIN <= remainder(to as int, row_size as int) - remainder(from as int, row_size as int)
            <= i32::MAX,
    ensures
        columns == remainder(to as int, row_size as int) - remainder(from as int, row_size as int),
{
    let internal_rs: i32 = row_size as i32;

    let x1: i32 = from % internal_rs;
    let x2: i32 = to % internal_rs;

    x2 - x1
}

/// Return an index as a displacement vector starting at the beginning of the matrix.
pub fn get_index_as_coordinates(input: usize, row_size: usize) -> (coordinates: Vector2<i32>)
    requires
        0 < row_size <= i32::MAX,
        input <= i32::MAX,
    ensures
        (coordinates.x as int, coordinates.y as int) == coordinates_of(
            input as int,
            row_size as int,
        ),
        coordinates.x == input % row_size,
        coordinates.y == input / row_size,
{
    let internal_input: i32 = input as i32;
    let internal_rs: i32 = row_size as i32;

    let x: i32 = internal_input % internal_rs;
    let y: i32 = internal_input / internal_rs;

    Vector2 { x, y }
}

/// See [get_index_as_coordinates].
pub fn get_coordinates_from(index: i64, row_size: i64) -> (coordinates: Vector2<i64>)
    requires
        row_size > 0,
    ensures
        (coordinates.x as int, coordinates.y as int) == coordinates_of(
            index as int,
            row_size as int,
        ),
{
    let x: i64 = index % row_size;
    let y: i64 = index / row_size;

    Vector2 { x, y }
}

/// Square of the straight-line distance between two entries of a matrix. Comparing squares
/// orders the distances themselves, without any rounding.
pub fn get_index_distance_squared(from: usize, to: usize, row_size: usize) -> (distance: u128)
    requires
        row_size > 0,
    ensures
        distance == index_distance_squared(from as int, to as int, row_size as int),
{
    let x1: u128 = (from % row_size) as u128;
    let x2: u128 = (to % row_size) as u128;
    let y1: u128 = (from / row_size) as u128;
    let y2: u128 = (to / row_size) as u128;
    let dx: u128 = if x1 < x2 { x2 - x1 } else { x1 - x2 };
    let dy: u128 = if y1 < y2 { y2 - y1 } else { y1 - y2 };
    proof {
        if row_size <= 0x1_0000_0000 {
            assert(dx * dx <= 0xFFFF_FFFF * 0xFFFF_FFFF) by (nonlinear_arith)
                requires
                    0 <= dx <= 0xFFFF_FFFF,
            ;
            assert(dy * dy <= 0xFFFF_FFFF_FFFF_FFFF * 0xFFFF_FFFF_FFFF_FFFF) by (nonlinear_arith)
                requires
                    0 <= dy <= 0xFFFF_FFFF_FFFF_FFFF,
            ;
        } else {
            vstd::arithmetic::div_mod::lemma_div_is_ordered_by_denominator(
                from as int,
                0x1_0000_0000,
                row_size as int,
            );
            vstd::arithmetic::div_mod::lemma_div_is_ordered_by_denominator(
                to as int,
                0x1_0000_0000,
                row_size as int,
            );
            assert(dy * dy <= 0xFFFF_FFFF * 0xFFFF_FFFF) by (nonlinear_arith)
                requires
                    0 <= dy <= 0xFFFF_FFFF,
            ;
            assert(dx * dx <= 0xFFFF_FFFF_FFFF_FFFF * 0xFFFF_FFFF_FFFF_FFFF) by (nonlinear_arith)
                requires
                    0 <= dx <= 0xFFFF_FFFF_FFFF_FFFF,
            ;
        }
    }
    assert(dx * dx == (x2 - x1) * (x2 - x1)) by (nonlinear_arith)
        requires
            dx == x2 - x1 || dx == x1 - x2,
    ;
    assert(dy * dy == (y2 - y1) * (y2 - y1)) by (nonlinear_arith)
        requires
            dy == y2 - y1 || dy == y1 - y2,
    ;
    dx * dx + dy * dy
}

/// Set two vectors to be perpendicular to another couple of vectors that are antiparallel.
pub fn orthogonal_from_antiparallel(
    input1: &Vector2<i32>,
    input2: &Vector2<i32>,
    orthogonal1: &mut Vector2<i32>,
    orthogonal2: &mut Vector2<i32>,
)
    requires
        input2.x == -input1.x,
        input2.y == -input1.y,
    ensures
        final(orthogonal1).x == input2.y,
        final(orthogonal1).y == input1.x,
        final(orthogonal2).x == input1.y,
        final(orthogonal2).y == input2.x,
{
    orthogonal1.x = input2.y;
    orthogonal1.y = input1.x;

    orthogonal2.x = input1.y;
    orthogonal2.y = input2.x;
}

/// Move an index by a vector displacement on the data.
pub fn array_position_vector_displacement(
    input_index: usize,
    row_size: usize,
    direction: &Vector2<i32>,
) -> (position: i32)
    requires
        0 < row_size <= i32::MAX,
        input_index <= i32::MAX,
        i32::MIN <= (input_index % row_size + direction.x) + row_size * (input_index / row_size
            + direction.y) <= i32::MAX,
    ensures
        position == (input_index % row_size + direction.x) + row_size * (input_index / row_size
            + direction.y),
{
    let start: Vector2<i32> = get_index_as_coordinates(input_index, row_size);
    let x: i64 = start.x as i64 + direction.x as i64;
    let y: i64 = start.y as i64 + direction.y as i64;
    let wide_rs: i64 = row_size as i64;
    assert(-0x8000_0000_0000_0000 < wide_rs * y < 0x8000_0000_0000_0000) by (nonlinear_arith)
        requires
            0 < wide_rs <= 0x7FFF_FFFF,
            -0x1_0000_0000 <= y <= 0x1_0000_0000,
    ;
    let result: i64 = x + wide_rs * y;
    result as i32
}

/// Vectors are compared for likeness only while their components do not exceed this bound
/// in absolute value: the comparisons multiply six components, and the products must fit
/// the widest machine integer.
pub const SIMILARITY_REACH: i64 = 1_048_576;

/// Two vectors count as alike when the cosine of the angle between them exceeds this many
/// parts of [COS_ERROR_PARTS].
pub const COS_ERROR: i128 = 43;

/// See [COS_ERROR].
pub const COS_ERROR_PARTS: i128 = 50;

/// Whether both components lie within [SIMILARITY_REACH] of zero.
pub open spec fn within_reach(vector: Vector2<int>) -> bool {
    &&& -SIMILARITY_REACH <= vector.x <= SIMILARITY_REACH
    &&& -SIMILARITY_REACH <= vector.y <= SIMILARITY_REACH
}

/// Whether the vector is (0, 0).
pub open spec fn is_zero_vector(vector: Vector2<int>) -> bool {
    vector.x == 0 && vector.y == 0
}

pub open spec fn dot_product(first: Vector2<int>, second: Vector2<int>) -> int {
    first.x * second.x + first.y * second.y
}

/// Square of the length of a vector.
pub open spec fn norm_squared(vector: Vector2<int>) -> int {
    vector.x * vector.x + vector.y * vector.y
}

/// Whether the cosine of the angle between two vectors exceeds [COS_ERROR] parts of
/// [COS_ERROR_PARTS]. The cosine is the dot product over the product of the lengths; it
/// exceeds a positive bound `n / d` exactly when the dot product is positive and
/// `d * d` times its square exceeds `n * n` times the product of the squared lengths.
/// A vector without direction is taken to be like another such vector and unlike every
/// vector that has one.
pub open spec fn cosine_above_threshold(first: Vector2<int>, second: Vector2<int>) -> bool {
    if is_zero_vector(first) || is_zero_vector(second) {
        is_zero_vector(first) && is_zero_vector(second)
    } else {
        &&& dot_product(first, second) > 0
        &&& COS_ERROR_PARTS * COS_ERROR_PARTS * (dot_product(first, second) * dot_product(
            first,
            second,
        )) > COS_ERROR * COS_ERROR * (norm_squared(first) * norm_squared(second))
    }
}

/// Whether the cosine of the angle between `base` and `first` is greater than the cosine of
/// the angle between `base` and `second`. With the length of `base` dropped from both sides,
/// this compares the dot products over the lengths of `first` and `second`, which is
/// decided by their signs and, where these agree, by the squares multiplied out. When `base`
/// has no direction, a vector without direction has the greatest cosine and all others the
/// least; when `base` has one, a vector without direction has the least.
pub open spec fn cosine_greater(
    base: Vector2<int>,
    first: Vector2<int>,
    second: Vector2<int>,
) -> bool {
    if is_zero_vector(base) {
        is_zero_vector(first) && !is_zero_vector(second)
    } else if is_zero_vector(first) {
        false
    } else if is_zero_vector(second) {
        true
    } else {
        let p = dot_product(base, first);
        let q = dot_product(base, second);
        if p >= 0 && q < 0 {
            true
        } else if p < 0 && q >= 0 {
            false
        } else if p >= 0 {
            p * p * norm_squared(second) > q * q * norm_squared(first)
        } else {
            p * p * norm_squared(second) < q * q * norm_squared(first)
        }
    }
}

/// Product of two components within reach.
fn wide_product(first: i64, second: i64) -> (product: i128)
    requires
        -SIMILARITY_REACH <= first <= SIMILARITY_REACH,
        -SIMILARITY_REACH <= second <= SIMILARITY_REACH,
    ensures
        product == first * second,
        -0x100_0000_0000 <= product <= 0x100_0000_0000,
{
    assert(-0x100_0000_0000 <= first * second <= 0x100_0000_0000) by (nonlinear_arith)
        requires
            -0x10_0000 <= first <= 0x10_0000,
            -0x10_0000 <= second <= 0x10_0000,
    ;
    first as i128 * second as i128
}

/// Dot product of two vectors within reach.
fn wide_dot(first: &Vector2<i64>, second: &Vector2<i64>) -> (product: i128)
    requires
        within_reach(first@),
        within_reach(second@),
    ensures
        product == dot_product(first@, second@),
        -0x200_0000_0000 <= product <= 0x200_0000_0000,
{
    wide_product(first.x, second.x) + wide_product(first.y, second.y)
}

/// Squared length of a vector within reach.
fn wide_norm(vector: &Vector2<i64>) -> (square: i128)
    requires
        within_reach(vector@),
    ensures
        square == norm_squared(vector@),
        0 <= square <= 0x200_0000_0000,
        square == 0 <==> is_zero_vector(vector@),
{
    let x: i64 = vector.x;
    let y: i64 = vector.y;
    assert(0 <= x * x && 0 <= y * y && (x * x == 0 <==> x == 0) && (y * y == 0 <==> y == 0))
        by (nonlinear_arith);
    wide_product(vector.x, vector.x) + wide_product(vector.y, vector.y)
}

/// Square of a dot product.
fn wide_square(value: i128) -> (square: i128)
    requires
        -0x200_0000_0000 <= value <= 0x200_0000_0000,
    ensures
        square == value * value,
        0 <= square <= 0x4_0000_0000_0000_0000_0000,
{
    assert(0 <= value * value <= 0x4_0000_0000_0000_0000_0000) by (nonlinear_arith)
        requires
            -0x200_0000_0000 <= value <= 0x200_0000_0000,
    ;
    value * value
}

/// Product of two values as large as the square of a dot product and a squared length.
fn wide_scale(square: i128, factor: i128) -> (product: i128)
    requires
        0 <= square <= 0x4_0000_0000_0000_0000_0000,
        0 <= factor <= 0x200_0000_0000,
    ensures
        product == square * factor,
        0 <= product <= 0x800_0000_0000_0000_0000_0000_0000_0000,
{
    assert(0 <= square * factor <= 0x800_0000_0000_0000_0000_0000_0000_0000)
        by (nonlinear_arith)
        requires
            0 <= square <= 0x4_0000_0000_0000_0000_0000,
            0 <= factor <= 0x200_0000_0000,
    ;
    square * factor
}

/// Whether a vector is (0, 0).
fn is_zero(vector: &Vector2<i64>) -> (zero: bool)
    ensures
        zero == is_zero_vector(vector@),
{
    vector.x == 0 && vector.y == 0
}

/// Whether two vectors are alike: whether the cosine of the angle between them exceeds
/// [COS_ERROR] parts of [COS_ERROR_PARTS]. The test is made on integers and is exact.
pub fn cos_exceeds_threshold(input1: &Vector2<i64>, input2: &Vector2<i64>) -> (alike: bool)
    requires
        within_reach(input1@),
        within_reach(input2@),
    ensures
        alike == cosine_above_threshold(input1@, input2@),
{
    if is_zero(input1) || is_zero(input2) {
        return is_zero(input1) && is_zero(input2);
    }
    let dot: i128 = wide_dot(input1, input2);
    if dot <= 0 {
        return false;
    }
    let magnitude_1: i128 = wide_norm(input1);
    let magnitude_2: i128 = wide_norm(input2);
    let dot_square: i128 = wide_square(dot);
    assert(0 <= magnitude_1 * magnitude_2 <= 0x4_0000_0000_0000_0000_0000) by (nonlinear_arith)
        requires
            0 <= magnitude_1 <= 0x200_0000_0000,
            0 <= magnitude_2 <= 0x200_0000_0000,
    ;
    let magnitudes: i128 = magnitude_1 * magnitude_2;
    let parts: i128 = COS_ERROR_PARTS * COS_ERROR_PARTS;
    let bound: i128 = COS_ERROR * COS_ERROR;
    assert(parts == 2500 && bound == 1849);
    parts * dot_square > bound * magnitudes
}

/// Whether `first` is more like `base` than `second` is: whether the cosine of the angle
/// between `base` and `first` is greater than that between `base` and `second`. The test is
/// made on integers and is exact.
pub fn cos_is_greater(base: &Vector2<i64>, first: &Vector2<i64>, second: &Vector2<i64>) -> (greater:
    bool)
    requires
        within_reach(base@),
        within_reach(first@),
        within_reach(second@),
    ensures
        greater == cosine_greater(base@, first@, second@),
{
    if is_zero(base) {
        return is_zero(first) && !is_zero(second);
    }
    if is_zero(first) {
        return false;
    }
    if is_zero(second) {
        return true;
    }
    let p: i128 = wide_dot(base, first);
    let q: i128 = wide_dot(base, second);
    if p >= 0 && q < 0 {
        return true;
    }
    if p < 0 && q >= 0 {
        return false;
    }
    let magnitude_1: i128 = wide_norm(first);
    let magnitude_2: i128 = wide_norm(second);
    let left: i128 = wide_scale(wide_square(p), magnitude_2);
    let right: i128 = wide_scale(wide_square(q), magnitude_1);
    if p >= 0 {
        left > right
    } else {
        left < right
    }
}

/// Every vector with a direction is like itself, and so is the vector without one.
pub proof fn vector_is_like_itself(vector: Vector2<int>)
    ensures
        cosine_above_threshold(vector, vector),
{
    if !is_zero_vector(vector) {
        let n = norm_squared(vector);
        assert(n > 0) by (nonlinear_arith)
            requires
                n == vector.x * vector.x + vector.y * vector.y,
                vector.x != 0 || vector.y != 0,
        ;
        assert(dot_product(vector, vector) == n);
        assert(COS_ERROR_PARTS * COS_ERROR_PARTS * (n * n) > COS_ERROR * COS_ERROR * (n * n))
            by (nonlinear_arith)
            requires
                n > 0,
        ;
    }
}

/// Likeness does not depend on the order of the two vectors.
pub proof fn likeness_is_symmetric(first: Vector2<int>, second: Vector2<int>)
    ensures
        cosine_above_threshold(first, second) == cosine_above_threshold(second, first),
{
    assert(dot_product(first, second) == dot_product(second, first)) by (nonlinear_arith)
        requires
            dot_product(first, second) == first.x * second.x + first.y * second.y,
            dot_product(second, first) == second.x * first.x + second.y * first.y,
    ;
    assert(norm_squared(first) * norm_squared(second) == norm_squared(second) * norm_squared(first))
        by (nonlinear_arith);
}

/// A vector without direction is unlike every vector that has one.
pub proof fn zero_vector_is_unlike_others(zero: Vector2<int>, vector: Vector2<int>)
    requires
        is_zero_vector(zero),
        !is_zero_vector(vector),
    ensures
        !cosine_above_threshold(zero, vector),
        !cosine_above_threshold(vector, zero),
{
}

} // verus!
