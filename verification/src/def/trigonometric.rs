use vstd::prelude::*;

verus! {

/// The four directions on a row-major grid, named after the trigonometric functions whose
/// derivatives follow one another in the same order: (cos)' = -sin, (-sin)' = -cos, and so on.
/// `COS` points east (index + 1), `NSIN` north (index + row size), `NCOS` west and `SIN` south.
#[derive(PartialEq, Eq, Structural, Debug, Clone, Copy)]
pub enum Trigonometric {
    COS,
    NSIN,
    NCOS,
    SIN,
}

impl Trigonometric {
    /// Position of the direction in the cycle COS, NSIN, NCOS, SIN.
    pub open spec fn ordinal(self) -> int {
        match self {
            Trigonometric::COS => 0,
            Trigonometric::NSIN => 1,
            Trigonometric::NCOS => 2,
            Trigonometric::SIN => 3,
        }
    }

    /// The direction a quarter turn further along the cycle.
    pub open spec fn spec_derivative(&self) -> Trigonometric {
        match *self {
            Trigonometric::COS => Trigonometric::NSIN,
            Trigonometric::NSIN => Trigonometric::NCOS,
            Trigonometric::NCOS => Trigonometric::SIN,
            Trigonometric::SIN => Trigonometric::COS,
        }
    }

    /// The direction a quarter turn back along the cycle.
    pub open spec fn spec_antiderivative(&self) -> Trigonometric {
        match *self {
            Trigonometric::COS => Trigonometric::SIN,
            Trigonometric::NSIN => Trigonometric::COS,
            Trigonometric::NCOS => Trigonometric::NSIN,
            Trigonometric::SIN => Trigonometric::NCOS,
        }
    }

    /// Change of index caused by one plain step in this direction.
    pub open spec fn unit_move(self, row_size: int) -> int {
        match self {
            Trigonometric::COS => 1,
            Trigonometric::NCOS => -1,
            Trigonometric::NSIN => row_size,
            Trigonometric::SIN => -row_size,
        }
    }

    /// Change of index caused by a step in `direction`, followed by a second step a quarter
    /// turn further when `offset45` is negative, or a quarter turn back when it is positive.
    pub open spec fn move_by(row_size: int, direction: Trigonometric, offset45: int) -> int {
        direction.unit_move(row_size) + if offset45 < 0 {
            direction.spec_derivative().unit_move(row_size)
        } else if offset45 > 0 {
            direction.spec_antiderivative().unit_move(row_size)
        } else {
            0
        }
    }

    /// The index reached from `starting_point`, as an unbounded integer.
    pub open spec fn index_from_direction(
        starting_point: int,
        row_size: int,
        direction: Trigonometric,
        offset45: int,
    ) -> int {
        starting_point + Self::move_by(row_size, direction, offset45)
    }

    /// The direction at the given position of the cycle.
    pub fn from_int(value: usize) -> (direction: Trigonometric)
        requires
            value < 4,
        ensures
            direction.ordinal() == value,
    {
        if value == 0 {
            Trigonometric::COS
        } else if value == 1 {
            Trigonometric::NSIN
        } else if value == 2 {
            Trigonometric::NCOS
        } else {
            Trigonometric::SIN
        }
    }

    /// Get the derivative of a direction.
    #[verifier::when_used_as_spec(spec_derivative)]
    pub fn derivative(direction: &Trigonometric) -> (next: Trigonometric)
        ensures
            next == direction.spec_derivative(),
            next.ordinal() == (direction.ordinal() + 1) % 4,
    {
        match direction {
            Trigonometric::COS => Trigonometric::NSIN,
            Trigonometric::NSIN => Trigonometric::NCOS,
            Trigonometric::NCOS => Trigonometric::SIN,
            Trigonometric::SIN => Trigonometric::COS,
        }
    }

    /// Get the antiderivative of a direction.
    #[verifier::when_used_as_spec(spec_antiderivative)]
    pub fn antiderivative(direction: &Trigonometric) -> (previous: Trigonometric)
        ensures
            previous == direction.spec_antiderivative(),
            previous.ordinal() == (direction.ordinal() + 3) % 4,
    {
        match direction {
            Trigonometric::COS => Trigonometric::SIN,
            Trigonometric::NSIN => Trigonometric::COS,
            Trigonometric::NCOS => Trigonometric::NSIN,
            Trigonometric::SIN => Trigonometric::NCOS,
        }
    }

    /// The index reached from `starting_point` by moving in `direction` on a grid whose rows
    /// hold `row_size` entries, or `None` when that index is negative or does not fit a `usize`.
    /// No grid is consulted: whether the index lies inside one is for the caller to test.
    pub fn checked_index_from_direction(
        starting_point: usize,
        row_size: usize,
        direction: &Trigonometric,
        offset45: i32,
    ) -> (reached: Option<usize>)
        ensures
            match reached {
                Some(index) => index == Self::index_from_direction(
                    starting_point as int,
                    row_size as int,
                    *direction,
                    offset45 as int,
                ),
                None => {
                    let target = Self::index_from_direction(
                        starting_point as int,
                        row_size as int,
                        *direction,
                        offset45 as int,
                    );
                    target < 0 || target > usize::MAX
                },
            },
    {
        let row: i128 = row_size as i128;
        let first: i128 = match direction {
            Trigonometric::COS => 1,
            Trigonometric::NCOS => -1,
            Trigonometric::NSIN => row,
            Trigonometric::SIN => -row,
        };
        let second: i128 = if offset45 < 0 {
            match Trigonometric::derivative(direction) {
                Trigonometric::COS => 1,
                Trigonometric::NCOS => -1,
                Trigonometric::NSIN => row,
                Trigonometric::SIN => -row,
            }
        } else if offset45 > 0 {
            match Trigonometric::antiderivative(direction) {
                Trigonometric::COS => 1,
                Trigonometric::NCOS => -1,
                Trigonometric::NSIN => row,
                Trigonometric::SIN => -row,
            }
        } else {
            0
        };
        let target: i128 = starting_point as i128 + first + second;
        if target < 0 || target > usize::MAX as i128 {
            None
        } else {
            Some(target as usize)
        }
    }

    /// Let a matrix stored as a vector have rows of `row_size` entries. From `starting_point`
    /// the function finds the index one step away in `direction`: `COS` gives the entry to the
    /// right, `NSIN` the entry one row further. A negative `offset45` adds a step a quarter
    /// turn further, a positive one a step a quarter turn back, which yields the diagonals.
    pub fn get_index_from_direction(
        starting_point: usize,
        row_size: usize,
        direction: &Trigonometric,
        offset45: i32,
    ) -> (reached: usize)
        requires
            0 <= Self::index_from_direction(
                starting_point as int,
                row_size as int,
                *direction,
                offset45 as int,
            ) <= usize::MAX,
        ensures
            reached == Self::index_from_direction(
                starting_point as int,
                row_size as int,
                *direction,
                offset45 as int,
            ),
    {
        match Self::checked_index_from_direction(starting_point, row_size, direction, offset45) {
            Some(index) => index,
            None => starting_point,
        }
    }
}

/// Four quarter turns bring every direction back to itself.
pub proof fn derivative_has_period_four(direction: Trigonometric)
    ensures
        direction.spec_derivative().spec_derivative().spec_derivative().spec_derivative()
            == direction,
{
}

/// The antiderivative undoes the derivative, and the derivative undoes the antiderivative.
pub proof fn antiderivative_inverts_derivative(direction: Trigonometric)
    ensures
        direction.spec_derivative().spec_antiderivative() == direction,
        direction.spec_antiderivative().spec_derivative() == direction,
{
}

/// A step followed by the step in the opposite direction returns to the starting index,
/// with or without the diagonal offset.
pub proof fn opposite_steps_cancel(
    starting_point: int,
    row_size: int,
    direction: Trigonometric,
    offset45: int,
)
    ensures
        Trigonometric::index_from_direction(
            Trigonometric::index_from_direction(starting_point, row_size, direction, offset45),
            row_size,
            direction.spec_derivative().spec_derivative(),
            offset45,
        ) == starting_point,
{
}

} // verus!
