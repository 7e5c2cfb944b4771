use mvecops::def::trigonometric::Trigonometric;

#[test]
fn from_int_follows_the_cycle() {
    assert_eq!(Trigonometric::from_int(0), Trigonometric::COS);
    assert_eq!(Trigonometric::from_int(1), Trigonometric::NSIN);
    assert_eq!(Trigonometric::from_int(2), Trigonometric::NCOS);
    assert_eq!(Trigonometric::from_int(3), Trigonometric::SIN);
}

#[test]
fn derivative_cycles_in_four_steps() {
    for value in 0..4 {
        let direction = Trigonometric::from_int(value);
        let once = Trigonometric::derivative(&direction);
        assert_eq!(once, Trigonometric::from_int((value + 1) % 4));
        let twice = Trigonometric::derivative(&once);
        let thrice = Trigonometric::derivative(&twice);
        assert_eq!(Trigonometric::derivative(&thrice), direction);
    }
}

#[test]
fn antiderivative_undoes_derivative() {
    for value in 0..4 {
        let direction = Trigonometric::from_int(value);
        assert_eq!(
            Trigonometric::antiderivative(&Trigonometric::derivative(&direction)),
            direction
        );
        assert_eq!(
            Trigonometric::derivative(&Trigonometric::antiderivative(&direction)),
            direction
        );
    }
    assert_eq!(Trigonometric::antiderivative(&Trigonometric::COS), Trigonometric::SIN);
}

#[test]
fn steps_move_by_one_entry_or_one_row() {
    assert_eq!(Trigonometric::get_index_from_direction(130, 64, &Trigonometric::COS, 0), 131);
    assert_eq!(Trigonometric::get_index_from_direction(130, 64, &Trigonometric::NCOS, 0), 129);
    assert_eq!(Trigonometric::get_index_from_direction(130, 64, &Trigonometric::NSIN, 0), 194);
    assert_eq!(Trigonometric::get_index_from_direction(130, 64, &Trigonometric::SIN, 0), 66);
}

#[test]
fn offsets_give_the_diagonals() {
    assert_eq!(Trigonometric::get_index_from_direction(130, 64, &Trigonometric::COS, -1), 195);
    assert_eq!(Trigonometric::get_index_from_direction(130, 64, &Trigonometric::COS, 1), 67);
    assert_eq!(Trigonometric::get_index_from_direction(130, 64, &Trigonometric::SIN, -1), 67);
    assert_eq!(Trigonometric::get_index_from_direction(130, 64, &Trigonometric::SIN, 1), 65);
    assert_eq!(Trigonometric::get_index_from_direction(130, 64, &Trigonometric::NSIN, -5), 193);
    assert_eq!(Trigonometric::get_index_from_direction(130, 64, &Trigonometric::NCOS, 7), 193);
}

#[test]
fn stepping_east_then_west_returns() {
    for index in 65..(64 * 63 - 1) {
        let east = Trigonometric::get_index_from_direction(index, 64, &Trigonometric::COS, 0);
        let back = Trigonometric::get_index_from_direction(east, 64, &Trigonometric::NCOS, 0);
        assert_eq!(back, index);
        let north = Trigonometric::get_index_from_direction(index, 64, &Trigonometric::NSIN, -1);
        let south = Trigonometric::get_index_from_direction(north, 64, &Trigonometric::SIN, -1);
        assert_eq!(south, index);
    }
}

#[test]
fn checked_step_refuses_what_does_not_fit() {
    assert_eq!(
        Trigonometric::checked_index_from_direction(0, 64, &Trigonometric::NCOS, 0),
        None
    );
    assert_eq!(
        Trigonometric::checked_index_from_direction(63, 64, &Trigonometric::SIN, -1),
        Some(0)
    );
    assert_eq!(
        Trigonometric::checked_index_from_direction(usize::MAX, 64, &Trigonometric::COS, 0),
        None
    );
    assert_eq!(
        Trigonometric::checked_index_from_direction(5, 64, &Trigonometric::NSIN, 0),
        Some(69)
    );
}
