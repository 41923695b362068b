use piet_interp::state::{CodelChooser, Direction, State};

#[test]
fn rotation_round_trip_all_directions() {
    let dirs = [Direction::Right, Direction::Down, Direction::Left, Direction::Up];
    for d in dirs {
        let mut s = State::new();
        s.dp = d;
        s.rot_clockwise();
        s.rot_counterclockwise();
        assert_eq!(s.dp, d);
    }
}

#[test]
fn four_clockwise_rotations_are_identity() {
    let dirs = [Direction::Right, Direction::Down, Direction::Left, Direction::Up];
    for d in dirs {
        let mut s = State::new();
        s.dp = d;
        s.rot_clockwise();
        s.rot_clockwise();
        s.rot_clockwise();
        s.rot_clockwise();
        assert_eq!(s.dp, d);
    }
}

#[test]
fn rotation_composition_cases() {
    assert_eq!(Direction::Right.add(Direction::Right), Direction::Down);
    assert_eq!(Direction::Up.add(Direction::Right), Direction::Right);
    assert_eq!(Direction::Right.add(Direction::Down), Direction::Left);
    assert_eq!(Direction::Down.add(Direction::Left), Direction::Right);
    assert_eq!(Direction::Left.add(Direction::Up), Direction::Left);
}

#[test]
fn codel_direction_composes_chooser_and_pointer() {
    let mut s = State::new();
    s.dp = Direction::Right;
    s.cc = CodelChooser::Left;
    assert_eq!(s.codel_direction(), Direction::Up);
    s.cc = CodelChooser::Right;
    assert_eq!(s.codel_direction(), Direction::Down);
    s.dp = Direction::Up;
    s.cc = CodelChooser::Left;
    assert_eq!(s.codel_direction(), Direction::Left);
}

#[test]
fn toggle_cc_flips_between_the_two_values() {
    let mut s = State::new();
    assert_eq!(s.cc(), CodelChooser::Left);
    s.toggle_cc();
    assert_eq!(s.cc(), CodelChooser::Right);
    s.toggle_cc();
    assert_eq!(s.cc(), CodelChooser::Left);
}

#[test]
fn peek_and_advance_step_along_the_pointer() {
    let mut s = State::new();
    s.pos.left = 3;
    s.pos.top = 4;
    s.dp = Direction::Down;
    let p = s.peek_pos();
    assert_eq!((p.left, p.top), (3, 5));
    assert_eq!((s.pos.left, s.pos.top), (3, 4));
    s.advance();
    assert_eq!((s.pos.left, s.pos.top), (3, 5));
    s.dp = Direction::Left;
    s.advance();
    assert_eq!((s.pos.left, s.pos.top), (2, 5));
}
