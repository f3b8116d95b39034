use station::components::Direction;
use station::movement::{change_direction, input_direction, is_pushed};
use station::resource::MovementInput;
use station::server::ClientRequest;

fn keys(up: bool, down: bool, left: bool, right: bool) -> MovementInput {
    MovementInput { up, down, left, right }
}

#[test]
fn direction_from_keys() {
    assert_eq!(input_direction(&keys(false, false, false, true)), (1, 0));
    assert_eq!(input_direction(&keys(true, false, true, false)), (-1, 1));
    assert_eq!(input_direction(&keys(false, true, false, false)), (0, -1));
    assert_eq!(input_direction(&keys(true, true, true, true)), (0, 0));
    assert!(!is_pushed(&keys(false, false, true, true)));
    assert!(is_pushed(&keys(false, true, true, true)));
    assert!(!is_pushed(&MovementInput::default()));
}

#[test]
fn facing_priority() {
    let mut d = Direction::Left;
    change_direction(&mut d, &keys(false, false, false, false));
    assert_eq!(d, Direction::Left);
    change_direction(&mut d, &keys(true, true, true, true));
    assert_eq!(d, Direction::Up);
    change_direction(&mut d, &keys(false, true, true, true));
    assert_eq!(d, Direction::Down);
    change_direction(&mut d, &keys(false, false, true, true));
    assert_eq!(d, Direction::Left);
    change_direction(&mut d, &keys(false, false, false, true));
    assert_eq!(d, Direction::Right);
    assert_eq!(Direction::default(), Direction::Up);
}

#[test]
fn messages_for_server() {
    let m = keys(true, false, false, true).make_msg();
    assert_eq!(m, ClientRequest::MovementInput { up: true, left: false, right: true, down: false });
    assert_eq!(Direction::Right.make_msg(), ClientRequest::Direction(Direction::Right));
}
