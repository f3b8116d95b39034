use station::components::Direction;
use station::resource::{Lobby, MovementInput};
use station::server::{
    client_connection_handler, connections_handler, route_client_request, send_rotation, ClientRequest,
    ConnectionAction, ConnectionEvent, DirectionEvent, DirectionNotice, GrabEvent, PlayerConnectedNotice,
    ServerAction, ThrowEvent,
};

fn sorted<T: Ord>(mut v: Vec<T>) -> Vec<T> {
    v.sort();
    v
}

fn key(n: &PlayerConnectedNotice) -> (u64, u64, u64) {
    (n.recipient, n.client_id, n.ent_id)
}

#[test]
fn first_player_is_told_about_itself() {
    let mut lobby = Lobby::default();
    let out = client_connection_handler(&mut lobby, 1, 100);
    assert_eq!(out.iter().map(key).collect::<Vec<_>>(), vec![(1, 1, 100)]);
    assert_eq!(lobby.players.get(&1), Some(&100));
}

#[test]
fn newcomer_and_others_are_introduced() {
    let mut lobby = Lobby::default();
    lobby.players.insert(1, 100);
    lobby.players.insert(2, 200);
    let out = client_connection_handler(&mut lobby, 3, 300);
    assert_eq!(out.len(), 5);
    assert_eq!(
        sorted(out.iter().map(key).collect()),
        vec![(1, 3, 300), (2, 3, 300), (3, 1, 100), (3, 2, 200), (3, 3, 300)]
    );
}

#[test]
fn reconnecting_client_gets_new_entity() {
    let mut lobby = Lobby::default();
    lobby.players.insert(1, 100);
    let out = client_connection_handler(&mut lobby, 1, 101);
    assert_eq!(out.iter().map(key).collect::<Vec<_>>(), vec![(1, 1, 101)]);
}

#[test]
fn connection_events() {
    let mut lobby = Lobby::default();
    lobby.players.insert(5, 50);
    assert_eq!(
        connections_handler(&mut lobby, ConnectionEvent::ClientConnected { client_id: 6 }),
        ConnectionAction::Welcome { client_id: 6 }
    );
    assert_eq!(lobby.players.len(), 1);
    assert_eq!(
        connections_handler(&mut lobby, ConnectionEvent::ClientDisconnected { client_id: 5 }),
        ConnectionAction::Farewell { client_id: 5, despawn: Some(50) }
    );
    assert!(lobby.players.is_empty());
    assert_eq!(
        connections_handler(&mut lobby, ConnectionEvent::ClientDisconnected { client_id: 5 }),
        ConnectionAction::Farewell { client_id: 5, despawn: None }
    );
}

#[test]
fn rotation_goes_to_the_others() {
    let mut lobby = Lobby::default();
    lobby.players.insert(1, 100);
    lobby.players.insert(2, 200);
    lobby.players.insert(3, 300);
    let out = send_rotation(&lobby, DirectionEvent { client: 2, direction: Direction::Left });
    let mut got: Vec<u64> = out.iter().map(|n| n.recipient).collect();
    got.sort();
    assert_eq!(got, vec![1, 3]);
    for n in &out {
        assert_eq!(*n, DirectionNotice { recipient: n.recipient, direction: Direction::Left, ent: 200 });
    }
    let none = send_rotation(&lobby, DirectionEvent { client: 9, direction: Direction::Up });
    assert!(none.is_empty());
}

#[test]
fn routing_requests() {
    let mut lobby = Lobby::default();
    lobby.players.insert(4, 40);
    assert_eq!(
        route_client_request(&lobby, 4, ClientRequest::MovementInput { up: true, left: false, right: true, down: false }),
        ServerAction::SetMovementInput { ent: 40, input: MovementInput { up: true, down: false, left: false, right: true } }
    );
    assert_eq!(
        route_client_request(&lobby, 4, ClientRequest::Grab { can_be_grabbed: 9, hand_idx: 1 }),
        ServerAction::Grab(GrabEvent { i_want_grab: 40, can_be_grabbed: 9, hand_idx: 1, client: 4 })
    );
    assert_eq!(
        route_client_request(&lobby, 4, ClientRequest::Throw { selected_idx: 0 }),
        ServerAction::Throw(ThrowEvent { client: 4, selected_idx: 0, i_want_throw: 40 })
    );
    assert_eq!(
        route_client_request(&lobby, 5, ClientRequest::Direction(Direction::Down)),
        ServerAction::Direction(DirectionEvent { client: 5, direction: Direction::Down })
    );
    assert_eq!(route_client_request(&lobby, 5, ClientRequest::Throw { selected_idx: 0 }), ServerAction::Ignore);
    assert_eq!(route_client_request(&lobby, 5, ClientRequest::Grab { can_be_grabbed: 1, hand_idx: 0 }), ServerAction::Ignore);
    assert_eq!(
        route_client_request(&lobby, 5, ClientRequest::MovementInput { up: false, left: false, right: false, down: false }),
        ServerAction::Ignore
    );
}
