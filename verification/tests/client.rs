use station::client::{grab_targets, player_connected};
use station::resource::{Entities, Lobby};

#[test]
fn connected_players_are_registered() {
    let mut lobby = Lobby::default();
    let mut ents = Entities::default();
    assert!(player_connected(&mut lobby, &mut ents, 7, 7, 1000, 5));
    assert!(!player_connected(&mut lobby, &mut ents, 7, 8, 2000, 6));
    assert_eq!(lobby.players.get(&7), Some(&5));
    assert_eq!(lobby.players.get(&8), Some(&6));
    assert_eq!(ents.entities.get_by_first(&5), Some(&1000));
    assert_eq!(ents.entities.get_by_second(&2000), Some(&6));
}

#[test]
fn grab_answer_targets() {
    let mut lobby = Lobby::default();
    let mut ents = Entities::default();
    lobby.players.insert(1, 10);
    ents.entities.insert(55, 5000);
    assert_eq!(grab_targets(&lobby, &ents, 1, 5000), Some((10, 55)));
    assert_eq!(grab_targets(&lobby, &ents, 2, 5000), None);
    assert_eq!(grab_targets(&lobby, &ents, 1, 4000), None);
}
