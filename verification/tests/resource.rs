use station::resource::{Bimap, Lobby};

#[test]
fn bimap_insert_then_get_both_ways() {
    let mut b = Bimap::new();
    assert_eq!(b.get_by_first(&1), None);
    b.insert(1, 10);
    b.insert(2, 20);
    assert_eq!(b.get_by_first(&1), Some(&10));
    assert_eq!(b.get_by_second(&10), Some(&1));
    assert_eq!(b.get_by_first(&2), Some(&20));
    assert_eq!(b.get_by_second(&20), Some(&2));
    assert_eq!(b.get_by_second(&1), None);
}

#[test]
fn bimap_reinsert_keeps_stale_backward_entry() {
    let mut b = Bimap::new();
    b.insert(1, 10);
    b.insert(1, 11);
    assert_eq!(b.get_by_first(&1), Some(&11));
    assert_eq!(b.get_by_second(&11), Some(&1));
    // the earlier backward entry is not removed
    assert_eq!(b.get_by_second(&10), Some(&1));
}

#[test]
fn lobby_remove_and_lookup() {
    let mut lobby = Lobby::default();
    lobby.players.insert(7, 70);
    assert_eq!(lobby.player_entity(7), Some(70));
    assert_eq!(lobby.player_entity(8), None);
    assert_eq!(lobby.remove_player(7), Some(70));
    assert_eq!(lobby.remove_player(7), None);
    assert!(lobby.players.is_empty());
}
