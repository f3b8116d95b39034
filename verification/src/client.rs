use vstd::prelude::*;
use crate::resource::{Entities, Lobby};

verus! {

broadcast use vstd::std_specs::hash::group_hash_axioms;

/// Registers a player the server announced: client `client_id` plays the local entity
/// `player_entity_id`, which stands for the server's entity `ent_id`. Returns whether the
/// player is the one this client controls.
pub fn player_connected(
    lobby: &mut Lobby,
    ents: &mut Entities,
    this_client_id: u64,
    client_id: u64,
    ent_id: u64,
    player_entity_id: u64,
) -> (is_local: bool)
    ensures
        is_local == (this_client_id == client_id),
        final(lobby).players@ == old(lobby).players@.insert(client_id, player_entity_id),
        final(ents).entities@.0 == old(ents).entities@.0.insert(player_entity_id, ent_id),
        final(ents).entities@.1 == old(ents).entities@.1.insert(ent_id, player_entity_id),
{
    lobby.players.insert(client_id, player_entity_id);
    ents.entities.insert(player_entity_id, ent_id);
    this_client_id == client_id
}

/// Resolves a GrabAnswer: the local entity of the grabbing client and the local entity of
/// the server's item `i_must_be_grabbed`, when both are known.
pub fn grab_targets(lobby: &Lobby, ents: &Entities, who_should_grab: u64, i_must_be_grabbed: u64) -> (r: Option<(u64, u64)>)
    ensures
        r == if lobby.players@.contains_key(who_should_grab) && ents.entities@.1.contains_key(i_must_be_grabbed) {
            Some((lobby.players@[who_should_grab], ents.entities@.1[i_must_be_grabbed]))
        } else {
            None
        },
{
    let player = match lobby.player_entity(who_should_grab) {
        Some(p) => p,
        None => return None,
    };
    match ents.entities.get_by_second(&i_must_be_grabbed) {
        Some(item) => Some((player, *item)),
        None => None,
    }
}

} // verus!
