use std::collections::HashMap;
use vstd::prelude::*;
use crate::components::Direction;
use crate::resource::{Lobby, MovementInput};
use vstd::multiset::Multiset;
use vstd::std_specs::iter::IteratorSpec;

verus! {

broadcast use vstd::std_specs::hash::group_hash_axioms;

/// The client ids in the lobby, each once, in the order the table is walked.
fn lobby_client_ids(players: &HashMap<u64, u64>) -> (ids: Vec<u64>)
    ensures
        ids@.no_duplicates(),
        ids@.to_set() == players@.dom(),
{
    let mut ids: Vec<u64> = Vec::new();
    for k in it: players.keys()
        invariant
            it.seq() == vstd::std_specs::hash::spec_keys_iter(players).remaining(),
            ids@.len() == it.index(),
            forall|j: int| 0 <= j < it.index() ==> ids@[j] == *it.seq()[j],
    {
        ids.push(*k);
    }
    proof {
        let s = vstd::std_specs::hash::spec_keys_iter(players).remaining();
        assert(ids@ =~= s.unref());
    }
    ids
}


/// A PlayerConnected announcement: `recipient` learns that client `client_id` plays the
/// entity `ent_id`.
#[derive(Clone, Copy, Debug, PartialEq, Eq, Structural)]
pub struct PlayerConnectedNotice {
    pub recipient: u64,
    pub client_id: u64,
    pub ent_id: u64,
}

/// What a newcomer and player `p` are told about each other: the newcomer learns about
/// `p` (itself included), and any other `p` learns about the newcomer.
pub open spec fn notices_for_player(players: Map<u64, u64>, newcomer: u64, p: u64) -> Seq<PlayerConnectedNotice> {
    let to_newcomer = seq![PlayerConnectedNotice { recipient: newcomer, client_id: p, ent_id: players[p] }];
    if p != newcomer {
        to_newcomer.push(PlayerConnectedNotice { recipient: p, client_id: newcomer, ent_id: players[newcomer] })
    } else {
        to_newcomer
    }
}

/// The announcements for a newcomer when the players are visited in `order`.
pub open spec fn connection_notices(players: Map<u64, u64>, newcomer: u64, order: Seq<u64>) -> Seq<PlayerConnectedNotice>
    decreases order.len(),
{
    if order.len() == 0 {
        Seq::empty()
    } else {
        connection_notices(players, newcomer, order.drop_last()) + notices_for_player(players, newcomer, order.last())
    }
}

/// `order` lists every key of `players` once.
pub open spec fn is_visit_order(players: Map<u64, u64>, order: Seq<u64>) -> bool {
    order.no_duplicates() && order.to_set() == players.dom()
}

/// Registers the newly connected client `client_id`, whose player entity is
/// `player_entity_id`, and returns the announcements to send: the newcomer is told about
/// every player in the lobby, itself included, and every other player is told about the
/// newcomer. The players are visited in the order the lobby's table is walked.
pub fn client_connection_handler(lobby: &mut Lobby, client_id: u64, player_entity_id: u64) -> (out: Vec<PlayerConnectedNotice>)
    ensures
        final(lobby).players@ == old(lobby).players@.insert(client_id, player_entity_id),
        exists|order: Seq<u64>|
            is_visit_order(final(lobby).players@, order)
            && out@ == #[trigger] connection_notices(final(lobby).players@, client_id, order),
{
    lobby.players.insert(client_id, player_entity_id);
    let ghost players = lobby.players@;
    let ids = lobby_client_ids(&lobby.players);
    let mut out: Vec<PlayerConnectedNotice> = Vec::new();
    let mut i: usize = 0;
    while i < ids.len()
        invariant
            0 <= i <= ids@.len(),
            lobby.players@ == players,
            players.contains_key(client_id),
            players[client_id] == player_entity_id,
            ids@.to_set() == players.dom(),
            out@ == connection_notices(players, client_id, ids@.take(i as int)),
        decreases ids@.len() - i,
    {
        let player_id = ids[i];
        proof {
            assert(ids@.to_set().contains(ids@[i as int]));
            assert(ids@.take(i + 1).drop_last() =~= ids@.take(i as int));
        }
        match lobby.players.get(&player_id) {
            Some(server_ent) => {
                out.push(PlayerConnectedNotice { recipient: client_id, client_id: player_id, ent_id: *server_ent });
            },
            None => {},
        }
        if player_id != client_id {
            match lobby.players.get(&client_id) {
                Some(server_ent) => {
                    out.push(PlayerConnectedNotice { recipient: player_id, client_id, ent_id: *server_ent });
                },
                None => {},
            }
        }
        proof {
            assert(out@ =~= connection_notices(players, client_id, ids@.take(i + 1)));
        }
        i = i + 1;
    }
    proof {
        assert(ids@.take(ids@.len() as int) =~= ids@);
        assert(is_visit_order(players, ids@));
    }
    out
}

/// Law: when a client connects, it is told about every player in the lobby and every
/// other player is told about it, each exactly once; `2n - 1` announcements in all for `n`
/// players.
pub proof fn lemma_everyone_is_introduced(players: Map<u64, u64>, newcomer: u64, order: Seq<u64>, p: u64)
    requires
        is_visit_order(players, order),
        players.contains_key(newcomer),
        players.contains_key(p),
    ensures
        connection_notices(players, newcomer, order).len() == 2 * order.len() - 1,
        connection_notices(players, newcomer, order).to_multiset().count(
            PlayerConnectedNotice { recipient: newcomer, client_id: p, ent_id: players[p] }) == 1,
        p != newcomer ==> connection_notices(players, newcomer, order).to_multiset().count(
            PlayerConnectedNotice { recipient: p, client_id: newcomer, ent_id: players[newcomer] }) == 1,
{
    assert(order.to_set().contains(newcomer));
    lemma_notices_len(players, newcomer, order);
    lemma_notices_count(players, newcomer, order, p);
}

proof fn lemma_notices_len(players: Map<u64, u64>, newcomer: u64, order: Seq<u64>)
    requires
        order.no_duplicates(),
        order.contains(newcomer),
    ensures
        connection_notices(players, newcomer, order).len() == 2 * order.len() - 1,
    decreases order.len(),
{
    let prefix = order.drop_last();
    if order.last() == newcomer {
        assert forall|j: int| 0 <= j < prefix.len() implies prefix[j] != newcomer by {
            assert(order[j] == prefix[j]);
            assert(j != order.len() - 1);
        }
        lemma_notices_len_without(players, newcomer, prefix);
    } else {
        let k = choose|k: int| 0 <= k < order.len() && order[k] == newcomer;
        assert(prefix[k] == newcomer);
        lemma_prefix_no_duplicates(order);
        lemma_notices_len(players, newcomer, prefix);
    }
}

proof fn lemma_notices_len_without(players: Map<u64, u64>, newcomer: u64, order: Seq<u64>)
    requires
        forall|j: int| 0 <= j < order.len() ==> order[j] != newcomer,
    ensures
        connection_notices(players, newcomer, order).len() == 2 * order.len(),
    decreases order.len(),
{
    if order.len() > 0 {
        lemma_notices_len_without(players, newcomer, order.drop_last());
    }
}

/// The announcements about one visited player, as a multiset.
proof fn lemma_notices_for_player_multiset(players: Map<u64, u64>, newcomer: u64, p: u64)
    ensures
        notices_for_player(players, newcomer, p).to_multiset() == if p != newcomer {
            Multiset::singleton(PlayerConnectedNotice { recipient: newcomer, client_id: p, ent_id: players[p] })
                .insert(PlayerConnectedNotice { recipient: p, client_id: newcomer, ent_id: players[newcomer] })
        } else {
            Multiset::singleton(PlayerConnectedNotice { recipient: newcomer, client_id: p, ent_id: players[p] })
        },
{
    broadcast use vstd::seq_lib::group_to_multiset_ensures;
    let to_p = PlayerConnectedNotice { recipient: newcomer, client_id: p, ent_id: players[p] };
    let about_new = PlayerConnectedNotice { recipient: p, client_id: newcomer, ent_id: players[newcomer] };
    assert(seq![to_p] =~= Seq::<PlayerConnectedNotice>::empty().push(to_p));
    assert(seq![to_p].to_multiset() =~= Multiset::singleton(to_p));
    if p != newcomer {
        assert(notices_for_player(players, newcomer, p) =~= seq![to_p].push(about_new));
    } else {
        assert(notices_for_player(players, newcomer, p) =~= seq![to_p]);
    }
}

proof fn lemma_prefix_no_duplicates(order: Seq<u64>)
    requires
        order.no_duplicates(),
        order.len() > 0,
    ensures
        order.drop_last().no_duplicates(),
{
    let prefix = order.drop_last();
    assert forall|a: int, b: int| 0 <= a < prefix.len() && 0 <= b < prefix.len() && a != b implies prefix[a] != prefix[b] by {
        assert(prefix[a] == order[a] && prefix[b] == order[b]);
    }
}

proof fn lemma_notices_count(players: Map<u64, u64>, newcomer: u64, order: Seq<u64>, p: u64)
    requires
        order.no_duplicates(),
        order.contains(p),
    ensures
        connection_notices(players, newcomer, order).to_multiset().count(
            PlayerConnectedNotice { recipient: newcomer, client_id: p, ent_id: players[p] }) == 1,
        p != newcomer ==> connection_notices(players, newcomer, order).to_multiset().count(
            PlayerConnectedNotice { recipient: p, client_id: newcomer, ent_id: players[newcomer] }) == 1,
    decreases order.len(),
{
    broadcast use vstd::seq_lib::group_to_multiset_ensures;
    let prefix = order.drop_last();
    let last = order.last();
    let tail = notices_for_player(players, newcomer, last);
    lemma_prefix_no_duplicates(order);
    vstd::seq_lib::lemma_multiset_commutative(connection_notices(players, newcomer, prefix), tail);
    lemma_notices_for_player_multiset(players, newcomer, last);
    if last == p {
        assert forall|j: int| 0 <= j < prefix.len() implies prefix[j] != p by {
            assert(order[j] == prefix[j]);
        }
        lemma_notices_count_absent(players, newcomer, prefix, p);
    } else {
        let k = choose|k: int| 0 <= k < order.len() && order[k] == p;
        assert(k != order.len() - 1);
        assert(prefix[k] == p);
        lemma_notices_count(players, newcomer, prefix, p);
    }
}

proof fn lemma_notices_count_absent(players: Map<u64, u64>, newcomer: u64, order: Seq<u64>, p: u64)
    requires
        forall|j: int| 0 <= j < order.len() ==> order[j] != p,
    ensures
        connection_notices(players, newcomer, order).to_multiset().count(
            PlayerConnectedNotice { recipient: newcomer, client_id: p, ent_id: players[p] }) == 0,
        p != newcomer ==> connection_notices(players, newcomer, order).to_multiset().count(
            PlayerConnectedNotice { recipient: p, client_id: newcomer, ent_id: players[newcomer] }) == 0,
    decreases order.len(),
{
    broadcast use vstd::seq_lib::group_to_multiset_ensures;
    if order.len() > 0 {
        let prefix = order.drop_last();
        let last = order.last();
        assert(last == order[order.len() - 1]);
        lemma_notices_count_absent(players, newcomer, prefix, p);
        let tail = notices_for_player(players, newcomer, last);
        vstd::seq_lib::lemma_multiset_commutative(connection_notices(players, newcomer, prefix), tail);
        lemma_notices_for_player_multiset(players, newcomer, last);
    }
}


/// A connection change reported by the transport.
#[derive(Clone, Copy, Debug, PartialEq, Eq, Structural)]
pub enum ConnectionEvent {
    ClientConnected { client_id: u64 },
    ClientDisconnected { client_id: u64 },
}

/// What the server does about a connection change.
#[derive(Clone, Copy, Debug, PartialEq, Eq, Structural)]
pub enum ConnectionAction {
    /// Spawn and announce the player of `client_id` and send it the items in the world.
    Welcome { client_id: u64 },
    /// Tell everyone that `client_id` left, and despawn its entity, if it had one.
    Farewell { client_id: u64, despawn: Option<u64> },
}

/// Decides what to do about one connection change: a connection is welcomed; a
/// disconnection takes the client out of the lobby.
pub fn connections_handler(lobby: &mut Lobby, event: ConnectionEvent) -> (action: ConnectionAction)
    ensures
        match event {
            ConnectionEvent::ClientConnected { client_id } => {
                &&& action == ConnectionAction::Welcome { client_id }
                &&& final(lobby).players@ == old(lobby).players@
            },
            ConnectionEvent::ClientDisconnected { client_id } => {
                &&& action == ConnectionAction::Farewell {
                    client_id,
                    despawn: if old(lobby).players@.contains_key(client_id) {
                        Some(old(lobby).players@[client_id])
                    } else {
                        None
                    },
                }
                &&& final(lobby).players@ == old(lobby).players@.remove(client_id)
            },
        },
{
    match event {
        ConnectionEvent::ClientConnected { client_id } => ConnectionAction::Welcome { client_id },
        ConnectionEvent::ClientDisconnected { client_id } => {
            let despawn = lobby.remove_player(client_id);
            ConnectionAction::Farewell { client_id, despawn }
        },
    }
}

/// A turn of a player's character, as reported by its client.
#[derive(Clone, Copy, Debug, PartialEq, Eq, Structural)]
pub struct DirectionEvent {
    pub client: u64,
    pub direction: Direction,
}

/// A Direction message: `recipient` learns that entity `ent` now faces `direction`.
#[derive(Clone, Copy, Debug, PartialEq, Eq, Structural)]
pub struct DirectionNotice {
    pub recipient: u64,
    pub direction: Direction,
    pub ent: u64,
}

/// The Direction messages for `event` when the players are visited in `order`: every
/// other player hears of the turn, provided the turning client has an entity.
pub open spec fn rotation_notices(players: Map<u64, u64>, event: DirectionEvent, order: Seq<u64>) -> Seq<DirectionNotice>
    decreases order.len(),
{
    if order.len() == 0 {
        Seq::empty()
    } else {
        let p = order.last();
        let before = rotation_notices(players, event, order.drop_last());
        if p != event.client && players.contains_key(event.client) {
            before.push(DirectionNotice { recipient: p, direction: event.direction, ent: players[event.client] })
        } else {
            before
        }
    }
}

/// Relays a turn to the other players, in the order the lobby's table is walked.
pub fn send_rotation(lobby: &Lobby, event: DirectionEvent) -> (out: Vec<DirectionNotice>)
    ensures
        exists|order: Seq<u64>|
            is_visit_order(lobby.players@, order)
            && out@ == #[trigger] rotation_notices(lobby.players@, event, order),
{
    let ids = lobby_client_ids(&lobby.players);
    let mut out: Vec<DirectionNotice> = Vec::new();
    let mut i: usize = 0;
    while i < ids.len()
        invariant
            0 <= i <= ids@.len(),
            out@ == rotation_notices(lobby.players@, event, ids@.take(i as int)),
        decreases ids@.len() - i,
    {
        let player = ids[i];
        proof {
            assert(ids@.take(i + 1).drop_last() =~= ids@.take(i as int));
        }
        if player != event.client {
            match lobby.players.get(&event.client) {
                Some(ent) => {
                    out.push(DirectionNotice { recipient: player, direction: event.direction, ent: *ent });
                },
                None => {},
            }
        }
        i = i + 1;
    }
    proof {
        assert(ids@.take(ids@.len() as int) =~= ids@);
    }
    out
}

/// Law: a turn reaches every player but the one who turned, once each, and reaches no
/// one when the turning client has no entity.
pub proof fn lemma_rotation_reaches_others(players: Map<u64, u64>, event: DirectionEvent, order: Seq<u64>)
    requires
        is_visit_order(players, order),
    ensures
        !players.contains_key(event.client) ==> rotation_notices(players, event, order).len() == 0,
        forall|i: int| 0 <= i < rotation_notices(players, event, order).len() ==> {
            let n = #[trigger] rotation_notices(players, event, order)[i];
            &&& players.contains_key(n.recipient)
            &&& n.recipient != event.client
            &&& n.direction == event.direction
            &&& n.ent == players[event.client]
        },
        players.contains_key(event.client) ==> forall|p: u64| #[trigger] players.contains_key(p) && p != event.client ==>
            rotation_notices(players, event, order).map_values(|n: DirectionNotice| n.recipient).contains(p),
        rotation_notices(players, event, order).map_values(|n: DirectionNotice| n.recipient).no_duplicates(),
{
    lemma_rotation_shape(players, event, order);
    lemma_rotation_recipients_once(players, event, order);
}

proof fn lemma_rotation_recipients_once(players: Map<u64, u64>, event: DirectionEvent, order: Seq<u64>)
    requires
        order.no_duplicates(),
    ensures
        rotation_notices(players, event, order).map_values(|n: DirectionNotice| n.recipient).no_duplicates(),
        forall|i: int| 0 <= i < rotation_notices(players, event, order).len() ==>
            order.contains(#[trigger] rotation_notices(players, event, order)[i].recipient),
    decreases order.len(),
{
    if order.len() > 0 {
        let prefix = order.drop_last();
        lemma_prefix_no_duplicates(order);
        lemma_rotation_recipients_once(players, event, prefix);
        let before = rotation_notices(players, event, prefix);
        let now = rotation_notices(players, event, order);
        let rb = before.map_values(|n: DirectionNotice| n.recipient);
        let rn = now.map_values(|n: DirectionNotice| n.recipient);
        assert forall|i: int| 0 <= i < before.len() implies prefix.contains(#[trigger] before[i].recipient) by {}
        assert forall|i: int| 0 <= i < now.len() implies order.contains(#[trigger] now[i].recipient) by {
            if i < before.len() {
                assert(now[i] == before[i]);
                assert(prefix.contains(before[i].recipient));
                let k = choose|k: int| 0 <= k < prefix.len() && prefix[k] == before[i].recipient;
                assert(order[k] == prefix[k]);
            } else {
                assert(now[i].recipient == order.last());
                assert(order[order.len() - 1] == order.last());
            }
        }
        if now.len() > before.len() {
            assert(!rb.contains(order.last())) by {
                if rb.contains(order.last()) {
                    let m = choose|m: int| 0 <= m < rb.len() && #[trigger] rb[m] == order.last();
                    assert(prefix.contains(before[m].recipient));
                    let k = choose|k: int| 0 <= k < prefix.len() && prefix[k] == before[m].recipient;
                    assert(order[k] == order[order.len() - 1]);
                }
            }
            assert(rn =~= rb.push(order.last()));
        } else {
            assert(rn =~= rb);
        }
    }
}

proof fn lemma_rotation_shape(players: Map<u64, u64>, event: DirectionEvent, order: Seq<u64>)
    requires
        order.to_set().subset_of(players.dom()),
    ensures
        !players.contains_key(event.client) ==> rotation_notices(players, event, order).len() == 0,
        forall|i: int| 0 <= i < rotation_notices(players, event, order).len() ==> {
            let n = #[trigger] rotation_notices(players, event, order)[i];
            &&& players.contains_key(n.recipient)
            &&& n.recipient != event.client
            &&& n.direction == event.direction
            &&& n.ent == players[event.client]
        },
        players.contains_key(event.client) ==> forall|p: u64| #[trigger] order.contains(p) && p != event.client ==>
            rotation_notices(players, event, order).map_values(|n: DirectionNotice| n.recipient).contains(p),
    decreases order.len(),
{
    if order.len() > 0 {
        let prefix = order.drop_last();
        assert(prefix.to_set().subset_of(players.dom())) by {
            assert forall|x: u64| prefix.to_set().contains(x) implies players.dom().contains(x) by {
                let k = choose|k: int| 0 <= k < prefix.len() && prefix[k] == x;
                assert(order[k] == x);
                assert(order.to_set().contains(x));
            }
        }
        lemma_rotation_shape(players, event, prefix);
        assert(order.to_set().contains(order.last()));
        let before = rotation_notices(players, event, prefix);
        let now = rotation_notices(players, event, order);
        if players.contains_key(event.client) {
            assert forall|p: u64| #[trigger] order.contains(p) && p != event.client implies
                now.map_values(|n: DirectionNotice| n.recipient).contains(p) by {
                let k = choose|k: int| 0 <= k < order.len() && order[k] == p;
                if k == order.len() - 1 {
                    assert(now.map_values(|n: DirectionNotice| n.recipient)[now.len() - 1] == p);
                } else {
                    assert(prefix[k] == p);
                    assert(prefix.contains(p));
                    let rb = before.map_values(|n: DirectionNotice| n.recipient);
                    let m = choose|m: int| 0 <= m < rb.len() && #[trigger] rb[m] == p;
                    assert(now[m] == before[m]);
                    assert(now.map_values(|n: DirectionNotice| n.recipient)[m] == p);
                }
            }
        }
    }
}

/// A request a client sent, as far as the server's routing reads it. The target of a
/// throw is a point in world coordinates that the caller keeps beside the request.
#[derive(Clone, Copy, Debug, PartialEq, Eq, Structural)]
pub enum ClientRequest {
    MovementInput { up: bool, left: bool, right: bool, down: bool },
    Grab { can_be_grabbed: u64, hand_idx: usize },
    Direction(Direction),
    Throw { selected_idx: usize },
}

/// A request to pick `can_be_grabbed` up with hand `hand_idx` of the entity `i_want_grab`.
#[derive(Clone, Copy, Debug, PartialEq, Eq, Structural)]
pub struct GrabEvent {
    pub i_want_grab: u64,
    pub can_be_grabbed: u64,
    pub hand_idx: usize,
    pub client: u64,
}

/// A request to throw what hand `selected_idx` of the entity `i_want_throw` holds.
#[derive(Clone, Copy, Debug, PartialEq, Eq, Structural)]
pub struct ThrowEvent {
    pub client: u64,
    pub selected_idx: usize,
    pub i_want_throw: u64,
}

/// What the server does with a request.
#[derive(Clone, Copy, Debug, PartialEq, Eq, Structural)]
pub enum ServerAction {
    /// Store the movement keys on the player's entity.
    SetMovementInput { ent: u64, input: MovementInput },
    Grab(GrabEvent),
    Direction(DirectionEvent),
    Throw(ThrowEvent),
    /// The client has no entity; the request is dropped.
    Ignore,
}

/// Routes one request of `client_id`: movement keys go to its entity, grabs and throws
/// become events for its entity, turns become events for the client. A movement, grab or
/// throw from a client without an entity is dropped.
pub fn route_client_request(lobby: &Lobby, client_id: u64, request: ClientRequest) -> (action: ServerAction)
    ensures
        action == match request {
            ClientRequest::MovementInput { up, left, right, down } => if lobby.players@.contains_key(client_id) {
                ServerAction::SetMovementInput {
                    ent: lobby.players@[client_id],
                    input: MovementInput { up, down, left, right },
                }
            } else {
                ServerAction::Ignore
            },
            ClientRequest::Grab { can_be_grabbed, hand_idx } => if lobby.players@.contains_key(client_id) {
                ServerAction::Grab(GrabEvent { i_want_grab: lobby.players@[client_id], can_be_grabbed, hand_idx, client: client_id })
            } else {
                ServerAction::Ignore
            },
            ClientRequest::Direction(dir) => ServerAction::Direction(DirectionEvent { client: client_id, direction: dir }),
            ClientRequest::Throw { selected_idx } => if lobby.players@.contains_key(client_id) {
                ServerAction::Throw(ThrowEvent { client: client_id, selected_idx, i_want_throw: lobby.players@[client_id] })
            } else {
                ServerAction::Ignore
            },
        },
{
    match request {
        ClientRequest::MovementInput { up, left, right, down } => match lobby.player_entity(client_id) {
            Some(ent) => ServerAction::SetMovementInput { ent, input: MovementInput { up, down, left, right } },
            None => ServerAction::Ignore,
        },
        ClientRequest::Grab { can_be_grabbed, hand_idx } => match lobby.player_entity(client_id) {
            Some(i_want_grab) => ServerAction::Grab(GrabEvent { i_want_grab, can_be_grabbed, hand_idx, client: client_id }),
            None => ServerAction::Ignore,
        },
        ClientRequest::Direction(dir) => ServerAction::Direction(DirectionEvent { client: client_id, direction: dir }),
        ClientRequest::Throw { selected_idx } => match lobby.player_entity(client_id) {
            Some(i_want_throw) => ServerAction::Throw(ThrowEvent { client: client_id, selected_idx, i_want_throw }),
            None => ServerAction::Ignore,
        },
    }
}
} // verus!
