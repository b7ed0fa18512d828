//! The events that handlers exchange with each other and with their peers.

use vstd::prelude::*;
use crate::player::{Player, PlayerView};

verus! {

/// A state change, or a full copy of the state, as it travels between
/// handlers and over the wire. Events are detached values: none refers back
/// into the registry it was taken from.
#[derive(Debug, PartialEq, Eq)]
pub enum Event {
    PlayerJoined { player: Player },
    PlayerLeft { player_id: String },
    PlayerMoved { player_id: String, x: u32, y: u32 },
    ChatMessage { player_id: String, text: String },
    WorldSnapshot { players: Vec<Player> },
}

/// Mathematical value of an [`Event`].
pub enum EventView {
    PlayerJoined { player: PlayerView },
    PlayerLeft { player_id: Seq<char> },
    PlayerMoved { player_id: Seq<char>, x: u32, y: u32 },
    ChatMessage { player_id: Seq<char>, text: Seq<char> },
    WorldSnapshot { players: Seq<PlayerView> },
}

/// The values of a run of player records, in order.
pub open spec fn player_views(players: Seq<Player>) -> Seq<PlayerView> {
    players.map_values(|p: Player| p@)
}

impl View for Event {
    type V = EventView;

    open spec fn view(&self) -> EventView {
        match *self {
            Event::PlayerJoined { player } => EventView::PlayerJoined { player: player@ },
            Event::PlayerLeft { player_id } => EventView::PlayerLeft { player_id: player_id@ },
            Event::PlayerMoved { player_id, x, y } => EventView::PlayerMoved {
                player_id: player_id@,
                x,
                y,
            },
            Event::ChatMessage { player_id, text } => EventView::ChatMessage {
                player_id: player_id@,
                text: text@,
            },
            Event::WorldSnapshot { players } => EventView::WorldSnapshot {
                players: player_views(players@),
            },
        }
    }
}

impl EventView {
    /// The id of the one player an event is about; a snapshot is about none.
    pub open spec fn subject(self) -> Option<Seq<char>> {
        match self {
            EventView::PlayerJoined { player } => Some(player.id),
            EventView::PlayerLeft { player_id } => Some(player_id),
            EventView::PlayerMoved { player_id, .. } => Some(player_id),
            EventView::ChatMessage { player_id, .. } => Some(player_id),
            EventView::WorldSnapshot { .. } => None,
        }
    }
}

/// Copies a run of player records.
pub fn clone_players(players: &Vec<Player>) -> (copy: Vec<Player>)
    ensures
        player_views(copy@) == player_views(players@),
{
    let mut copy: Vec<Player> = Vec::new();
    let mut i: usize = 0;
    while i < players.len()
        invariant
            i <= players.len(),
            copy.len() == i,
            forall|j: int| 0 <= j < i ==> copy[j]@ == players[j]@,
        decreases players.len() - i,
    {
        copy.push(players[i].clone());
        i += 1;
    }
    copy
}

impl Event {
    /// Whether this event is about the player with the given id.
    pub fn concerns(&self, id: &String) -> (yes: bool)
        ensures
            yes == (self@.subject() == Some(id@)),
    {
        match self {
            Event::PlayerJoined { player } => player.id == *id,
            Event::PlayerLeft { player_id } => *player_id == *id,
            Event::PlayerMoved { player_id, .. } => *player_id == *id,
            Event::ChatMessage { player_id, .. } => *player_id == *id,
            Event::WorldSnapshot { .. } => false,
        }
    }
}

impl Clone for Event {
    fn clone(&self) -> (copy: Event)
        ensures
            copy@ == self@,
    {
        match self {
            Event::PlayerJoined { player } => Event::PlayerJoined { player: player.clone() },
            Event::PlayerLeft { player_id } => Event::PlayerLeft { player_id: player_id.clone() },
            Event::PlayerMoved { player_id, x, y } => Event::PlayerMoved {
                player_id: player_id.clone(),
                x: *x,
                y: *y,
            },
            Event::ChatMessage { player_id, text } => Event::ChatMessage {
                player_id: player_id.clone(),
                text: text.clone(),
            },
            Event::WorldSnapshot { players } => Event::WorldSnapshot {
                players: clone_players(players),
            },
        }
    }
}

} // verus!
