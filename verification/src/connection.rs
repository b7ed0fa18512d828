//! The life of one connection: admission, the active phase, closing.
//!
//! A `Connection` exists from the moment its player is admitted until it
//! is closed. While it exists the connection is active: inbound messages
//! are folded into the shared state with [`Connection::receive`], and the
//! events that other connections publish are picked up for the peer with
//! [`Connection::forward`]. Closing takes the connection by value, so it
//! happens once.
//!
//! Nothing here waits or performs I/O. The caller owns the loop: it reads
//! from the transport, calls in, and sends what comes back.

use vstd::prelude::*;
use crate::codec::{decode, encode};
use crate::event::{Event, EventView};
use crate::fanout::{deliver, Fanout, FanoutView, SubscriberId};
use crate::ident::{is_uuid_text, random_uuid_text};
use crate::player::{Player, PlayerView};
use crate::wire::{decoded, wire_event, DecodeError};
use crate::world::{
    lemma_roster_insert, moved, roster_map, roster_move, roster_remove, WorldState,
};

verus! {

/// An admitted connection.
#[derive(Debug, PartialEq, Eq)]
pub struct Connection {
    id: String,
    subscriber: SubscriberId,
}

/// Mathematical value of a [`Connection`].
pub struct ConnectionView {
    /// Id of the player that the connection owns.
    pub id: Seq<char>,
    /// The connection's subscription to the fan-out.
    pub subscriber: SubscriberId,
}

impl View for Connection {
    type V = ConnectionView;

    closed spec fn view(&self) -> ConnectionView {
        ConnectionView { id: self.id@, subscriber: self.subscriber }
    }
}

/// What became of an inbound message.
#[derive(Clone, Copy, Debug, PartialEq, Eq, Structural)]
pub enum Receipt {
    /// The bytes are not an event; they were discarded.
    Rejected(DecodeError),
    /// The event is of a kind that peers may not originate; it was discarded.
    Ignored,
    /// A move arrived after the player had left the registry; nothing moved.
    NotRegistered,
    /// The message took effect and was published under the sender's own id.
    Published,
}

/// Why a player was not admitted.
#[derive(Clone, Copy, Debug, PartialEq, Eq, Structural)]
pub enum AdmissionError {
    /// The id belongs to a player that is registered already. Admitting a
    /// second connection under it would leave two owners for one record.
    IdInUse,
}

/// What a look at the subscription produced.
#[derive(Debug, PartialEq, Eq)]
pub enum Forward {
    /// Nothing is pending.
    Idle,
    /// The oldest pending event was the connection's own; it was dropped.
    Skipped,
    /// The oldest pending event, encoded for the peer.
    Send(Vec<u8>),
}

/// What admitting a player under `id` does to the shared state, and what
/// the new connection and its greeting are: the id was free, the
/// connection got the smallest free subscription, the player's record is
/// the last of the roster, every subscriber including the new one was told
/// of the player, and the greeting is the snapshot of the new roster.
pub open spec fn admission(
    id: Seq<char>,
    roster_before: Seq<PlayerView>,
    hub_before: FanoutView,
    roster_after: Seq<PlayerView>,
    hub_after: FanoutView,
    conn: ConnectionView,
    greeting: Seq<u8>,
) -> bool {
    let me = PlayerView::spawned(id);
    &&& conn.id == id
    &&& !roster_map(roster_before).contains_key(id)
    &&& !hub_before.pending.contains_key(conn.subscriber)
    &&& forall|j: SubscriberId| j < conn.subscriber ==> hub_before.pending.contains_key(j)
    &&& roster_after == roster_before.push(me)
    &&& roster_map(roster_after) == roster_map(roster_before).insert(id, me)
    &&& hub_after.capacity == hub_before.capacity
    &&& hub_after.pending == deliver(
        hub_before.pending.insert(conn.subscriber, Seq::empty()),
        EventView::PlayerJoined { player: me },
        hub_before.capacity,
    )
    &&& greeting == wire_event(EventView::WorldSnapshot { players: roster_after })
}

/// The event that an inbound message makes its receiver publish: a move or
/// a chat line, restamped with the receiver's own id. A move counts only
/// while the receiver's player is registered.
pub open spec fn relayed(id: Seq<char>, registered: bool, data: Seq<u8>) -> Option<EventView> {
    match decoded(data) {
        Ok(EventView::PlayerMoved { x, y, .. }) => if registered {
            Some(EventView::PlayerMoved { player_id: id, x, y })
        } else {
            None
        },
        Ok(EventView::ChatMessage { text, .. }) => Some(
            EventView::ChatMessage { player_id: id, text },
        ),
        _ => None,
    }
}

/// The receipt that an inbound message earns.
pub open spec fn receipt_for(registered: bool, data: Seq<u8>) -> Receipt {
    match decoded(data) {
        Err(e) => Receipt::Rejected(e),
        Ok(EventView::PlayerMoved { .. }) => if registered {
            Receipt::Published
        } else {
            Receipt::NotRegistered
        },
        Ok(EventView::ChatMessage { .. }) => Receipt::Published,
        Ok(_) => Receipt::Ignored,
    }
}

/// The roster after an inbound message from the owner of `id`: only a move
/// changes it, and only the owner's record.
pub open spec fn roster_after_inbound(
    roster: Seq<PlayerView>,
    id: Seq<char>,
    data: Seq<u8>,
) -> Seq<PlayerView> {
    match decoded(data) {
        Ok(EventView::PlayerMoved { x, y, .. }) => roster_move(roster, id, x, y),
        _ => roster,
    }
}

/// The registry after an inbound message from the owner of `id`.
pub open spec fn world_after_inbound(
    world: Map<Seq<char>, PlayerView>,
    id: Seq<char>,
    data: Seq<u8>,
) -> Map<Seq<char>, PlayerView> {
    match decoded(data) {
        Ok(EventView::PlayerMoved { x, y, .. }) => moved(world, id, x, y),
        _ => world,
    }
}

/// Whether some registered id has the form of a hyphenated UUID. A fresh
/// draw can only collide with such an id.
pub open spec fn holds_uuid(world: Map<Seq<char>, PlayerView>) -> bool {
    exists|id: Seq<char>| is_uuid_text(id) && #[trigger] world.contains_key(id)
}

/// Every queue after an optional event was published.
pub open spec fn deliver_if(
    pending: Map<SubscriberId, Seq<EventView>>,
    event: Option<EventView>,
    capacity: nat,
) -> Map<SubscriberId, Seq<EventView>> {
    match event {
        Some(e) => deliver(pending, e, capacity),
        None => pending,
    }
}

impl Connection {
    /// Id of the player that this connection owns.
    pub fn id(&self) -> (id: &String)
        ensures
            id@ == self@.id,
    {
        &self.id
    }

    /// This connection's subscription to the fan-out.
    pub fn subscriber(&self) -> (subscriber: SubscriberId)
        ensures
            subscriber == self@.subscriber,
    {
        self.subscriber
    }

    /// Admits a player under the given id, unless the id is in use.
    ///
    /// Opens the connection's subscription, registers the player at the
    /// starting position, announces it to every subscriber and returns the
    /// connection together with the encoded snapshot of the registry that
    /// is to be sent to the new peer alone. An id that is registered
    /// already is refused and nothing changes.
    pub fn admit_with_id(world: &mut WorldState, fanout: &mut Fanout, id: String) -> (admitted:
        Result<(Connection, Vec<u8>), AdmissionError>)
        requires
            old(world).wf(),
            old(fanout).wf(),
        ensures
            final(world).wf(),
            final(fanout).wf(),
            match admitted {
                Ok((conn, greeting)) => {
                    admission(
                        id@,
                        old(world).roster(),
                        old(fanout)@,
                        final(world).roster(),
                        final(fanout)@,
                        conn@,
                        greeting@,
                    )
                },
                Err(AdmissionError::IdInUse) => {
                    &&& old(world)@.contains_key(id@)
                    &&& final(world).roster() == old(world).roster()
                    &&& final(fanout)@ == old(fanout)@
                },
            },
    {
        if world.contains(&id) {
            return Err(AdmissionError::IdInUse);
        }
        proof {
            lemma_roster_insert(world.roster(), PlayerView::spawned(id@));
        }
        let subscriber = fanout.subscribe();
        let player = Player::spawn(id.clone());
        let joined = Event::PlayerJoined { player: player.clone() };
        world.insert(player);
        fanout.publish(&joined);
        let greeting = encode(&Event::WorldSnapshot { players: world.snapshot() });
        Ok((Connection { id, subscriber }, greeting))
    }

    /// Admits a player under a freshly drawn random id.
    ///
    /// The id is a version 4 UUID in its hyphenated form. Should the draw
    /// hit an id that is in use, the player is not admitted; that can only
    /// happen to a registry that holds an id of that form, so admission
    /// into any other registry succeeds.
    pub fn admit_fresh(world: &mut WorldState, fanout: &mut Fanout) -> (admitted: Result<
        (Connection, Vec<u8>),
        AdmissionError,
    >)
        requires
            old(world).wf(),
            old(fanout).wf(),
        ensures
            final(world).wf(),
            final(fanout).wf(),
            match admitted {
                Ok((conn, greeting)) => {
                    &&& is_uuid_text(conn@.id)
                    &&& admission(
                        conn@.id,
                        old(world).roster(),
                        old(fanout)@,
                        final(world).roster(),
                        final(fanout)@,
                        conn@,
                        greeting@,
                    )
                },
                Err(AdmissionError::IdInUse) => {
                    &&& holds_uuid(old(world)@)
                    &&& final(world).roster() == old(world).roster()
                    &&& final(fanout)@ == old(fanout)@
                },
            },
    {
        let id = random_uuid_text();
        let ghost drawn = id@;
        let admitted = Connection::admit_with_id(world, fanout, id);
        assert(admitted is Err ==> is_uuid_text(drawn) && old(world)@.contains_key(drawn));
        admitted
    }

    /// Handles one message from the peer, whichever channel it came in on.
    ///
    /// Bytes that do not decode are discarded and the connection stays up.
    /// Of the events that do decode, a move is applied to the sender's own
    /// record and a chat line is passed on; both are published under the
    /// sender's own id, whatever id the message carried. Everything else is
    /// ignored.
    pub fn receive(&self, world: &mut WorldState, fanout: &mut Fanout, data: &[u8]) -> (receipt:
        Receipt)
        requires
            old(world).wf(),
            old(fanout).wf(),
        ensures
            final(world).wf(),
            final(fanout).wf(),
            receipt == receipt_for(old(world)@.contains_key(self@.id), data@),
            final(world).roster() == roster_after_inbound(old(world).roster(), self@.id, data@),
            final(world)@ == world_after_inbound(old(world)@, self@.id, data@),
            final(fanout)@.capacity == old(fanout)@.capacity,
            final(fanout)@.pending == deliver_if(
                old(fanout)@.pending,
                relayed(self@.id, old(world)@.contains_key(self@.id), data@),
                old(fanout)@.capacity,
            ),
    {
        match decode(data) {
            Err(e) => Receipt::Rejected(e),
            Ok(Event::PlayerMoved { x, y, .. }) => {
                if world.update_position(&self.id, x, y) {
                    fanout.publish(&Event::PlayerMoved { player_id: self.id.clone(), x, y });
                    Receipt::Published
                } else {
                    Receipt::NotRegistered
                }
            },
            Ok(Event::ChatMessage { text, .. }) => {
                fanout.publish(&Event::ChatMessage { player_id: self.id.clone(), text });
                Receipt::Published
            },
            Ok(_) => Receipt::Ignored,
        }
    }

    /// Takes the oldest event off this connection's subscription and
    /// encodes it for the peer, unless it is about the connection's own
    /// player: the peer is not told what it did itself.
    pub fn forward(&self, fanout: &mut Fanout) -> (next: Forward)
        requires
            old(fanout).wf(),
        ensures
            final(fanout).wf(),
            final(fanout)@.capacity == old(fanout)@.capacity,
            match next {
                Forward::Idle => {
                    &&& old(fanout)@.pending.contains_key(self@.subscriber) ==> old(
                        fanout,
                    )@.pending[self@.subscriber].len() == 0
                    &&& final(fanout)@ == old(fanout)@
                },
                Forward::Skipped => {
                    &&& has_pending(old(fanout)@, self@.subscriber)
                    &&& oldest(old(fanout)@, self@.subscriber).subject() == Some(self@.id)
                    &&& final(fanout)@.pending == without_oldest(old(fanout)@, self@.subscriber)
                },
                Forward::Send(bytes) => {
                    &&& has_pending(old(fanout)@, self@.subscriber)
                    &&& oldest(old(fanout)@, self@.subscriber).subject() != Some(self@.id)
                    &&& bytes@ == wire_event(oldest(old(fanout)@, self@.subscriber))
                    &&& final(fanout)@.pending == without_oldest(old(fanout)@, self@.subscriber)
                },
            },
    {
        match fanout.poll(self.subscriber) {
            None => Forward::Idle,
            Some(event) => {
                if event.concerns(&self.id) {
                    Forward::Skipped
                } else {
                    Forward::Send(encode(&event))
                }
            },
        }
    }

    /// Empties this connection's subscription and returns, in order, the
    /// encodings of the events that are for the peer: all but those about
    /// the connection's own player.
    pub fn drain(&self, fanout: &mut Fanout) -> (batch: Vec<Vec<u8>>)
        requires
            old(fanout).wf(),
        ensures
            final(fanout).wf(),
            final(fanout)@.capacity == old(fanout)@.capacity,
            if old(fanout)@.pending.contains_key(self@.subscriber) {
                &&& byte_views(batch@) == outbox(
                    old(fanout)@.pending[self@.subscriber],
                    self@.id,
                )
                &&& final(fanout)@.pending == old(fanout)@.pending.insert(
                    self@.subscriber,
                    Seq::empty(),
                )
            } else {
                &&& batch@.len() == 0
                &&& final(fanout)@ == old(fanout)@
            },
    {
        let ghost open = fanout@.pending.contains_key(self@.subscriber);
        let ghost all = fanout@.pending[self@.subscriber];
        let mut batch: Vec<Vec<u8>> = Vec::new();
        loop
            invariant
                fanout.wf(),
                fanout@.capacity == old(fanout)@.capacity,
                open == old(fanout)@.pending.contains_key(self@.subscriber),
                all == old(fanout)@.pending[self@.subscriber],
                open ==> fanout@.pending == old(fanout)@.pending.insert(
                    self@.subscriber,
                    fanout@.pending[self@.subscriber],
                ),
                open ==> byte_views(batch@) + outbox(fanout@.pending[self@.subscriber], self@.id)
                    == outbox(all, self@.id),
                !open ==> batch@.len() == 0 && fanout@ == old(fanout)@,
            ensures
                fanout.wf(),
                fanout@.capacity == old(fanout)@.capacity,
                open ==> byte_views(batch@) == outbox(all, self@.id),
                open ==> fanout@.pending == old(fanout)@.pending.insert(
                    self@.subscriber,
                    Seq::empty(),
                ),
                !open ==> batch@.len() == 0 && fanout@ == old(fanout)@,
            decreases
                    if fanout@.pending.contains_key(self@.subscriber) {
                        fanout@.pending[self@.subscriber].len()
                    } else {
                        0
                    },
        {
            let ghost before = fanout@.pending[self@.subscriber];
            match self.forward(fanout) {
                Forward::Idle => {
                    assert(open ==> before =~= Seq::<EventView>::empty());
                    break ;
                },
                Forward::Skipped => {},
                Forward::Send(bytes) => {
                    batch.push(bytes);
                },
            }
        }
        batch
    }

    /// Closes the connection: takes its player out of the registry, tells
    /// the others that the player left and gives up the subscription.
    pub fn close(self, world: &mut WorldState, fanout: &mut Fanout)
        requires
            old(world).wf(),
            old(fanout).wf(),
        ensures
            final(world).wf(),
            final(fanout).wf(),
            final(world).roster() == roster_remove(old(world).roster(), self@.id),
            final(world)@ == old(world)@.remove(self@.id),
            final(fanout)@.capacity == old(fanout)@.capacity,
            final(fanout)@.pending == deliver(
                old(fanout)@.pending,
                EventView::PlayerLeft { player_id: self@.id },
                old(fanout)@.capacity,
            ).remove(self@.subscriber),
    {
        world.remove(&self.id);
        fanout.publish(&Event::PlayerLeft { player_id: self.id });
        fanout.unsubscribe(self.subscriber);
    }
}

/// The contents of a run of byte buffers, in order.
pub open spec fn byte_views(buffers: Seq<Vec<u8>>) -> Seq<Seq<u8>> {
    buffers.map_values(|b: Vec<u8>| b@)
}

/// What the peer of the player `id` is sent for a run of pending events:
/// the encoding of each event that is not about that player, in order.
pub open spec fn outbox(pending: Seq<EventView>, id: Seq<char>) -> Seq<Seq<u8>>
    decreases pending.len(),
{
    if pending.len() == 0 {
        Seq::empty()
    } else if pending[0].subject() == Some(id) {
        outbox(pending.drop_first(), id)
    } else {
        seq![wire_event(pending[0])] + outbox(pending.drop_first(), id)
    }
}

/// Whether a subscription is open and has something pending.
pub open spec fn has_pending(hub: FanoutView, id: SubscriberId) -> bool {
    hub.pending.contains_key(id) && hub.pending[id].len() > 0
}

/// The oldest pending event of a subscription.
pub open spec fn oldest(hub: FanoutView, id: SubscriberId) -> EventView {
    hub.pending[id][0]
}

/// Every queue after a subscription gave up its oldest pending event.
pub open spec fn without_oldest(hub: FanoutView, id: SubscriberId) -> Map<
    SubscriberId,
    Seq<EventView>,
> {
    hub.pending.insert(id, hub.pending[id].drop_first())
}

} // verus!
