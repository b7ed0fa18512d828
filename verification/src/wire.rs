//! The wire format of events, as mathematics.
//!
//! An event is a `u32` tag followed by the fields of its variant in
//! declaration order. A text field is a `u64` byte count followed by that
//! many bytes of UTF-8; a coordinate is the `u32` of its bit pattern; a list
//! of players is a `u64` element count followed by the elements. Integers
//! are little-endian: the least significant byte comes first.
//!
//! `wire_*` say what bytes a value becomes, `parse_*` say what value the
//! head of a byte string denotes (or why it denotes none), and the lemmas at
//! the end show that the two agree.

use vstd::prelude::*;
use vstd::utf8::*;
use crate::event::EventView;
use crate::player::PlayerView;

verus! {

/// Tag of `PlayerJoined`.
pub const TAG_PLAYER_JOINED: u32 = 0;

/// Tag of `PlayerLeft`.
pub const TAG_PLAYER_LEFT: u32 = 1;

/// Tag of `PlayerMoved`.
pub const TAG_PLAYER_MOVED: u32 = 2;

/// Tag of `ChatMessage`.
pub const TAG_CHAT_MESSAGE: u32 = 3;

/// Tag of `WorldSnapshot`.
pub const TAG_WORLD_SNAPSHOT: u32 = 4;

/// Why a byte string is not the encoding of an event.
#[derive(Clone, Copy, Debug, PartialEq, Eq, Structural)]
pub enum DecodeError {
    /// The bytes end before the field being read does.
    Truncated,
    /// The tag names no variant.
    UnknownTag(u32),
    /// A text field holds bytes that are not UTF-8.
    InvalidText,
}

/// What reading one item off the head of a byte string gives: the item and
/// the bytes after it, or the reason there is no item.
pub type Parse<T> = Result<(T, Seq<u8>), DecodeError>;

// ---------------------------------------------------------------------
// Serialisation
// ---------------------------------------------------------------------

/// Whether the byte count of a text fits its length field.
pub open spec fn text_fits(s: Seq<char>) -> bool {
    encode_utf8(s).len() <= u64::MAX
}

/// Whether every text of a player record fits its length field.
pub open spec fn player_fits(p: PlayerView) -> bool {
    text_fits(p.id) && text_fits(p.name)
}

/// Whether every length in an event fits its length field. Every event
/// that exists in memory does.
pub open spec fn event_fits(e: EventView) -> bool {
    match e {
        EventView::PlayerJoined { player } => player_fits(player),
        EventView::PlayerLeft { player_id } => text_fits(player_id),
        EventView::PlayerMoved { player_id, .. } => text_fits(player_id),
        EventView::ChatMessage { player_id, text } => text_fits(player_id) && text_fits(text),
        EventView::WorldSnapshot { players } => {
            &&& players.len() <= u64::MAX
            &&& forall|i: int| 0 <= i < players.len() ==> player_fits(#[trigger] players[i])
        },
    }
}

/// The two bytes of a `u16`, least significant first.
pub open spec fn wire_u16(v: u16) -> Seq<u8> {
    seq![(v % 0x100) as u8, (v / 0x100) as u8]
}

/// The four bytes of a `u32`: its low half, then its high half.
#[verifier::opaque]
pub open spec fn wire_u32(v: u32) -> Seq<u8> {
    wire_u16((v % 0x1_0000) as u16) + wire_u16((v / 0x1_0000) as u16)
}

/// The eight bytes of a `u64`: its low half, then its high half.
#[verifier::opaque]
pub open spec fn wire_u64(v: u64) -> Seq<u8> {
    wire_u32((v % 0x1_0000_0000) as u32) + wire_u32((v / 0x1_0000_0000) as u32)
}

/// The number that two bytes spell, least significant first.
pub open spec fn u16_of(b: Seq<u8>) -> u16 {
    (b[0] + b[1] * 0x100) as u16
}

/// The number that four bytes spell, least significant first.
#[verifier::opaque]
pub open spec fn u32_of(b: Seq<u8>) -> u32 {
    (u16_of(b.subrange(0, 2)) + u16_of(b.subrange(2, 4)) * 0x1_0000) as u32
}

/// The number that eight bytes spell, least significant first.
#[verifier::opaque]
pub open spec fn u64_of(b: Seq<u8>) -> u64 {
    (u32_of(b.subrange(0, 4)) + u32_of(b.subrange(4, 8)) * 0x1_0000_0000) as u64
}

/// The bytes of a text: the count of its UTF-8 bytes, then those bytes.
pub open spec fn wire_text(s: Seq<char>) -> Seq<u8> {
    wire_u64(encode_utf8(s).len() as u64) + encode_utf8(s)
}

/// The bytes of a player record: id, name, x, y.
pub open spec fn wire_player(p: PlayerView) -> Seq<u8> {
    wire_text(p.id) + wire_text(p.name) + wire_u32(p.x) + wire_u32(p.y)
}

/// The records of a list one after another, without the count.
pub open spec fn wire_players(ps: Seq<PlayerView>) -> Seq<u8>
    decreases ps.len(),
{
    if ps.len() == 0 {
        Seq::empty()
    } else {
        wire_player(ps[0]) + wire_players(ps.drop_first())
    }
}

/// The bytes that stand for an event.
pub open spec fn wire_event(e: EventView) -> Seq<u8> {
    match e {
        EventView::PlayerJoined { player } => wire_u32(TAG_PLAYER_JOINED) + wire_player(player),
        EventView::PlayerLeft { player_id } => wire_u32(TAG_PLAYER_LEFT) + wire_text(player_id),
        EventView::PlayerMoved { player_id, x, y } => wire_u32(TAG_PLAYER_MOVED) + wire_text(
            player_id,
        ) + wire_u32(x) + wire_u32(y),
        EventView::ChatMessage { player_id, text } => wire_u32(TAG_CHAT_MESSAGE) + wire_text(
            player_id,
        ) + wire_text(text),
        EventView::WorldSnapshot { players } => wire_u32(TAG_WORLD_SNAPSHOT) + wire_u64(
            players.len() as u64,
        ) + wire_players(players),
    }
}

/// Appending a record to a list appends its bytes to the list's bytes.
pub proof fn lemma_wire_players_push(ps: Seq<PlayerView>, p: PlayerView)
    ensures
        wire_players(ps.push(p)) == wire_players(ps) + wire_player(p),
    decreases ps.len(),
{
    let q = ps.push(p);
    if ps.len() == 0 {
        assert(wire_players(q.drop_first()) =~= Seq::<u8>::empty());
    } else {
        assert(q.drop_first() =~= ps.drop_first().push(p));
        lemma_wire_players_push(ps.drop_first(), p);
    }
}

// ---------------------------------------------------------------------
// Parsing
// ---------------------------------------------------------------------

/// Reads a `u32`.
pub open spec fn parse_u32(b: Seq<u8>) -> Parse<u32> {
    if b.len() < 4 {
        Err(DecodeError::Truncated)
    } else {
        Ok((u32_of(b.subrange(0, 4)), b.skip(4)))
    }
}

/// Reads a `u64`.
pub open spec fn parse_u64(b: Seq<u8>) -> Parse<u64> {
    if b.len() < 8 {
        Err(DecodeError::Truncated)
    } else {
        Ok((u64_of(b.subrange(0, 8)), b.skip(8)))
    }
}

/// Reads a text. The byte count is checked against what is left before
/// the bytes are checked for being UTF-8.
pub open spec fn parse_text(b: Seq<u8>) -> Parse<Seq<char>> {
    match parse_u64(b) {
        Err(e) => Err(e),
        Ok((n, body)) => {
            if body.len() < n {
                Err(DecodeError::Truncated)
            } else if !valid_utf8(body.subrange(0, n as int)) {
                Err(DecodeError::InvalidText)
            } else {
                Ok((decode_utf8(body.subrange(0, n as int)), body.skip(n as int)))
            }
        },
    }
}

/// Reads a player record.
pub open spec fn parse_player(b: Seq<u8>) -> Parse<PlayerView> {
    match parse_text(b) {
        Err(e) => Err(e),
        Ok((id, b1)) => match parse_text(b1) {
            Err(e) => Err(e),
            Ok((name, b2)) => match parse_u32(b2) {
                Err(e) => Err(e),
                Ok((x, b3)) => match parse_u32(b3) {
                    Err(e) => Err(e),
                    Ok((y, b4)) => Ok((PlayerView { id, name, x, y }, b4)),
                },
            },
        },
    }
}

/// Reads `count` player records one after another.
pub open spec fn parse_players(b: Seq<u8>, count: nat) -> Parse<Seq<PlayerView>>
    decreases count,
{
    if count == 0 {
        Ok((Seq::empty(), b))
    } else {
        match parse_player(b) {
            Err(e) => Err(e),
            Ok((p, b1)) => match parse_players(b1, (count - 1) as nat) {
                Err(e) => Err(e),
                Ok((ps, b2)) => Ok((seq![p] + ps, b2)),
            },
        }
    }
}

/// Reads the fields of the variant that `tag` names.
pub open spec fn parse_body(tag: u32, b: Seq<u8>) -> Parse<EventView> {
    if tag == TAG_PLAYER_JOINED {
        match parse_player(b) {
            Err(e) => Err(e),
            Ok((player, rest)) => Ok((EventView::PlayerJoined { player }, rest)),
        }
    } else if tag == TAG_PLAYER_LEFT {
        match parse_text(b) {
            Err(e) => Err(e),
            Ok((player_id, rest)) => Ok((EventView::PlayerLeft { player_id }, rest)),
        }
    } else if tag == TAG_PLAYER_MOVED {
        match parse_text(b) {
            Err(e) => Err(e),
            Ok((player_id, b1)) => match parse_u32(b1) {
                Err(e) => Err(e),
                Ok((x, b2)) => match parse_u32(b2) {
                    Err(e) => Err(e),
                    Ok((y, rest)) => Ok((EventView::PlayerMoved { player_id, x, y }, rest)),
                },
            },
        }
    } else if tag == TAG_CHAT_MESSAGE {
        match parse_text(b) {
            Err(e) => Err(e),
            Ok((player_id, b1)) => match parse_text(b1) {
                Err(e) => Err(e),
                Ok((text, rest)) => Ok((EventView::ChatMessage { player_id, text }, rest)),
            },
        }
    } else if tag == TAG_WORLD_SNAPSHOT {
        match parse_u64(b) {
            Err(e) => Err(e),
            Ok((count, b1)) => match parse_players(b1, count as nat) {
                Err(e) => Err(e),
                Ok((players, rest)) => Ok((EventView::WorldSnapshot { players }, rest)),
            },
        }
    } else {
        Err(DecodeError::UnknownTag(tag))
    }
}

/// Reads one event off the head of a byte string.
pub open spec fn parse_event(b: Seq<u8>) -> Parse<EventView> {
    match parse_u32(b) {
        Err(e) => Err(e),
        Ok((tag, body)) => parse_body(tag, body),
    }
}

/// The event that a byte string denotes. Bytes after the event are not
/// looked at.
pub open spec fn decoded(b: Seq<u8>) -> Result<EventView, DecodeError> {
    match parse_event(b) {
        Err(e) => Err(e),
        Ok((event, _)) => Ok(event),
    }
}

// ---------------------------------------------------------------------
// Integers
// ---------------------------------------------------------------------

/// Reading the bytes of a `u32` gives the number back.
proof fn lemma_u32_of_wire(v: u32)
    ensures
        wire_u32(v).len() == 4,
        u32_of(wire_u32(v)) == v,
{
    reveal(wire_u32);
    reveal(u32_of);
}

/// Four bytes are the bytes of the number they spell.
proof fn lemma_wire_of_u32(b: Seq<u8>)
    requires
        b.len() == 4,
    ensures
        wire_u32(u32_of(b)) == b,
{
    reveal(wire_u32);
    reveal(u32_of);
}

/// Reading the bytes of a `u64` gives the number back.
proof fn lemma_u64_of_wire(v: u64)
    ensures
        wire_u64(v).len() == 8,
        u64_of(wire_u64(v)) == v,
{
    reveal(wire_u64);
    reveal(u64_of);
    let lo = (v % 0x1_0000_0000) as u32;
    let hi = (v / 0x1_0000_0000) as u32;
    lemma_u32_of_wire(lo);
    lemma_u32_of_wire(hi);
    assert(wire_u64(v).subrange(0, 4) =~= wire_u32(lo));
    assert(wire_u64(v).subrange(4, 8) =~= wire_u32(hi));
}

/// Eight bytes are the bytes of the number they spell.
proof fn lemma_wire_of_u64(b: Seq<u8>)
    requires
        b.len() == 8,
    ensures
        wire_u64(u64_of(b)) == b,
{
    reveal(wire_u64);
    reveal(u64_of);
    lemma_wire_of_u32(b.subrange(0, 4));
    lemma_wire_of_u32(b.subrange(4, 8));
}

// ---------------------------------------------------------------------
// Parsing undoes serialisation
// ---------------------------------------------------------------------

proof fn lemma_parse_wire_u32(v: u32, tail: Seq<u8>)
    ensures
        wire_u32(v).len() == 4,
        parse_u32(wire_u32(v) + tail) == Ok::<(u32, Seq<u8>), DecodeError>((v, tail)),
{
    lemma_u32_of_wire(v);
    let b = wire_u32(v) + tail;
    assert(b.subrange(0, 4) =~= wire_u32(v));
    assert(b.skip(4) =~= tail);
}

proof fn lemma_parse_wire_u64(v: u64, tail: Seq<u8>)
    ensures
        wire_u64(v).len() == 8,
        parse_u64(wire_u64(v) + tail) == Ok::<(u64, Seq<u8>), DecodeError>((v, tail)),
{
    lemma_u64_of_wire(v);
    let b = wire_u64(v) + tail;
    assert(b.subrange(0, 8) =~= wire_u64(v));
    assert(b.skip(8) =~= tail);
}

proof fn lemma_parse_wire_text(s: Seq<char>, tail: Seq<u8>)
    requires
        text_fits(s),
    ensures
        parse_text(wire_text(s) + tail) == Ok::<(Seq<char>, Seq<u8>), DecodeError>((s, tail)),
{
    let bytes = encode_utf8(s);
    let n = bytes.len() as u64;
    assert(wire_text(s) + tail =~= wire_u64(n) + (bytes + tail));
    lemma_parse_wire_u64(n, bytes + tail);
    assert((bytes + tail).subrange(0, n as int) =~= bytes);
    assert((bytes + tail).skip(n as int) =~= tail);
    encode_utf8_valid_utf8(s);
    encode_utf8_decode_utf8(s);
}

proof fn lemma_parse_wire_player(p: PlayerView, tail: Seq<u8>)
    requires
        player_fits(p),
    ensures
        parse_player(wire_player(p) + tail) == Ok::<(PlayerView, Seq<u8>), DecodeError>((p, tail)),
{
    let b3 = wire_u32(p.y) + tail;
    let b2 = wire_u32(p.x) + b3;
    let b1 = wire_text(p.name) + b2;
    assert(wire_player(p) + tail =~= wire_text(p.id) + b1);
    lemma_parse_wire_text(p.id, b1);
    lemma_parse_wire_text(p.name, b2);
    lemma_parse_wire_u32(p.x, b3);
    lemma_parse_wire_u32(p.y, tail);
}

proof fn lemma_parse_wire_players(ps: Seq<PlayerView>, tail: Seq<u8>)
    requires
        forall|i: int| 0 <= i < ps.len() ==> player_fits(#[trigger] ps[i]),
    ensures
        parse_players(wire_players(ps) + tail, ps.len()) == Ok::<
            (Seq<PlayerView>, Seq<u8>),
            DecodeError,
        >((ps, tail)),
    decreases ps.len(),
{
    if ps.len() == 0 {
        assert(wire_players(ps) + tail =~= tail);
        assert(ps =~= Seq::empty());
    } else {
        let rest = ps.drop_first();
        let b1 = wire_players(rest) + tail;
        assert(wire_players(ps) + tail =~= wire_player(ps[0]) + b1);
        lemma_parse_wire_player(ps[0], b1);
        lemma_parse_wire_players(rest, tail);
        assert(seq![ps[0]] + rest =~= ps);
    }
}

/// Reading the encoding of an event gives the event back and leaves
/// whatever followed it.
pub proof fn law_parse_inverts_wire(e: EventView, tail: Seq<u8>)
    requires
        event_fits(e),
    ensures
        parse_event(wire_event(e) + tail) == Ok::<(EventView, Seq<u8>), DecodeError>((e, tail)),
{
    match e {
        EventView::PlayerJoined { player } => {
            let b = wire_player(player) + tail;
            assert(wire_event(e) + tail =~= wire_u32(TAG_PLAYER_JOINED) + b);
            lemma_parse_wire_u32(TAG_PLAYER_JOINED, b);
            lemma_parse_wire_player(player, tail);
        },
        EventView::PlayerLeft { player_id } => {
            let b = wire_text(player_id) + tail;
            assert(wire_event(e) + tail =~= wire_u32(TAG_PLAYER_LEFT) + b);
            lemma_parse_wire_u32(TAG_PLAYER_LEFT, b);
            lemma_parse_wire_text(player_id, tail);
        },
        EventView::PlayerMoved { player_id, x, y } => {
            let b2 = wire_u32(y) + tail;
            let b1 = wire_u32(x) + b2;
            let b = wire_text(player_id) + b1;
            assert(wire_event(e) + tail =~= wire_u32(TAG_PLAYER_MOVED) + b);
            lemma_parse_wire_u32(TAG_PLAYER_MOVED, b);
            lemma_parse_wire_text(player_id, b1);
            lemma_parse_wire_u32(x, b2);
            lemma_parse_wire_u32(y, tail);
        },
        EventView::ChatMessage { player_id, text } => {
            let b1 = wire_text(text) + tail;
            let b = wire_text(player_id) + b1;
            assert(wire_event(e) + tail =~= wire_u32(TAG_CHAT_MESSAGE) + b);
            lemma_parse_wire_u32(TAG_CHAT_MESSAGE, b);
            lemma_parse_wire_text(player_id, b1);
            lemma_parse_wire_text(text, tail);
        },
        EventView::WorldSnapshot { players } => {
            let count = players.len() as u64;
            let b1 = wire_players(players) + tail;
            let b = wire_u64(count) + b1;
            assert(wire_event(e) + tail =~= wire_u32(TAG_WORLD_SNAPSHOT) + b);
            lemma_parse_wire_u32(TAG_WORLD_SNAPSHOT, b);
            lemma_parse_wire_u64(count, b1);
            lemma_parse_wire_players(players, tail);
        },
    }
}

/// Decoding is a left inverse of encoding: for every event, the bytes it is
/// encoded to decode to that event again, whatever bit patterns its
/// coordinates hold.
pub proof fn law_decode_inverts_encode(e: EventView)
    requires
        event_fits(e),
    ensures
        decoded(wire_event(e)) == Ok::<EventView, DecodeError>(e),
{
    law_parse_inverts_wire(e, Seq::empty());
}

// ---------------------------------------------------------------------
// Only serialisations parse
// ---------------------------------------------------------------------

proof fn lemma_parsed_u32(b: Seq<u8>)
    ensures
        parse_u32(b) matches Ok((v, rest)) ==> b == wire_u32(v) + rest,
{
    if b.len() >= 4 {
        lemma_wire_of_u32(b.subrange(0, 4));
    }
}

proof fn lemma_parsed_u64(b: Seq<u8>)
    ensures
        parse_u64(b) matches Ok((v, rest)) ==> b == wire_u64(v) + rest,
{
    if b.len() >= 8 {
        lemma_wire_of_u64(b.subrange(0, 8));
    }
}

proof fn lemma_parsed_text(b: Seq<u8>)
    ensures
        parse_text(b) matches Ok((s, rest)) ==> text_fits(s) && b == wire_text(s) + rest,
{
    if let Ok((s, rest)) = parse_text(b) {
        lemma_parsed_u64(b);
        let (n, body) = parse_u64(b)->Ok_0;
        decode_utf8_encode_utf8(body.subrange(0, n as int));
    }
}

proof fn lemma_parsed_player(b: Seq<u8>)
    ensures
        parse_player(b) matches Ok((p, rest)) ==> player_fits(p) && b == wire_player(p) + rest,
{
    if let Ok((p, rest)) = parse_player(b) {
        lemma_parsed_text(b);
        let b1 = parse_text(b)->Ok_0.1;
        lemma_parsed_text(b1);
        let b2 = parse_text(b1)->Ok_0.1;
        lemma_parsed_u32(b2);
        let b3 = parse_u32(b2)->Ok_0.1;
        lemma_parsed_u32(b3);
    }
}

proof fn lemma_parsed_players(b: Seq<u8>, count: nat)
    ensures
        parse_players(b, count) matches Ok((ps, rest)) ==> {
            &&& ps.len() == count
            &&& forall|i: int| 0 <= i < ps.len() ==> player_fits(#[trigger] ps[i])
            &&& b == wire_players(ps) + rest
        },
    decreases count,
{
    if count > 0 {
        lemma_parsed_player(b);
        if let Ok((p, b1)) = parse_player(b) {
            lemma_parsed_players(b1, (count - 1) as nat);
            if let Ok((tail, rest)) = parse_players(b1, (count - 1) as nat) {
                let ps = seq![p] + tail;
                assert(ps.drop_first() =~= tail);
            }
        }
    }
}

proof fn lemma_parsed_body(tag: u32, b: Seq<u8>)
    ensures
        parse_body(tag, b) matches Ok((e, rest)) ==> {
            &&& event_fits(e)
            &&& wire_u32(tag) + b == wire_event(e) + rest
        },
{
    if tag == TAG_PLAYER_JOINED {
        lemma_parsed_player(b);
    } else if tag == TAG_PLAYER_LEFT {
        lemma_parsed_text(b);
    } else if tag == TAG_PLAYER_MOVED {
        lemma_parsed_text(b);
        if let Ok((_, b1)) = parse_text(b) {
            lemma_parsed_u32(b1);
            if let Ok((_, b2)) = parse_u32(b1) {
                lemma_parsed_u32(b2);
            }
        }
    } else if tag == TAG_CHAT_MESSAGE {
        lemma_parsed_text(b);
        if let Ok((_, b1)) = parse_text(b) {
            lemma_parsed_text(b1);
        }
    } else if tag == TAG_WORLD_SNAPSHOT {
        lemma_parsed_u64(b);
        if let Ok((count, b1)) = parse_u64(b) {
            lemma_parsed_players(b1, count as nat);
        }
    }
}

/// Whatever parses as an event is the encoding of that event, followed by
/// the bytes that the parse left over: no two byte strings decode to the
/// same event unless they differ only after it.
pub proof fn law_parsed_bytes_are_the_encoding(b: Seq<u8>)
    ensures
        parse_event(b) matches Ok((e, rest)) ==> event_fits(e) && b == wire_event(e) + rest,
{
    lemma_parsed_u32(b);
    if let Ok((tag, body)) = parse_u32(b) {
        lemma_parsed_body(tag, body);
    }
}

} // verus!
