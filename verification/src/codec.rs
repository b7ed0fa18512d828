//! Encoding events to bytes and decoding bytes to events.

use vstd::prelude::*;
use vstd::slice::*;
use vstd::string::*;
use vstd::utf8::*;
use crate::event::{player_views, Event, EventView};
use crate::player::{Player, PlayerView};
use crate::wire::{
    decoded, law_decode_inverts_encode, lemma_wire_players_push, parse_player, parse_players,
    parse_text, parse_u32, parse_u64, player_fits, text_fits, u16_of, u32_of, u64_of, wire_event,
    wire_player, wire_players, wire_text, wire_u16, wire_u32, wire_u64, DecodeError, Parse,
    TAG_CHAT_MESSAGE, TAG_PLAYER_JOINED, TAG_PLAYER_LEFT, TAG_PLAYER_MOVED, TAG_WORLD_SNAPSHOT,
};

verus! {

/// [`String::from_utf8`], with its error reduced to `None`.
///
/// Trusted: the standard library documents that the call succeeds exactly
/// when the bytes are valid UTF-8 and that the string it returns consists of
/// those bytes.
#[verifier::external_body]
fn string_from_utf8(bytes: Vec<u8>) -> (text: Option<String>)
    ensures
        text is Some <==> valid_utf8(bytes@),
        text matches Some(s) ==> encode_utf8(s@) == bytes@,
{
    match String::from_utf8(bytes) {
        Ok(s) => Some(s),
        Err(_) => None,
    }
}

// ---------------------------------------------------------------------
// Encoding
// ---------------------------------------------------------------------

fn put_u16(out: &mut Vec<u8>, v: u16)
    ensures
        final(out)@ == old(out)@ + wire_u16(v),
{
    out.push((v % 0x100) as u8);
    out.push((v / 0x100) as u8);
}

fn put_u32(out: &mut Vec<u8>, v: u32)
    ensures
        final(out)@ == old(out)@ + wire_u32(v),
{
    put_u16(out, (v % 0x1_0000) as u16);
    put_u16(out, (v / 0x1_0000) as u16);
    proof {
        reveal(wire_u32);
    }
}

fn put_u64(out: &mut Vec<u8>, v: u64)
    ensures
        final(out)@ == old(out)@ + wire_u64(v),
{
    put_u32(out, (v % 0x1_0000_0000) as u32);
    put_u32(out, (v / 0x1_0000_0000) as u32);
    proof {
        reveal(wire_u64);
    }
}

fn put_text(out: &mut Vec<u8>, s: &String)
    ensures
        text_fits(s@),
        final(out)@ == old(out)@ + wire_text(s@),
{
    let mut body = s.as_str().as_bytes_vec();
    put_u64(out, body.len() as u64);
    out.append(&mut body);
}

fn put_player(out: &mut Vec<u8>, p: &Player)
    ensures
        player_fits(p@),
        final(out)@ == old(out)@ + wire_player(p@),
{
    put_text(out, &p.id);
    put_text(out, &p.name);
    put_u32(out, p.x);
    put_u32(out, p.y);
}

fn put_players(out: &mut Vec<u8>, players: &Vec<Player>)
    ensures
        forall|i: int|
            0 <= i < players.len() ==> player_fits(#[trigger] player_views(players@)[i]),
        final(out)@ == old(out)@ + wire_players(player_views(players@)),
{
    let ghost all = player_views(players@);
    let mut i: usize = 0;
    while i < players.len()
        invariant
            i <= players.len(),
            all == player_views(players@),
            forall|j: int| 0 <= j < i ==> player_fits(#[trigger] all[j]),
            out@ == old(out)@ + wire_players(all.take(i as int)),
        decreases players.len() - i,
    {
        put_player(out, &players[i]);
        proof {
            lemma_wire_players_push(all.take(i as int), all[i as int]);
            assert(all.take(i as int).push(all[i as int]) =~= all.take(i + 1));
        }
        i += 1;
    }
    assert(all.take(i as int) =~= all);
}

/// Encodes an event.
///
/// Every event has an encoding, so this cannot fail; decoding the result
/// gives the event back.
pub fn encode(event: &Event) -> (bytes: Vec<u8>)
    ensures
        bytes@ == wire_event(event@),
        decoded(bytes@) == Ok::<EventView, DecodeError>(event@),
{
    let mut out: Vec<u8> = Vec::new();
    match event {
        Event::PlayerJoined { player } => {
            put_u32(&mut out, TAG_PLAYER_JOINED);
            put_player(&mut out, player);
        },
        Event::PlayerLeft { player_id } => {
            put_u32(&mut out, TAG_PLAYER_LEFT);
            put_text(&mut out, player_id);
        },
        Event::PlayerMoved { player_id, x, y } => {
            put_u32(&mut out, TAG_PLAYER_MOVED);
            put_text(&mut out, player_id);
            put_u32(&mut out, *x);
            put_u32(&mut out, *y);
        },
        Event::ChatMessage { player_id, text } => {
            put_u32(&mut out, TAG_CHAT_MESSAGE);
            put_text(&mut out, player_id);
            put_text(&mut out, text);
        },
        Event::WorldSnapshot { players } => {
            put_u32(&mut out, TAG_WORLD_SNAPSHOT);
            put_u64(&mut out, players.len() as u64);
            put_players(&mut out, players);
        },
    }
    proof {
        law_decode_inverts_encode(event@);
    }
    out
}

// ---------------------------------------------------------------------
// Decoding
// ---------------------------------------------------------------------

/// What a reader that started at `pos` and stopped at the returned offset
/// must have found there.
spec fn reads<T, V>(
    bytes: Seq<u8>,
    pos: usize,
    r: Result<(T, usize), DecodeError>,
    expected: Parse<V>,
    value: spec_fn(T) -> V,
) -> bool {
    match r {
        Ok((v, next)) => {
            &&& pos <= next <= bytes.len()
            &&& expected == Ok::<(V, Seq<u8>), DecodeError>((value(v), bytes.skip(next as int)))
        },
        Err(e) => expected == Err::<(V, Seq<u8>), DecodeError>(e),
    }
}

/// The `u16` at `pos`.
fn peek_u16(bytes: &[u8], pos: usize) -> (v: u16)
    requires
        pos + 2 <= bytes@.len() <= usize::MAX,
    ensures
        v == u16_of(bytes@.subrange(pos as int, pos + 2)),
{
    bytes[pos] as u16 + bytes[pos + 1] as u16 * 0x100
}

/// The `u32` at `pos`.
fn peek_u32(bytes: &[u8], pos: usize) -> (v: u32)
    requires
        pos + 4 <= bytes@.len() <= usize::MAX,
    ensures
        v == u32_of(bytes@.subrange(pos as int, pos + 4)),
{
    let lo = peek_u16(bytes, pos);
    let hi = peek_u16(bytes, pos + 2);
    proof {
        reveal(u32_of);
        let field = bytes@.subrange(pos as int, pos + 4);
        assert(field.subrange(0, 2) =~= bytes@.subrange(pos as int, pos + 2));
        assert(field.subrange(2, 4) =~= bytes@.subrange(pos + 2, pos + 4));
    }
    lo as u32 + hi as u32 * 0x1_0000
}

/// The `u64` at `pos`.
fn peek_u64(bytes: &[u8], pos: usize) -> (v: u64)
    requires
        pos + 8 <= bytes@.len() <= usize::MAX,
    ensures
        v == u64_of(bytes@.subrange(pos as int, pos + 8)),
{
    let lo = peek_u32(bytes, pos);
    let hi = peek_u32(bytes, pos + 4);
    proof {
        reveal(u64_of);
        let field = bytes@.subrange(pos as int, pos + 8);
        assert(field.subrange(0, 4) =~= bytes@.subrange(pos as int, pos + 4));
        assert(field.subrange(4, 8) =~= bytes@.subrange(pos + 4, pos + 8));
    }
    lo as u64 + hi as u64 * 0x1_0000_0000
}

fn take_u32(bytes: &[u8], pos: usize) -> (r: Result<(u32, usize), DecodeError>)
    requires
        pos <= bytes@.len(),
    ensures
        reads(bytes@, pos, r, parse_u32(bytes@.skip(pos as int)), |v: u32| v),
{
    if bytes.len() - pos < 4 {
        return Err(DecodeError::Truncated);
    }
    let v = peek_u32(bytes, pos);
    proof {
        assert(bytes@.skip(pos as int).subrange(0, 4) =~= bytes@.subrange(pos as int, pos + 4));
        assert(bytes@.skip(pos as int).skip(4) =~= bytes@.skip(pos + 4));
    }
    Ok((v, pos + 4))
}

fn take_u64(bytes: &[u8], pos: usize) -> (r: Result<(u64, usize), DecodeError>)
    requires
        pos <= bytes@.len(),
    ensures
        reads(bytes@, pos, r, parse_u64(bytes@.skip(pos as int)), |v: u64| v),
{
    if bytes.len() - pos < 8 {
        return Err(DecodeError::Truncated);
    }
    let v = peek_u64(bytes, pos);
    proof {
        assert(bytes@.skip(pos as int).subrange(0, 8) =~= bytes@.subrange(pos as int, pos + 8));
        assert(bytes@.skip(pos as int).skip(8) =~= bytes@.skip(pos + 8));
    }
    Ok((v, pos + 8))
}

fn take_text(bytes: &[u8], pos: usize) -> (r: Result<(String, usize), DecodeError>)
    requires
        pos <= bytes@.len(),
    ensures
        reads(bytes@, pos, r, parse_text(bytes@.skip(pos as int)), |s: String| s@),
{
    let (n, start) = take_u64(bytes, pos)?;
    let left: usize = bytes.len() - start;
    if n > left as u64 {
        return Err(DecodeError::Truncated);
    }
    let end: usize = start + n as usize;
    let field = slice_subrange(bytes, start, end);
    proof {
        assert(bytes@.skip(start as int).subrange(0, n as int) =~= field@);
        assert(bytes@.skip(start as int).skip(n as int) =~= bytes@.skip(end as int));
    }
    match string_from_utf8(slice_to_vec(field)) {
        Some(s) => {
            proof {
                encode_utf8_decode_utf8(s@);
            }
            Ok((s, end))
        },
        None => Err(DecodeError::InvalidText),
    }
}

fn take_player(bytes: &[u8], pos: usize) -> (r: Result<(Player, usize), DecodeError>)
    requires
        pos <= bytes@.len(),
    ensures
        reads(bytes@, pos, r, parse_player(bytes@.skip(pos as int)), |p: Player| p@),
{
    let (id, after_id) = take_text(bytes, pos)?;
    let (name, after_name) = take_text(bytes, after_id)?;
    let (x, after_x) = take_u32(bytes, after_name)?;
    let (y, end) = take_u32(bytes, after_x)?;
    Ok((Player { id, name, x, y }, end))
}

/// The outcome of reading a list once `done` has been read off its front
/// and `remaining` is the outcome of reading the rest.
spec fn after_reading(done: Seq<PlayerView>, remaining: Parse<Seq<PlayerView>>) -> Parse<
    Seq<PlayerView>,
> {
    match remaining {
        Ok((ps, rest)) => Ok((done + ps, rest)),
        Err(e) => Err(e),
    }
}

fn take_players(bytes: &[u8], pos: usize, count: u64) -> (r: Result<
    (Vec<Player>, usize),
    DecodeError,
>)
    requires
        pos <= bytes@.len(),
    ensures
        reads(
            bytes@,
            pos,
            r,
            parse_players(bytes@.skip(pos as int), count as nat),
            |ps: Vec<Player>| player_views(ps@),
        ),
{
    let ghost whole = parse_players(bytes@.skip(pos as int), count as nat);
    let mut players: Vec<Player> = Vec::new();
    let mut at: usize = pos;
    let mut i: u64 = 0;
    while i < count
        invariant
            i <= count,
            pos <= at <= bytes@.len(),
            whole == parse_players(bytes@.skip(pos as int), count as nat),
            whole == after_reading(
                player_views(players@),
                parse_players(bytes@.skip(at as int), (count - i) as nat),
            ),
        decreases count - i,
    {
        let ghost done = player_views(players@);
        match take_player(bytes, at) {
            Err(e) => {
                return Err(e);
            },
            Ok((p, next)) => {
                proof {
                    let later = parse_players(bytes@.skip(next as int), (count - i - 1) as nat);
                    assert(player_views(players@.push(p)) =~= done.push(p@));
                    if let Ok((ps, _)) = later {
                        assert(done + (seq![p@] + ps) =~= done.push(p@) + ps);
                    }
                }
                players.push(p);
                at = next;
                i += 1;
            },
        }
    }
    Ok((players, at))
}

/// Decodes the event at the head of `bytes`.
///
/// Fails, without effect, when the bytes end too early, name no variant or
/// hold text that is not UTF-8. Bytes after the event are ignored.
pub fn decode(bytes: &[u8]) -> (r: Result<Event, DecodeError>)
    ensures
        match r {
            Ok(event) => decoded(bytes@) == Ok::<EventView, DecodeError>(event@),
            Err(e) => decoded(bytes@) == Err::<EventView, DecodeError>(e),
        },
{
    assert(bytes@.skip(0) =~= bytes@);
    let (tag, body) = take_u32(bytes, 0)?;
    if tag == TAG_PLAYER_JOINED {
        match take_player(bytes, body) {
            Ok((player, _)) => Ok(Event::PlayerJoined { player }),
            Err(e) => Err(e),
        }
    } else if tag == TAG_PLAYER_LEFT {
        match take_text(bytes, body) {
            Ok((player_id, _)) => Ok(Event::PlayerLeft { player_id }),
            Err(e) => Err(e),
        }
    } else if tag == TAG_PLAYER_MOVED {
        let (player_id, after_id) = take_text(bytes, body)?;
        let (x, after_x) = take_u32(bytes, after_id)?;
        match take_u32(bytes, after_x) {
            Ok((y, _)) => Ok(Event::PlayerMoved { player_id, x, y }),
            Err(e) => Err(e),
        }
    } else if tag == TAG_CHAT_MESSAGE {
        let (player_id, after_id) = take_text(bytes, body)?;
        match take_text(bytes, after_id) {
            Ok((text, _)) => Ok(Event::ChatMessage { player_id, text }),
            Err(e) => Err(e),
        }
    } else if tag == TAG_WORLD_SNAPSHOT {
        let (count, after_count) = take_u64(bytes, body)?;
        match take_players(bytes, after_count, count) {
            Ok((players, _)) => Ok(Event::WorldSnapshot { players }),
            Err(e) => Err(e),
        }
    } else {
        Err(DecodeError::UnknownTag(tag))
    }
}

} // verus!
