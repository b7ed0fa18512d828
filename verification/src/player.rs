//! The record kept for one connected participant.

use vstd::prelude::*;
use vstd::string::*;

verus! {

/// IEEE-754 binary32 bit pattern of `50.0`, the coordinate every player starts at.
pub const START_COORD: u32 = 0x4248_0000;

/// Number of leading id characters that appear in a display name.
pub const NAME_ID_CHARS: usize = 6;

/// One connected participant.
///
/// Coordinates are carried as IEEE-754 binary32 bit patterns: the relay
/// stores and forwards positions without ever computing with them, so the
/// bits are the value.
#[derive(Debug, PartialEq, Eq)]
pub struct Player {
    pub id: String,
    pub name: String,
    pub x: u32,
    pub y: u32,
}

/// Mathematical value of a [`Player`].
pub struct PlayerView {
    pub id: Seq<char>,
    pub name: Seq<char>,
    pub x: u32,
    pub y: u32,
}

impl View for Player {
    type V = PlayerView;

    open spec fn view(&self) -> PlayerView {
        PlayerView { id: self.id@, name: self.name@, x: self.x, y: self.y }
    }
}

/// The fixed part of every display name.
pub open spec fn name_prefix() -> Seq<char> {
    seq!['P', 'l', 'a', 'y', 'e', 'r']
}

/// The display name that belongs to `id`: the fixed prefix followed by the
/// first `NAME_ID_CHARS` characters of the id (all of it, when it is
/// shorter).
pub open spec fn display_name_of(id: Seq<char>) -> Seq<char> {
    name_prefix() + id.subrange(
        0,
        if id.len() < NAME_ID_CHARS {
            id.len() as int
        } else {
            NAME_ID_CHARS as int
        },
    )
}

impl PlayerView {
    /// The record of a player that has just been admitted under `id`.
    pub open spec fn spawned(id: Seq<char>) -> PlayerView {
        PlayerView { id, name: display_name_of(id), x: START_COORD, y: START_COORD }
    }

    /// This record moved to `(x, y)`.
    pub open spec fn moved_to(self, x: u32, y: u32) -> PlayerView {
        PlayerView { x, y, ..self }
    }
}

/// Derives the display name of the player with the given id.
pub fn display_name(id: &str) -> (name: String)
    ensures
        name@ == display_name_of(id@),
{
    let len: usize = id.unicode_len();
    let shown: usize = if len < NAME_ID_CHARS { len } else { NAME_ID_CHARS };
    let head = id.substring_char(0, shown);
    proof {
        reveal_strlit("Player");
    }
    String::from_str("Player").concat(head)
}

impl Player {
    /// Creates the record of a newly admitted player: the name is derived
    /// from the id and the position is the fixed starting point.
    pub fn spawn(id: String) -> (player: Player)
        ensures
            player@ == PlayerView::spawned(id@),
    {
        let name = display_name(id.as_str());
        Player { id, name, x: START_COORD, y: START_COORD }
    }
}

impl Clone for Player {
    fn clone(&self) -> (copy: Player)
        ensures
            copy@ == self@,
    {
        Player { id: self.id.clone(), name: self.name.clone(), x: self.x, y: self.y }
    }
}

} // verus!
