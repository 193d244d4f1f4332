//! A player and its form on the wire.
use vstd::bytes::*;
use vstd::prelude::*;
use vstd::slice::*;
use vstd::utf8::*;

use crate::codec::{
    bytes_at, bytes_end, bytes_readable, encode_bytes, encode_str, fits, lemma_bytes_at,
    lemma_len_bytes, lemma_len_numbers, lemma_len_str, lemma_overlay_join, lemma_overlay_window,
    lemma_str_at, lemma_u64_at, lemma_window_part, overlay, read_bytes, read_str, read_u64,
    read_u8, str_at, str_readable, u64_at, write_bytes, write_str, write_u64, write_u8,
};
use crate::error::ProgramError;

verus! {

/// One player of a game.
#[derive(Debug, PartialEq)]
pub struct Player {
    pub name: String,
    pub cash: u64,
    /// Index of the tile on which the player stands.
    pub position: u8,
    /// Turns spent in jail so far; 0 when free.
    pub jail_turns: u8,
    /// Indices of the tiles that the player owns.
    pub properties: Vec<u8>,
    pub get_out_of_jail_cards: u8,
}

impl Clone for Player {
    fn clone(&self) -> (copy: Player)
        ensures
            copy@ == self@,
    {
        Player {
            name: self.name.clone(),
            cash: self.cash,
            position: self.position,
            jail_turns: self.jail_turns,
            properties: slice_to_vec(self.properties.as_slice()),
            get_out_of_jail_cards: self.get_out_of_jail_cards,
        }
    }
}

/// What a player is, apart from how it is held in memory.
pub struct PlayerView {
    pub name: Seq<char>,
    pub cash: u64,
    pub position: u8,
    pub jail_turns: u8,
    pub properties: Seq<u8>,
    pub get_out_of_jail_cards: u8,
}

impl View for Player {
    type V = PlayerView;

    open spec fn view(&self) -> PlayerView {
        PlayerView {
            name: self.name@,
            cash: self.cash,
            position: self.position,
            jail_turns: self.jail_turns,
            properties: self.properties@,
            get_out_of_jail_cards: self.get_out_of_jail_cards,
        }
    }
}

impl PlayerView {
    /// Whether the lengths of this player can be written as 32-bit counts.
    pub open spec fn encodable(self) -> bool {
        &&& encode_utf8(self.name).len() <= u32::MAX
        &&& self.properties.len() <= u32::MAX
    }

    /// The bytes of this player: name, cash, position, jail turns, owned tiles,
    /// jail cards.
    pub open spec fn encode(self) -> Seq<u8> {
        encode_str(self.name) + spec_u64_to_le_bytes(self.cash) + seq![self.position]
            + seq![self.jail_turns] + encode_bytes(self.properties)
            + seq![self.get_out_of_jail_cards]
    }

    /// Number of bytes of `encode`.
    pub open spec fn encoded_len(self) -> int {
        19 + encode_utf8(self.name).len() as int + self.properties.len() as int
    }

    /// A player is bankrupt who has neither cash nor a tile.
    pub open spec fn is_bankrupt(self) -> bool {
        self.cash == 0 && self.properties.len() == 0
    }

    /// Whether the player owns the tile with the given index.
    pub open spec fn owns(self, index: u8) -> bool {
        self.properties.contains(index)
    }
}

impl Player {
    /// Bytes reserved for a player where players are stored in a row.
    pub const LEN: usize = 512;

    /// Position of the cash of the player stored at `at`.
    pub open spec fn cash_pos(s: Seq<u8>, at: int) -> int {
        bytes_end(s, at)
    }

    /// Position of the owned tiles of the player stored at `at`.
    pub open spec fn properties_pos(s: Seq<u8>, at: int) -> int {
        Self::cash_pos(s, at) + 10
    }

    /// Position of the jail cards of the player stored at `at`.
    pub open spec fn cards_pos(s: Seq<u8>, at: int) -> int {
        bytes_end(s, Self::properties_pos(s, at))
    }

    /// The position just behind the player stored at `at`.
    pub open spec fn end(s: Seq<u8>, at: int) -> int {
        Self::cards_pos(s, at) + 1
    }

    /// Whether a player can be read at `at`: every field lies inside `s` and the
    /// name is UTF-8.
    pub open spec fn readable(s: Seq<u8>, at: int) -> bool {
        &&& str_readable(s, at)
        &&& fits(s, Self::cash_pos(s, at), 10)
        &&& bytes_readable(s, Self::properties_pos(s, at))
        &&& fits(s, Self::cards_pos(s, at), 1)
    }

    /// The player stored at `at`.
    pub open spec fn at(s: Seq<u8>, at: int) -> PlayerView {
        PlayerView {
            name: str_at(s, at),
            cash: u64_at(s, Self::cash_pos(s, at)),
            position: s[Self::cash_pos(s, at) + 8],
            jail_turns: s[Self::cash_pos(s, at) + 9],
            properties: bytes_at(s, Self::properties_pos(s, at)),
            get_out_of_jail_cards: s[Self::cards_pos(s, at)],
        }
    }

    /// The player that the bytes start with, if they start with one.
    pub open spec fn decode(s: Seq<u8>) -> Option<PlayerView> {
        if Self::readable(s, 0) {
            Some(Self::at(s, 0))
        } else {
            None
        }
    }

    /// A player always holds a state.
    pub fn is_initialized(&self) -> (b: bool)
        ensures
            b,
    {
        true
    }

    /// Whether the player is bankrupt.
    pub fn is_bankrupt(&self) -> (b: bool)
        ensures
            b == self@.is_bankrupt(),
    {
        self.cash == 0 && self.properties.len() == 0
    }

    /// Whether the player owns the tile with the given index.
    pub fn owns(&self, index: u8) -> (b: bool)
        ensures
            b == self@.owns(index),
    {
        let mut i: usize = 0;
        while i < self.properties.len()
            invariant
                i <= self.properties@.len(),
                forall|k: int| 0 <= k < i ==> self.properties@[k] != index,
            decreases self.properties@.len() - i,
        {
            if self.properties[i] == index {
                return true;
            }
            i += 1;
        }
        false
    }

    /// Number of bytes of this player on the wire, or `None` where a length does
    /// not fit its 32-bit count or the sum does not fit a `usize`.
    pub fn encoded_len(&self) -> (n: Option<usize>)
        ensures
            match n {
                Some(n) => self@.encodable() && n == self@.encode().len(),
                None => !self@.encodable() || self@.encode().len() > usize::MAX,
            },
    {
        proof {
            lemma_player_len(self@);
        }
        let name_len = self.name.as_str().as_bytes().len();
        let owned = self.properties.len();
        if name_len > u32::MAX as usize || owned > u32::MAX as usize {
            return None;
        }
        let total: u128 = 4 + name_len as u128 + 8 + 1 + 1 + 4 + owned as u128 + 1;
        if total > usize::MAX as u128 {
            None
        } else {
            Some(total as usize)
        }
    }

    /// Writes the player from `at` on and returns the position behind it.
    pub fn pack_at(&self, dst: &mut [u8], at: usize) -> (end: usize)
        requires
            self@.encodable(),
            fits(old(dst)@, at as int, self@.encode().len() as int),
        ensures
            final(dst)@ == overlay(old(dst)@, at as int, self@.encode()),
            end == at + self@.encode().len(),
    {
        assert(dst.len() == dst@.len());
        let ghost v = self@;
        let ghost start = old(dst)@;
        proof {
            lemma_player_len(v);
            lemma_len_numbers(0, 0);
            lemma_len_bytes(v.properties);
            lemma_auto_spec_u64_to_from_le_bytes();
        }
        let p = write_str(dst, at, self.name.as_str());
        let ghost e1 = encode_str(v.name);
        write_u64(dst, p, self.cash);
        let ghost e2 = e1 + spec_u64_to_le_bytes(v.cash);
        proof {
            lemma_overlay_join(start, at as int, e1, spec_u64_to_le_bytes(v.cash));
        }
        write_u8(dst, p + 8, self.position);
        let ghost e3 = e2 + seq![v.position];
        proof {
            lemma_overlay_join(start, at as int, e2, seq![v.position]);
        }
        write_u8(dst, p + 9, self.jail_turns);
        let ghost e4 = e3 + seq![v.jail_turns];
        proof {
            lemma_overlay_join(start, at as int, e3, seq![v.jail_turns]);
        }
        let p = write_bytes(dst, p + 10, self.properties.as_slice());
        let ghost e5 = e4 + encode_bytes(v.properties);
        proof {
            lemma_overlay_join(start, at as int, e4, encode_bytes(v.properties));
        }
        write_u8(dst, p, self.get_out_of_jail_cards);
        proof {
            lemma_overlay_join(start, at as int, e5, seq![v.get_out_of_jail_cards]);
        }
        p + 1
    }

    /// Reads the player at `at`; returns it with the position behind it.
    pub fn unpack_at(src: &[u8], at: usize) -> (r: Option<(Player, usize)>)
        ensures
            match r {
                Some((p, end)) => Self::readable(src@, at as int) && p@ == Self::at(
                    src@,
                    at as int,
                ) && end == Self::end(src@, at as int),
                None => !Self::readable(src@, at as int),
            },
    {
        assert(src.len() == src@.len());
        let (name, cash_at) = match read_str(src, at) {
            Some(x) => x,
            None => { return None; },
        };
        let cash = match read_u64(src, cash_at) {
            Some(x) => x,
            None => { return None; },
        };
        let position = match read_u8(src, cash_at + 8) {
            Some(x) => x,
            None => { return None; },
        };
        let jail_turns = match read_u8(src, cash_at + 9) {
            Some(x) => x,
            None => { return None; },
        };
        let (properties, cards_at) = match read_bytes(src, cash_at + 10) {
            Some(x) => x,
            None => { return None; },
        };
        let get_out_of_jail_cards = match read_u8(src, cards_at) {
            Some(x) => x,
            None => { return None; },
        };
        let p = Player { name, cash, position, jail_turns, properties, get_out_of_jail_cards };
        Some((p, cards_at + 1))
    }

    /// Writes the player over the start of `dst`; the bytes behind it stay.
    pub fn pack_into_slice(&self, dst: &mut [u8])
        requires
            self@.encodable(),
            self@.encode().len() <= old(dst)@.len(),
        ensures
            final(dst)@ == overlay(old(dst)@, 0, self@.encode()),
            Self::decode(final(dst)@) == Some(self@),
    {
        self.pack_at(dst, 0);
        proof {
            lemma_overlay_window(old(dst)@, 0, self@.encode());
            lemma_player_roundtrip(dst@, 0, self@);
        }
    }

    /// Reads a player from the start of `src`.
    pub fn unpack_from_slice(src: &[u8]) -> (r: Result<Player, ProgramError>)
        ensures
            match r {
                Ok(p) => Self::decode(src@) == Some(p@),
                Err(e) => e == ProgramError::InvalidAccountData && Self::decode(src@) is None,
            },
    {
        match Player::unpack_at(src, 0) {
            Some((p, _)) => Ok(p),
            None => Err(ProgramError::InvalidAccountData),
        }
    }
}

/// The length of an encoded player.
pub proof fn lemma_player_len(v: PlayerView)
    ensures
        v.encode().len() == v.encoded_len(),
        v.encode().len() >= 19,
{
    lemma_len_str(v.name);
    lemma_len_bytes(v.properties);
    lemma_len_numbers(0, v.cash);
}

/// A player is read back from wherever its bytes stand.
pub proof fn lemma_player_roundtrip(s: Seq<u8>, at: int, v: PlayerView)
    requires
        v.encodable(),
        fits(s, at, v.encode().len() as int),
        s.subrange(at, at + v.encode().len()) == v.encode(),
    ensures
        Player::readable(s, at),
        Player::at(s, at) == v,
        Player::end(s, at) == at + v.encode().len(),
{
    lemma_player_len(v);
    lemma_len_str(v.name);
    lemma_len_bytes(v.properties);
    lemma_len_numbers(0, v.cash);
    let enc = v.encode();
    let f1 = encode_str(v.name);
    let f2 = spec_u64_to_le_bytes(v.cash);
    let f5 = encode_bytes(v.properties);
    let o2 = f1.len() as int;
    let o3 = o2 + 8;
    let o4 = o3 + 1;
    let o5 = o4 + 1;
    let o6 = o5 + f5.len();
    assert(enc.subrange(0, o2) =~= f1);
    lemma_window_part(s, at, enc, 0, f1);
    lemma_str_at(s, at, v.name);
    assert(enc.subrange(o2, o2 + 8) =~= f2);
    lemma_window_part(s, at, enc, o2, f2);
    lemma_u64_at(s, at + o2, v.cash);
    assert(s[at + o3] == s.subrange(at, at + enc.len())[o3]);
    assert(s[at + o4] == s.subrange(at, at + enc.len())[o4]);
    assert(enc.subrange(o5, o5 + f5.len()) =~= f5);
    lemma_window_part(s, at, enc, o5, f5);
    lemma_bytes_at(s, at + o5, v.properties);
    assert(s[at + o6] == s.subrange(at, at + enc.len())[o6]);
}

} // verus!
