//! The small kinds of the game, each one byte or a few on the wire: colours,
//! special tiles and cards.
use vstd::bytes::*;
use vstd::prelude::*;
use vstd::slice::*;
use vstd::utf8::*;

use crate::codec::{
    decoded, fits, lemma_len_numbers, lemma_overlay_join, lemma_overlay_window, lemma_window_part,
    overlay, read_u64, read_u8, u64_at, write_u64, write_u8,
};
use crate::error::ProgramError;

verus! {

/// The colour group of a property.
#[derive(Clone, Copy, Debug, PartialEq, Eq, Structural)]
pub enum Color {
    Brown,
    LightBlue,
    Pink,
    Orange,
    Red,
    Yellow,
    Green,
    DarkBlue,
}

impl Color {
    /// Bytes that a colour takes on the wire.
    pub const LEN: usize = 1;

    /// The byte that stands for this colour.
    pub open spec fn tag(self) -> u8 {
        match self {
            Color::Brown => 0,
            Color::LightBlue => 1,
            Color::Pink => 2,
            Color::Orange => 3,
            Color::Red => 4,
            Color::Yellow => 5,
            Color::Green => 6,
            Color::DarkBlue => 7,
        }
    }

    /// The colour that a byte stands for, if any.
    pub open spec fn from_tag(b: u8) -> Option<Color> {
        if b == 0 {
            Some(Color::Brown)
        } else if b == 1 {
            Some(Color::LightBlue)
        } else if b == 2 {
            Some(Color::Pink)
        } else if b == 3 {
            Some(Color::Orange)
        } else if b == 4 {
            Some(Color::Red)
        } else if b == 5 {
            Some(Color::Yellow)
        } else if b == 6 {
            Some(Color::Green)
        } else if b == 7 {
            Some(Color::DarkBlue)
        } else {
            None
        }
    }

    /// The bytes of this colour.
    pub open spec fn encode(self) -> Seq<u8> {
        seq![self.tag()]
    }

    /// The colour that the bytes start with, if they start with one.
    pub open spec fn decode(s: Seq<u8>) -> Option<Color> {
        if s.len() >= 1 {
            Self::from_tag(s[0])
        } else {
            None
        }
    }

    /// The byte that stands for this colour.
    pub fn to_tag(&self) -> (b: u8)
        ensures
            b == self.tag(),
    {
        match self {
            Color::Brown => 0,
            Color::LightBlue => 1,
            Color::Pink => 2,
            Color::Orange => 3,
            Color::Red => 4,
            Color::Yellow => 5,
            Color::Green => 6,
            Color::DarkBlue => 7,
        }
    }

    /// The colour that a byte stands for, if any.
    pub fn try_from_tag(b: u8) -> (c: Option<Color>)
        ensures
            c == Self::from_tag(b),
    {
        match b {
            0 => Some(Color::Brown),
            1 => Some(Color::LightBlue),
            2 => Some(Color::Pink),
            3 => Some(Color::Orange),
            4 => Some(Color::Red),
            5 => Some(Color::Yellow),
            6 => Some(Color::Green),
            7 => Some(Color::DarkBlue),
            _ => None,
        }
    }

    /// Writes the colour over the first byte of `dst`.
    pub fn pack_into_slice(&self, dst: &mut [u8])
        requires
            old(dst)@.len() >= 1,
        ensures
            final(dst)@ == overlay(old(dst)@, 0, self.encode()),
            Self::decode(final(dst)@) == Some(*self),
    {
        write_u8(dst, 0, self.to_tag());
    }

    /// Reads a colour from the first byte of `src`.
    pub fn unpack_from_slice(src: &[u8]) -> (r: Result<Color, ProgramError>)
        ensures
            r == decoded(Self::decode(src@)),
    {
        match read_u8(src, 0) {
            Some(b) => match Color::try_from_tag(b) {
                Some(c) => Ok(c),
                None => Err(ProgramError::InvalidAccountData),
            },
            None => Err(ProgramError::InvalidAccountData),
        }
    }
}

/// A tile of the board that nobody can own.
#[derive(Clone, Copy, Debug, PartialEq, Eq, Structural)]
pub enum SpecialTile {
    Go,
    Jail,
    FreeParking,
    GoToJail,
    CommunityChest,
    Chance,
    IncomeTax,
    LuxuryTax,
}

impl SpecialTile {
    /// Bytes that a special tile takes on the wire.
    pub const LEN: usize = 1;

    /// The byte that stands for this tile.
    pub open spec fn tag(self) -> u8 {
        match self {
            SpecialTile::Go => 0,
            SpecialTile::Jail => 1,
            SpecialTile::FreeParking => 2,
            SpecialTile::GoToJail => 3,
            SpecialTile::CommunityChest => 4,
            SpecialTile::Chance => 5,
            SpecialTile::IncomeTax => 6,
            SpecialTile::LuxuryTax => 7,
        }
    }

    /// The tile that a byte stands for, if any.
    pub open spec fn from_tag(b: u8) -> Option<SpecialTile> {
        if b == 0 {
            Some(SpecialTile::Go)
        } else if b == 1 {
            Some(SpecialTile::Jail)
        } else if b == 2 {
            Some(SpecialTile::FreeParking)
        } else if b == 3 {
            Some(SpecialTile::GoToJail)
        } else if b == 4 {
            Some(SpecialTile::CommunityChest)
        } else if b == 5 {
            Some(SpecialTile::Chance)
        } else if b == 6 {
            Some(SpecialTile::IncomeTax)
        } else if b == 7 {
            Some(SpecialTile::LuxuryTax)
        } else {
            None
        }
    }

    /// The bytes of this tile.
    pub open spec fn encode(self) -> Seq<u8> {
        seq![self.tag()]
    }

    /// The tile that the bytes start with, if they start with one.
    pub open spec fn decode(s: Seq<u8>) -> Option<SpecialTile> {
        if s.len() >= 1 {
            Self::from_tag(s[0])
        } else {
            None
        }
    }

    /// The byte that stands for this tile.
    pub fn to_tag(&self) -> (b: u8)
        ensures
            b == self.tag(),
    {
        match self {
            SpecialTile::Go => 0,
            SpecialTile::Jail => 1,
            SpecialTile::FreeParking => 2,
            SpecialTile::GoToJail => 3,
            SpecialTile::CommunityChest => 4,
            SpecialTile::Chance => 5,
            SpecialTile::IncomeTax => 6,
            SpecialTile::LuxuryTax => 7,
        }
    }

    /// The tile that a byte stands for, if any.
    pub fn try_from_tag(b: u8) -> (t: Option<SpecialTile>)
        ensures
            t == Self::from_tag(b),
    {
        match b {
            0 => Some(SpecialTile::Go),
            1 => Some(SpecialTile::Jail),
            2 => Some(SpecialTile::FreeParking),
            3 => Some(SpecialTile::GoToJail),
            4 => Some(SpecialTile::CommunityChest),
            5 => Some(SpecialTile::Chance),
            6 => Some(SpecialTile::IncomeTax),
            7 => Some(SpecialTile::LuxuryTax),
            _ => None,
        }
    }

    /// Writes the tile over the first byte of `dst`.
    pub fn pack_into_slice(&self, dst: &mut [u8])
        requires
            old(dst)@.len() >= 1,
        ensures
            final(dst)@ == overlay(old(dst)@, 0, self.encode()),
            Self::decode(final(dst)@) == Some(*self),
    {
        write_u8(dst, 0, self.to_tag());
    }

    /// Reads a special tile from the first byte of `src`.
    pub fn unpack_from_slice(src: &[u8]) -> (r: Result<SpecialTile, ProgramError>)
        ensures
            r == decoded(Self::decode(src@)),
    {
        match read_u8(src, 0) {
            Some(b) => match SpecialTile::try_from_tag(b) {
                Some(t) => Ok(t),
                None => Err(ProgramError::InvalidAccountData),
            },
            None => Err(ProgramError::InvalidAccountData),
        }
    }
}

/// A card of one of the two decks.
#[derive(Clone, Copy, Debug, PartialEq, Eq, Structural)]
pub enum Card {
    /// The player who draws it receives the amount.
    CollectMoney(u64),
    /// The player who draws it pays the amount into the free-parking pot.
    PayMoney(u64),
    /// The player who draws it moves to the position.
    Move(u8),
    /// The player who draws it keeps it as a token to leave jail.
    GetOutOfJail,
}

impl Card {
    /// Bytes that the longest card takes on the wire: a tag and an amount.
    pub const LEN: usize = 9;

    /// The bytes of this card: a tag, then what the kind carries.
    pub open spec fn encode(self) -> Seq<u8> {
        match self {
            Card::CollectMoney(amount) => seq![0u8] + spec_u64_to_le_bytes(amount),
            Card::PayMoney(amount) => seq![1u8] + spec_u64_to_le_bytes(amount),
            Card::Move(position) => seq![2u8, position],
            Card::GetOutOfJail => seq![3u8],
        }
    }

    /// Whether a card can be read at `at`.
    pub open spec fn readable(s: Seq<u8>, at: int) -> bool {
        fits(s, at, 1) && if s[at] == 0 || s[at] == 1 {
            fits(s, at + 1, 8)
        } else if s[at] == 2 {
            fits(s, at + 1, 1)
        } else {
            s[at] == 3
        }
    }

    /// The card stored at `at`.
    pub open spec fn at(s: Seq<u8>, at: int) -> Card {
        if s[at] == 0 {
            Card::CollectMoney(u64_at(s, at + 1))
        } else if s[at] == 1 {
            Card::PayMoney(u64_at(s, at + 1))
        } else if s[at] == 2 {
            Card::Move(s[at + 1])
        } else {
            Card::GetOutOfJail
        }
    }

    /// The position just behind the card stored at `at`.
    pub open spec fn end(s: Seq<u8>, at: int) -> int {
        if s[at] == 0 || s[at] == 1 {
            at + 9
        } else if s[at] == 2 {
            at + 2
        } else {
            at + 1
        }
    }

    /// The card that the bytes start with, if they start with one.
    pub open spec fn decode(s: Seq<u8>) -> Option<Card> {
        if Self::readable(s, 0) {
            Some(Self::at(s, 0))
        } else {
            None
        }
    }

    /// Number of bytes of this card on the wire.
    pub fn encoded_len(&self) -> (n: usize)
        ensures
            n == self.encode().len(),
            1 <= n <= Card::LEN,
    {
        proof {
            lemma_len_numbers(0, 0);
            lemma_auto_spec_u64_to_from_le_bytes();
        }
        match self {
            Card::CollectMoney(_) => 9,
            Card::PayMoney(_) => 9,
            Card::Move(_) => 2,
            Card::GetOutOfJail => 1,
        }
    }

    /// Writes the card from `at` on and returns the position behind it.
    pub fn pack_at(&self, dst: &mut [u8], at: usize) -> (end: usize)
        requires
            fits(old(dst)@, at as int, self.encode().len() as int),
        ensures
            final(dst)@ == overlay(old(dst)@, at as int, self.encode()),
            end == at + self.encode().len(),
    {
        proof {
            lemma_auto_spec_u64_to_from_le_bytes();
        }
        assert(dst.len() == dst@.len());
        match self {
            Card::CollectMoney(amount) => {
                write_u8(dst, at, 0);
                write_u64(dst, at + 1, *amount);
                proof {
                    let rest = spec_u64_to_le_bytes(*amount);
                    lemma_overlay_join(old(dst)@, at as int, seq![0u8], rest);
                }
                at + 9
            },
            Card::PayMoney(amount) => {
                write_u8(dst, at, 1);
                write_u64(dst, at + 1, *amount);
                proof {
                    let rest = spec_u64_to_le_bytes(*amount);
                    lemma_overlay_join(old(dst)@, at as int, seq![1u8], rest);
                }
                at + 9
            },
            Card::Move(position) => {
                write_u8(dst, at, 2);
                write_u8(dst, at + 1, *position);
                proof {
                    lemma_overlay_join(old(dst)@, at as int, seq![2u8], seq![*position]);
                    assert(seq![2u8] + seq![*position] =~= seq![2u8, *position]);
                }
                at + 2
            },
            Card::GetOutOfJail => {
                write_u8(dst, at, 3);
                at + 1
            },
        }
    }

    /// Reads the card at `at`; returns it with the position behind it.
    pub fn unpack_at(src: &[u8], at: usize) -> (r: Option<(Card, usize)>)
        ensures
            match r {
                Some((card, end)) => Self::readable(src@, at as int) && card == Self::at(
                    src@,
                    at as int,
                ) && end == Self::end(src@, at as int),
                None => !Self::readable(src@, at as int),
            },
    {
        assert(src.len() == src@.len());
        let tag = match read_u8(src, at) {
            Some(tag) => tag,
            None => { return None; },
        };
        if tag == 0 {
            match read_u64(src, at + 1) {
                Some(amount) => Some((Card::CollectMoney(amount), at + 9)),
                None => None,
            }
        } else if tag == 1 {
            match read_u64(src, at + 1) {
                Some(amount) => Some((Card::PayMoney(amount), at + 9)),
                None => None,
            }
        } else if tag == 2 {
            match read_u8(src, at + 1) {
                Some(position) => Some((Card::Move(position), at + 2)),
                None => None,
            }
        } else if tag == 3 {
            Some((Card::GetOutOfJail, at + 1))
        } else {
            None
        }
    }

    /// Writes the card over the start of `dst`.
    pub fn pack_into_slice(&self, dst: &mut [u8])
        requires
            old(dst)@.len() >= self.encode().len(),
        ensures
            final(dst)@ == overlay(old(dst)@, 0, self.encode()),
            Self::decode(final(dst)@) == Some(*self),
    {
        self.pack_at(dst, 0);
        proof {
            lemma_overlay_window(old(dst)@, 0, self.encode());
            lemma_card_roundtrip(dst@, 0, *self);
        }
    }

    /// Reads a card from the start of `src`.
    pub fn unpack_from_slice(src: &[u8]) -> (r: Result<Card, ProgramError>)
        ensures
            r == decoded(Self::decode(src@)),
    {
        match Card::unpack_at(src, 0) {
            Some((card, _)) => Ok(card),
            None => Err(ProgramError::InvalidAccountData),
        }
    }
}

/// A colour is read back from its byte.
pub proof fn lemma_color_roundtrip(c: Color)
    ensures
        Color::from_tag(c.tag()) == Some(c),
        c.tag() < 8,
{
}

/// A special tile is read back from its byte.
pub proof fn lemma_special_tile_roundtrip(t: SpecialTile)
    ensures
        SpecialTile::from_tag(t.tag()) == Some(t),
        t.tag() < 8,
{
}

/// A card is read back from wherever its bytes stand.
pub proof fn lemma_card_roundtrip(s: Seq<u8>, at: int, card: Card)
    requires
        fits(s, at, card.encode().len() as int),
        s.subrange(at, at + card.encode().len()) == card.encode(),
    ensures
        Card::readable(s, at),
        Card::at(s, at) == card,
        Card::end(s, at) == at + card.encode().len(),
{
    lemma_auto_spec_u64_to_from_le_bytes();
    let enc = card.encode();
    assert(s[at] == s.subrange(at, at + enc.len())[0]);
    match card {
        Card::CollectMoney(amount) => {
            assert(enc.subrange(1, 9) =~= spec_u64_to_le_bytes(amount));
            lemma_window_part(s, at, enc, 1, spec_u64_to_le_bytes(amount));
        },
        Card::PayMoney(amount) => {
            assert(enc.subrange(1, 9) =~= spec_u64_to_le_bytes(amount));
            lemma_window_part(s, at, enc, 1, spec_u64_to_le_bytes(amount));
        },
        Card::Move(position) => {
            assert(s[at + 1] == s.subrange(at, at + enc.len())[1]);
        },
        Card::GetOutOfJail => {},
    }
}

} // verus!
