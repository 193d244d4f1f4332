//! Properties and tiles, and their form on the wire.
use vstd::bytes::*;
use vstd::prelude::*;
use vstd::slice::*;
use vstd::utf8::*;

use crate::codec::{
    bytes_end, encode_str, encode_u64_list, fits, lemma_len_numbers, lemma_len_str,
    lemma_len_u64_list, lemma_overlay_join, lemma_overlay_window, lemma_pubkey_at, lemma_str_at,
    lemma_u64_at, lemma_u64_list_at, lemma_window_part, overlay, pubkey_at, read_pubkey, read_str,
    read_u64, read_u64_list, read_u8, str_at, str_readable, u64_at, u64_list_at, u64_list_end,
    u64_list_readable, write_pubkey, write_str, write_u64, write_u64_list, write_u8,
};
use crate::error::ProgramError;
use crate::pubkey::{lemma_pubkey_len, Pubkey};
use crate::state::{lemma_color_roundtrip, lemma_special_tile_roundtrip, Color, SpecialTile};

verus! {

/// A tile that a player can own.
#[derive(Debug, PartialEq)]
pub struct Property {
    pub name: String,
    pub color: Color,
    pub cost: u64,
    /// Rent by house count: with no house, with one to four houses, with a hotel.
    /// Railroads and utilities have a shorter schedule.
    pub rent: Vec<u64>,
    pub house_cost: u64,
    pub hotel_cost: u64,
    pub house_rent: Vec<u64>,
    pub owner: Option<Pubkey>,
    /// Houses on the property; five stand for a hotel.
    pub houses: u8,
}

/// What a property is, apart from how it is held in memory.
pub struct PropertyView {
    pub name: Seq<char>,
    pub color: Color,
    pub cost: u64,
    pub rent: Seq<u64>,
    pub house_cost: u64,
    pub hotel_cost: u64,
    pub house_rent: Seq<u64>,
    pub owner: Option<Pubkey>,
    pub houses: u8,
}

impl View for Property {
    type V = PropertyView;

    open spec fn view(&self) -> PropertyView {
        PropertyView {
            name: self.name@,
            color: self.color,
            cost: self.cost,
            rent: self.rent@,
            house_cost: self.house_cost,
            hotel_cost: self.hotel_cost,
            house_rent: self.house_rent@,
            owner: self.owner,
            houses: self.houses,
        }
    }
}

impl Clone for Property {
    fn clone(&self) -> (copy: Property)
        ensures
            copy@ == self@,
    {
        Property {
            name: self.name.clone(),
            color: self.color,
            cost: self.cost,
            rent: slice_to_vec(self.rent.as_slice()),
            house_cost: self.house_cost,
            hotel_cost: self.hotel_cost,
            house_rent: slice_to_vec(self.house_rent.as_slice()),
            owner: self.owner,
            houses: self.houses,
        }
    }
}

/// The bytes of an optional owner: a flag, and the identity where there is one.
pub open spec fn encode_owner(owner: Option<Pubkey>) -> Seq<u8> {
    match owner {
        None => seq![0u8],
        Some(key) => seq![1u8] + key@,
    }
}

impl PropertyView {
    /// Whether the lengths of this property can be written as 32-bit counts.
    pub open spec fn encodable(self) -> bool {
        &&& encode_utf8(self.name).len() <= u32::MAX
        &&& self.rent.len() <= u32::MAX
        &&& self.house_rent.len() <= u32::MAX
    }

    /// The bytes of this property: name, colour, cost, rent schedule, house cost,
    /// hotel cost, house rents, owner, houses.
    pub open spec fn encode(self) -> Seq<u8> {
        encode_str(self.name) + seq![self.color.tag()] + spec_u64_to_le_bytes(self.cost)
            + encode_u64_list(self.rent) + spec_u64_to_le_bytes(self.house_cost)
            + spec_u64_to_le_bytes(self.hotel_cost) + encode_u64_list(self.house_rent)
            + encode_owner(self.owner) + seq![self.houses]
    }

    /// Number of bytes of `encode`.
    pub open spec fn encoded_len(self) -> int {
        4 + encode_utf8(self.name).len() + 1 + 8 + (4 + 8 * self.rent.len()) + 8 + 8 + (4 + 8
            * self.house_rent.len()) + (if self.owner is Some {
            33int
        } else {
            1int
        }) + 1
    }

    /// Whether rent for houses can be charged on this property and houses built
    /// on it: its rent schedule covers every house count.
    pub open spec fn is_street(self) -> bool {
        self.rent.len() == 6
    }

    /// The rent that the schedule names for the houses that stand, if it names
    /// one.
    pub open spec fn scheduled_rent(self) -> Option<u64> {
        if self.houses < self.rent.len() {
            Some(self.rent[self.houses as int])
        } else {
            None
        }
    }
}

impl Property {
    /// Bytes reserved for a property where properties are stored in a row.
    pub const LEN: usize = 1024;

    /// Position of the colour of the property stored at `at`.
    pub open spec fn color_pos(s: Seq<u8>, at: int) -> int {
        bytes_end(s, at)
    }

    /// Position of the rent schedule of the property stored at `at`.
    pub open spec fn rent_pos(s: Seq<u8>, at: int) -> int {
        Self::color_pos(s, at) + 9
    }

    /// Position of the house cost of the property stored at `at`.
    pub open spec fn house_cost_pos(s: Seq<u8>, at: int) -> int {
        u64_list_end(s, Self::rent_pos(s, at))
    }

    /// Position of the house rents of the property stored at `at`.
    pub open spec fn house_rent_pos(s: Seq<u8>, at: int) -> int {
        Self::house_cost_pos(s, at) + 16
    }

    /// Position of the owner flag of the property stored at `at`.
    pub open spec fn owner_pos(s: Seq<u8>, at: int) -> int {
        u64_list_end(s, Self::house_rent_pos(s, at))
    }

    /// Position of the house count of the property stored at `at`.
    pub open spec fn houses_pos(s: Seq<u8>, at: int) -> int {
        Self::owner_pos(s, at) + 1 + if s[Self::owner_pos(s, at)] != 0 {
            32int
        } else {
            0int
        }
    }

    /// The position just behind the property stored at `at`.
    pub open spec fn end(s: Seq<u8>, at: int) -> int {
        Self::houses_pos(s, at) + 1
    }

    /// Whether a property can be read at `at`: every field lies inside `s`, the
    /// name is UTF-8 and the colour byte stands for a colour.
    pub open spec fn readable(s: Seq<u8>, at: int) -> bool {
        &&& str_readable(s, at)
        &&& fits(s, Self::color_pos(s, at), 9)
        &&& Color::from_tag(s[Self::color_pos(s, at)]) is Some
        &&& u64_list_readable(s, Self::rent_pos(s, at))
        &&& fits(s, Self::house_cost_pos(s, at), 16)
        &&& u64_list_readable(s, Self::house_rent_pos(s, at))
        &&& fits(s, Self::owner_pos(s, at), 1)
        &&& fits(s, Self::houses_pos(s, at), 1)
    }

    /// The property stored at `at`.
    pub open spec fn at(s: Seq<u8>, at: int) -> PropertyView {
        PropertyView {
            name: str_at(s, at),
            color: Color::from_tag(s[Self::color_pos(s, at)]).unwrap(),
            cost: u64_at(s, Self::color_pos(s, at) + 1),
            rent: u64_list_at(s, Self::rent_pos(s, at)),
            house_cost: u64_at(s, Self::house_cost_pos(s, at)),
            hotel_cost: u64_at(s, Self::house_cost_pos(s, at) + 8),
            house_rent: u64_list_at(s, Self::house_rent_pos(s, at)),
            owner: if s[Self::owner_pos(s, at)] != 0 {
                Some(pubkey_at(s, Self::owner_pos(s, at) + 1))
            } else {
                None
            },
            houses: s[Self::houses_pos(s, at)],
        }
    }

    /// The property that the bytes start with, if they start with one.
    pub open spec fn decode(s: Seq<u8>) -> Option<PropertyView> {
        if Self::readable(s, 0) {
            Some(Self::at(s, 0))
        } else {
            None
        }
    }

    /// This property itself; every property is one.
    pub fn as_property(&self) -> (p: Option<&Property>)
        ensures
            p == Some(self),
    {
        Some(self)
    }

    /// A property always holds a state.
    pub fn is_initialized(&self) -> (b: bool)
        ensures
            b,
    {
        true
    }

    /// The rent that the schedule names for the houses that stand: the step of
    /// the schedule at the house count, or `None` where the schedule is shorter.
    pub fn scheduled_rent(&self) -> (rent: Option<u64>)
        ensures
            rent == self@.scheduled_rent(),
    {
        let step = self.houses as usize;
        if step < self.rent.len() {
            Some(self.rent[step])
        } else {
            None
        }
    }

    /// Number of bytes of this property on the wire, or `None` where a length
    /// does not fit its 32-bit count or the sum does not fit a `usize`.
    pub fn encoded_len(&self) -> (n: Option<usize>)
        ensures
            match n {
                Some(n) => self@.encodable() && n == self@.encode().len(),
                None => !self@.encodable() || self@.encode().len() > usize::MAX,
            },
    {
        proof {
            lemma_property_len(self@);
        }
        let name_len = self.name.as_str().as_bytes().len();
        let rent_len = self.rent.len();
        let house_rent_len = self.house_rent.len();
        if name_len > u32::MAX as usize || rent_len > u32::MAX as usize || house_rent_len
            > u32::MAX as usize {
            return None;
        }
        let owner_len: u128 = if self.owner.is_some() {
            33
        } else {
            1
        };
        let total: u128 = 4 + name_len as u128 + 1 + 8 + (4 + 8 * rent_len as u128) + 8 + 8 + (4
            + 8 * house_rent_len as u128) + owner_len + 1;
        if total > usize::MAX as u128 {
            None
        } else {
            Some(total as usize)
        }
    }

    /// Writes the property from `at` on and returns the position behind it.
    pub fn pack_at(&self, dst: &mut [u8], at: usize) -> (end: usize)
        requires
            self@.encodable(),
            fits(old(dst)@, at as int, self@.encode().len() as int),
        ensures
            final(dst)@ == overlay(old(dst)@, at as int, self@.encode()),
            end == at + self@.encode().len(),
    {
        assert(dst.len() == dst@.len());
        let ghost v = self@;
        let ghost start = old(dst)@;
        proof {
            lemma_property_len(v);
            lemma_len_numbers(0, 0);
            lemma_auto_spec_u64_to_from_le_bytes();
        }
        let p = write_str(dst, at, self.name.as_str());
        let ghost e1 = encode_str(v.name);
        write_u8(dst, p, self.color.to_tag());
        let ghost e2 = e1 + seq![v.color.tag()];
        proof {
            lemma_overlay_join(start, at as int, e1, seq![v.color.tag()]);
        }
        write_u64(dst, p + 1, self.cost);
        let ghost e3 = e2 + spec_u64_to_le_bytes(v.cost);
        proof {
            lemma_overlay_join(start, at as int, e2, spec_u64_to_le_bytes(v.cost));
        }
        let p = write_u64_list(dst, p + 9, &self.rent);
        let ghost e4 = e3 + encode_u64_list(v.rent);
        proof {
            lemma_overlay_join(start, at as int, e3, encode_u64_list(v.rent));
        }
        write_u64(dst, p, self.house_cost);
        let ghost e5 = e4 + spec_u64_to_le_bytes(v.house_cost);
        proof {
            lemma_overlay_join(start, at as int, e4, spec_u64_to_le_bytes(v.house_cost));
        }
        write_u64(dst, p + 8, self.hotel_cost);
        let ghost e6 = e5 + spec_u64_to_le_bytes(v.hotel_cost);
        proof {
            lemma_overlay_join(start, at as int, e5, spec_u64_to_le_bytes(v.hotel_cost));
        }
        let p = write_u64_list(dst, p + 16, &self.house_rent);
        let ghost e7 = e6 + encode_u64_list(v.house_rent);
        proof {
            lemma_overlay_join(start, at as int, e6, encode_u64_list(v.house_rent));
        }
        let p = match &self.owner {
            Some(key) => {
                proof {
                    lemma_pubkey_len(*key);
                }
                write_u8(dst, p, 1);
                proof {
                    lemma_overlay_join(start, at as int, e7, seq![1u8]);
                }
                write_pubkey(dst, p + 1, key);
                proof {
                    lemma_overlay_join(start, at as int, e7 + seq![1u8], key@);
                    assert(e7 + seq![1u8] + key@ =~= e7 + encode_owner(v.owner));
                }
                p + 33
            },
            None => {
                write_u8(dst, p, 0);
                proof {
                    lemma_overlay_join(start, at as int, e7, seq![0u8]);
                }
                p + 1
            },
        };
        let ghost e8 = e7 + encode_owner(v.owner);
        write_u8(dst, p, self.houses);
        proof {
            lemma_overlay_join(start, at as int, e8, seq![v.houses]);
        }
        p + 1
    }

    /// Reads the property at `at`; returns it with the position behind it.
    pub fn unpack_at(src: &[u8], at: usize) -> (r: Option<(Property, usize)>)
        ensures
            match r {
                Some((p, end)) => Self::readable(src@, at as int) && p@ == Self::at(
                    src@,
                    at as int,
                ) && end == Self::end(src@, at as int),
                None => !Self::readable(src@, at as int),
            },
    {
        assert(src.len() == src@.len());
        let (name, color_at) = match read_str(src, at) {
            Some(x) => x,
            None => { return None; },
        };
        let color = match read_u8(src, color_at) {
            Some(b) => match Color::try_from_tag(b) {
                Some(c) => c,
                None => { return None; },
            },
            None => { return None; },
        };
        let cost = match read_u64(src, color_at + 1) {
            Some(x) => x,
            None => { return None; },
        };
        let (rent, house_cost_at) = match read_u64_list(src, color_at + 9) {
            Some(x) => x,
            None => { return None; },
        };
        let house_cost = match read_u64(src, house_cost_at) {
            Some(x) => x,
            None => { return None; },
        };
        let hotel_cost = match read_u64(src, house_cost_at + 8) {
            Some(x) => x,
            None => { return None; },
        };
        let (house_rent, owner_at) = match read_u64_list(src, house_cost_at + 16) {
            Some(x) => x,
            None => { return None; },
        };
        let flag = match read_u8(src, owner_at) {
            Some(b) => b,
            None => { return None; },
        };
        let (owner, houses_at) = if flag != 0 {
            match read_pubkey(src, owner_at + 1) {
                Some(key) => (Some(key), owner_at + 33),
                None => { return None; },
            }
        } else {
            (None, owner_at + 1)
        };
        let houses = match read_u8(src, houses_at) {
            Some(b) => b,
            None => { return None; },
        };
        let p = Property {
            name,
            color,
            cost,
            rent,
            house_cost,
            hotel_cost,
            house_rent,
            owner,
            houses,
        };
        Some((p, houses_at + 1))
    }

    /// Writes the property over the start of `dst`; the bytes behind it stay.
    pub fn pack_into_slice(&self, dst: &mut [u8])
        requires
            self@.encodable(),
            self@.encode().len() <= old(dst)@.len(),
        ensures
            final(dst)@ == overlay(old(dst)@, 0, self@.encode()),
            Self::decode(final(dst)@) == Some(self@),
    {
        self.pack_at(dst, 0);
        proof {
            lemma_overlay_window(old(dst)@, 0, self@.encode());
            lemma_property_roundtrip(dst@, 0, self@);
        }
    }

    /// Reads a property from the start of `src`.
    pub fn unpack_from_slice(src: &[u8]) -> (r: Result<Property, ProgramError>)
        ensures
            match r {
                Ok(p) => Self::decode(src@) == Some(p@),
                Err(e) => e == ProgramError::InvalidAccountData && Self::decode(src@) is None,
            },
    {
        match Property::unpack_at(src, 0) {
            Some((p, _)) => Ok(p),
            None => Err(ProgramError::InvalidAccountData),
        }
    }
}

/// The length of an encoded property.
pub proof fn lemma_property_len(v: PropertyView)
    ensures
        v.encode().len() == v.encoded_len(),
        v.encode().len() >= 39,
{
    lemma_len_str(v.name);
    lemma_len_u64_list(v.rent);
    lemma_len_u64_list(v.house_rent);
    lemma_len_numbers(0, v.cost);
    lemma_len_numbers(0, v.house_cost);
    lemma_len_numbers(0, v.hotel_cost);
    if let Some(key) = v.owner {
        lemma_pubkey_len(key);
    }
}

/// A property is read back from wherever its bytes stand.
pub proof fn lemma_property_roundtrip(s: Seq<u8>, at: int, v: PropertyView)
    requires
        v.encodable(),
        fits(s, at, v.encode().len() as int),
        s.subrange(at, at + v.encode().len()) == v.encode(),
    ensures
        Property::readable(s, at),
        Property::at(s, at) == v,
        Property::end(s, at) == at + v.encode().len(),
{
    lemma_property_len(v);
    lemma_len_str(v.name);
    lemma_len_u64_list(v.rent);
    lemma_len_u64_list(v.house_rent);
    lemma_len_numbers(0, v.cost);
    lemma_len_numbers(0, v.house_cost);
    lemma_len_numbers(0, v.hotel_cost);
    lemma_color_roundtrip(v.color);
    let enc = v.encode();
    let f1 = encode_str(v.name);
    let f2 = seq![v.color.tag()];
    let f3 = spec_u64_to_le_bytes(v.cost);
    let f4 = encode_u64_list(v.rent);
    let f5 = spec_u64_to_le_bytes(v.house_cost);
    let f6 = spec_u64_to_le_bytes(v.hotel_cost);
    let f7 = encode_u64_list(v.house_rent);
    let f8 = encode_owner(v.owner);
    let f9 = seq![v.houses];
    let o2 = f1.len() as int;
    let o3 = o2 + 1;
    let o4 = o3 + 8;
    let o5 = o4 + f4.len();
    let o6 = o5 + 8;
    let o7 = o6 + 8;
    let o8 = o7 + f7.len();
    let o9 = o8 + f8.len();
    if let Some(key) = v.owner {
        lemma_pubkey_len(key);
    }
    assert(enc.subrange(0, o2) =~= f1);
    lemma_window_part(s, at, enc, 0, f1);
    lemma_str_at(s, at, v.name);
    assert(enc.subrange(o2, o2 + 1) =~= f2);
    lemma_window_part(s, at, enc, o2, f2);
    assert(s[at + o2] == s.subrange(at + o2, at + o2 + 1)[0]);
    assert(enc.subrange(o3, o3 + 8) =~= f3);
    lemma_window_part(s, at, enc, o3, f3);
    lemma_u64_at(s, at + o3, v.cost);
    assert(enc.subrange(o4, o4 + f4.len()) =~= f4);
    lemma_window_part(s, at, enc, o4, f4);
    lemma_u64_list_at(s, at + o4, v.rent);
    assert(enc.subrange(o5, o5 + 8) =~= f5);
    lemma_window_part(s, at, enc, o5, f5);
    lemma_u64_at(s, at + o5, v.house_cost);
    assert(enc.subrange(o6, o6 + 8) =~= f6);
    lemma_window_part(s, at, enc, o6, f6);
    lemma_u64_at(s, at + o6, v.hotel_cost);
    assert(enc.subrange(o7, o7 + f7.len()) =~= f7);
    lemma_window_part(s, at, enc, o7, f7);
    lemma_u64_list_at(s, at + o7, v.house_rent);
    assert(enc.subrange(o8, o8 + f8.len()) =~= f8);
    lemma_window_part(s, at, enc, o8, f8);
    assert(s[at + o8] == s.subrange(at + o8, at + o8 + f8.len())[0]);
    if let Some(key) = v.owner {
        assert(f8.subrange(1, 33) =~= key@);
        lemma_window_part(s, at + o8, f8, 1, key@);
        lemma_pubkey_at(s, at + o8 + 1, key);
    }
    assert(enc.subrange(o9, o9 + 1) =~= f9);
    lemma_window_part(s, at, enc, o9, f9);
    assert(s[at + o9] == s.subrange(at + o9, at + o9 + 1)[0]);
}

/// A tile of the board: a property or a special tile.
#[derive(Debug, PartialEq)]
pub enum TileType {
    Property(Property),
    Special(SpecialTile),
}

impl Clone for TileType {
    fn clone(&self) -> (copy: TileType)
        ensures
            copy@ == self@,
    {
        match self {
            TileType::Property(p) => TileType::Property(p.clone()),
            TileType::Special(t) => TileType::Special(*t),
        }
    }
}

/// What a tile is, apart from how it is held in memory.
pub enum TileView {
    Property(PropertyView),
    Special(SpecialTile),
}

impl View for TileType {
    type V = TileView;

    open spec fn view(&self) -> TileView {
        match self {
            TileType::Property(p) => TileView::Property(p@),
            TileType::Special(t) => TileView::Special(*t),
        }
    }
}

impl TileView {
    /// Whether the lengths of this tile can be written as 32-bit counts.
    pub open spec fn encodable(self) -> bool {
        match self {
            TileView::Property(p) => p.encodable(),
            TileView::Special(_) => true,
        }
    }

    /// The bytes of this tile: 0 and the property, or 1 and the special tile.
    pub open spec fn encode(self) -> Seq<u8> {
        match self {
            TileView::Property(p) => seq![0u8] + p.encode(),
            TileView::Special(t) => seq![1u8] + t.encode(),
        }
    }
}

impl TileType {
    /// Bytes reserved for a tile where tiles are stored in a row: one for the
    /// kind and the room of a property.
    pub const LEN: usize = 1025;

    /// Whether a tile can be read at `at`.
    pub open spec fn readable(s: Seq<u8>, at: int) -> bool {
        fits(s, at, 1) && if s[at] == 0 {
            Property::readable(s, at + 1)
        } else {
            s[at] == 1 && fits(s, at + 1, 1) && SpecialTile::from_tag(s[at + 1]) is Some
        }
    }

    /// The tile stored at `at`.
    pub open spec fn at(s: Seq<u8>, at: int) -> TileView {
        if s[at] == 0 {
            TileView::Property(Property::at(s, at + 1))
        } else {
            TileView::Special(SpecialTile::from_tag(s[at + 1]).unwrap())
        }
    }

    /// The tile that the bytes start with, if they start with one.
    pub open spec fn decode(s: Seq<u8>) -> Option<TileView> {
        if Self::readable(s, 0) {
            Some(Self::at(s, 0))
        } else {
            None
        }
    }

    /// The property on this tile, if it is one.
    pub fn as_property(&self) -> (p: Option<&Property>)
        ensures
            match self {
                TileType::Property(prop) => p == Some(prop),
                TileType::Special(_) => p is None,
            },
    {
        match self {
            TileType::Property(prop) => Some(prop),
            _ => None,
        }
    }

    /// Number of bytes of this tile on the wire, or `None` where a length does
    /// not fit its 32-bit count or the sum does not fit a `usize`.
    pub fn encoded_len(&self) -> (n: Option<usize>)
        ensures
            match n {
                Some(n) => self@.encodable() && n == self@.encode().len(),
                None => !self@.encodable() || self@.encode().len() > usize::MAX,
            },
    {
        match self {
            TileType::Property(p) => match p.encoded_len() {
                Some(n) => if n < usize::MAX {
                    Some(n + 1)
                } else {
                    None
                },
                None => None,
            },
            TileType::Special(_) => Some(2),
        }
    }

    /// Writes the tile from `at` on and returns the position behind it.
    pub fn pack_at(&self, dst: &mut [u8], at: usize) -> (end: usize)
        requires
            self@.encodable(),
            fits(old(dst)@, at as int, self@.encode().len() as int),
        ensures
            final(dst)@ == overlay(old(dst)@, at as int, self@.encode()),
            end == at + self@.encode().len(),
    {
        assert(dst.len() == dst@.len());
        match self {
            TileType::Property(p) => {
                write_u8(dst, at, 0);
                let end = p.pack_at(dst, at + 1);
                proof {
                    lemma_overlay_join(old(dst)@, at as int, seq![0u8], p@.encode());
                }
                end
            },
            TileType::Special(t) => {
                write_u8(dst, at, 1);
                write_u8(dst, at + 1, t.to_tag());
                proof {
                    lemma_overlay_join(old(dst)@, at as int, seq![1u8], t.encode());
                }
                at + 2
            },
        }
    }

    /// Writes the tile over the start of `dst`; the bytes behind it stay.
    pub fn pack_into_slice(&self, dst: &mut [u8])
        requires
            self@.encodable(),
            self@.encode().len() <= old(dst)@.len(),
        ensures
            final(dst)@ == overlay(old(dst)@, 0, self@.encode()),
            Self::decode(final(dst)@) == Some(self@),
    {
        self.pack_at(dst, 0);
        proof {
            lemma_overlay_window(old(dst)@, 0, self@.encode());
            lemma_tile_roundtrip(dst@, 0, self@);
        }
    }

    /// Reads a tile from the start of `src`.
    pub fn unpack_from_slice(src: &[u8]) -> (r: Result<TileType, ProgramError>)
        ensures
            match r {
                Ok(t) => Self::decode(src@) == Some(t@),
                Err(e) => e == ProgramError::InvalidAccountData && Self::decode(src@) is None,
            },
    {
        let tag = match read_u8(src, 0) {
            Some(b) => b,
            None => { return Err(ProgramError::InvalidAccountData); },
        };
        if tag == 0 {
            match Property::unpack_at(src, 1) {
                Some((p, _)) => Ok(TileType::Property(p)),
                None => Err(ProgramError::InvalidAccountData),
            }
        } else if tag == 1 {
            match read_u8(src, 1) {
                Some(b) => match SpecialTile::try_from_tag(b) {
                    Some(t) => Ok(TileType::Special(t)),
                    None => Err(ProgramError::InvalidAccountData),
                },
                None => Err(ProgramError::InvalidAccountData),
            }
        } else {
            Err(ProgramError::InvalidAccountData)
        }
    }
}

/// A tile is read back from wherever its bytes stand.
pub proof fn lemma_tile_roundtrip(s: Seq<u8>, at: int, v: TileView)
    requires
        v.encodable(),
        fits(s, at, v.encode().len() as int),
        s.subrange(at, at + v.encode().len()) == v.encode(),
    ensures
        TileType::readable(s, at),
        TileType::at(s, at) == v,
{
    let enc = v.encode();
    assert(s[at] == s.subrange(at, at + enc.len())[0]);
    match v {
        TileView::Property(p) => {
            assert(enc.subrange(1, 1 + p.encode().len() as int) =~= p.encode());
            lemma_window_part(s, at, enc, 1, p.encode());
            lemma_property_roundtrip(s, at + 1, p);
        },
        TileView::Special(t) => {
            lemma_special_tile_roundtrip(t);
            assert(s[at + 1] == s.subrange(at, at + enc.len())[1]);
        },
    }
}

} // verus!
