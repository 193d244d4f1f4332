//! Numbers derived from the host's clock, the rent table, and the rule of the
//! colour groups.
use sha3::{Digest, Keccak256};
use vstd::bytes::*;
use vstd::prelude::*;

use crate::error::ProgramError;
use crate::property::{TileType, TileView};
use crate::state::Color;

verus! {

/// What the host tells about time: a counter that only grows, and a coarse
/// timestamp. Both are public; numbers derived from them can be reproduced by
/// anyone and are no secret.
#[derive(Clone, Copy, Debug, PartialEq, Eq, Structural)]
pub struct Clock {
    pub slot: u64,
    pub unix_timestamp: i64,
}

/// The Keccak-256 digest of a byte string.
pub uninterp spec fn keccak256_digest(data: Seq<u8>) -> Seq<u8>;

/// `Keccak256::digest` of the crate sha3: the Keccak-256 digest of `data`, which
/// has 32 bytes.
#[verifier::external_body]
fn keccak256(data: &[u8]) -> (digest: Vec<u8>)
    ensures
        digest@ == keccak256_digest(data@),
        digest@.len() == 32,
{
    Keccak256::digest(data).to_vec()
}

/// The bytes that are hashed for one number: the counter, the timestamp and the
/// seed, each as eight bytes, lowest byte first.
pub open spec fn entropy(clock: Clock, seed: u64) -> Seq<u8> {
    spec_u64_to_le_bytes(clock.slot) + spec_u64_to_le_bytes(clock.unix_timestamp as u64)
        + spec_u64_to_le_bytes(seed)
}

/// The number between 1 and `range` that a digest stands for: its first byte,
/// reduced modulo `range`, plus one.
pub open spec fn spec_number_from_digest(digest: Seq<u8>, range: u8) -> int {
    (digest[0] as int % range as int) + 1
}

/// The number between 1 and `range` that clock and seed give.
pub open spec fn spec_random_number(clock: Clock, seed: u64, range: u8) -> int {
    spec_number_from_digest(keccak256_digest(entropy(clock, seed)), range)
}

/// The seed of the second die.
pub open spec fn next_seed(seed: u64) -> u64 {
    if seed == u64::MAX {
        0
    } else {
        (seed + 1) as u64
    }
}

/// The number between 1 and `range` that a digest stands for.
pub fn number_from_digest(digest: &[u8], range: u8) -> (n: u8)
    requires
        digest@.len() >= 1,
        range > 0,
    ensures
        n == spec_number_from_digest(digest@, range),
        1 <= n <= range,
{
    (digest[0] % range) + 1
}

/// A number between 1 and `range`, derived from the clock and the seed. The same
/// clock and seed always give the same number. A range of 0 is refused.
pub fn generate_random_number(clock: &Clock, seed: u64, range: u8) -> (r: Result<
    u8,
    ProgramError,
>)
    ensures
        match r {
            Ok(n) => range > 0 && n == spec_random_number(*clock, seed, range) && 1 <= n <= range,
            Err(e) => range == 0 && e == ProgramError::InvalidArgument,
        },
{
    if range == 0 {
        return Err(ProgramError::InvalidArgument);
    }
    let mut data = u64_to_le_bytes(clock.slot);
    let mut time = u64_to_le_bytes(clock.unix_timestamp as u64);
    let mut salt = u64_to_le_bytes(seed);
    data.append(&mut time);
    data.append(&mut salt);
    let digest = keccak256(data.as_slice());
    Ok(number_from_digest(digest.as_slice(), range))
}

/// Two dice, each between 1 and 6: the first from the seed, the second from the
/// seed that follows it.
pub fn roll_dice(clock: &Clock, seed: u64) -> (r: Result<(u8, u8), ProgramError>)
    ensures
        r is Ok,
        r.unwrap().0 == spec_random_number(*clock, seed, 6),
        r.unwrap().1 == spec_random_number(*clock, next_seed(seed), 6),
        1 <= r.unwrap().0 <= 6,
        1 <= r.unwrap().1 <= 6,
{
    let dice1 = match generate_random_number(clock, seed, 6) {
        Ok(n) => n,
        Err(e) => { return Err(e); },
    };
    let second = if seed == u64::MAX {
        0
    } else {
        seed + 1
    };
    let dice2 = match generate_random_number(clock, second, 6) {
        Ok(n) => n,
        Err(e) => { return Err(e); },
    };
    Ok((dice1, dice2))
}

/// The factor by which a property's base rent grows with the number of houses
/// on it; five houses stand for a hotel. Any other count leaves the base rent.
pub open spec fn rent_multiplier(houses: u8) -> nat {
    if houses == 1 {
        5
    } else if houses == 2 {
        15
    } else if houses == 3 {
        45
    } else if houses == 4 {
        80
    } else if houses == 5 {
        125
    } else {
        1
    }
}

/// The factor by which a property's base rent grows with the number of houses.
pub fn multiplier(houses: u8) -> (m: u64)
    ensures
        m == rent_multiplier(houses),
{
    match houses {
        1 => 5,
        2 => 15,
        3 => 45,
        4 => 80,
        5 => 125,
        _ => 1,
    }
}

/// Rent owed on a property with the given base rent and house count.
pub fn calculate_rent(base_rent: u64, houses: u8) -> (rent: u64)
    requires
        base_rent * rent_multiplier(houses) <= u64::MAX,
    ensures
        rent == base_rent * rent_multiplier(houses),
{
    match houses {
        1 => base_rent * 5,
        2 => base_rent * 15,
        3 => base_rent * 45,
        4 => base_rent * 80,
        5 => base_rent * 125,
        _ => base_rent,
    }
}

/// Rent owed on a property, or `None` where it does not fit 64 bits.
pub fn checked_rent(base_rent: u64, houses: u8) -> (rent: Option<u64>)
    ensures
        match rent {
            Some(rent) => rent == base_rent * rent_multiplier(houses),
            None => base_rent * rent_multiplier(houses) > u64::MAX,
        },
{
    let m = multiplier(houses);
    if base_rent > u64::MAX / m {
        assert(base_rent * m > u64::MAX) by (nonlinear_arith)
            requires
                base_rent > u64::MAX / m,
                m > 0,
        ;
        None
    } else {
        assert(base_rent * m <= u64::MAX) by (nonlinear_arith)
            requires
                base_rent <= u64::MAX / m,
                m > 0,
        ;
        Some(calculate_rent(base_rent, houses))
    }
}

/// The views of a row of tiles.
pub open spec fn tiles_view(board: Seq<TileType>) -> Seq<TileView> {
    board.map_values(|t: TileType| t@)
}

/// Whether tile `i` of the board belongs to the colour group: it is a street of
/// that colour. A property with a shorter rent schedule (a railroad, a utility)
/// belongs to no group.
pub open spec fn in_color_group(board: Seq<TileView>, i: int, color: Color) -> bool {
    0 <= i < board.len() && (board[i] matches TileView::Property(p) && p.color == color
        && p.is_street())
}

/// Whether the owner of the tiles `owned` owns a whole colour group: the board
/// has a street of that colour, and every such street is among `owned`.
pub open spec fn spec_owns_color_group(owned: Seq<u8>, board: Seq<TileView>, color: Color) -> bool {
    &&& exists|i: int| in_color_group(board, i, color)
    &&& forall|i: int| #[trigger]
        in_color_group(board, i, color) ==> i <= u8::MAX && owned.contains(i as u8)
}

/// Whether a house can be built on tile `index` by the owner of the tiles
/// `owned`: the tile is a street with fewer than five houses, and its whole
/// colour group is owned.
pub open spec fn spec_can_build_house(index: u8, owned: Seq<u8>, board: Seq<TileView>) -> bool {
    index < board.len() && (board[index as int] matches TileView::Property(p) && p.houses < 5
        && p.is_street() && spec_owns_color_group(owned, board, p.color))
}

/// Whether `owned` holds `index`.
pub fn holds(owned: &[u8], index: u8) -> (b: bool)
    ensures
        b == owned@.contains(index),
{
    let mut k: usize = 0;
    while k < owned.len()
        invariant
            k <= owned@.len(),
            forall|j: int| 0 <= j < k ==> owned@[j] != index,
        decreases owned@.len() - k,
    {
        if owned[k] == index {
            return true;
        }
        k += 1;
    }
    false
}

/// Whether the owner of the tiles `player_properties` owns the whole colour group.
pub fn owns_color_group(player_properties: &[u8], board: &[TileType], color: Color) -> (b: bool)
    ensures
        b == spec_owns_color_group(player_properties@, tiles_view(board@), color),
{
    let ghost tiles = tiles_view(board@);
    let mut found = false;
    let mut i: usize = 0;
    while i < board.len()
        invariant
            i <= board@.len(),
            tiles == tiles_view(board@),
            found == (exists|j: int| 0 <= j < i && in_color_group(tiles, j, color)),
            forall|j: int|
                0 <= j < i && #[trigger] in_color_group(tiles, j, color) ==> j <= u8::MAX
                    && player_properties@.contains(j as u8),
        decreases board@.len() - i,
    {
        let member = match &board[i] {
            TileType::Property(p) => p.color == color && p.rent.len() == 6,
            TileType::Special(_) => false,
        };
        assert(member == in_color_group(tiles, i as int, color));
        if member {
            if i > u8::MAX as usize || !holds(player_properties, i as u8) {
                assert(in_color_group(tiles, i as int, color));
                return false;
            }
            found = true;
        }
        i += 1;
    }
    found
}

/// Whether a house can be built on tile `property_index` by the owner of the
/// tiles `player_properties`.
pub fn can_build_house(property_index: u8, player_properties: &[u8], board: &[TileType]) -> (b:
    bool)
    ensures
        b == spec_can_build_house(property_index, player_properties@, tiles_view(board@)),
{
    let idx = property_index as usize;
    if idx >= board.len() {
        return false;
    }
    match &board[idx] {
        TileType::Property(prop) => {
            if prop.houses >= 5 || prop.rent.len() != 6 {
                return false;
            }
            owns_color_group(player_properties, board, prop.color)
        },
        TileType::Special(_) => false,
    }
}

} // verus!
