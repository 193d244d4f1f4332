//! The fixed content of a game: the forty tiles of the board and the cards of
//! the two decks.
use vstd::prelude::*;
use vstd::string::*;

use crate::property::{Property, PropertyView, TileType, TileView};
use crate::state::{Card, Color, SpecialTile};

verus! {

/// Number of tiles of the board.
pub const BOARD_SIZE: u8 = 40;

/// A special tile as a tile of the board.
pub open spec fn special_view(tile: SpecialTile) -> TileView {
    TileView::Special(tile)
}

/// A street as it lies on a fresh board: nobody owns it and nothing is built on
/// it. Its rent schedule has six steps, and its house rents are the last five.
pub open spec fn street_view(
    name: Seq<char>,
    color: Color,
    cost: u64,
    rent0: u64,
    rent1: u64,
    rent2: u64,
    rent3: u64,
    rent4: u64,
    rent5: u64,
    house_cost: u64,
    hotel_cost: u64,
) -> TileView {
    TileView::Property(
        PropertyView {
            name,
            color,
            cost,
            rent: seq![rent0, rent1, rent2, rent3, rent4, rent5],
            house_cost,
            hotel_cost,
            house_rent: seq![rent1, rent2, rent3, rent4, rent5],
            owner: None,
            houses: 0,
        },
    )
}

/// A railroad as it lies on a fresh board. It costs 200, nothing can be built on
/// it, and its rent schedule has four steps only.
pub open spec fn railroad_view(name: Seq<char>) -> TileView {
    TileView::Property(
        PropertyView {
            name,
            color: Color::Brown,
            cost: 200,
            rent: seq![25u64, 50u64, 100u64, 200u64],
            house_cost: 0,
            hotel_cost: 0,
            house_rent: seq![50u64, 100u64, 200u64],
            owner: None,
            houses: 0,
        },
    )
}

/// A utility as it lies on a fresh board. It costs 150, nothing can be built on
/// it, and its rent schedule has two steps only.
pub open spec fn utility_view(name: Seq<char>) -> TileView {
    TileView::Property(
        PropertyView {
            name,
            color: Color::Brown,
            cost: 150,
            rent: seq![4u64, 10u64],
            house_cost: 0,
            hotel_cost: 0,
            house_rent: seq![10u64],
            owner: None,
            houses: 0,
        },
    )
}

/// The tile at each position of a fresh board. The corners are start (0), jail
/// (10), free parking (20) and go-to-jail (30); the taxes lie at 4 and 38; the
/// railroads at 5, 15, 25 and 35; the utilities at 12 and 28.
pub open spec fn board_tile(position: int) -> TileView {
    if position == 0 {
        special_view(SpecialTile::Go)
    } else if position == 1 {
        street_view("Solana Genesis Block"@, Color::Brown, 60, 2, 10, 30, 90, 160, 250, 50, 250)
    } else if position == 2 {
        special_view(SpecialTile::CommunityChest)
    } else if position == 3 {
        street_view("Metaplex Protocol"@, Color::Brown, 60, 4, 20, 60, 180, 320, 450, 50, 250)
    } else if position == 4 {
        special_view(SpecialTile::IncomeTax)
    } else if position == 5 {
        railroad_view("Solana Network Rail"@)
    } else if position == 6 {
        street_view("Serum DEX"@, Color::LightBlue, 100, 6, 30, 90, 270, 400, 550, 50, 250)
    } else if position == 7 {
        special_view(SpecialTile::Chance)
    } else if position == 8 {
        street_view("Raydium AMM"@, Color::LightBlue, 100, 6, 30, 90, 270, 400, 550, 50, 250)
    } else if position == 9 {
        street_view("Orca DEX"@, Color::LightBlue, 120, 8, 40, 100, 300, 450, 600, 50, 250)
    } else if position == 10 {
        special_view(SpecialTile::Jail)
    } else if position == 11 {
        street_view("Magic Eden"@, Color::Pink, 140, 10, 50, 150, 450, 625, 750, 100, 500)
    } else if position == 12 {
        utility_view("Helium Hotspot Grid"@)
    } else if position == 13 {
        street_view("Tensor"@, Color::Pink, 140, 10, 50, 150, 450, 625, 750, 100, 500)
    } else if position == 14 {
        street_view("Hyperspace"@, Color::Pink, 160, 12, 60, 180, 500, 700, 900, 100, 500)
    } else if position == 15 {
        railroad_view("Wormhole Bridge Rail"@)
    } else if position == 16 {
        street_view("Marinade"@, Color::Orange, 180, 14, 70, 200, 550, 750, 950, 100, 500)
    } else if position == 17 {
        special_view(SpecialTile::CommunityChest)
    } else if position == 18 {
        street_view("Lido"@, Color::Orange, 180, 14, 70, 200, 550, 750, 950, 100, 500)
    } else if position == 19 {
        street_view("JPool"@, Color::Orange, 200, 16, 80, 220, 600, 800, 1000, 100, 500)
    } else if position == 20 {
        special_view(SpecialTile::FreeParking)
    } else if position == 21 {
        street_view("Jupiter"@, Color::Red, 220, 18, 90, 250, 700, 875, 1050, 150, 750)
    } else if position == 22 {
        special_view(SpecialTile::Chance)
    } else if position == 23 {
        street_view("Orca"@, Color::Red, 220, 18, 90, 250, 700, 875, 1050, 150, 750)
    } else if position == 24 {
        street_view("Raydium"@, Color::Red, 240, 20, 100, 300, 750, 925, 1100, 150, 750)
    } else if position == 25 {
        railroad_view("Validator Express Rail"@)
    } else if position == 26 {
        street_view("Pyth"@, Color::Yellow, 260, 22, 110, 330, 800, 975, 1150, 150, 750)
    } else if position == 27 {
        street_view("Switchboard"@, Color::Yellow, 260, 22, 110, 330, 800, 975, 1150, 150, 750)
    } else if position == 28 {
        utility_view("Arweave Storage Works"@)
    } else if position == 29 {
        street_view("Chainlink"@, Color::Yellow, 280, 24, 120, 360, 850, 1025, 1200, 150, 750)
    } else if position == 30 {
        special_view(SpecialTile::GoToJail)
    } else if position == 31 {
        street_view("Metaplex"@, Color::Green, 300, 26, 130, 390, 900, 1100, 1275, 200, 1000)
    } else if position == 32 {
        street_view("Cardinal"@, Color::Green, 300, 26, 130, 390, 900, 1100, 1275, 200, 1000)
    } else if position == 33 {
        special_view(SpecialTile::CommunityChest)
    } else if position == 34 {
        street_view("Goki"@, Color::Green, 320, 28, 150, 450, 1000, 1200, 1400, 200, 1000)
    } else if position == 35 {
        railroad_view("Turbine Relay Rail"@)
    } else if position == 36 {
        special_view(SpecialTile::Chance)
    } else if position == 37 {
        street_view("Solana Labs"@, Color::DarkBlue, 350, 35, 175, 500, 1100, 1300, 1500, 200, 1000)
    } else if position == 38 {
        special_view(SpecialTile::LuxuryTax)
    } else {
        street_view(
            "Solana Foundation"@,
            Color::DarkBlue,
            400,
            50,
            200,
            600,
            1400,
            1700,
            2000,
            200,
            1000,
        )
    }
}

/// The community-chest deck in the order of a fresh deck.
pub open spec fn community_chest_cards() -> Seq<Card> {
    seq![
        Card::CollectMoney(200),
        Card::PayMoney(50),
        Card::GetOutOfJail,
        Card::Move(0),
        Card::CollectMoney(100),
        Card::PayMoney(100),
        Card::Move(10),
    ]
}

/// The chance deck in the order of a fresh deck.
pub open spec fn chance_cards() -> Seq<Card> {
    seq![
        Card::CollectMoney(150),
        Card::PayMoney(15),
        Card::Move(0),
        Card::GetOutOfJail,
        Card::Move(10),
        Card::Move(5),
    ]
}

/// A fresh street.
fn street(
    name: &str,
    color: Color,
    cost: u64,
    rent0: u64,
    rent1: u64,
    rent2: u64,
    rent3: u64,
    rent4: u64,
    rent5: u64,
    house_cost: u64,
    hotel_cost: u64,
) -> (tile: TileType)
    ensures
        tile@ == street_view(
            name@,
            color,
            cost,
            rent0,
            rent1,
            rent2,
            rent3,
            rent4,
            rent5,
            house_cost,
            hotel_cost,
        ),
{
    let mut rent: Vec<u64> = Vec::new();
    rent.push(rent0);
    rent.push(rent1);
    rent.push(rent2);
    rent.push(rent3);
    rent.push(rent4);
    rent.push(rent5);
    let mut house_rent: Vec<u64> = Vec::new();
    house_rent.push(rent1);
    house_rent.push(rent2);
    house_rent.push(rent3);
    house_rent.push(rent4);
    house_rent.push(rent5);
    proof {
        assert(rent@ =~= seq![rent0, rent1, rent2, rent3, rent4, rent5]);
        assert(house_rent@ =~= seq![rent1, rent2, rent3, rent4, rent5]);
    }
    TileType::Property(
        Property {
            name: String::from_str(name),
            color,
            cost,
            rent,
            house_cost,
            hotel_cost,
            house_rent,
            owner: None,
            houses: 0,
        },
    )
}

/// A fresh railroad.
fn railroad(name: &str) -> (tile: TileType)
    ensures
        tile@ == railroad_view(name@),
{
    let mut rent: Vec<u64> = Vec::new();
    rent.push(25);
    rent.push(50);
    rent.push(100);
    rent.push(200);
    let mut house_rent: Vec<u64> = Vec::new();
    house_rent.push(50);
    house_rent.push(100);
    house_rent.push(200);
    proof {
        assert(rent@ =~= seq![25u64, 50u64, 100u64, 200u64]);
        assert(house_rent@ =~= seq![50u64, 100u64, 200u64]);
    }
    TileType::Property(
        Property {
            name: String::from_str(name),
            color: Color::Brown,
            cost: 200,
            rent,
            house_cost: 0,
            hotel_cost: 0,
            house_rent,
            owner: None,
            houses: 0,
        },
    )
}

/// A fresh utility.
fn utility(name: &str) -> (tile: TileType)
    ensures
        tile@ == utility_view(name@),
{
    let mut rent: Vec<u64> = Vec::new();
    rent.push(4);
    rent.push(10);
    let mut house_rent: Vec<u64> = Vec::new();
    house_rent.push(10);
    proof {
        assert(rent@ =~= seq![4u64, 10u64]);
        assert(house_rent@ =~= seq![10u64]);
    }
    TileType::Property(
        Property {
            name: String::from_str(name),
            color: Color::Brown,
            cost: 150,
            rent,
            house_cost: 0,
            hotel_cost: 0,
            house_rent,
            owner: None,
            houses: 0,
        },
    )
}

/// The tile at the given position of a fresh board.
pub fn tile_at(position: u8) -> (tile: TileType)
    requires
        position < BOARD_SIZE,
    ensures
        tile@ == board_tile(position as int),
{
    match position {
        0 => TileType::Special(SpecialTile::Go),
        1 => street("Solana Genesis Block", Color::Brown, 60, 2, 10, 30, 90, 160, 250, 50, 250),
        2 => TileType::Special(SpecialTile::CommunityChest),
        3 => street("Metaplex Protocol", Color::Brown, 60, 4, 20, 60, 180, 320, 450, 50, 250),
        4 => TileType::Special(SpecialTile::IncomeTax),
        5 => railroad("Solana Network Rail"),
        6 => street("Serum DEX", Color::LightBlue, 100, 6, 30, 90, 270, 400, 550, 50, 250),
        7 => TileType::Special(SpecialTile::Chance),
        8 => street("Raydium AMM", Color::LightBlue, 100, 6, 30, 90, 270, 400, 550, 50, 250),
        9 => street("Orca DEX", Color::LightBlue, 120, 8, 40, 100, 300, 450, 600, 50, 250),
        10 => TileType::Special(SpecialTile::Jail),
        11 => street("Magic Eden", Color::Pink, 140, 10, 50, 150, 450, 625, 750, 100, 500),
        12 => utility("Helium Hotspot Grid"),
        13 => street("Tensor", Color::Pink, 140, 10, 50, 150, 450, 625, 750, 100, 500),
        14 => street("Hyperspace", Color::Pink, 160, 12, 60, 180, 500, 700, 900, 100, 500),
        15 => railroad("Wormhole Bridge Rail"),
        16 => street("Marinade", Color::Orange, 180, 14, 70, 200, 550, 750, 950, 100, 500),
        17 => TileType::Special(SpecialTile::CommunityChest),
        18 => street("Lido", Color::Orange, 180, 14, 70, 200, 550, 750, 950, 100, 500),
        19 => street("JPool", Color::Orange, 200, 16, 80, 220, 600, 800, 1000, 100, 500),
        20 => TileType::Special(SpecialTile::FreeParking),
        21 => street("Jupiter", Color::Red, 220, 18, 90, 250, 700, 875, 1050, 150, 750),
        22 => TileType::Special(SpecialTile::Chance),
        23 => street("Orca", Color::Red, 220, 18, 90, 250, 700, 875, 1050, 150, 750),
        24 => street("Raydium", Color::Red, 240, 20, 100, 300, 750, 925, 1100, 150, 750),
        25 => railroad("Validator Express Rail"),
        26 => street("Pyth", Color::Yellow, 260, 22, 110, 330, 800, 975, 1150, 150, 750),
        27 => street("Switchboard", Color::Yellow, 260, 22, 110, 330, 800, 975, 1150, 150, 750),
        28 => utility("Arweave Storage Works"),
        29 => street("Chainlink", Color::Yellow, 280, 24, 120, 360, 850, 1025, 1200, 150, 750),
        30 => TileType::Special(SpecialTile::GoToJail),
        31 => street("Metaplex", Color::Green, 300, 26, 130, 390, 900, 1100, 1275, 200, 1000),
        32 => street("Cardinal", Color::Green, 300, 26, 130, 390, 900, 1100, 1275, 200, 1000),
        33 => TileType::Special(SpecialTile::CommunityChest),
        34 => street("Goki", Color::Green, 320, 28, 150, 450, 1000, 1200, 1400, 200, 1000),
        35 => railroad("Turbine Relay Rail"),
        36 => TileType::Special(SpecialTile::Chance),
        37 => {
            street("Solana Labs", Color::DarkBlue, 350, 35, 175, 500, 1100, 1300, 1500, 200, 1000)
        },
        38 => TileType::Special(SpecialTile::LuxuryTax),
        _ => street(
            "Solana Foundation",
            Color::DarkBlue,
            400,
            50,
            200,
            600,
            1400,
            1700,
            2000,
            200,
            1000,
        ),
    }
}

/// The board of a fresh game: its forty tiles in order.
pub fn create_board() -> (board: Vec<TileType>)
    ensures
        board@.len() == 40,
        forall|i: int| 0 <= i < 40 ==> (#[trigger] board@[i])@ == board_tile(i),
{
    let mut board: Vec<TileType> = Vec::new();
    let mut position: u8 = 0;
    while position < BOARD_SIZE
        invariant
            position <= BOARD_SIZE,
            board@.len() == position,
            forall|i: int| 0 <= i < position ==> (#[trigger] board@[i])@ == board_tile(i),
        decreases BOARD_SIZE - position,
    {
        board.push(tile_at(position));
        position += 1;
    }
    board
}

/// The cards of a fresh community-chest deck.
pub fn create_community_chest() -> (cards: Vec<Card>)
    ensures
        cards@ == community_chest_cards(),
{
    let mut cards: Vec<Card> = Vec::new();
    cards.push(Card::CollectMoney(200));
    cards.push(Card::PayMoney(50));
    cards.push(Card::GetOutOfJail);
    cards.push(Card::Move(0));
    cards.push(Card::CollectMoney(100));
    cards.push(Card::PayMoney(100));
    cards.push(Card::Move(10));
    proof {
        assert(cards@ =~= community_chest_cards());
    }
    cards
}

/// The cards of a fresh chance deck.
pub fn create_chance_cards() -> (cards: Vec<Card>)
    ensures
        cards@ == chance_cards(),
{
    let mut cards: Vec<Card> = Vec::new();
    cards.push(Card::CollectMoney(150));
    cards.push(Card::PayMoney(15));
    cards.push(Card::Move(0));
    cards.push(Card::GetOutOfJail);
    cards.push(Card::Move(10));
    cards.push(Card::Move(5));
    proof {
        assert(cards@ =~= chance_cards());
    }
    cards
}

} // verus!
