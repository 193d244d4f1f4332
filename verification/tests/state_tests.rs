use monopoly::error::ProgramError;
use monopoly::game::Game;
use monopoly::player::Player;
use monopoly::property::{Property, TileType};
use monopoly::pubkey::Pubkey;
use monopoly::state::{Card, Color, SpecialTile};

fn unique_key(n: u8) -> Pubkey {
    Pubkey::new_from_array([n; 32])
}

#[test]
fn test_color_pack() {
    // Test packing and unpacking all color variants
    let colors = vec![
        Color::Brown,
        Color::LightBlue,
        Color::Pink,
        Color::Orange,
        Color::Red,
        Color::Yellow,
        Color::Green,
        Color::DarkBlue,
    ];

    for (i, color) in colors.iter().enumerate() {
        let mut packed = vec![0; Color::LEN];
        color.pack_into_slice(&mut packed);

        // Verify packed value matches expected byte
        assert_eq!(packed[0], i as u8, "Color {:?} should pack to byte {}", color, i);

        // Verify unpacking returns original color
        let unpacked = Color::unpack_from_slice(&packed).unwrap();
        assert_eq!(&unpacked, color, "Unpacked color should match original");
    }

    // Test invalid byte value returns error
    let invalid_packed = vec![8]; // Invalid value (only 0-7 are valid)
    let result = Color::unpack_from_slice(&invalid_packed);
    assert!(result.is_err(), "Invalid byte should return error");
    assert_eq!(
        result.unwrap_err(),
        ProgramError::InvalidAccountData,
        "Invalid byte should return InvalidAccountData error"
    );
}

#[test]
fn test_property_pack() {
    // Property without owner
    let property1 = Property {
        name: String::from("Boardwalk"),
        color: Color::DarkBlue,
        cost: 400,
        rent: vec![50, 200, 600, 1400, 1700, 2000],
        house_cost: 200,
        hotel_cost: 200,
        house_rent: vec![200, 600, 1400, 1700, 2000],
        owner: None,
        houses: 0,
    };

    // Property with owner
    let owner = unique_key(1);
    let property2 = Property {
        name: String::from("Park Place"),
        color: Color::DarkBlue,
        cost: 350,
        rent: vec![35, 175, 500, 1100, 1300, 1500],
        house_cost: 200,
        hotel_cost: 200,
        house_rent: vec![175, 500, 1100, 1300, 1500],
        owner: Some(owner),
        houses: 2,
    };

    for property in [property1, property2] {
        let mut packed = vec![0; Property::LEN];
        property.pack_into_slice(&mut packed);

        // Verify unpacking returns the same property
        let unpacked = Property::unpack_from_slice(&packed).unwrap();
        assert_eq!(unpacked.name, property.name);
        assert_eq!(unpacked.color, property.color);
        assert_eq!(unpacked.cost, property.cost);
        assert_eq!(unpacked.rent, property.rent);
        assert_eq!(unpacked.house_cost, property.house_cost);
        assert_eq!(unpacked.hotel_cost, property.hotel_cost);
        assert_eq!(unpacked.house_rent, property.house_rent);
        assert_eq!(unpacked.owner, property.owner);
        assert_eq!(unpacked.houses, property.houses);
    }

    // Error case - invalid UTF-8 in name
    let mut invalid_packed = vec![0; Property::LEN];
    // Write an invalid UTF-8 sequence for the name length
    invalid_packed[0..4].copy_from_slice(&(5u32).to_le_bytes());
    // Write invalid UTF-8 bytes
    invalid_packed[4..9].copy_from_slice(&[0xFF, 0xFF, 0xFF, 0xFF, 0xFF]);

    let result = Property::unpack_from_slice(&invalid_packed);
    assert!(result.is_err());
    assert_eq!(result.unwrap_err(), ProgramError::InvalidAccountData);

    // Verify LEN is sufficient for maximum property data
    let max_property = Property {
        name: "Very Long Property Name That Tests The Size Limit".to_string(),
        color: Color::DarkBlue,
        cost: u64::MAX,
        rent: vec![u64::MAX; 10], // Large rent array
        house_cost: u64::MAX,
        hotel_cost: u64::MAX,
        house_rent: vec![u64::MAX; 10],
        owner: Some(unique_key(2)),
        houses: u8::MAX,
    };

    let mut max_packed = vec![0; Property::LEN];
    max_property.pack_into_slice(&mut max_packed);

    // Verify we can unpack it successfully
    let unpacked = Property::unpack_from_slice(&max_packed).unwrap();
    assert_eq!(unpacked.name, max_property.name);
    assert_eq!(unpacked, max_property);
}

#[test]
fn test_property_as_property() {
    let property = Property {
        name: String::from("Boardwalk"),
        color: Color::DarkBlue,
        cost: 400,
        rent: vec![50, 200, 600, 1400, 1700, 2000],
        house_cost: 200,
        hotel_cost: 200,
        house_rent: vec![200, 600, 1400, 1700, 2000],
        owner: None,
        houses: 0,
    };

    // Test that as_property returns Some containing a reference to the same property
    let property_ref = property.as_property();
    assert!(property_ref.is_some(), "as_property should return Some");

    let unwrapped = property_ref.unwrap();
    assert_eq!(unwrapped.name, property.name);
    assert_eq!(unwrapped.color, property.color);
    assert_eq!(unwrapped.cost, property.cost);
    assert_eq!(unwrapped.rent, property.rent);
    assert_eq!(unwrapped.house_cost, property.house_cost);
    assert_eq!(unwrapped.hotel_cost, property.hotel_cost);
    assert_eq!(unwrapped.owner, property.owner);
    assert_eq!(unwrapped.houses, property.houses);
}

#[test]
fn test_special_tile_pack() {
    // Test all variants
    let tiles = vec![
        SpecialTile::Go,
        SpecialTile::Jail,
        SpecialTile::FreeParking,
        SpecialTile::GoToJail,
        SpecialTile::CommunityChest,
        SpecialTile::Chance,
        SpecialTile::IncomeTax,
        SpecialTile::LuxuryTax,
    ];

    for tile in tiles {
        let mut packed = vec![0; SpecialTile::LEN];
        tile.pack_into_slice(&mut packed);

        // Verify unpacking returns the same tile
        let unpacked = SpecialTile::unpack_from_slice(&packed).unwrap();
        assert_eq!(unpacked, tile, "Unpacked tile should match original");

        // Verify the packed byte matches expected value
        let expected_byte = match tile {
            SpecialTile::Go => 0,
            SpecialTile::Jail => 1,
            SpecialTile::FreeParking => 2,
            SpecialTile::GoToJail => 3,
            SpecialTile::CommunityChest => 4,
            SpecialTile::Chance => 5,
            SpecialTile::IncomeTax => 6,
            SpecialTile::LuxuryTax => 7,
        };
        assert_eq!(packed[0], expected_byte, "Packed byte should match expected value");
    }

    // Test error case - invalid byte value
    let mut invalid_packed = vec![0; SpecialTile::LEN];
    invalid_packed[0] = 8; // First invalid value
    let result = SpecialTile::unpack_from_slice(&invalid_packed);
    assert!(result.is_err());
    assert_eq!(result.unwrap_err(), ProgramError::InvalidAccountData);

    // Test error case - maximum invalid byte value
    invalid_packed[0] = u8::MAX;
    let result = SpecialTile::unpack_from_slice(&invalid_packed);
    assert!(result.is_err());
    assert_eq!(result.unwrap_err(), ProgramError::InvalidAccountData);
}

#[test]
fn test_tile_type_as_property() {
    // Create a test property
    let property = Property {
        name: String::from("Boardwalk"),
        color: Color::DarkBlue,
        cost: 400,
        rent: vec![50, 200, 600, 1400, 1700, 2000],
        house_cost: 200,
        hotel_cost: 200,
        house_rent: vec![200, 600, 1400, 1700, 2000],
        owner: None,
        houses: 0,
    };

    // Test Property variant
    let tile_property = TileType::Property(property.clone());
    let property_ref = tile_property.as_property();
    assert!(property_ref.is_some(), "Property variant should return Some");
    let unwrapped = property_ref.unwrap();
    assert_eq!(unwrapped.name, property.name);
    assert_eq!(unwrapped.color, property.color);
    assert_eq!(unwrapped.cost, property.cost);
    assert_eq!(unwrapped.rent, property.rent);
    assert_eq!(unwrapped.house_cost, property.house_cost);
    assert_eq!(unwrapped.hotel_cost, property.hotel_cost);
    assert_eq!(unwrapped.owner, property.owner);
    assert_eq!(unwrapped.houses, property.houses);

    // Test Special variant
    let tile_special = TileType::Special(SpecialTile::Go);
    let special_ref = tile_special.as_property();
    assert!(special_ref.is_none(), "Special variant should return None");
}

#[test]
fn test_tile_type_pack() {
    // Test Property variant
    let property = Property {
        name: String::from("Boardwalk"),
        color: Color::DarkBlue,
        cost: 400,
        rent: vec![50, 200, 600, 1400, 1700, 2000],
        house_cost: 200,
        hotel_cost: 200,
        house_rent: vec![200, 600, 1400, 1700, 2000],
        owner: None,
        houses: 0,
    };
    let tile_property = TileType::Property(property.clone());
    let mut packed = vec![0; TileType::LEN];
    tile_property.pack_into_slice(&mut packed);

    // Verify discriminator byte
    assert_eq!(packed[0], 0, "Property variant should have discriminator 0");

    // Verify property data is correctly packed after discriminator
    let mut expected_property_bytes = vec![0; Property::LEN];
    property.pack_into_slice(&mut expected_property_bytes);
    assert_eq!(&packed[1..Property::LEN + 1], &expected_property_bytes[..],
        "Property data should match after discriminator");

    // Test unpacking Property variant
    let unpacked = TileType::unpack_from_slice(&packed).unwrap();
    match unpacked {
        TileType::Property(unpacked_property) => {
            assert_eq!(unpacked_property.name, property.name);
            assert_eq!(unpacked_property.color, property.color);
            assert_eq!(unpacked_property.cost, property.cost);
            assert_eq!(unpacked_property.rent, property.rent);
            assert_eq!(unpacked_property.house_cost, property.house_cost);
            assert_eq!(unpacked_property.hotel_cost, property.hotel_cost);
            assert_eq!(unpacked_property.owner, property.owner);
            assert_eq!(unpacked_property.houses, property.houses);
        }
        _ => panic!("Unpacked wrong variant"),
    }

    // Test Special variant
    let special = SpecialTile::Go;
    let tile_special = TileType::Special(special);
    let mut packed = vec![0; TileType::LEN];
    tile_special.pack_into_slice(&mut packed);

    // Verify discriminator byte
    assert_eq!(packed[0], 1, "Special variant should have discriminator 1");

    // Verify special tile data is correctly packed after discriminator
    let mut expected_special_bytes = vec![0; SpecialTile::LEN];
    special.pack_into_slice(&mut expected_special_bytes);
    assert_eq!(&packed[1..SpecialTile::LEN + 1], &expected_special_bytes[..],
        "Special tile data should match after discriminator");

    // Test unpacking Special variant
    let unpacked = TileType::unpack_from_slice(&packed).unwrap();
    match unpacked {
        TileType::Special(unpacked_special) => {
            assert_eq!(unpacked_special, special);
        }
        _ => panic!("Unpacked wrong variant"),
    }

    // Test error case - invalid discriminator
    let mut invalid_packed = vec![0; TileType::LEN];
    invalid_packed[0] = 2; // Invalid discriminator
    let result = TileType::unpack_from_slice(&invalid_packed);
    assert!(result.is_err());
    assert_eq!(result.unwrap_err(), ProgramError::InvalidAccountData);

    // Verify TileType::LEN is sufficient
    assert!(TileType::LEN >= Property::LEN + 1,
        "TileType::LEN must accommodate Property variant plus discriminator");
    assert!(TileType::LEN >= SpecialTile::LEN + 1,
        "TileType::LEN must accommodate SpecialTile variant plus discriminator");
}

#[test]
fn test_player_pack() {
    // Test basic player
    let player = Player {
        name: String::from("John Doe"),
        cash: 1500,
        position: 0,
        jail_turns: 0,
        properties: vec![1, 3, 6, 8, 9],
        get_out_of_jail_cards: 2,
    };
    let mut packed = vec![0; Player::LEN];
    player.pack_into_slice(&mut packed);

    // Test unpacking
    let unpacked = Player::unpack_from_slice(&packed).unwrap();
    assert_eq!(unpacked.name, player.name);
    assert_eq!(unpacked.cash, player.cash);
    assert_eq!(unpacked.position, player.position);
    assert_eq!(unpacked.jail_turns, player.jail_turns);
    assert_eq!(unpacked.properties, player.properties);
    assert_eq!(unpacked.get_out_of_jail_cards, player.get_out_of_jail_cards);

    // Test player with maximum values
    let max_player = Player {
        name: "A".repeat(256), // Large but reasonable name
        cash: u64::MAX,
        position: u8::MAX,
        jail_turns: u8::MAX,
        properties: (0..40).collect(), // Maximum possible properties (all board spaces)
        get_out_of_jail_cards: u8::MAX,
    };
    let mut packed = vec![0; Player::LEN];
    max_player.pack_into_slice(&mut packed);

    // Test unpacking maximum values
    let unpacked = Player::unpack_from_slice(&packed).unwrap();
    assert_eq!(unpacked.name, max_player.name);
    assert_eq!(unpacked.cash, max_player.cash);
    assert_eq!(unpacked.position, max_player.position);
    assert_eq!(unpacked.jail_turns, max_player.jail_turns);
    assert_eq!(unpacked.properties, max_player.properties);
    assert_eq!(unpacked.get_out_of_jail_cards, max_player.get_out_of_jail_cards);

    // Test error case - invalid UTF-8 in name
    let mut invalid_packed = vec![0; Player::LEN];
    // Write invalid UTF-8 sequence length
    invalid_packed[0..4].copy_from_slice(&(4u32).to_le_bytes());
    // Write invalid UTF-8 sequence
    invalid_packed[4] = 0xFF;
    invalid_packed[5] = 0xFF;
    invalid_packed[6] = 0xFF;
    invalid_packed[7] = 0xFF;
    let result = Player::unpack_from_slice(&invalid_packed);
    assert!(result.is_err());
    assert_eq!(result.unwrap_err(), ProgramError::InvalidAccountData);

    // Verify Player::LEN is sufficient for maximum data
    let required_len = 4 + // name length
        256 + // max reasonable name length
        8 + // cash
        1 + // position
        1 + // jail_turns
        4 + // properties length
        40 + // max properties
        1; // get_out_of_jail_cards
    assert!(Player::LEN >= required_len,
        "Player::LEN must be at least {} for maximum data", required_len);
}

#[test]
fn test_game_pack() {
    // Create test property for board
    let property = Property {
        name: String::from("Boardwalk"),
        color: Color::DarkBlue,
        cost: 400,
        rent: vec![50, 200, 600, 1400, 1700, 2000],
        house_cost: 200,
        hotel_cost: 200,
        house_rent: vec![200, 600, 1400, 1700, 2000],
        owner: None,
        houses: 0,
    };

    // Create test player
    let player = Player {
        name: String::from("John Doe"),
        cash: 1500,
        position: 0,
        jail_turns: 0,
        properties: vec![1, 3],
        get_out_of_jail_cards: 1,
    };

    // Test basic game
    let game = Game {
        board: vec![
            TileType::Special(SpecialTile::Go),
            TileType::Property(property.clone()),
            TileType::Special(SpecialTile::CommunityChest),
        ],
        players: vec![player.clone()],
        current_player: 0,
        free_parking: 500,
        initialized: true,
    };
    let mut packed = vec![0; Game::LEN];
    game.pack_into_slice(&mut packed);

    // Test unpacking basic game
    let unpacked = Game::unpack_from_slice(&packed).unwrap();
    assert_eq!(unpacked.board.len(), game.board.len());
    for (unpacked_tile, original_tile) in unpacked.board.iter().zip(game.board.iter()) {
        match (unpacked_tile, original_tile) {
            (TileType::Property(up), TileType::Property(og)) => {
                assert_eq!(up.name, og.name);
                assert_eq!(up.color, og.color);
                assert_eq!(up.cost, og.cost);
                assert_eq!(up.rent, og.rent);
                assert_eq!(up.house_cost, og.house_cost);
                assert_eq!(up.hotel_cost, og.hotel_cost);
                assert_eq!(up.house_rent, og.house_rent);
                assert_eq!(up.owner, og.owner);
                assert_eq!(up.houses, og.houses);
            }
            (TileType::Special(up), TileType::Special(og)) => {
                assert_eq!(up, og);
            }
            _ => panic!("Tile types don't match"),
        }
    }
    assert_eq!(unpacked.players.len(), game.players.len());
    assert_eq!(unpacked.players[0].name, game.players[0].name);
    assert_eq!(unpacked.players[0].cash, game.players[0].cash);
    assert_eq!(unpacked.players[0].position, game.players[0].position);
    assert_eq!(unpacked.players[0].jail_turns, game.players[0].jail_turns);
    assert_eq!(unpacked.players[0].properties, game.players[0].properties);
    assert_eq!(unpacked.players[0].get_out_of_jail_cards, game.players[0].get_out_of_jail_cards);
    assert_eq!(unpacked.current_player, game.current_player);
    assert_eq!(unpacked.free_parking, game.free_parking);
    assert_eq!(unpacked.initialized, game.initialized);

    // Test maximum size game
    let max_property = Property {
        name: "A".repeat(256),
        color: Color::DarkBlue,
        cost: u64::MAX,
        rent: vec![u64::MAX; 6],
        house_cost: u64::MAX,
        hotel_cost: u64::MAX,
        house_rent: vec![u64::MAX; 5],
        owner: Some(unique_key(3)),
        houses: 5,
    };
    let max_player = Player {
        name: "A".repeat(256),
        cash: u64::MAX,
        position: u8::MAX,
        jail_turns: u8::MAX,
        properties: (0..40).collect(),
        get_out_of_jail_cards: u8::MAX,
    };
    let max_game = Game {
        board: vec![TileType::Property(max_property); 40], // Maximum board size
        players: vec![max_player; 8], // Maximum players
        current_player: u8::MAX,
        free_parking: u64::MAX,
        initialized: true,
    };
    let mut packed = vec![0; Game::LEN];
    max_game.pack_into_slice(&mut packed);

    // Test unpacking maximum size game
    let unpacked = Game::unpack_from_slice(&packed).unwrap();
    assert_eq!(unpacked.board.len(), max_game.board.len());
    assert_eq!(unpacked.players.len(), max_game.players.len());
    assert_eq!(unpacked.current_player, max_game.current_player);
    assert_eq!(unpacked.free_parking, max_game.free_parking);
    assert_eq!(unpacked.initialized, max_game.initialized);
    assert_eq!(unpacked, max_game);

    // Verify Game::LEN is sufficient
    let required_len = 4 + // board length
        (40 * TileType::LEN) + // maximum board size
        4 + // players length
        (8 * Player::LEN) + // maximum players
        1 + // current_player
        8 + // free_parking
        1; // initialized
    assert!(Game::LEN >= required_len,
        "Game::LEN must be at least {} for maximum data", required_len);

    // Test error case - invalid board tile
    let mut invalid_packed = packed.clone();
    // Corrupt first tile's discriminator
    invalid_packed[4] = 2; // Invalid TileType discriminator
    let result = Game::unpack_from_slice(&invalid_packed);
    assert!(result.is_err());
    assert_eq!(result.unwrap_err(), ProgramError::InvalidAccountData);

    // Test error case - invalid player data
    let mut invalid_packed = packed.clone();
    let player_data_start = 4 + (40 * TileType::LEN) + 4; // After board length, board data, and players length
    // Corrupt first player's name with invalid UTF-8
    invalid_packed[player_data_start + 4] = 0xFF; // Invalid UTF-8 byte
    let result = Game::unpack_from_slice(&invalid_packed);
    assert!(result.is_err());
    assert_eq!(result.unwrap_err(), ProgramError::InvalidAccountData);
}

#[test]
fn test_card_pack() {
    let cards = vec![
        Card::CollectMoney(200),
        Card::PayMoney(u64::MAX),
        Card::Move(39),
        Card::GetOutOfJail,
    ];
    for card in cards {
        let mut packed = vec![0u8; Card::LEN];
        card.pack_into_slice(&mut packed);
        let unpacked = Card::unpack_from_slice(&packed).unwrap();
        assert_eq!(unpacked, card);
    }
}

#[test]
fn test_game_is_initialized() {
    let game = Game {
        board: Vec::new(),
        players: Vec::new(),
        current_player: 0,
        free_parking: 0,
        initialized: false,
    };
    assert!(!game.is_initialized(), "Uninitialized game should return false");

    let game = Game {
        board: Vec::new(),
        players: Vec::new(),
        current_player: 0,
        free_parking: 0,
        initialized: true,
    };
    assert!(game.is_initialized(), "Initialized game should return true");
}

#[test]
fn test_player_is_initialized() {
    let player = Player {
        name: String::from("Test Player"),
        cash: 1500,
        position: 0,
        jail_turns: 0,
        properties: Vec::new(),
        get_out_of_jail_cards: 0,
    };
    assert!(player.is_initialized(), "Player should always be initialized");
}

#[test]
fn test_property_is_initialized() {
    let property = Property {
        name: String::from("Test Property"),
        color: Color::DarkBlue,
        cost: 200,
        rent: vec![10],
        house_cost: 100,
        hotel_cost: 100,
        house_rent: vec![10, 20, 30, 40],
        houses: 0,
        owner: None,
    };
    assert!(property.is_initialized(), "Property should always be initialized");
}
