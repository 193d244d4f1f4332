use monopoly::property::{Property, TileType};
use monopoly::pubkey::Pubkey;
use monopoly::state::{Color, SpecialTile};
use monopoly::utils::{
    calculate_rent, can_build_house, checked_rent, generate_random_number, number_from_digest,
    owns_color_group, roll_dice, Clock,
};
use sha3::{Digest, Keccak256};

fn unique_key(n: u8) -> Pubkey {
    Pubkey::new_from_array([n; 32])
}

fn test_clock() -> Clock {
    Clock { slot: 100, unix_timestamp: 1000 }
}

#[test]
fn test_generate_random_number() {
    let clock_account = test_clock();

    // Test range boundaries
    for i in 0..10 {
        let result = generate_random_number(&clock_account, i, 10).unwrap();
        assert!(result >= 1 && result <= 10, "Generated number {} should be between 1 and 10", result);
    }

    // Test min == max
    let result = generate_random_number(&clock_account, 100, 5).unwrap();
    assert!(result >= 1 && result <= 5, "Result should be between 1 and 5");
}

#[test]
fn test_roll_dice() {
    let clock_account = test_clock();

    // Test multiple rolls to verify range
    for i in 0..10 {
        let (dice1, dice2) = roll_dice(&clock_account, i).unwrap();

        // Each die should be between 1 and 6
        assert!(dice1 >= 1 && dice1 <= 6, "First die value {} should be between 1 and 6", dice1);
        assert!(dice2 >= 1 && dice2 <= 6, "Second die value {} should be between 1 and 6", dice2);

        // Total should be between 2 and 12
        let total = dice1 + dice2;
        assert!(total >= 2 && total <= 12, "Total {} should be between 2 and 12", total);
    }
}

#[test]
fn test_calculate_rent() {
    // Test base rent with no houses
    assert_eq!(calculate_rent(100, 0), 100);

    // Test rent with 1-4 houses
    assert_eq!(calculate_rent(100, 1), 500); // 5x base rent
    assert_eq!(calculate_rent(100, 2), 1500); // 15x base rent
    assert_eq!(calculate_rent(100, 3), 4500); // 45x base rent
    assert_eq!(calculate_rent(100, 4), 8000); // 80x base rent

    // Test hotel (5 houses)
    assert_eq!(calculate_rent(100, 5), 12500); // 125x base rent

    // Test invalid number of houses (should return base rent)
    assert_eq!(calculate_rent(100, 6), 100);
}

#[test]
fn test_owns_color_group() {
    // Test case: Player owns all properties in color group
    let owner = unique_key(1);
    let board = vec![
        TileType::Property(Property {
            owner: Some(owner),
            color: Color::Brown,
            houses: 0,
            name: "Mediterranean Avenue".to_string(),
            cost: 60,
            rent: vec![2, 10, 30, 90, 160, 250],
            house_cost: 50,
            hotel_cost: 50,
            house_rent: vec![10, 30, 90, 160, 250],
        }),
        TileType::Property(Property {
            owner: Some(owner),
            color: Color::Brown,
            houses: 0,
            name: "Baltic Avenue".to_string(),
            cost: 60,
            rent: vec![4, 20, 60, 180, 320, 450],
            house_cost: 50,
            hotel_cost: 50,
            house_rent: vec![20, 60, 180, 320, 450],
        }),
    ];

    let player_properties = vec![0, 1];
    assert!(owns_color_group(&player_properties, &board, Color::Brown));

    // Test case: Player owns some but not all properties
    let partial_properties = vec![0];
    assert!(!owns_color_group(&partial_properties, &board, Color::Brown));

    // Test case: Player owns none of the properties
    let empty_properties: Vec<u8> = vec![];
    assert!(!owns_color_group(&empty_properties, &board, Color::Brown));

    // Test case: Empty board
    let empty_board: Vec<TileType> = vec![];
    assert!(!owns_color_group(&empty_properties, &empty_board, Color::Brown));
}

#[test]
fn test_can_build_house() {
    // Setup test board with properties
    let owner = unique_key(1);
    let board = vec![
        TileType::Property(Property {
            owner: Some(owner),
            color: Color::DarkBlue,
            houses: 0,
            name: "Park Place".to_string(),
            cost: 350,
            rent: vec![35, 175, 500, 1100, 1300, 1500],
            house_cost: 200,
            hotel_cost: 200,
            house_rent: vec![175, 500, 1100, 1300, 1500],
        }),
        TileType::Property(Property {
            owner: Some(owner),
            color: Color::DarkBlue,
            houses: 0,
            name: "Boardwalk".to_string(),
            cost: 400,
            rent: vec![50, 200, 600, 1400, 1700, 2000],
            house_cost: 200,
            hotel_cost: 200,
            house_rent: vec![200, 600, 1400, 1700, 2000],
        }),
    ];

    let player_properties = vec![0, 1];

    // Test case: Can build when owns color group and houses are even
    assert!(can_build_house(0, &player_properties, &board));

    // Test case: Cannot build when doesn't own all properties
    let partial_properties = vec![0];
    assert!(!can_build_house(0, &partial_properties, &board));

    // Test case: Cannot build on non-property tile
    let mut mixed_board = board.clone();
    mixed_board.push(TileType::Special(SpecialTile::Chance));
    assert!(!can_build_house(2, &player_properties, &mixed_board));

    // Test case: Cannot build more than 5 houses (hotel)
    let hotel_board = vec![
        TileType::Property(Property {
            owner: Some(owner),
            color: Color::DarkBlue,
            houses: 5,
            name: "Park Place".to_string(),
            cost: 350,
            rent: vec![35, 175, 500, 1100, 1300, 1500],
            house_cost: 200,
            hotel_cost: 200,
            house_rent: vec![175, 500, 1100, 1300, 1500],
        }),
        TileType::Property(Property {
            owner: Some(owner),
            color: Color::DarkBlue,
            houses: 5,
            name: "Boardwalk".to_string(),
            cost: 400,
            rent: vec![50, 200, 600, 1400, 1700, 2000],
            house_cost: 200,
            hotel_cost: 200,
            house_rent: vec![200, 600, 1400, 1700, 2000],
        }),
    ];
    assert!(!can_build_house(0, &player_properties, &hotel_board));

    // Test case: Empty board
    let empty_board: Vec<TileType> = vec![];
    let empty_properties: Vec<u8> = vec![];
    assert!(!can_build_house(0, &empty_properties, &empty_board));
}

#[test]
fn random_number_is_first_digest_byte_modulo_range_plus_one() {
    let clock = test_clock();
    // Keccak-256 of slot 100, timestamp 1000 and the seed, each as 8 bytes LE,
    // starts with 0xe1 (225) for seed 0 and with 0x0a (10) for seed 1.
    assert_eq!(generate_random_number(&clock, 0, 10), Ok(6));
    assert_eq!(generate_random_number(&clock, 1, 10), Ok(1));
    assert_eq!(generate_random_number(&clock, 100, 5), Ok(1));
    assert_eq!(roll_dice(&clock, 0), Ok((4, 5)));
    // A timestamp before the epoch is hashed as its two's complement.
    let early = Clock { slot: 0, unix_timestamp: -1 };
    assert_eq!(generate_random_number(&early, 7, 6), Ok(3));
}

#[test]
fn random_number_agrees_with_keccak_of_the_entropy() {
    for slot in [0u64, 1, 77, u64::MAX] {
        for seed in [0u64, 5, u64::MAX] {
            let clock = Clock { slot, unix_timestamp: 1_700_000_000 };
            let mut data = Vec::new();
            data.extend_from_slice(&slot.to_le_bytes());
            data.extend_from_slice(&clock.unix_timestamp.to_le_bytes());
            data.extend_from_slice(&seed.to_le_bytes());
            let digest = Keccak256::digest(&data);
            for range in [1u8, 6, 7, 255] {
                let expected = digest[0] % range + 1;
                assert_eq!(generate_random_number(&clock, seed, range), Ok(expected));
                assert_eq!(number_from_digest(&digest[..], range), expected);
            }
        }
    }
}

#[test]
fn random_number_is_reproducible_and_refuses_an_empty_range() {
    let clock = test_clock();
    assert_eq!(
        generate_random_number(&clock, 9, 6),
        generate_random_number(&clock, 9, 6)
    );
    assert_eq!(
        generate_random_number(&clock, 9, 0),
        Err(monopoly::error::ProgramError::InvalidArgument)
    );
    // The second die of the last seed is the number of seed 0.
    let (_, second) = roll_dice(&clock, u64::MAX).unwrap();
    assert_eq!(Ok(second), generate_random_number(&clock, 0, 6));
}

#[test]
fn number_from_digest_on_given_bytes() {
    assert_eq!(number_from_digest(&[0], 6), 1);
    assert_eq!(number_from_digest(&[5, 200], 6), 6);
    assert_eq!(number_from_digest(&[6], 6), 1);
    assert_eq!(number_from_digest(&[255], 255), 1);
    assert_eq!(number_from_digest(&[254], 255), 255);
    assert_eq!(number_from_digest(&[13], 1), 1);
}

#[test]
fn checked_rent_detects_overflow() {
    assert_eq!(checked_rent(100, 3), Some(4500));
    assert_eq!(checked_rent(u64::MAX, 0), Some(u64::MAX));
    assert_eq!(checked_rent(u64::MAX, 7), Some(u64::MAX));
    assert_eq!(checked_rent(u64::MAX, 1), None);
    assert_eq!(checked_rent(u64::MAX / 125, 5), Some(u64::MAX / 125 * 125));
    assert_eq!(checked_rent(u64::MAX / 125 + 1, 5), None);
}

#[test]
fn railroads_belong_to_no_color_group() {
    let board = monopoly::board::create_board();
    // The brown streets lie at 1 and 3; the railroad at 5 carries the colour but
    // has a short rent schedule.
    assert!(owns_color_group(&[1, 3], &board, Color::Brown));
    assert!(!owns_color_group(&[1, 5], &board, Color::Brown));
    assert!(can_build_house(1, &[1, 3], &board));
    assert!(!can_build_house(5, &[1, 3, 5, 15, 25, 35], &board));
}
