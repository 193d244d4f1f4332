use monopoly::account::DeckType;
use monopoly::error::ProgramError;
use monopoly::instruction::MonopolyInstruction;

#[test]
fn test_instruction_pack() {
    // Test InitGame instruction
    let player_names = vec!["Alice".to_string(), "Bob".to_string()];
    let init_instruction = MonopolyInstruction::InitGame { player_names: player_names.clone() };
    let mut packed = vec![0u8; MonopolyInstruction::LEN];
    init_instruction.pack_into_slice(&mut packed);
    let unpacked = MonopolyInstruction::try_from_slice(&packed).unwrap();
    assert!(matches!(unpacked, MonopolyInstruction::InitGame { player_names: ref names } if names == &player_names));

    // Test MovePlayer instruction
    let move_instruction = MonopolyInstruction::MovePlayer;
    let mut packed = vec![0u8; MonopolyInstruction::LEN];
    move_instruction.pack_into_slice(&mut packed);
    let unpacked = MonopolyInstruction::try_from_slice(&packed).unwrap();
    assert!(matches!(unpacked, MonopolyInstruction::MovePlayer));

    // Test BuyProperty instruction
    let buy_instruction = MonopolyInstruction::BuyProperty { property_index: 5 };
    let mut packed = vec![0u8; MonopolyInstruction::LEN];
    buy_instruction.pack_into_slice(&mut packed);
    let unpacked = MonopolyInstruction::try_from_slice(&packed).unwrap();
    assert!(matches!(unpacked, MonopolyInstruction::BuyProperty { property_index } if property_index == 5));

    // Test BuildHouse instruction
    let build_instruction = MonopolyInstruction::BuildHouse { property_index: 3 };
    let mut packed = vec![0u8; MonopolyInstruction::LEN];
    build_instruction.pack_into_slice(&mut packed);
    let unpacked = MonopolyInstruction::try_from_slice(&packed).unwrap();
    assert!(matches!(unpacked, MonopolyInstruction::BuildHouse { property_index } if property_index == 3));

    // Test PayRent instruction
    let rent_instruction = MonopolyInstruction::PayRent { property_index: 7 };
    let mut packed = vec![0u8; MonopolyInstruction::LEN];
    rent_instruction.pack_into_slice(&mut packed);
    let unpacked = MonopolyInstruction::try_from_slice(&packed).unwrap();
    assert!(matches!(unpacked, MonopolyInstruction::PayRent { property_index } if property_index == 7));

    // Test NextTurn instruction
    let next_turn_instruction = MonopolyInstruction::NextTurn;
    let mut packed = vec![0u8; MonopolyInstruction::LEN];
    next_turn_instruction.pack_into_slice(&mut packed);
    let unpacked = MonopolyInstruction::try_from_slice(&packed).unwrap();
    assert!(matches!(unpacked, MonopolyInstruction::NextTurn));

    // Test CheckWinner instruction
    let check_winner_instruction = MonopolyInstruction::CheckWinner;
    let mut packed = vec![0u8; MonopolyInstruction::LEN];
    check_winner_instruction.pack_into_slice(&mut packed);
    let unpacked = MonopolyInstruction::try_from_slice(&packed).unwrap();
    assert!(matches!(unpacked, MonopolyInstruction::CheckWinner));

    // Test DrawCard instruction
    let draw_instruction = MonopolyInstruction::DrawCard { deck_type: DeckType::CommunityChest };
    let mut packed = vec![0u8; MonopolyInstruction::LEN];
    draw_instruction.pack_into_slice(&mut packed);
    let unpacked = MonopolyInstruction::try_from_slice(&packed).unwrap();
    assert!(matches!(unpacked, MonopolyInstruction::DrawCard { deck_type } if matches!(deck_type, DeckType::CommunityChest)));
}

#[test]
fn test_instruction_unpack() {
    // Test InitGame instruction
    let mut init_data = vec![0u8]; // Variant index 0
    let player_names = vec!["Alice".to_string(), "Bob".to_string()];
    let names_len = player_names.len() as u32;
    init_data.extend_from_slice(&names_len.to_le_bytes());
    for name in &player_names {
        let name_bytes = name.as_bytes();
        init_data.extend_from_slice(&(name_bytes.len() as u32).to_le_bytes());
        init_data.extend_from_slice(name_bytes);
    }
    let rest = &init_data[..];
    let result = MonopolyInstruction::unpack_from_slice(rest);
    assert!(result.is_ok());
    if let MonopolyInstruction::InitGame { player_names: unpacked_names } = result.unwrap() {
        assert_eq!(unpacked_names, player_names);
    } else {
        panic!("Expected InitGame instruction");
    }

    // Test MovePlayer instruction
    let move_data = vec![1u8];
    let rest = &move_data[..];
    let result = MonopolyInstruction::unpack_from_slice(rest);
    assert!(result.is_ok());
    assert!(matches!(result.unwrap(), MonopolyInstruction::MovePlayer));

    // Test BuyProperty instruction
    let mut buy_data = vec![2u8];
    buy_data.push(5); // property_index
    let rest = &buy_data[..];
    let result = MonopolyInstruction::unpack_from_slice(rest);
    assert!(result.is_ok());
    if let MonopolyInstruction::BuyProperty { property_index } = result.unwrap() {
        assert_eq!(property_index, 5);
    } else {
        panic!("Expected BuyProperty instruction");
    }

    // Test BuildHouse instruction
    let mut build_data = vec![3u8];
    build_data.push(3); // property_index
    let rest = &build_data[..];
    let result = MonopolyInstruction::unpack_from_slice(rest);
    assert!(result.is_ok());
    if let MonopolyInstruction::BuildHouse { property_index } = result.unwrap() {
        assert_eq!(property_index, 3);
    } else {
        panic!("Expected BuildHouse instruction");
    }

    // Test PayRent instruction
    let mut rent_data = vec![4u8];
    rent_data.push(7); // property_index
    let rest = &rent_data[..];
    let result = MonopolyInstruction::unpack_from_slice(rest);
    assert!(result.is_ok());
    if let MonopolyInstruction::PayRent { property_index } = result.unwrap() {
        assert_eq!(property_index, 7);
    } else {
        panic!("Expected PayRent instruction");
    }

    // Test NextTurn instruction
    let next_turn_data = vec![5u8];
    let rest = &next_turn_data[..];
    let result = MonopolyInstruction::unpack_from_slice(rest);
    assert!(result.is_ok());
    assert!(matches!(result.unwrap(), MonopolyInstruction::NextTurn));

    // Test CheckWinner instruction
    let check_winner_data = vec![6u8];
    let rest = &check_winner_data[..];
    let result = MonopolyInstruction::unpack_from_slice(rest);
    assert!(result.is_ok());
    assert!(matches!(result.unwrap(), MonopolyInstruction::CheckWinner));

    // Test DrawCard instruction
    let mut draw_data = vec![7u8];
    draw_data.push(0); // CommunityChest
    let rest = &draw_data[..];
    let result = MonopolyInstruction::unpack_from_slice(rest);
    assert!(result.is_ok());
    if let MonopolyInstruction::DrawCard { deck_type } = result.unwrap() {
        assert!(matches!(deck_type, DeckType::CommunityChest));
    } else {
        panic!("Expected DrawCard instruction");
    }

    // Test invalid variant
    let invalid_data = vec![255u8];
    let rest = &invalid_data[..];
    let result = MonopolyInstruction::unpack_from_slice(rest);
    assert!(result.is_err());

    // Test empty data
    let empty_data: Vec<u8> = vec![];
    let rest = &empty_data[..];
    let result = MonopolyInstruction::unpack_from_slice(rest);
    assert!(result.is_err());

    // Test truncated data
    let truncated_data = vec![2u8]; // BuyProperty without property_index
    let rest = &truncated_data[..];
    let result = MonopolyInstruction::unpack_from_slice(rest);
    assert!(result.is_err());
}

#[test]
fn instruction_bytes_are_exactly_the_wire_form() {
    let init = MonopolyInstruction::InitGame {
        player_names: vec!["Al".to_string(), "".to_string(), "Zoë".to_string()],
    };
    let bytes = init.to_bytes().unwrap();
    assert_eq!(
        bytes,
        vec![
            0, 3, 0, 0, 0, // kind and count
            2, 0, 0, 0, b'A', b'l', // "Al"
            0, 0, 0, 0, // ""
            4, 0, 0, 0, b'Z', b'o', 0xC3, 0xAB, // "Zoë"
        ]
    );
    assert_eq!(MonopolyInstruction::try_from_slice(&bytes), Ok(init));

    assert_eq!(MonopolyInstruction::MovePlayer.to_bytes().unwrap(), vec![1]);
    assert_eq!(
        MonopolyInstruction::BuyProperty { property_index: 39 }.to_bytes().unwrap(),
        vec![2, 39]
    );
    assert_eq!(
        MonopolyInstruction::BuildHouse { property_index: 1 }.to_bytes().unwrap(),
        vec![3, 1]
    );
    assert_eq!(
        MonopolyInstruction::PayRent { property_index: 255 }.to_bytes().unwrap(),
        vec![4, 255]
    );
    assert_eq!(MonopolyInstruction::NextTurn.to_bytes().unwrap(), vec![5]);
    assert_eq!(MonopolyInstruction::CheckWinner.to_bytes().unwrap(), vec![6]);
    assert_eq!(
        MonopolyInstruction::DrawCard { deck_type: DeckType::Chance }.to_bytes().unwrap(),
        vec![7, 1]
    );

    // What is no instruction is refused, never read as some default.
    for bad in [
        vec![],
        vec![8],
        vec![7],
        vec![7, 2],
        vec![0],
        vec![0, 1, 0, 0],
        vec![0, 1, 0, 0, 0],
        vec![0, 1, 0, 0, 0, 3, 0, 0, 0, b'a', b'b'],
        vec![0, 1, 0, 0, 0, 1, 0, 0, 0, 0xFF],
        vec![0, 255, 255, 255, 255],
    ] {
        assert_eq!(
            MonopolyInstruction::try_from_slice(&bad),
            Err(ProgramError::InvalidInstructionData),
            "{:?}",
            bad
        );
    }
}
