use monopoly::account::{Account, CardDeck, DeckType, GameAccount};
use monopoly::board::{create_board, create_community_chest};
use monopoly::error::{MonopolyError, ProgramError};
use monopoly::game::Game;
use monopoly::instruction::MonopolyInstruction;
use monopoly::player::Player;
use monopoly::processor::{
    process_buy_property, process_dice_move, process_init_game, process_instruction,
    process_move_player, process_next_turn, process_pay_rent, Actor,
};
use monopoly::property::{Property, TileType};
use monopoly::pubkey::Pubkey;
use monopoly::rules::Standing;
use monopoly::state::{Card, Color, SpecialTile};
use monopoly::utils::{roll_dice, Clock};

fn key(n: u8) -> Pubkey {
    Pubkey::new_from_array([n; 32])
}

fn program() -> Pubkey {
    key(200)
}

fn player(name: &str, cash: u64) -> Player {
    Player {
        name: String::from(name),
        cash,
        position: 0,
        jail_turns: 0,
        properties: vec![],
        get_out_of_jail_cards: 0,
    }
}

fn game_of(players: Vec<Player>) -> Game {
    Game { board: create_board(), players, current_player: 0, free_parking: 0, initialized: true }
}

fn account_holding(game: &Game) -> Account {
    let mut data = vec![0; GameAccount::LEN];
    GameAccount { is_initialized: true, game: game.clone() }.pack_into_slice(&mut data);
    Account { key: key(1), owner: program(), is_signer: false, data }
}

fn game_in(account: &Account) -> Game {
    GameAccount::unpack(&account.data).unwrap().game
}

fn seat(n: u8) -> Actor {
    Actor { key: key(10 + n), is_signer: true, seat: n }
}

fn rule(e: MonopolyError) -> ProgramError {
    e.into()
}

#[test]
fn turn_skips_bankrupt_players_and_wraps() {
    // Players [bankrupt, active, bankrupt, active] with the turn at seat 0.
    let mut game = game_of(vec![
        player("A", 0),
        player("B", 100),
        player("C", 0),
        player("D", 100),
    ]);
    assert_eq!(game.next_turn(), Ok(()));
    assert_eq!(game.current_player, 1);
    assert_eq!(game.next_turn(), Ok(()));
    assert_eq!(game.current_player, 3);
    assert_eq!(game.next_turn(), Ok(()));
    assert_eq!(game.current_player, 1);

    // The same through the accounts.
    let mut account = account_holding(&game_of(vec![
        player("A", 0),
        player("B", 100),
        player("C", 0),
        player("D", 100),
    ]));
    process_next_turn(&program(), &mut account, &seat(0)).unwrap();
    assert_eq!(game_in(&account).current_player, 1);
    process_next_turn(&program(), &mut account, &seat(1)).unwrap();
    assert_eq!(game_in(&account).current_player, 3);
    process_next_turn(&program(), &mut account, &seat(3)).unwrap();
    assert_eq!(game_in(&account).current_player, 1);
    // Seat 3 has had its turn.
    assert_eq!(
        process_next_turn(&program(), &mut account, &seat(3)),
        Err(rule(MonopolyError::NotPlayerTurn))
    );
}

#[test]
fn turn_stops_after_one_round_when_everybody_is_bankrupt() {
    let mut game = game_of(vec![player("A", 0), player("B", 0), player("C", 0)]);
    game.current_player = 1;
    assert_eq!(game.next_turn(), Ok(()));
    assert_eq!(game.current_player, 2);
    assert_eq!(game.next_turn(), Ok(()));
    assert_eq!(game.current_player, 0);

    // A player without cash who owns a tile is not bankrupt.
    let mut game = game_of(vec![player("A", 5), player("B", 0), player("C", 0)]);
    game.players[2].properties = vec![1];
    assert_eq!(game.next_turn(), Ok(()));
    assert_eq!(game.current_player, 2);

    // A game without players, or with the turn at no seat, cannot be played.
    let mut empty = game_of(vec![]);
    assert_eq!(empty.next_turn(), Err(rule(MonopolyError::InvalidGameState)));
    let mut astray = game_of(vec![player("A", 5)]);
    astray.current_player = 1;
    assert_eq!(astray.next_turn(), Err(rule(MonopolyError::InvalidGameState)));
    assert_eq!(astray.current_player, 1);
}

#[test]
fn movement_wraps_round_the_board() {
    // From 38 by 5 to position 3, with the bonus for passing the start once.
    let mut game = game_of(vec![player("A", 1500), player("B", 1500)]);
    game.players[0].position = 38;
    assert_eq!(game.move_player(5, false), Ok(()));
    assert_eq!(game.players[0].position, 3);
    assert_eq!(game.players[0].cash, 1700);
    assert_eq!(game.free_parking, 0);
    assert_eq!(game.players[1], player("B", 1500));
    assert_eq!(game.board, create_board());

    // Landing on the start itself counts as passing it.
    let mut game = game_of(vec![player("A", 1500)]);
    game.players[0].position = 28;
    assert_eq!(game.move_player(12, false), Ok(()));
    assert_eq!((game.players[0].position, game.players[0].cash), (0, 1700));

    // A bonus that the cash cannot hold is refused, and nothing changes.
    let mut game = game_of(vec![player("A", u64::MAX - 199)]);
    game.players[0].position = 39;
    let before = game.clone();
    assert_eq!(game.move_player(2, false), Err(ProgramError::ArithmeticOverflow));
    assert_eq!(game, before);
}

#[test]
fn go_to_jail_and_the_jail_cycle() {
    let mut game = game_of(vec![player("A", 1500)]);
    game.players[0].position = 24;
    assert_eq!(game.move_player(6, false), Ok(()));
    assert_eq!(game.players[0].position, 10);
    assert_eq!(game.players[0].jail_turns, 1);
    assert_eq!(game.players[0].cash, 1500);

    // First turn in jail without doubles: the counter goes to 2, no move.
    assert_eq!(game.move_player(7, false), Ok(()));
    assert_eq!((game.players[0].position, game.players[0].jail_turns), (10, 2));
    assert_eq!(game.players[0].cash, 1500);
    // Second: the counter reaches 3, the fine is paid, the player is free but
    // does not move in this turn.
    assert_eq!(game.move_player(7, false), Ok(()));
    assert_eq!((game.players[0].position, game.players[0].jail_turns), (10, 0));
    assert_eq!(game.players[0].cash, 1450);
    assert_eq!(game.free_parking, 0);
    // Free again.
    assert_eq!(game.move_player(3, false), Ok(()));
    assert_eq!((game.players[0].position, game.players[0].jail_turns), (13, 0));

    // Doubles free at once, and the player moves.
    let mut game = game_of(vec![player("A", 20)]);
    game.players[0].position = 10;
    game.players[0].jail_turns = 1;
    assert_eq!(game.move_player(4, true), Ok(()));
    assert_eq!((game.players[0].position, game.players[0].jail_turns), (14, 0));
    assert_eq!(game.players[0].cash, 20);

    // The fine takes what is there and no more.
    let mut game = game_of(vec![player("A", 20)]);
    game.players[0].position = 10;
    game.players[0].jail_turns = 2;
    assert_eq!(game.move_player(4, false), Ok(()));
    assert_eq!((game.players[0].cash, game.players[0].jail_turns), (0, 0));
}

#[test]
fn taxes_take_what_is_there_and_go_to_the_pot() {
    let mut game = game_of(vec![player("A", 120)]);
    game.free_parking = 7;
    assert_eq!(game.move_player(4, false), Ok(()));
    assert_eq!(game.players[0].cash, 0);
    assert_eq!(game.free_parking, 127);

    let mut game = game_of(vec![player("A", 1000)]);
    game.players[0].position = 30;
    assert_eq!(game.move_player(8, false), Ok(()));
    assert_eq!(game.players[0].position, 38);
    assert_eq!(game.players[0].cash, 925);
    assert_eq!(game.free_parking, 75);

    // A pot that cannot hold the tax refuses the move.
    let mut game = game_of(vec![player("A", 1000)]);
    game.free_parking = u64::MAX - 10;
    let before = game.clone();
    assert_eq!(game.move_player(4, false), Err(ProgramError::ArithmeticOverflow));
    assert_eq!(game, before);

    // A board that ends before the target.
    let mut game = game_of(vec![player("A", 1000)]);
    game.board.truncate(5);
    let before = game.clone();
    assert_eq!(game.move_player(5, false), Err(rule(MonopolyError::InvalidGameState)));
    assert_eq!(game, before);
}

#[test]
fn buying_a_property_once() {
    let buyer = key(42);
    let mut game = game_of(vec![player("A", 60), player("B", 1500)]);
    assert_eq!(game.buy_property(&buyer, 3), Ok(()));
    assert_eq!(game.players[0].cash, 0);
    assert_eq!(game.players[0].properties, vec![3]);
    assert_eq!(game.players[1], player("B", 1500));
    match &game.board[3] {
        TileType::Property(p) => {
            assert_eq!(p.owner, Some(buyer));
            assert_eq!(p.cost, 60);
            assert_eq!(p.houses, 0);
        }
        _ => panic!("not a property"),
    }

    // A second purchase of the same tile fails and leaves all as it is.
    let before = game.clone();
    assert_eq!(
        game.buy_property(&buyer, 3),
        Err(rule(MonopolyError::PropertyAlreadyOwned))
    );
    assert_eq!(game, before);
    game.current_player = 1;
    let before = game.clone();
    assert_eq!(
        game.buy_property(&key(43), 3),
        Err(rule(MonopolyError::PropertyAlreadyOwned))
    );
    assert_eq!(game, before);

    // One unit short.
    let mut game = game_of(vec![player("A", 59)]);
    let before = game.clone();
    assert_eq!(game.buy_property(&buyer, 3), Err(rule(MonopolyError::InsufficientFunds)));
    assert_eq!(game, before);
    assert_eq!(game.buy_property(&buyer, 2), Err(rule(MonopolyError::NotAProperty)));
    assert_eq!(game.buy_property(&buyer, 40), Err(rule(MonopolyError::InvalidPropertyIndex)));
}

#[test]
fn building_up_to_the_hotel() {
    let mut game = game_of(vec![player("A", 10_000)]);
    game.players[0].properties = vec![37, 39];
    let mut cash = 10_000;
    for houses in 1..=5u8 {
        assert_eq!(game.build_house(39), Ok(()));
        // The fifth house is the hotel and has its own cost.
        cash -= if houses == 5 { 1000 } else { 200 };
        assert_eq!(game.players[0].cash, cash);
        match &game.board[39] {
            TileType::Property(p) => assert_eq!(p.houses, houses),
            _ => panic!("not a property"),
        }
    }
    let before = game.clone();
    assert_eq!(game.build_house(39), Err(rule(MonopolyError::MaxHousesReached)));
    assert_eq!(game, before);

    // The hotel needs its full cost.
    let mut game = game_of(vec![player("A", 999)]);
    game.players[0].properties = vec![37, 39];
    if let TileType::Property(p) = &mut game.board[39] {
        p.houses = 4;
    }
    assert_eq!(game.build_house(39), Err(rule(MonopolyError::InsufficientFunds)));
    game.players[0].cash = 1000;
    assert_eq!(game.build_house(39), Ok(()));
    assert_eq!(game.players[0].cash, 0);

    // Nothing is built on a railroad, a special tile, or a tile of another.
    let mut game = game_of(vec![player("A", 5000)]);
    game.players[0].properties = vec![1, 3, 5, 15, 25, 35];
    assert_eq!(game.build_house(5), Err(rule(MonopolyError::IncompleteColorSet)));
    assert_eq!(game.build_house(0), Err(rule(MonopolyError::NotAProperty)));
    assert_eq!(game.build_house(6), Err(rule(MonopolyError::NotPropertyOwner)));
    assert_eq!(game.build_house(200), Err(rule(MonopolyError::InvalidPropertyIndex)));
}

#[test]
fn rent_goes_to_the_owner() {
    let owner = key(7);
    let mut game = game_of(vec![player("A", 1500), player("B", 10), player("C", 0)]);
    game.players[2].properties = vec![39];
    if let TileType::Property(p) = &mut game.board[39] {
        p.owner = Some(owner);
        p.houses = 5;
    }
    // Base rent 50 with a hotel: 125 times.
    let before = game.clone();
    assert_eq!(game.pay_rent(&owner, 39), Err(rule(MonopolyError::InsufficientFunds)));
    assert_eq!(game, before);
    game.players[0].cash = 6250;
    assert_eq!(game.pay_rent(&key(8), 39), Err(rule(MonopolyError::NotRentOwner)));
    assert_eq!(game.pay_rent(&owner, 39), Ok(()));
    assert_eq!(game.players[0].cash, 0);
    assert_eq!(game.players[1].cash, 10);
    assert_eq!(game.players[2].cash, 6250);

    // A railroad pays the first step of its schedule.
    let mut game = game_of(vec![player("A", 100), player("B", 0)]);
    game.players[1].properties = vec![5];
    assert_eq!(game.pay_rent(&owner, 5), Ok(()));
    assert_eq!((game.players[0].cash, game.players[1].cash), (75, 25));

    // Rent that 64 bits cannot hold, or that the owner's cash cannot take.
    let mut game = game_of(vec![player("A", u64::MAX), player("B", 0)]);
    game.players[1].properties = vec![1];
    if let TileType::Property(p) = &mut game.board[1] {
        p.rent = vec![u64::MAX / 4];
        p.houses = 1;
    }
    assert_eq!(game.pay_rent(&owner, 1), Err(ProgramError::ArithmeticOverflow));
    if let TileType::Property(p) = &mut game.board[1] {
        p.rent = vec![10];
        p.houses = 0;
    }
    game.players[1].cash = u64::MAX - 9;
    let before = game.clone();
    assert_eq!(game.pay_rent(&owner, 1), Err(ProgramError::ArithmeticOverflow));
    assert_eq!(game, before);
    if let TileType::Property(p) = &mut game.board[1] {
        p.rent = vec![];
    }
    assert_eq!(game.pay_rent(&owner, 1), Err(rule(MonopolyError::InvalidGameState)));
}

#[test]
fn cards_have_their_effects() {
    let mut game = game_of(vec![player("A", 100)]);
    game.players[0].position = 12;
    assert_eq!(game.apply_card(Card::CollectMoney(150)), Ok(()));
    assert_eq!(game.players[0].cash, 250);
    assert_eq!(game.apply_card(Card::PayMoney(250)), Ok(()));
    assert_eq!((game.players[0].cash, game.free_parking), (0, 250));
    assert_eq!(
        game.apply_card(Card::PayMoney(1)),
        Err(rule(MonopolyError::InsufficientBalance))
    );
    // Forward: no bonus. Backward: the start has been passed.
    assert_eq!(game.apply_card(Card::Move(30)), Ok(()));
    assert_eq!((game.players[0].position, game.players[0].cash), (30, 0));
    assert_eq!(game.apply_card(Card::Move(5)), Ok(()));
    assert_eq!((game.players[0].position, game.players[0].cash), (5, 200));
    assert_eq!(game.apply_card(Card::Move(5)), Ok(()));
    assert_eq!((game.players[0].position, game.players[0].cash), (5, 200));
    assert_eq!(game.apply_card(Card::GetOutOfJail), Ok(()));
    assert_eq!(game.players[0].get_out_of_jail_cards, 1);

    game.players[0].get_out_of_jail_cards = 255;
    game.players[0].cash = u64::MAX;
    let before = game.clone();
    assert_eq!(game.apply_card(Card::GetOutOfJail), Err(ProgramError::ArithmeticOverflow));
    assert_eq!(game.apply_card(Card::CollectMoney(1)), Err(ProgramError::ArithmeticOverflow));
    assert_eq!(game, before);
    game.free_parking = u64::MAX;
    assert_eq!(game.apply_card(Card::PayMoney(1)), Err(ProgramError::ArithmeticOverflow));
}

#[test]
fn front_draws_visit_every_card_once() {
    let fresh = create_community_chest();
    let mut deck = CardDeck {
        is_initialized: true,
        cards: fresh.clone(),
        game: key(1),
        deck_type: DeckType::CommunityChest,
    };
    let mut seen = Vec::new();
    for _ in 0..7 {
        let card = deck.draw(0);
        assert!(!seen.contains(&card));
        seen.push(card);
        assert_eq!(deck.cards.len(), 7);
    }
    assert_eq!(seen, fresh);
    assert_eq!(deck.cards, fresh);
    // The eighth draw is the first card again.
    assert_eq!(deck.draw(0), Card::CollectMoney(200));

    // A draw from the middle moves that card to the back and keeps the rest in order.
    let mut deck = CardDeck {
        is_initialized: true,
        cards: fresh.clone(),
        game: key(1),
        deck_type: DeckType::CommunityChest,
    };
    assert_eq!(deck.draw(2), Card::GetOutOfJail);
    assert_eq!(
        deck.cards,
        vec![
            Card::CollectMoney(200),
            Card::PayMoney(50),
            Card::Move(0),
            Card::CollectMoney(100),
            Card::PayMoney(100),
            Card::Move(10),
            Card::GetOutOfJail,
        ]
    );
    // From the back, the same card comes again.
    assert_eq!(deck.draw(6), Card::GetOutOfJail);
    assert_eq!(deck.draw(6), Card::GetOutOfJail);
}

#[test]
fn standing_names_the_winner_or_the_leader() {
    let mut game = game_of(vec![player("A", 100), player("B", 0), player("C", 500)]);
    game.players[1].properties = vec![39, 1, 4, 77];
    if let TileType::Property(p) = &mut game.board[39] {
        p.houses = 2;
    }
    // B owns tile 39 (400 and two houses of 200) and tile 1 (60); 4 is no
    // property and 77 no tile.
    assert_eq!(game.worth(1), 860);
    assert_eq!(game.check_winner(), Ok(Standing::Leader(1, 860)));
    // Ties go to the earlier seat.
    game.players[0].cash = 860;
    assert_eq!(game.check_winner(), Ok(Standing::Leader(0, 860)));
    // Worth beyond 64 bits is capped.
    game.players[2].cash = u64::MAX;
    game.players[2].properties = vec![39];
    assert_eq!(game.worth(2), u64::MAX);
    assert_eq!(game.check_winner(), Ok(Standing::Leader(2, u64::MAX)));

    let game = game_of(vec![player("A", 0), player("B", 0), player("C", 1)]);
    assert_eq!(game.check_winner(), Ok(Standing::Winner(2)));
    assert_eq!(Standing::Winner(2).winner(), Some(2));
    assert_eq!(Standing::Leader(2, 9).winner(), None);
    let game = game_of(vec![player("A", 0), player("B", 0)]);
    assert_eq!(game.check_winner(), Ok(Standing::Leader(0, 0)));
    let game = game_of(vec![]);
    assert_eq!(game.check_winner(), Err(rule(MonopolyError::InvalidGameState)));
}

#[test]
fn a_two_player_game_from_start() {
    let program = program();
    let mut account = Account {
        key: key(1),
        owner: program,
        is_signer: false,
        data: vec![0; GameAccount::LEN],
    };
    let alice = seat(0);
    let bob = seat(1);
    process_init_game(
        &program,
        &mut account,
        &alice,
        vec![String::from("Alice"), String::from("Bob")],
    )
    .unwrap();
    let game = game_in(&account);
    assert_eq!(game.players, vec![player("Alice", 1500), player("Bob", 1500)]);
    assert_eq!(game.board, create_board());
    assert_eq!((game.current_player, game.free_parking, game.initialized), (0, 0, true));

    // Alice moves by 3 and lands on the property at 3, which costs 60.
    process_move_player(&program, &mut account, &alice, 3).unwrap();
    assert_eq!(game_in(&account).players[0].position, 3);
    // Bob cannot act in her turn.
    assert_eq!(
        process_buy_property(&program, &mut account, &bob, 3),
        Err(rule(MonopolyError::NotPlayerTurn))
    );
    process_buy_property(&program, &mut account, &alice, 3).unwrap();
    let game = game_in(&account);
    assert_eq!(game.players[0].cash, 1440);
    assert_eq!(game.players[0].properties, vec![3]);

    process_next_turn(&program, &mut account, &alice).unwrap();
    assert_eq!(game_in(&account).current_player, 1);

    // Bob moves by 4 and lands on the income tax at 4.
    process_move_player(&program, &mut account, &bob, 4).unwrap();
    let game = game_in(&account);
    assert_eq!(game.players[1].position, 4);
    assert_eq!(game.players[1].cash, 1300);
    assert_eq!(game.free_parking, 200);
    assert_eq!(game.players[0].cash, 1440);

    // Later Bob lands on Alice's property and pays its rent of 4.
    process_next_turn(&program, &mut account, &bob).unwrap();
    process_next_turn(&program, &mut account, &alice).unwrap();
    process_pay_rent(&program, &mut account, &bob, &alice.key, 3).unwrap();
    let game = game_in(&account);
    assert_eq!((game.players[0].cash, game.players[1].cash), (1444, 1296));
    assert_eq!(
        process_pay_rent(&program, &mut account, &bob, &key(99), 3),
        Err(rule(MonopolyError::NotRentOwner))
    );
}

#[test]
fn instructions_reach_their_handlers() {
    let program = program();
    let clock = Clock { slot: 100, unix_timestamp: 1000 };
    let signer = Account { key: key(11), owner: key(0), is_signer: true, data: vec![] };
    let third = Account { key: key(12), owner: program, is_signer: false, data: vec![0; CardDeck::LEN] };
    let blank = Account { key: key(1), owner: program, is_signer: false, data: vec![0; GameAccount::LEN] };
    let mut accounts = vec![blank, signer.clone(), third];

    let init = MonopolyInstruction::InitGame {
        player_names: vec!["Alice".to_string(), "Bob".to_string()],
    };
    process_instruction(&program, &mut accounts, 0, &clock, &init.to_bytes().unwrap()).unwrap();

    // The dice come from the clock and the seat: (4, 5) for seat 0 at this clock.
    assert_eq!(roll_dice(&clock, 0), Ok((4, 5)));
    process_instruction(&program, &mut accounts, 0, &clock, &[1]).unwrap();
    assert_eq!(game_in(&accounts[0]).players[0].position, 9);

    process_instruction(&program, &mut accounts, 0, &clock, &[2, 9]).unwrap();
    let game = game_in(&accounts[0]);
    assert_eq!(game.players[0].properties, vec![9]);
    assert_eq!(game.players[0].cash, 1380);
    match &game.board[9] {
        TileType::Property(p) => assert_eq!(p.owner, Some(signer.key)),
        _ => panic!("not a property"),
    }
    assert_eq!(
        process_instruction(&program, &mut accounts, 0, &clock, &[3, 9]),
        Err(rule(MonopolyError::IncompleteColorSet))
    );
    assert_eq!(
        process_instruction(&program, &mut accounts, 0, &clock, &[4, 9]),
        Err(rule(MonopolyError::OwnProperty))
    );
    // Card 100 % 7 = 2 of the fresh community chest is the jail card.
    process_instruction(&program, &mut accounts, 0, &clock, &[7, 0]).unwrap();
    assert_eq!(game_in(&accounts[0]).players[0].get_out_of_jail_cards, 1);
    let deck = CardDeck::unpack(&accounts[2].data).unwrap();
    assert_eq!(deck.cards.len(), 7);
    assert_eq!(deck.cards[6], Card::GetOutOfJail);
    assert_eq!(deck.game, accounts[0].key);

    // Asking for the winner reports the standing; nothing else reports anything.
    assert_eq!(
        process_instruction(&program, &mut accounts, 0, &clock, &[6]),
        Ok(Some(Standing::Leader(0, 1500)))
    );
    assert_eq!(process_instruction(&program, &mut accounts, 0, &clock, &[4, 200]), Err(rule(MonopolyError::InvalidPropertyIndex)));
    assert_eq!(process_instruction(&program, &mut accounts, 0, &clock, &[5]), Ok(None));
    assert_eq!(game_in(&accounts[0]).current_player, 1);
    assert_eq!(
        process_instruction(&program, &mut accounts, 0, &clock, &[5]),
        Err(rule(MonopolyError::NotPlayerTurn))
    );
    assert_eq!(accounts[1], signer);

    let before = accounts.clone();
    assert_eq!(
        process_instruction(&program, &mut accounts, 1, &clock, &[]),
        Err(ProgramError::InvalidInstructionData)
    );
    accounts.truncate(2);
    assert_eq!(
        process_instruction(&program, &mut accounts, 1, &clock, &[4, 9]),
        Err(ProgramError::NotEnoughAccountKeys)
    );
    assert_eq!(
        process_instruction(&program, &mut accounts, 1, &clock, &[7, 1]),
        Err(ProgramError::NotEnoughAccountKeys)
    );
    assert_eq!(accounts[..], before[..2]);
}

#[test]
fn rent_by_the_schedule() {
    let mut street = Property {
        name: String::from("Pyth"),
        color: Color::Yellow,
        cost: 260,
        rent: vec![22, 110, 330, 800, 975, 1150],
        house_cost: 150,
        hotel_cost: 750,
        house_rent: vec![110, 330, 800, 975, 1150],
        owner: None,
        houses: 0,
    };
    assert_eq!(street.scheduled_rent(), Some(22));
    street.houses = 5;
    assert_eq!(street.scheduled_rent(), Some(1150));
    street.houses = 6;
    assert_eq!(street.scheduled_rent(), None);
    street.rent = vec![25, 50, 100, 200];
    street.houses = 3;
    assert_eq!(street.scheduled_rent(), Some(200));
    street.houses = 4;
    assert_eq!(street.scheduled_rent(), None);
}

#[test]
fn dice_moves_know_doubles() {
    let mut game = game_of(vec![player("A", 100)]);
    game.players[0].position = 10;
    game.players[0].jail_turns = 1;
    let mut account = account_holding(&game);
    assert_eq!(
        process_dice_move(&program(), &mut account, &seat(0), (0, 3)),
        Err(rule(MonopolyError::InvalidDiceRoll))
    );
    assert_eq!(
        process_dice_move(&program(), &mut account, &seat(0), (3, 7)),
        Err(rule(MonopolyError::InvalidDiceRoll))
    );
    process_dice_move(&program(), &mut account, &seat(0), (3, 4)).unwrap();
    let after = game_in(&account);
    assert_eq!((after.players[0].position, after.players[0].jail_turns), (10, 2));
    process_dice_move(&program(), &mut account, &seat(0), (6, 6)).unwrap();
    let after = game_in(&account);
    assert_eq!((after.players[0].position, after.players[0].jail_turns), (22, 0));
}

#[test]
fn accounts_are_checked_before_the_rules() {
    let game = game_of(vec![player("A", 100), player("B", 100)]);
    let good = account_holding(&game);

    let mut foreign = good.clone();
    foreign.owner = key(3);
    assert_eq!(
        process_next_turn(&program(), &mut foreign, &seat(0)),
        Err(ProgramError::IncorrectProgramId)
    );

    let mut short = good.clone();
    short.data.pop();
    assert_eq!(
        process_next_turn(&program(), &mut short, &seat(0)),
        Err(ProgramError::InvalidAccountData)
    );

    let mut blank = good.clone();
    blank.data = vec![0; GameAccount::LEN];
    assert_eq!(
        process_next_turn(&program(), &mut blank, &seat(0)),
        Err(ProgramError::UninitializedAccount)
    );

    let mut corrupt = good.clone();
    corrupt.data[5] = 9;
    let before = corrupt.clone();
    assert_eq!(
        process_next_turn(&program(), &mut corrupt, &seat(0)),
        Err(ProgramError::InvalidAccountData)
    );
    assert_eq!(corrupt, before);

    // A player whose list of tiles has outgrown its slot cannot be written back.
    let mut crowded = game.clone();
    crowded.players[0].name = "N".repeat(481);
    crowded.players[0].properties = vec![0; 12];
    let mut account = account_holding(&crowded);
    let before = account.clone();
    assert_eq!(
        process_buy_property(&program(), &mut account, &seat(0), 1),
        Err(ProgramError::AccountDataTooSmall)
    );
    assert_eq!(account, before);

    // An account of the wrong length is never set up.
    let mut small = Account { key: key(1), owner: program(), is_signer: false, data: vec![0; 8192] };
    assert_eq!(
        process_init_game(&program(), &mut small, &seat(0), vec!["A".into(), "B".into()]),
        Err(ProgramError::InvalidAccountData)
    );
    let mut other = Account { key: key(1), owner: key(5), is_signer: false, data: vec![0; GameAccount::LEN] };
    assert_eq!(
        process_init_game(&program(), &mut other, &seat(0), vec!["A".into(), "B".into()]),
        Err(ProgramError::IncorrectProgramId)
    );
    // Eight players with long names still fit.
    let mut full = Account { key: key(1), owner: program(), is_signer: false, data: vec![0; GameAccount::LEN] };
    let names: Vec<String> = (0..8).map(|i| format!("{}{}", "x".repeat(400), i)).collect();
    assert_eq!(process_init_game(&program(), &mut full, &seat(0), names.clone()), Ok(()));
    assert_eq!(game_in(&full).players.len(), 8);
    assert_eq!(game_in(&full).players[7].name, names[7]);
}

#[test]
fn error_codes_and_messages() {
    let all = [
        MonopolyError::InvalidInstruction,
        MonopolyError::NotRentOwner,
        MonopolyError::InsufficientBalance,
        MonopolyError::InvalidMove,
        MonopolyError::PropertyAlreadyOwned,
        MonopolyError::MaximumHousesReached,
        MonopolyError::InvalidProperty,
        MonopolyError::NotPropertyOwner,
        MonopolyError::InvalidGameState,
        MonopolyError::InsufficientFunds,
        MonopolyError::PropertyNotOwned,
        MonopolyError::OwnProperty,
        MonopolyError::NotPlayerTurn,
        MonopolyError::NotAProperty,
        MonopolyError::InvalidDiceRoll,
        MonopolyError::IncompleteColorSet,
        MonopolyError::InvalidPropertyIndex,
        MonopolyError::MaxHousesReached,
        MonopolyError::InvalidPlayerCount,
    ];
    for (i, e) in all.iter().enumerate() {
        assert_eq!(e.code(), i as u32);
        assert_eq!(MonopolyError::from_code(i as u32), Some(*e));
        assert_eq!(ProgramError::from(*e), ProgramError::Custom(i as u32));
        assert!(!e.message().is_empty());
    }
    assert_eq!(MonopolyError::from_code(19), None);
    assert_eq!(MonopolyError::NotPlayerTurn.message(), "Not Player's Turn");
    assert_eq!(MonopolyError::InsufficientBalance.message(), "Insufficient Balance");
}

#[test]
fn truncated_buffers_are_refused() {
    let property = Property {
        name: String::from("Orca"),
        color: Color::Red,
        cost: 220,
        rent: vec![18, 90],
        house_cost: 150,
        hotel_cost: 750,
        house_rent: vec![90],
        owner: Some(key(9)),
        houses: 1,
    };
    let len = property.encoded_len().unwrap();
    assert_eq!(len, 4 + 4 + 1 + 8 + (4 + 16) + 8 + 8 + (4 + 8) + 33 + 1);
    let mut bytes = vec![0u8; len];
    property.pack_into_slice(&mut bytes);
    assert_eq!(Property::unpack_from_slice(&bytes), Ok(property.clone()));
    for cut in 0..len {
        assert_eq!(
            Property::unpack_from_slice(&bytes[..cut]),
            Err(ProgramError::InvalidAccountData),
            "cut at {}",
            cut
        );
    }
    // Any flag byte but 0 says that an owner follows.
    let flag = len - 34;
    let mut odd = bytes.clone();
    odd[flag] = 2;
    assert_eq!(Property::unpack_from_slice(&odd), Ok(property.clone()));
    // A colour of no kind.
    let mut bad = bytes.clone();
    bad[8] = 8;
    assert_eq!(Property::unpack_from_slice(&bad), Err(ProgramError::InvalidAccountData));
    // A count that runs past the end.
    let mut far = bytes.clone();
    far[17..21].copy_from_slice(&u32::MAX.to_le_bytes());
    assert_eq!(Property::unpack_from_slice(&far), Err(ProgramError::InvalidAccountData));

    let tile = TileType::Property(property);
    let mut bytes = vec![0u8; len + 1];
    tile.pack_into_slice(&mut bytes);
    for cut in 0..=len {
        assert_eq!(
            TileType::unpack_from_slice(&bytes[..cut]),
            Err(ProgramError::InvalidAccountData)
        );
    }
    assert_eq!(TileType::unpack_from_slice(&[1]), Err(ProgramError::InvalidAccountData));
    assert_eq!(
        TileType::unpack_from_slice(&[1, 7]),
        Ok(TileType::Special(SpecialTile::LuxuryTax))
    );

    let p = player("Zoë", 7);
    let len = p.encoded_len().unwrap();
    assert_eq!(len, 4 + 4 + 8 + 1 + 1 + 4 + 1);
    let mut bytes = vec![0u8; len];
    p.pack_into_slice(&mut bytes);
    assert_eq!(
        bytes,
        vec![4, 0, 0, 0, b'Z', b'o', 0xC3, 0xAB, 7, 0, 0, 0, 0, 0, 0, 0, 0, 0, 0, 0, 0, 0, 0]
    );
    for cut in 0..len {
        assert_eq!(Player::unpack_from_slice(&bytes[..cut]), Err(ProgramError::InvalidAccountData));
    }

    for cut in 0..9 {
        let mut bytes = vec![0u8; 9];
        Card::PayMoney(5).pack_into_slice(&mut bytes);
        assert_eq!(Card::unpack_from_slice(&bytes[..cut]), Err(ProgramError::InvalidAccountData));
    }
    assert_eq!(Card::unpack_from_slice(&[2]), Err(ProgramError::InvalidAccountData));
    assert_eq!(Card::unpack_from_slice(&[4, 0, 0, 0, 0, 0, 0, 0, 0]), Err(ProgramError::InvalidAccountData));
    assert_eq!(Card::unpack_from_slice(&[3]), Ok(Card::GetOutOfJail));
    assert_eq!(Color::unpack_from_slice(&[]), Err(ProgramError::InvalidAccountData));
    assert_eq!(SpecialTile::unpack_from_slice(&[]), Err(ProgramError::InvalidAccountData));

    let game = game_of(vec![player("A", 1), player("B", 2)]);
    let mut bytes = vec![0u8; Game::LEN];
    game.pack_into_slice(&mut bytes);
    let used = game.packed_len().unwrap();
    assert_eq!(used, 4 + 40 * 1025 + 4 + 2 * 512 + 10);
    assert_eq!(Game::unpack_from_slice(&bytes[..used]), Ok(game));
    assert_eq!(Game::unpack_from_slice(&bytes[..used - 1]), Err(ProgramError::InvalidAccountData));
    assert_eq!(Game::unpack_from_slice(&bytes[..3]), Err(ProgramError::InvalidAccountData));
    // A count of tiles that the buffer cannot hold.
    bytes[0..4].copy_from_slice(&u32::MAX.to_le_bytes());
    assert_eq!(Game::unpack_from_slice(&bytes), Err(ProgramError::InvalidAccountData));
}

#[test]
fn packing_leaves_the_rest_of_the_buffer() {
    let game = Game {
        board: vec![TileType::Special(SpecialTile::Jail)],
        players: vec![player("A", 258)],
        current_player: 0,
        free_parking: 3,
        initialized: true,
    };
    let mut bytes = vec![0xEEu8; Game::LEN];
    game.pack_into_slice(&mut bytes);
    // Count, the tile at the start of its slot, the rest of the slot untouched.
    assert_eq!(&bytes[0..6], &[1, 0, 0, 0, 1, 1]);
    assert!(bytes[6..1029].iter().all(|b| *b == 0xEE));
    assert_eq!(&bytes[1029..1033], &[1, 0, 0, 0]);
    assert_eq!(
        &bytes[1033..1053],
        &[1, 0, 0, 0, b'A', 2, 1, 0, 0, 0, 0, 0, 0, 0, 0, 0, 0, 0, 0, 0]
    );
    assert!(bytes[1053..1545].iter().all(|b| *b == 0xEE));
    assert_eq!(&bytes[1545..1555], &[0, 3, 0, 0, 0, 0, 0, 0, 0, 1]);
    assert!(bytes[1555..].iter().all(|b| *b == 0xEE));
    assert_eq!(Game::unpack_from_slice(&bytes), Ok(game));
}

#[test]
fn test_full_game_session() {
    let program = program();
    let players = [
        Account { key: key(21), owner: key(0), is_signer: true, data: vec![0] },
        Account { key: key(22), owner: key(0), is_signer: true, data: vec![1] },
    ];
    let game_account = Account {
        key: key(1),
        owner: program,
        is_signer: false,
        data: vec![0; GameAccount::LEN],
    };
    let mut slot = 0u64;
    let mut tick = || {
        slot += 1;
        Clock { slot, unix_timestamp: 1_700_000_000 + slot as i64 }
    };

    let init = MonopolyInstruction::InitGame {
        player_names: vec!["Alice".to_string(), "Bob".to_string()],
    };
    let mut accounts = vec![game_account, players[0].clone()];
    process_instruction(&program, &mut accounts, 0, &tick(), &init.to_bytes().unwrap()).unwrap();

    let mut bought = 0;
    let mut built = 0;
    // Simulate 10 rounds of gameplay
    for round in 0..10 {
        println!("Round {}", round + 1);

        for (seat, player) in players.iter().enumerate() {
            let seat = seat as u8;
            accounts[1] = player.clone();
            let before = game_in(&accounts[0]);
            assert_eq!(before.current_player, seat);
            let money_before: u64 =
                before.players.iter().map(|p| p.cash).sum::<u64>() + before.free_parking;

            // Roll and move
            let clock = tick();
            let (d1, d2) = roll_dice(&clock, seat as u64).unwrap();
            process_instruction(&program, &mut accounts, seat, &clock, &[1]).unwrap();

            // Get player position and attempt to buy property if available
            let game_state = game_in(&accounts[0]);
            let current_player = game_state.current_player as usize;
            let position = game_state.players[current_player].position;
            let was = &before.players[current_player];
            if was.jail_turns == 0 || d1 == d2 {
                let target = (was.position + d1 + d2) % 40;
                if target == 30 {
                    assert_eq!(position, 10);
                } else {
                    assert_eq!(position, target);
                }
            } else {
                assert_eq!(position, was.position);
            }
            let money_after: u64 =
                game_state.players.iter().map(|p| p.cash).sum::<u64>() + game_state.free_parking;
            assert!(money_after == money_before || money_after == money_before + 200
                || money_after + 50 == money_before);

            // Try to buy property if on a property tile
            if let Some(property) = game_state.board[position as usize].as_property() {
                if property.owner.is_none() {
                    let result =
                        process_instruction(&program, &mut accounts, seat, &tick(), &[2, position]);
                    if result.is_ok() {
                        println!("Player bought property at position {}", position);
                        bought += 1;
                        let after = game_in(&accounts[0]);
                        assert_eq!(
                            after.players[current_player].cash + property.cost,
                            game_state.players[current_player].cash
                        );
                        assert_eq!(after.players[current_player].properties.last(), Some(&position));
                    }
                }
            }

            // Try to build houses on owned properties
            let game_state = game_in(&accounts[0]);
            for (idx, tile) in game_state.board.iter().enumerate() {
                if let Some(property) = tile.as_property() {
                    if property.owner == Some(player.key) {
                        let result =
                            process_instruction(&program, &mut accounts, seat, &tick(), &[3, idx as u8]);
                        if result.is_ok() {
                            println!("Player built house on property at position {}", idx);
                            built += 1;
                        }
                    }
                }
            }

            // End turn
            process_instruction(&program, &mut accounts, seat, &tick(), &[5]).unwrap();

            // The game stays in the states that play can reach.
            let game = game_in(&accounts[0]);
            assert_eq!(game.board.len(), 40);
            assert_eq!(game.players.len(), 2);
            assert!(!game.players[game.current_player as usize].is_bankrupt());
            for p in &game.players {
                assert!(p.position < 40);
                assert!(p.jail_turns < 3);
                let mut owned = p.properties.clone();
                owned.sort();
                owned.dedup();
                assert_eq!(owned.len(), p.properties.len());
            }
            for tile in &game.board {
                if let Some(property) = tile.as_property() {
                    assert!(property.houses <= 5);
                }
            }
        }

        // Check for winner every 5 rounds
        if (round + 1) % 5 == 0 {
            let report = process_instruction(&program, &mut accounts, 0, &tick(), &[6]).unwrap();
            assert!(matches!(report, Some(Standing::Leader(_, _))));
        }
    }

    // Final winner check
    let mut lone = vec![accounts[0].clone()];
    let report = process_instruction(&program, &mut lone, 0, &tick(), &[6]).unwrap();
    assert!(matches!(report, Some(Standing::Leader(seat, worth)) if seat < 2 && worth > 0));
    assert!(bought > 0);
    println!("bought {} and built {}", bought, built);
}
