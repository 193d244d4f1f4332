//! One handler for each instruction. A handler checks who acts, reads the game
//! from its account, applies the rule and writes the game back. Whatever is
//! refused leaves every account as it was.
use vstd::prelude::*;

use crate::account::{
    validate_game_account, Account, CardDeck, CardDeckView, DeckType, GameAccount, GameAccountView,
};
use crate::board::{board_tile, create_board};
use crate::codec::overlay;
use crate::error::{rule, rule_error, MonopolyError, ProgramError};
use crate::game::{Game, GameView};
use crate::instruction::{names_view, InstructionView, MonopolyInstruction};
use crate::player::{Player, PlayerView};
use crate::pubkey::Pubkey;
use crate::rules::{Standing, MAX_PLAYERS, MIN_PLAYERS, STARTING_CASH};
use crate::utils::{roll_dice, spec_random_number, next_seed, Clock};

verus! {

/// The account that acts in an instruction, as the host has checked it: its
/// identity, whether it signed, and the seat at the table that it holds.
#[derive(Clone, Copy, Debug, PartialEq, Eq)]
pub struct Actor {
    pub key: Pubkey,
    pub is_signer: bool,
    pub seat: u8,
}

/// The account that holds `game` as an initialised game.
pub open spec fn holding(game: GameView) -> GameAccountView {
    GameAccountView { is_initialized: true, game }
}

/// The game on which the actor may act: the actor has signed, the account is
/// owned by the program and holds an initialised game that can be played, and
/// the actor sits in the seat whose turn it is.
pub open spec fn authorized_game(program_id: Pubkey, account: Account, actor: Actor) -> Result<
    GameView,
    ProgramError,
> {
    if !actor.is_signer {
        Err(ProgramError::MissingRequiredSignature)
    } else if account.owner != program_id {
        Err(ProgramError::IncorrectProgramId)
    } else {
        match GameAccount::spec_unpack(account.data@) {
            Err(e) => Err(e),
            Ok(a) => if !a.game.playable() {
                Err(rule(MonopolyError::InvalidGameState))
            } else if actor.seat != a.game.current_player {
                Err(rule(MonopolyError::NotPlayerTurn))
            } else {
                Ok(a.game)
            },
        }
    }
}

/// The outcome of a step where its result has to be written back: a game that
/// does not fit the account is refused.
pub open spec fn storable(next: Result<GameView, ProgramError>) -> Result<GameView, ProgramError> {
    match next {
        Ok(g) => if holding(g).packable() {
            Ok(g)
        } else {
            Err(ProgramError::AccountDataTooSmall)
        },
        Err(e) => Err(e),
    }
}

/// Whether an account is what it was.
pub open spec fn untouched(before: Account, after: Account) -> bool {
    &&& after.key == before.key
    &&& after.owner == before.owner
    &&& after.is_signer == before.is_signer
    &&& after.data@ == before.data@
}

/// Whether `after` is `before` with `game` written into it.
pub open spec fn game_stored(before: Account, after: Account, game: GameView) -> bool {
    &&& after.key == before.key
    &&& after.owner == before.owner
    &&& after.is_signer == before.is_signer
    &&& holding(game).packed_over(before.data@, after.data@)
    &&& GameAccount::spec_unpack(after.data@) == Ok::<GameAccountView, ProgramError>(holding(game))
}

/// Whether `after` is `before` with `deck` written into it.
pub open spec fn deck_stored(before: Account, after: Account, deck: CardDeckView) -> bool {
    &&& after.key == before.key
    &&& after.owner == before.owner
    &&& after.is_signer == before.is_signer
    &&& after.data@ == overlay(before.data@, 0, deck.encode())
    &&& CardDeck::decode(after.data@) == Some(deck)
}

/// What holds after an instruction on a game account: where it succeeds the
/// expected game has been written, and where it is refused, it is refused as
/// expected and the account is what it was.
pub open spec fn game_outcome(
    before: Account,
    after: Account,
    r: Result<(), ProgramError>,
    expected: Result<GameView, ProgramError>,
) -> bool {
    match r {
        Ok(()) => expected is Ok && game_stored(before, after, expected.unwrap()),
        Err(e) => expected == Err::<GameView, ProgramError>(e) && untouched(before, after),
    }
}

/// A player at the start of a game.
pub open spec fn fresh_player(name: Seq<char>) -> PlayerView {
    PlayerView {
        name,
        cash: STARTING_CASH,
        position: 0,
        jail_turns: 0,
        properties: Seq::<u8>::empty(),
        get_out_of_jail_cards: 0,
    }
}

/// A game at its start: the fresh board, the named players in order, the first
/// of them to move, and an empty pot.
pub open spec fn fresh_game(names: Seq<Seq<char>>) -> GameView {
    GameView {
        board: Seq::new(40, |i: int| board_tile(i)),
        players: names.map_values(|name: Seq<char>| fresh_player(name)),
        current_player: 0,
        free_parking: 0,
        initialized: true,
    }
}

/// What setting up a game gives. The payer has to have signed, the account has
/// to be owned by the program, there have to be two to eight names, and the
/// account has to have the length of a game account and hold no game yet.
pub open spec fn expected_init(
    program_id: Pubkey,
    account: Account,
    payer: Actor,
    names: Seq<Seq<char>>,
) -> Result<GameView, ProgramError> {
    if !payer.is_signer {
        Err(ProgramError::MissingRequiredSignature)
    } else if account.owner != program_id {
        Err(ProgramError::IncorrectProgramId)
    } else if names.len() < MIN_PLAYERS || names.len() > MAX_PLAYERS {
        Err(rule(MonopolyError::InvalidPlayerCount))
    } else if account.data@.len() != GameAccount::LEN {
        Err(ProgramError::InvalidAccountData)
    } else if account.data@[0] != 0 {
        Err(ProgramError::AccountAlreadyInitialized)
    } else {
        storable(Ok(fresh_game(names)))
    }
}

/// What a move by a given throw gives: the throw has to lie between 2 and 12,
/// and it does not count as doubles.
pub open spec fn expected_move(
    program_id: Pubkey,
    account: Account,
    actor: Actor,
    dice_roll: u8,
) -> Result<GameView, ProgramError> {
    match authorized_game(program_id, account, actor) {
        Err(e) => Err(e),
        Ok(g) => if dice_roll < 2 || dice_roll > 12 {
            Err(rule(MonopolyError::InvalidDiceRoll))
        } else {
            storable(g.after_move(dice_roll, false))
        },
    }
}

/// What a move by two dice gives: each die has to show 1 to 6, and equal dice
/// are doubles.
pub open spec fn expected_dice_move(
    program_id: Pubkey,
    account: Account,
    actor: Actor,
    dice: (u8, u8),
) -> Result<GameView, ProgramError> {
    match authorized_game(program_id, account, actor) {
        Err(e) => Err(e),
        Ok(g) => if dice.0 < 1 || dice.0 > 6 || dice.1 < 1 || dice.1 > 6 {
            Err(rule(MonopolyError::InvalidDiceRoll))
        } else {
            storable(g.after_move((dice.0 + dice.1) as u8, dice.0 == dice.1))
        },
    }
}

/// What buying a property gives.
pub open spec fn expected_buy(
    program_id: Pubkey,
    account: Account,
    actor: Actor,
    index: u8,
) -> Result<GameView, ProgramError> {
    match authorized_game(program_id, account, actor) {
        Err(e) => Err(e),
        Ok(g) => storable(g.after_buy(actor.key, index)),
    }
}

/// What building a house gives.
pub open spec fn expected_build(
    program_id: Pubkey,
    account: Account,
    actor: Actor,
    index: u8,
) -> Result<GameView, ProgramError> {
    match authorized_game(program_id, account, actor) {
        Err(e) => Err(e),
        Ok(g) => storable(g.after_build(index)),
    }
}

/// What paying rent gives.
pub open spec fn expected_rent(
    program_id: Pubkey,
    account: Account,
    actor: Actor,
    owner: Pubkey,
    index: u8,
) -> Result<GameView, ProgramError> {
    match authorized_game(program_id, account, actor) {
        Err(e) => Err(e),
        Ok(g) => storable(g.after_rent(owner, index)),
    }
}

/// What ending the turn gives.
pub open spec fn expected_turn(program_id: Pubkey, account: Account, actor: Actor) -> Result<
    GameView,
    ProgramError,
> {
    match authorized_game(program_id, account, actor) {
        Err(e) => Err(e),
        Ok(g) => storable(g.after_turn()),
    }
}

/// What asking for the winner gives: the account has to be owned by the program
/// and hold an initialised game.
pub open spec fn expected_standing(program_id: Pubkey, account: Account) -> Result<
    Standing,
    ProgramError,
> {
    if account.owner != program_id {
        Err(ProgramError::IncorrectProgramId)
    } else {
        match GameAccount::spec_unpack(account.data@) {
            Err(e) => Err(e),
            Ok(a) => a.game.standing(),
        }
    }
}

/// What drawing a card gives: the game and the deck as they are written back.
///
/// The deck account has to be owned by the program, have the length of a deck
/// account and hold a deck; a deck that is not filled yet is filled first. The
/// card at the place of the clock's counter modulo the number of cards is dealt
/// to the current player and moves to the back of the deck.
pub open spec fn expected_draw(
    program_id: Pubkey,
    account: Account,
    actor: Actor,
    deck_account: Account,
    clock: Clock,
    deck_type: DeckType,
) -> Result<(GameView, CardDeckView), ProgramError> {
    match authorized_game(program_id, account, actor) {
        Err(e) => Err(e),
        Ok(g) => if deck_account.owner != program_id {
            Err(ProgramError::IncorrectProgramId)
        } else if deck_account.data@.len() != CardDeck::LEN || CardDeck::decode(deck_account.data@)
            is None {
            Err(ProgramError::InvalidAccountData)
        } else {
            let deck = CardDeck::decode(deck_account.data@).unwrap().ready(account.key, deck_type);
            let index = clock.slot as int % deck.cards.len() as int;
            if deck.cards.len() == 0 {
                Err(rule(MonopolyError::InvalidGameState))
            } else {
                match g.after_card(deck.cards[index]) {
                    Err(e) => Err(e),
                    Ok(next) => if !holding(next).packable() || !deck.after_draw(index).packable() {
                        Err(ProgramError::AccountDataTooSmall)
                    } else {
                        Ok((next, deck.after_draw(index)))
                    },
                }
            }
        },
    }
}

/// Whether the player is bankrupt: no cash and no tile.
pub fn is_player_bankrupt(player: &Player) -> (b: bool)
    ensures
        b == player@.is_bankrupt(),
{
    player.is_bankrupt()
}

/// Reads the game on which the actor may act.
pub fn load_game(program_id: &Pubkey, account: &Account, actor: &Actor) -> (r: Result<
    GameAccount,
    ProgramError,
>)
    ensures
        match r {
            Ok(a) => authorized_game(*program_id, *account, *actor) == Ok::<GameView, ProgramError>(
                a@.game,
            ) && a.is_initialized && account.data@.len() == GameAccount::LEN,
            Err(e) => authorized_game(*program_id, *account, *actor) == Err::<
                GameView,
                ProgramError,
            >(e),
        },
{
    if !actor.is_signer {
        return Err(ProgramError::MissingRequiredSignature);
    }
    let state = match validate_game_account(program_id, account) {
        Ok(state) => state,
        Err(e) => { return Err(e); },
    };
    if !state.game.is_playable() {
        return Err(rule_error(MonopolyError::InvalidGameState));
    }
    if actor.seat != state.game.current_player {
        return Err(rule_error(MonopolyError::NotPlayerTurn));
    }
    Ok(state)
}

/// Writes the game back into its account, or refuses where it does not fit.
pub fn store_game(account: &mut Account, state: &GameAccount) -> (r: Result<(), ProgramError>)
    requires
        state.is_initialized,
        old(account).data@.len() == GameAccount::LEN,
    ensures
        game_outcome(*old(account), *final(account), r, storable(Ok(state@.game))),
{
    match state.pack(account.data.as_mut_slice()) {
        Ok(()) => Ok(()),
        Err(e) => Err(e),
    }
}

/// Sets up a new game for the named players in the account.
pub fn process_init_game(
    program_id: &Pubkey,
    game_account: &mut Account,
    payer: &Actor,
    player_names: Vec<String>,
) -> (r: Result<(), ProgramError>)
    ensures
        game_outcome(
            *old(game_account),
            *final(game_account),
            r,
            expected_init(*program_id, *old(game_account), *payer, names_view(player_names@)),
        ),
{
    if !payer.is_signer {
        return Err(ProgramError::MissingRequiredSignature);
    }
    if game_account.owner != *program_id {
        return Err(ProgramError::IncorrectProgramId);
    }
    let count = player_names.len();
    if count < MIN_PLAYERS || count > MAX_PLAYERS {
        return Err(rule_error(MonopolyError::InvalidPlayerCount));
    }
    if game_account.data.len() != GameAccount::LEN {
        return Err(ProgramError::InvalidAccountData);
    }
    if game_account.data[0] != 0 {
        return Err(ProgramError::AccountAlreadyInitialized);
    }
    let ghost names = names_view(player_names@);
    let mut players: Vec<Player> = Vec::new();
    let mut i: usize = 0;
    while i < count
        invariant
            i <= count,
            count == player_names@.len(),
            names == names_view(player_names@),
            players@.len() == i,
            forall|k: int| 0 <= k < i ==> (#[trigger] players@[k])@ == fresh_player(names[k]),
        decreases count - i,
    {
        players.push(
            Player {
                name: player_names[i].clone(),
                cash: STARTING_CASH,
                position: 0,
                jail_turns: 0,
                properties: Vec::new(),
                get_out_of_jail_cards: 0,
            },
        );
        i += 1;
    }
    let state = GameAccount {
        is_initialized: true,
        game: Game {
            board: create_board(),
            players,
            current_player: 0,
            free_parking: 0,
            initialized: true,
        },
    };
    proof {
        assert(state@.game.board =~= fresh_game(names).board);
        assert(state@.game.players =~= fresh_game(names).players);
    }
    store_game(game_account, &state)
}

/// Moves the current player by the given throw.
pub fn process_move_player(
    program_id: &Pubkey,
    game_account: &mut Account,
    actor: &Actor,
    dice_roll: u8,
) -> (r: Result<(), ProgramError>)
    ensures
        game_outcome(
            *old(game_account),
            *final(game_account),
            r,
            expected_move(*program_id, *old(game_account), *actor, dice_roll),
        ),
{
    let mut state = match load_game(program_id, game_account, actor) {
        Ok(state) => state,
        Err(e) => { return Err(e); },
    };
    if dice_roll < 2 || dice_roll > 12 {
        return Err(rule_error(MonopolyError::InvalidDiceRoll));
    }
    match state.game.move_player(dice_roll, false) {
        Ok(()) => {},
        Err(e) => { return Err(e); },
    }
    store_game(game_account, &state)
}

/// Moves the current player by the two dice; equal dice free a player from jail.
pub fn process_dice_move(
    program_id: &Pubkey,
    game_account: &mut Account,
    actor: &Actor,
    dice: (u8, u8),
) -> (r: Result<(), ProgramError>)
    ensures
        game_outcome(
            *old(game_account),
            *final(game_account),
            r,
            expected_dice_move(*program_id, *old(game_account), *actor, dice),
        ),
{
    let mut state = match load_game(program_id, game_account, actor) {
        Ok(state) => state,
        Err(e) => { return Err(e); },
    };
    if dice.0 < 1 || dice.0 > 6 || dice.1 < 1 || dice.1 > 6 {
        return Err(rule_error(MonopolyError::InvalidDiceRoll));
    }
    match state.game.move_player(dice.0 + dice.1, dice.0 == dice.1) {
        Ok(()) => {},
        Err(e) => { return Err(e); },
    }
    store_game(game_account, &state)
}

/// Rolls two dice from the clock, seeded with the seat of the actor, and moves
/// the current player by them.
pub fn process_roll_and_move(
    program_id: &Pubkey,
    game_account: &mut Account,
    actor: &Actor,
    clock: &Clock,
) -> (r: Result<(), ProgramError>)
    ensures
        game_outcome(
            *old(game_account),
            *final(game_account),
            r,
            expected_dice_move(
                *program_id,
                *old(game_account),
                *actor,
                (
                    spec_random_number(*clock, actor.seat as u64, 6) as u8,
                    spec_random_number(*clock, next_seed(actor.seat as u64), 6) as u8,
                ),
            ),
        ),
{
    match roll_dice(clock, actor.seat as u64) {
        Ok(dice) => process_dice_move(program_id, game_account, actor, dice),
        Err(e) => Err(e),
    }
}

/// Buys the property with the given index for the current player.
pub fn process_buy_property(
    program_id: &Pubkey,
    game_account: &mut Account,
    actor: &Actor,
    property_index: u8,
) -> (r: Result<(), ProgramError>)
    ensures
        game_outcome(
            *old(game_account),
            *final(game_account),
            r,
            expected_buy(*program_id, *old(game_account), *actor, property_index),
        ),
{
    let mut state = match load_game(program_id, game_account, actor) {
        Ok(state) => state,
        Err(e) => { return Err(e); },
    };
    match state.game.buy_property(&actor.key, property_index) {
        Ok(()) => {},
        Err(e) => { return Err(e); },
    }
    store_game(game_account, &state)
}

/// Builds a house on the property with the given index for the current player.
pub fn process_build_house(
    program_id: &Pubkey,
    game_account: &mut Account,
    actor: &Actor,
    property_index: u8,
) -> (r: Result<(), ProgramError>)
    ensures
        game_outcome(
            *old(game_account),
            *final(game_account),
            r,
            expected_build(*program_id, *old(game_account), *actor, property_index),
        ),
{
    let mut state = match load_game(program_id, game_account, actor) {
        Ok(state) => state,
        Err(e) => { return Err(e); },
    };
    match state.game.build_house(property_index) {
        Ok(()) => {},
        Err(e) => { return Err(e); },
    }
    store_game(game_account, &state)
}

/// Pays the rent of the property with the given index to the owner that the host
/// names.
pub fn process_pay_rent(
    program_id: &Pubkey,
    game_account: &mut Account,
    actor: &Actor,
    owner: &Pubkey,
    property_index: u8,
) -> (r: Result<(), ProgramError>)
    ensures
        game_outcome(
            *old(game_account),
            *final(game_account),
            r,
            expected_rent(*program_id, *old(game_account), *actor, *owner, property_index),
        ),
{
    let mut state = match load_game(program_id, game_account, actor) {
        Ok(state) => state,
        Err(e) => { return Err(e); },
    };
    match state.game.pay_rent(owner, property_index) {
        Ok(()) => {},
        Err(e) => { return Err(e); },
    }
    store_game(game_account, &state)
}

/// Ends the turn of the current player.
pub fn process_next_turn(program_id: &Pubkey, game_account: &mut Account, actor: &Actor) -> (r:
    Result<(), ProgramError>)
    ensures
        game_outcome(
            *old(game_account),
            *final(game_account),
            r,
            expected_turn(*program_id, *old(game_account), *actor),
        ),
{
    let mut state = match load_game(program_id, game_account, actor) {
        Ok(state) => state,
        Err(e) => { return Err(e); },
    };
    match state.game.next_turn() {
        Ok(()) => {},
        Err(e) => { return Err(e); },
    }
    store_game(game_account, &state)
}

/// Reports how the game stands. Nothing is written.
pub fn process_check_winner(program_id: &Pubkey, game_account: &Account) -> (r: Result<
    Standing,
    ProgramError,
>)
    ensures
        r == expected_standing(*program_id, *game_account),
{
    let state = match validate_game_account(program_id, game_account) {
        Ok(state) => state,
        Err(e) => { return Err(e); },
    };
    state.game.check_winner()
}

/// Draws a card from the deck for the current player. Game and deck are written
/// back only where everything has been found in order.
pub fn process_draw_card(
    program_id: &Pubkey,
    game_account: &mut Account,
    actor: &Actor,
    deck_account: &mut Account,
    clock: &Clock,
    deck_type: DeckType,
) -> (r: Result<(), ProgramError>)
    ensures
        match r {
            Ok(()) => {
                let expected = expected_draw(
                    *program_id,
                    *old(game_account),
                    *actor,
                    *old(deck_account),
                    *clock,
                    deck_type,
                );
                &&& expected is Ok
                &&& game_stored(*old(game_account), *final(game_account), expected.unwrap().0)
                &&& deck_stored(*old(deck_account), *final(deck_account), expected.unwrap().1)
            },
            Err(e) => expected_draw(
                *program_id,
                *old(game_account),
                *actor,
                *old(deck_account),
                *clock,
                deck_type,
            ) == Err::<(GameView, CardDeckView), ProgramError>(e) && untouched(
                *old(game_account),
                *final(game_account),
            ) && untouched(*old(deck_account), *final(deck_account)),
        },
{
    let mut state = match load_game(program_id, game_account, actor) {
        Ok(state) => state,
        Err(e) => { return Err(e); },
    };
    if deck_account.owner != *program_id {
        return Err(ProgramError::IncorrectProgramId);
    }
    let mut deck = match CardDeck::unpack_unchecked(deck_account.data.as_slice()) {
        Ok(deck) => deck,
        Err(e) => { return Err(e); },
    };
    deck.make_ready(&game_account.key, deck_type);
    let count = deck.cards.len();
    if count == 0 {
        return Err(rule_error(MonopolyError::InvalidGameState));
    }
    let index = (clock.slot % (count as u64)) as usize;
    let card = deck.cards[index];
    match state.game.apply_card(card) {
        Ok(()) => {},
        Err(e) => { return Err(e); },
    }
    deck.draw(index);
    if !state.is_packable() || !deck.is_packable() {
        return Err(ProgramError::AccountDataTooSmall);
    }
    state.pack_into_slice(game_account.data.as_mut_slice());
    deck.pack_into_slice(deck_account.data.as_mut_slice());
    Ok(())
}

/// The outcome of an instruction without what it reports.
pub open spec fn silent(r: Result<Option<Standing>, ProgramError>) -> Result<(), ProgramError> {
    match r {
        Ok(_) => Ok(()),
        Err(e) => Err(e),
    }
}

/// Number of accounts that an instruction needs: the game first, then the
/// acting account, then the owner of the property or the deck.
pub open spec fn accounts_needed(instruction: InstructionView) -> nat {
    match instruction {
        InstructionView::CheckWinner => 1,
        InstructionView::PayRent { .. } => 3,
        InstructionView::DrawCard { .. } => 3,
        _ => 2,
    }
}

/// The second account as the actor in the given seat.
pub open spec fn actor_of(account: Account, seat: u8) -> Actor {
    Actor { key: account.key, is_signer: account.is_signer, seat }
}

/// What holds after an instruction has been processed on the accounts `before`,
/// which are at least as many as it needs.
pub open spec fn instruction_outcome(
    program_id: Pubkey,
    before: Seq<Account>,
    after: Seq<Account>,
    seat: u8,
    clock: Clock,
    instruction: InstructionView,
    r: Result<Option<Standing>, ProgramError>,
) -> bool {
    let game = before[0];
    let actor = actor_of(before[1], seat);
    let done = silent(r);
    match instruction {
        InstructionView::InitGame { player_names } => game_outcome(
            game,
            after[0],
            done,
            expected_init(program_id, game, actor, player_names),
        ),
        InstructionView::MovePlayer => game_outcome(
            game,
            after[0],
            done,
            expected_dice_move(
                program_id,
                game,
                actor,
                (
                    spec_random_number(clock, seat as u64, 6) as u8,
                    spec_random_number(clock, next_seed(seat as u64), 6) as u8,
                ),
            ),
        ),
        InstructionView::BuyProperty { property_index } => game_outcome(
            game,
            after[0],
            done,
            expected_buy(program_id, game, actor, property_index),
        ),
        InstructionView::BuildHouse { property_index } => game_outcome(
            game,
            after[0],
            done,
            expected_build(program_id, game, actor, property_index),
        ),
        InstructionView::PayRent { property_index } => game_outcome(
            game,
            after[0],
            done,
            expected_rent(program_id, game, actor, before[2].key, property_index),
        ),
        InstructionView::NextTurn => game_outcome(
            game,
            after[0],
            done,
            expected_turn(program_id, game, actor),
        ),
        InstructionView::CheckWinner => untouched(game, after[0]) && match expected_standing(
            program_id,
            game,
        ) {
            Ok(standing) => r == Ok::<Option<Standing>, ProgramError>(Some(standing)),
            Err(e) => r == Err::<Option<Standing>, ProgramError>(e),
        },
        InstructionView::DrawCard { deck_type } => {
            let expected = expected_draw(program_id, game, actor, before[2], clock, deck_type);
            match done {
                Ok(()) => expected is Ok && game_stored(game, after[0], expected.unwrap().0)
                    && deck_stored(before[2], after[2], expected.unwrap().1),
                Err(e) => expected == Err::<(GameView, CardDeckView), ProgramError>(e) && untouched(
                    game,
                    after[0],
                ) && untouched(before[2], after[2]),
            }
        },
    }
}

/// Processes one instruction: reads it from its bytes and applies it to the
/// accounts. The first account holds the game, the second is the one that acts
/// and sits in `seat`, the third is the owner of the property whose rent is paid
/// or holds the deck from which a card is drawn.
///
/// Bytes that are no instruction are refused with `InvalidInstructionData`, and
/// too few accounts with `NotEnoughAccountKeys`; in both cases, and whenever the
/// instruction itself is refused, the accounts are what they were. Asking for
/// the winner reports how the game stands; every other instruction reports
/// nothing.
pub fn process_instruction(
    program_id: &Pubkey,
    accounts: &mut Vec<Account>,
    seat: u8,
    clock: &Clock,
    instruction_data: &[u8],
) -> (r: Result<Option<Standing>, ProgramError>)
    ensures
        final(accounts)@.len() == old(accounts)@.len(),
        r matches Ok(Some(_)) ==> MonopolyInstruction::decode(instruction_data@) == Some(
            InstructionView::CheckWinner,
        ),
        forall|k: int|
            0 <= k < old(accounts)@.len() && k != 0 && k != 2 ==> final(accounts)@[k]
                == old(accounts)@[k],
        match MonopolyInstruction::decode(instruction_data@) {
            None => r == Err::<Option<Standing>, ProgramError>(
                ProgramError::InvalidInstructionData,
            ) 
                && final(accounts)@ == old(accounts)@,
            Some(instruction) => if old(accounts)@.len() < accounts_needed(instruction) {
                r == Err::<Option<Standing>, ProgramError>(ProgramError::NotEnoughAccountKeys)
                    && final(accounts)@ == old(accounts)@
            } else {
                &&& instruction_outcome(
                    *program_id,
                    old(accounts)@,
                    final(accounts)@,
                    seat,
                    *clock,
                    instruction,
                    r,
                )
                &&& !(instruction is DrawCard) && old(accounts)@.len() > 2 ==> final(accounts)@[2]
                    == old(accounts)@[2]
            },
        },
{
    let instruction = match MonopolyInstruction::unpack_from_slice(instruction_data) {
        Ok(instruction) => instruction,
        Err(e) => { return Err(e); },
    };
    if let MonopolyInstruction::CheckWinner = instruction {
        if accounts.len() < 1 {
            return Err(ProgramError::NotEnoughAccountKeys);
        }
        return match process_check_winner(program_id, &accounts[0]) {
            Ok(standing) => Ok(Some(standing)),
            Err(e) => Err(e),
        };
    }
    if accounts.len() < 2 {
        return Err(ProgramError::NotEnoughAccountKeys);
    }
    let actor = Actor { key: accounts[1].key, is_signer: accounts[1].is_signer, seat };
    let done = match instruction {
        MonopolyInstruction::InitGame { player_names } => process_init_game(
            program_id,
            &mut accounts[0],
            &actor,
            player_names,
        ),
        MonopolyInstruction::MovePlayer => process_roll_and_move(
            program_id,
            &mut accounts[0],
            &actor,
            clock,
        ),
        MonopolyInstruction::BuyProperty { property_index } => process_buy_property(
            program_id,
            &mut accounts[0],
            &actor,
            property_index,
        ),
        MonopolyInstruction::BuildHouse { property_index } => process_build_house(
            program_id,
            &mut accounts[0],
            &actor,
            property_index,
        ),
        MonopolyInstruction::PayRent { property_index } => {
            if accounts.len() < 3 {
                return Err(ProgramError::NotEnoughAccountKeys);
            }
            let owner = accounts[2].key;
            process_pay_rent(program_id, &mut accounts[0], &actor, &owner, property_index)
        },
        MonopolyInstruction::NextTurn => process_next_turn(program_id, &mut accounts[0], &actor),
        MonopolyInstruction::CheckWinner => Ok(()),
        MonopolyInstruction::DrawCard { deck_type } => {
            if accounts.len() < 3 {
                return Err(ProgramError::NotEnoughAccountKeys);
            }
            let mut deck_account = accounts.remove(2);
            let drawn = process_draw_card(
                program_id,
                &mut accounts[0],
                &actor,
                &mut deck_account,
                clock,
                deck_type,
            );
            accounts.insert(2, deck_account);
            drawn
        },
    };
    match done {
        Ok(()) => Ok(None),
        Err(e) => Err(e),
    }
}

} // verus!
