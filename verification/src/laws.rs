//! What holds of the library as a whole: every entity is read back from its
//! bytes, play keeps a game well formed, the turn never goes to a bankrupt
//! player while a solvent one is left, a property is bought once only, every
//! rule has a code of its own, and a deck only ever rotates.
use vstd::prelude::*;
use vstd::utf8::*;

use crate::account::{
    lemma_deck_roundtrip, lemma_player_account_roundtrip, lemma_property_account_roundtrip,
    Account, CardDeck, CardDeckView, GameAccount, GameAccountView, PlayerAccount,
    PlayerAccountView, PropertyAccount, PropertyAccountView,
};
use crate::board::{board_tile, chance_cards, community_chest_cards};
use crate::codec::{encode_bool, overlay};
use crate::error::{rule, MonopolyError, ProgramError};
use crate::game::{lemma_game_roundtrip, Game, GameView};
use crate::instruction::{lemma_instruction_roundtrip, InstructionView, MonopolyInstruction};
use crate::player::{lemma_player_len, lemma_player_roundtrip, Player, PlayerView};
use crate::processor::{expected_init, fresh_game, holding, Actor};
use crate::property::{
    lemma_property_len, lemma_property_roundtrip, lemma_tile_roundtrip, Property, PropertyView,
    TileType, TileView,
};
use crate::pubkey::Pubkey;
use crate::rules::{
    card_in_range, drawn_from_front, first_solvent, least, lemma_first_solvent,
    lemma_first_solvent_is, lemma_first_solvent_none, lemma_holder_from, rotated, solvent_count,
    Standing, GO_BONUS, JAIL_FINE, JAIL_POSITION, LAP, MAX_HOUSES, MAX_JAIL_TURNS, MAX_PLAYERS,
    MIN_PLAYERS,
};
use crate::state::{lemma_card_roundtrip, Card, Color, SpecialTile};
use crate::utils::rent_multiplier;

verus! {

/// A colour is read back from its bytes, whatever follows them.
pub proof fn law_color_roundtrip(c: Color, rest: Seq<u8>)
    ensures
        Color::decode(c.encode() + rest) == Some(c),
{
}

/// A special tile is read back from its bytes, whatever follows them.
pub proof fn law_special_tile_roundtrip(t: SpecialTile, rest: Seq<u8>)
    ensures
        SpecialTile::decode(t.encode() + rest) == Some(t),
{
}

/// A card is read back from its bytes, whatever follows them.
pub proof fn law_card_roundtrip(card: Card, rest: Seq<u8>)
    ensures
        Card::decode(card.encode() + rest) == Some(card),
{
    let s = card.encode() + rest;
    assert(s.subrange(0, card.encode().len() as int) =~= card.encode());
    lemma_card_roundtrip(s, 0, card);
}

/// A property whose lengths fit their counts is read back from its bytes,
/// whatever follows them.
pub proof fn law_property_roundtrip(v: PropertyView, rest: Seq<u8>)
    requires
        v.encodable(),
    ensures
        Property::decode(v.encode() + rest) == Some(v),
{
    let s = v.encode() + rest;
    assert(s.subrange(0, v.encode().len() as int) =~= v.encode());
    lemma_property_roundtrip(s, 0, v);
}

/// A tile whose lengths fit their counts is read back from its bytes, whatever
/// follows them.
pub proof fn law_tile_roundtrip(v: TileView, rest: Seq<u8>)
    requires
        v.encodable(),
    ensures
        TileType::decode(v.encode() + rest) == Some(v),
{
    let s = v.encode() + rest;
    assert(s.subrange(0, v.encode().len() as int) =~= v.encode());
    lemma_tile_roundtrip(s, 0, v);
}

/// A player whose lengths fit their counts is read back from its bytes, whatever
/// follows them.
pub proof fn law_player_roundtrip(v: PlayerView, rest: Seq<u8>)
    requires
        v.encodable(),
    ensures
        Player::decode(v.encode() + rest) == Some(v),
{
    let s = v.encode() + rest;
    assert(s.subrange(0, v.encode().len() as int) =~= v.encode());
    lemma_player_roundtrip(s, 0, v);
}

/// A deck is read back from its bytes, whatever follows them.
pub proof fn law_deck_roundtrip(v: CardDeckView, rest: Seq<u8>)
    requires
        v.cards.len() <= u32::MAX,
    ensures
        CardDeck::decode(v.encode() + rest) == Some(v),
{
    let s = v.encode() + rest;
    assert(s.subrange(0, v.encode().len() as int) =~= v.encode());
    lemma_deck_roundtrip(s, v);
}

/// An instruction whose lengths fit their counts is read back from its bytes,
/// whatever follows them.
pub proof fn law_instruction_roundtrip(v: InstructionView, rest: Seq<u8>)
    requires
        v.encodable(),
    ensures
        MonopolyInstruction::decode(v.encode() + rest) == Some(v),
{
    let s = v.encode() + rest;
    assert(s.subrange(0, v.encode().len() as int) =~= v.encode());
    lemma_instruction_roundtrip(s, v);
}

/// A game that fits its slots is read back from any buffer that it was written
/// over.
pub proof fn law_game_roundtrip(v: GameView, before: Seq<u8>, after: Seq<u8>)
    requires
        v.packable(),
        v.packed_len() <= before.len(),
        v.packed_over(before, 0, after),
    ensures
        Game::decode(after) == Some(v),
{
    lemma_game_roundtrip(before, after, 0, v);
}

/// A game account whose game fits its slots is read back from any buffer that it
/// was written over.
pub proof fn law_game_account_roundtrip(v: GameAccountView, before: Seq<u8>, after: Seq<u8>)
    requires
        v.game.packable(),
        1 + v.game.packed_len() <= before.len(),
        v.packed_over(before, after),
    ensures
        GameAccount::decode(after) == Some(v),
{
    let mid = overlay(before, 0, encode_bool(v.is_initialized));
    lemma_game_roundtrip(mid, after, 1, v.game);
    assert(after[0] == mid[0]);
}

/// A player account whose player fits its slot is read back from any buffer that
/// it was written over.
pub proof fn law_player_account_roundtrip(v: PlayerAccountView, before: Seq<u8>, after: Seq<u8>)
    requires
        v.packable(),
        before.len() >= 545,
        v.packed_over(before, after),
    ensures
        PlayerAccount::decode(after) == Some(v),
{
    lemma_player_account_roundtrip(before, after, v);
}

/// A property account whose property fits its slot is read back from any buffer
/// that it was written over.
pub proof fn law_property_account_roundtrip(
    v: PropertyAccountView,
    before: Seq<u8>,
    after: Seq<u8>,
)
    requires
        v.packable(),
        before.len() >= 1057,
        v.packed_over(before, after),
    ensures
        PropertyAccount::decode(after) == Some(v),
{
    lemma_property_account_roundtrip(before, after, v);
}

/// The reserved lengths agree with the layouts: a tile slot holds the kind and a
/// property, a game holds forty tile slots and eight player slots, and each
/// account holds what it wraps.
pub proof fn law_reserved_lengths()
    ensures
        TileType::LEN == 1 + Property::LEN,
        Game::LEN == 4 + 40 * TileType::LEN + 4 + 8 * Player::LEN + 10,
        GameAccount::LEN == 1 + Game::LEN,
        PlayerAccount::LEN >= 1 + Player::LEN + Pubkey::LEN,
        PropertyAccount::LEN == 1 + Property::LEN + Pubkey::LEN,
        Card::LEN == 9,
{
}

/// A game of at most forty tiles and eight players, each of which fits its slot,
/// fits a game account.
pub proof fn law_full_game_fits(g: GameView)
    requires
        g.packable(),
        g.board.len() <= 40,
        g.players.len() <= 8,
    ensures
        g.packed_len() <= Game::LEN,
        (GameAccountView { is_initialized: true, game: g }).packable(),
        (GameAccountView { is_initialized: false, game: g }).packable(),
{
}

/// The UTF-8 form of a text has at most four bytes for each of its characters.
pub proof fn lemma_utf8_len_bound(text: Seq<char>)
    ensures
        encode_utf8(text).len() <= 4 * text.len(),
    decreases text.len(),
{
    if text.len() > 0 {
        lemma_utf8_len_bound(text.drop_first());
    }
}

/// Every tile of the fresh board fits its slot.
pub proof fn law_fresh_tiles_fit(position: int)
    requires
        0 <= position < 40,
    ensures
        board_tile(position).encodable(),
        board_tile(position).encode().len() <= TileType::LEN,
{
    reveal_strlit("Solana Genesis Block");
    reveal_strlit("Metaplex Protocol");
    reveal_strlit("Solana Network Rail");
    reveal_strlit("Serum DEX");
    reveal_strlit("Raydium AMM");
    reveal_strlit("Orca DEX");
    reveal_strlit("Magic Eden");
    reveal_strlit("Helium Hotspot Grid");
    reveal_strlit("Tensor");
    reveal_strlit("Hyperspace");
    reveal_strlit("Wormhole Bridge Rail");
    reveal_strlit("Marinade");
    reveal_strlit("Lido");
    reveal_strlit("JPool");
    reveal_strlit("Jupiter");
    reveal_strlit("Orca");
    reveal_strlit("Raydium");
    reveal_strlit("Validator Express Rail");
    reveal_strlit("Pyth");
    reveal_strlit("Switchboard");
    reveal_strlit("Arweave Storage Works");
    reveal_strlit("Chainlink");
    reveal_strlit("Metaplex");
    reveal_strlit("Cardinal");
    reveal_strlit("Goki");
    reveal_strlit("Turbine Relay Rail");
    reveal_strlit("Solana Labs");
    reveal_strlit("Solana Foundation");
    if let TileView::Property(t) = board_tile(position) {
        lemma_utf8_len_bound(t.name);
        lemma_property_len(t);
    }
}

/// A fresh game for two to eight players whose names have at most 493 bytes
/// each fits a game account, so that setting it up in a blank account of the
/// program succeeds.
pub proof fn law_fresh_game_fits(names: Seq<Seq<char>>)
    requires
        MIN_PLAYERS <= names.len() <= MAX_PLAYERS,
        forall|i: int| 0 <= i < names.len() ==> encode_utf8(#[trigger] names[i]).len() <= 493,
    ensures
        fresh_game(names).packable(),
        holding(fresh_game(names)).packable(),
{
    let g = fresh_game(names);
    assert forall|i: int| 0 <= i < g.board.len() implies (#[trigger] g.board[i]).encodable()
        && g.board[i].encode().len() <= 1025 by {
        law_fresh_tiles_fit(i);
    }
    assert forall|j: int| 0 <= j < g.players.len() implies (#[trigger] g.players[j]).encodable()
        && g.players[j].encode().len() <= 512 by {
        lemma_player_len(g.players[j]);
    }
}

/// Setting up a game succeeds for an actor who has signed, on a blank account of
/// the program that has the length of a game account, with two to eight names
/// of at most 493 bytes each.
pub proof fn law_init_succeeds(
    program_id: Pubkey,
    account: Account,
    payer: Actor,
    names: Seq<Seq<char>>,
)
    requires
        payer.is_signer,
        account.owner == program_id,
        account.data@.len() == GameAccount::LEN,
        account.data@[0] == 0,
        MIN_PLAYERS <= names.len() <= MAX_PLAYERS,
        forall|i: int| 0 <= i < names.len() ==> encode_utf8(#[trigger] names[i]).len() <= 493,
    ensures
        expected_init(program_id, account, payer, names) == Ok::<GameView, ProgramError>(
            fresh_game(names),
        ),
{
    law_fresh_game_fits(names);
}

/// Ending a turn never gives the turn to a bankrupt player while any player is
/// solvent, and always gives it to one of the players.
pub proof fn law_turn_goes_to_solvent_player(g: GameView, solvent: int)
    requires
        g.playable(),
        0 <= solvent < g.players.len(),
        !g.players[solvent].is_bankrupt(),
    ensures
        g.after_turn() is Ok,
        g.after_turn().unwrap().playable(),
        !g.after_turn().unwrap().current().is_bankrupt(),
        g.after_turn().unwrap().players == g.players,
        g.after_turn().unwrap().board == g.board,
{
    let cur = g.current_player as int;
    let n = g.players.len() as int;
    lemma_first_solvent(g.players, cur + 1, n);
    lemma_first_solvent(g.players, 0, cur + 1);
    if first_solvent(g.players, cur + 1, n) is None && first_solvent(g.players, 0, cur + 1)
        is None {
        assert(g.players[solvent].is_bankrupt());
    }
}

/// A purchase succeeds whenever the game can be played, the tile is a property
/// that nobody owns, and the buyer has its cost.
pub proof fn law_purchase_is_owed(g: GameView, buyer: Pubkey, index: u8)
    requires
        g.playable(),
        index < g.board.len(),
        g.board[index as int] is Property,
        g.board[index as int]->Property_0.owner is None,
        forall|j: int| 0 <= j < g.players.len() ==> !(#[trigger] g.players[j]).owns(index),
        g.current().cash >= g.board[index as int]->Property_0.cost,
    ensures
        g.after_buy(buyer, index) is Ok,
{
    lemma_holder_from(g.players, index, 0);
}

/// A successful purchase takes exactly the cost from the buyer, adds the tile at
/// the end of the buyer's list and nowhere else, and records the buyer on the
/// tile; the tile was on nobody's list before.
pub proof fn law_purchase(g: GameView, buyer: Pubkey, index: u8)
    requires
        g.after_buy(buyer, index) is Ok,
    ensures
        ({
            let next = g.after_buy(buyer, index).unwrap();
            let cost = g.board[index as int]->Property_0.cost;
            &&& g.board[index as int] is Property
            &&& next.current().cash + cost == g.current().cash
            &&& next.current().properties == g.current().properties.push(index)
            &&& !g.current().properties.contains(index)
            &&& next.board[index as int]->Property_0.owner == Some(buyer)
            &&& next.free_parking == g.free_parking
            &&& next.current_player == g.current_player
            &&& forall|j: int|
                0 <= j < g.players.len() && j != g.current_player ==> next.players[j]
                    == g.players[j]
        }),
{
    lemma_holder_from(g.players, index, 0);
}

/// A property that has been bought cannot be bought again, by whomever.
pub proof fn law_no_second_purchase(g: GameView, buyer: Pubkey, index: u8, other: Pubkey)
    requires
        g.after_buy(buyer, index) is Ok,
    ensures
        g.after_buy(buyer, index).unwrap().after_buy(other, index) == Err::<GameView, ProgramError>(
            rule(MonopolyError::PropertyAlreadyOwned),
        ),
{
}

/// Rent only changes hands: what the payer loses the owner gains, the owner is
/// another player, and nothing else in the game changes.
pub proof fn law_rent_changes_hands(g: GameView, owner: Pubkey, index: u8)
    requires
        g.after_rent(owner, index) is Ok,
    ensures
        ({
            let next = g.after_rent(owner, index).unwrap();
            let seat = g.holder(index).unwrap();
            let t = g.board[index as int]->Property_0;
            let rent = t.rent[0] * rent_multiplier(t.houses);
            &&& 0 <= seat < g.players.len()
            &&& seat != g.current_player
            &&& g.players[seat].owns(index)
            &&& next.current().cash + rent == g.current().cash
            &&& next.players[seat].cash == g.players[seat].cash + rent
            &&& next.board == g.board
            &&& next.free_parking == g.free_parking
            &&& next.current_player == g.current_player
            &&& next.players.len() == g.players.len()
            &&& forall|j: int|
                0 <= j < g.players.len() && j != seat && j != g.current_player
                    ==> next.players[j] == g.players[j]
        }),
{
    lemma_holder_from(g.players, index, 0);
}

/// A move loses no money: what the player has after it, together with the pot,
/// is what player and pot had before, with the bonus for passing the start, and
/// less the fine of a player who leaves jail on the third turn. The pot never
/// shrinks, and it grows by no more than the tax of the tile.
pub proof fn law_move_keeps_money(g: GameView, total: u8, doubles: bool)
    requires
        g.after_move(total, doubles) is Ok,
    ensures
        ({
            let next = g.after_move(total, doubles).unwrap();
            let p = g.current();
            let target = (p.position + total) % (LAP as int);
            if p.jail_turns > 0 && !doubles {
                &&& next.free_parking == g.free_parking
                &&& next.current().position == p.position
                &&& next.current().cash == if p.jail_turns + 1 >= MAX_JAIL_TURNS {
                    p.cash - least(p.cash as int, JAIL_FINE as int)
                } else {
                    p.cash as int
                }
            } else {
                &&& next.current().cash + next.free_parking == p.cash + g.free_parking + if target
                    < p.position {
                    GO_BONUS as int
                } else {
                    0
                }
                &&& g.free_parking <= next.free_parking <= g.free_parking + GameView::tax_on(
                    g.board[target],
                )
                &&& next.current().position == if g.board[target] == TileView::Special(
                    SpecialTile::GoToJail,
                ) {
                    JAIL_POSITION as int
                } else {
                    target
                }
            }
        }),
{
}

/// A game that has just been set up for two to eight players is well formed.
pub proof fn law_fresh_game_well_formed(names: Seq<Seq<char>>)
    requires
        MIN_PLAYERS <= names.len() <= MAX_PLAYERS,
    ensures
        fresh_game(names).well_formed(),
{
    let g = fresh_game(names);
    assert forall|i: int| 0 <= i < g.board.len() implies ((#[trigger] g.board[i])
        matches TileView::Property(t) ==> t.houses <= MAX_HOUSES) by {
        assert(g.board[i] == board_tile(i));
    }
}

/// Every step of the game leads from a well-formed game to a well-formed game:
/// no house count passes the hotel, no player leaves the board, no jail counter
/// reaches three, no tile comes twice onto a list, and the turn stays at a seat.
pub proof fn law_steps_keep_well_formed(
    g: GameView,
    key: Pubkey,
    index: u8,
    total: u8,
    doubles: bool,
    card: Card,
)
    requires
        g.well_formed(),
    ensures
        g.after_move(total, doubles) matches Ok(next) ==> next.well_formed(),
        g.after_buy(key, index) matches Ok(next) ==> next.well_formed(),
        g.after_build(index) matches Ok(next) ==> next.well_formed(),
        g.after_rent(key, index) matches Ok(next) ==> next.well_formed(),
        g.after_turn() matches Ok(next) ==> next.well_formed(),
        card_in_range(card) ==> (g.after_card(card) matches Ok(next) ==> next.well_formed()),
{
    let cur = g.current_player as int;
    let n = g.players.len() as int;
    if let Ok(next) = g.after_move(total, doubles) {
        assert forall|j: int| 0 <= j < next.players.len() implies {
            &&& (#[trigger] next.players[j]).position < LAP
            &&& next.players[j].jail_turns < MAX_JAIL_TURNS
            &&& next.players[j].properties.no_duplicates()
        } by {
            if j != cur {
                assert(next.players[j] == g.players[j]);
            }
        }
    }
    if let Ok(next) = g.after_buy(key, index) {
        lemma_holder_from(g.players, index, 0);
        assert forall|i: int| 0 <= i < next.board.len() implies ((#[trigger] next.board[i])
            matches TileView::Property(t) ==> t.houses <= MAX_HOUSES) by {
            if i != index {
                assert(next.board[i] == g.board[i]);
            } else {
                assert(g.board[i] is Property);
            }
        }
        assert forall|j: int| 0 <= j < next.players.len() implies {
            &&& (#[trigger] next.players[j]).position < LAP
            &&& next.players[j].jail_turns < MAX_JAIL_TURNS
            &&& next.players[j].properties.no_duplicates()
        } by {
            if j != cur {
                assert(next.players[j] == g.players[j]);
            } else {
                let owned = g.players[cur].properties;
                assert(!g.players[cur].owns(index));
                assert(owned.no_duplicates());
                assert forall|a: int, b: int|
                    0 <= a < owned.push(index).len() && 0 <= b < owned.push(index).len() && a
                        != b implies owned.push(index)[a] != owned.push(index)[b] by {
                    if a < owned.len() {
                        assert(owned.contains(owned[a]));
                    }
                    if b < owned.len() {
                        assert(owned.contains(owned[b]));
                    }
                }
            }
        }
    }
    if let Ok(next) = g.after_build(index) {
        assert forall|i: int| 0 <= i < next.board.len() implies ((#[trigger] next.board[i])
            matches TileView::Property(t) ==> t.houses <= MAX_HOUSES) by {
            if i != index {
                assert(next.board[i] == g.board[i]);
            }
        }
        assert forall|j: int| 0 <= j < next.players.len() implies {
            &&& (#[trigger] next.players[j]).position < LAP
            &&& next.players[j].jail_turns < MAX_JAIL_TURNS
            &&& next.players[j].properties.no_duplicates()
        } by {
            if j != cur {
                assert(next.players[j] == g.players[j]);
            }
        }
    }
    if let Ok(next) = g.after_rent(key, index) {
        let seat = g.holder(index).unwrap();
        lemma_holder_from(g.players, index, 0);
        assert forall|j: int| 0 <= j < next.players.len() implies {
            &&& (#[trigger] next.players[j]).position < LAP
            &&& next.players[j].jail_turns < MAX_JAIL_TURNS
            &&& next.players[j].properties.no_duplicates()
        } by {
            if j != cur && j != seat {
                assert(next.players[j] == g.players[j]);
            }
        }
    }
    if let Ok(next) = g.after_turn() {
        lemma_first_solvent(g.players, cur + 1, n);
        lemma_first_solvent(g.players, 0, cur + 1);
    }
    if card_in_range(card) {
        if let Ok(next) = g.after_card(card) {
            assert forall|j: int| 0 <= j < next.players.len() implies {
                &&& (#[trigger] next.players[j]).position < LAP
                &&& next.players[j].jail_turns < MAX_JAIL_TURNS
                &&& next.players[j].properties.no_duplicates()
            } by {
                if j != cur {
                    assert(next.players[j] == g.players[j]);
                }
            }
        }
    }
}

/// The cards of both fresh decks send players to positions of the board only.
pub proof fn law_fresh_decks_in_range(i: int)
    ensures
        0 <= i < community_chest_cards().len() ==> card_in_range(community_chest_cards()[i]),
        0 <= i < chance_cards().len() ==> card_in_range(chance_cards()[i]),
{
}

/// The leader among the first `k` players is one of them, is solvent unless the
/// worth is 0, is worth at least as much as every solvent one of them, and more
/// than every solvent one before.
pub proof fn law_leader_is_worth_most(g: GameView, k: int)
    requires
        0 <= k <= g.players.len(),
    ensures
        k > 0 ==> 0 <= g.leader_upto(k).0 < k,
        k == 0 ==> g.leader_upto(k).0 == 0,
        g.leader_upto(k).1 > 0 ==> !g.players[g.leader_upto(k).0].is_bankrupt() && g.capped_worth(
            g.leader_upto(k).0,
        ) == g.leader_upto(k).1,
        forall|j: int|
            0 <= j < k && !(#[trigger] g.players[j]).is_bankrupt() ==> g.capped_worth(j)
                <= g.leader_upto(k).1,
        forall|j: int|
            0 <= j < g.leader_upto(k).0 && !(#[trigger] g.players[j]).is_bankrupt()
                ==> g.capped_worth(j) < g.leader_upto(k).1,
    decreases k,
{
    if k > 0 {
        law_leader_is_worth_most(g, k - 1);
    }
}

/// Where exactly one of the first `k` players is solvent, that player sits at
/// the first solvent seat and every other of them is bankrupt; and none is
/// solvent exactly where no first solvent seat is found.
pub proof fn law_single_solvent_player(players: Seq<PlayerView>, k: int)
    requires
        0 <= k <= players.len(),
    ensures
        solvent_count(players, k) == 0 <==> first_solvent(players, 0, k) is None,
        solvent_count(players, k) == 1 ==> forall|j: int|
            0 <= j < k && j != first_solvent(players, 0, k).unwrap() ==> (
            #[trigger] players[j]).is_bankrupt(),
    decreases k,
{
    lemma_first_solvent(players, 0, k);
    if k > 0 {
        law_single_solvent_player(players, k - 1);
        lemma_first_solvent(players, 0, k - 1);
        if first_solvent(players, 0, k - 1) is Some {
            lemma_first_solvent_is(players, 0, k, first_solvent(players, 0, k - 1).unwrap());
        } else if !players[k - 1].is_bankrupt() {
            lemma_first_solvent_is(players, 0, k, k - 1);
        } else {
            lemma_first_solvent_none(players, 0, k);
        }
    }
}

/// A game that can be counted has a standing: a winner who is the only solvent
/// player, or a leader who is one of the players.
pub proof fn law_standing(g: GameView)
    requires
        0 < g.players.len() <= 255,
    ensures
        match g.standing() {
            Ok(Standing::Winner(seat)) => seat < g.players.len()
                && !g.players[seat as int].is_bankrupt() && forall|j: int|
                0 <= j < g.players.len() && j != seat ==> (#[trigger] g.players[j]).is_bankrupt(),
            Ok(Standing::Leader(seat, worth)) => seat < g.players.len() && forall|j: int|
                0 <= j < g.players.len() && !(#[trigger] g.players[j]).is_bankrupt()
                    ==> g.capped_worth(j) <= worth,
            Err(_) => false,
        },
{
    let n = g.players.len() as int;
    law_single_solvent_player(g.players, n);
    lemma_first_solvent(g.players, 0, n);
    law_leader_is_worth_most(g, n);
}

/// Every error kind is found again from its code, so no two kinds share one.
pub proof fn law_error_code_roundtrip(kind: MonopolyError)
    ensures
        MonopolyError::spec_from_code(kind.spec_code()) == Some(kind),
{
}

/// A code that names an error kind is the code of that kind.
pub proof fn law_error_code_names_its_kind(code: u32)
    ensures
        MonopolyError::spec_from_code(code) matches Some(kind) ==> kind.spec_code() == code,
        MonopolyError::spec_from_code(code) is Some <==> code <= 18,
{
}

/// Two different rules give two different refusals.
pub proof fn law_rule_errors_distinct(a: MonopolyError, b: MonopolyError)
    requires
        a != b,
    ensures
        rule(a) != rule(b),
{
}

/// Drawing a card changes neither the number of cards nor which cards the deck
/// holds: the card only moves to the back.
pub proof fn law_draw_keeps_cards(cards: Seq<Card>, index: int)
    requires
        0 <= index < cards.len(),
    ensures
        rotated(cards, index).len() == cards.len(),
        rotated(cards, index).last() == cards[index],
        rotated(cards, index).to_multiset() == cards.to_multiset(),
{
    let card = cards[index];
    let rest = cards.remove(index);
    vstd::seq_lib::to_multiset_remove(cards, index);
    vstd::seq_lib::to_multiset_build(rest, card);
    vstd::seq_lib::to_multiset_contains(cards, card);
    assert(cards.contains(card));
    assert(rotated(cards, index).to_multiset() =~= cards.to_multiset());
}

/// After `k` draws from the front the deck begins with the card that was at
/// place `k` and ends with the first `k` cards: as many draws from the front as
/// the deck has cards deal every card once, in order, and leave the deck as it
/// was.
pub proof fn law_front_draws(cards: Seq<Card>, k: nat)
    requires
        k <= cards.len(),
    ensures
        drawn_from_front(cards, k) == cards.skip(k as int) + cards.take(k as int),
        drawn_from_front(cards, k).len() == cards.len(),
        k < cards.len() ==> drawn_from_front(cards, k)[0] == cards[k as int],
        k == cards.len() ==> drawn_from_front(cards, k) == cards,
    decreases k,
{
    if k == 0 {
        assert(cards.skip(0) + cards.take(0) =~= cards);
    } else {
        let once = rotated(cards, 0);
        assert(once =~= cards.skip(1) + cards.take(1));
        law_front_draws(once, (k - 1) as nat);
        assert(once.skip(k - 1) + once.take(k - 1) =~= cards.skip(k as int) + cards.take(k as int));
        if k == cards.len() {
            assert(cards.skip(k as int) + cards.take(k as int) =~= cards);
        }
    }
}

} // verus!
