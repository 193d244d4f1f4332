//! The rules of the game as steps from one state of a game to the next: moving,
//! buying, building, paying rent, drawing cards, ending a turn, and telling who
//! has won.
use vstd::prelude::*;

use crate::account::{CardDeck, CardDeckView, DeckType};
use crate::error::{rule, rule_error, MonopolyError, ProgramError};
use crate::game::{Game, GameView};
use crate::player::PlayerView;
use crate::property::{Property, PropertyView, TileType, TileView};
use crate::pubkey::Pubkey;
use crate::state::{Card, SpecialTile};

verus! {

/// Cash of each player at the start of a game.
pub const STARTING_CASH: u64 = 1500;

/// Cash that a player receives who passes the start.
pub const GO_BONUS: u64 = 200;

/// Fine that a player pays who has sat out three turns in jail.
pub const JAIL_FINE: u64 = 50;

/// Tax taken on the income-tax tile.
pub const INCOME_TAX: u64 = 200;

/// Tax taken on the luxury-tax tile.
pub const LUXURY_TAX: u64 = 75;

/// Position of the jail.
pub const JAIL_POSITION: u8 = 10;

/// Number of positions round the board.
pub const LAP: u8 = 40;

/// Turns after which a player leaves jail against the fine.
pub const MAX_JAIL_TURNS: u8 = 3;

/// Houses that stand for a hotel; nothing more can be built.
pub const MAX_HOUSES: u8 = 5;

/// Fewest players of a game.
pub const MIN_PLAYERS: usize = 2;

/// Most players of a game.
pub const MAX_PLAYERS: usize = 8;

/// The smaller of two amounts.
pub open spec fn least(a: int, b: int) -> int {
    if a <= b {
        a
    } else {
        b
    }
}

/// Whether a card sends a player to a position of the board, if it sends one
/// anywhere.
pub open spec fn card_in_range(card: Card) -> bool {
    card matches Card::Move(position) ==> position < LAP
}

impl GameView {
    /// Whether the game is in a state that play can reach: forty tiles, two to
    /// eight players, the turn at one of them, nothing beyond a hotel on any
    /// property, and every player on the board, with fewer than three turns in
    /// jail and no tile twice on the list.
    pub open spec fn well_formed(self) -> bool {
        &&& self.board.len() == LAP
        &&& MIN_PLAYERS <= self.players.len() <= MAX_PLAYERS
        &&& self.current_player < self.players.len()
        &&& forall|i: int|
            0 <= i < self.board.len() ==> ((#[trigger] self.board[i]) matches TileView::Property(
                t,
            ) ==> t.houses <= MAX_HOUSES)
        &&& forall|j: int|
            0 <= j < self.players.len() ==> {
                &&& (#[trigger] self.players[j]).position < LAP
                &&& self.players[j].jail_turns < MAX_JAIL_TURNS
                &&& self.players[j].properties.no_duplicates()
            }
    }

    /// Whether the game can be played: it has players, their seats fit a byte,
    /// and the current player is one of them.
    pub open spec fn playable(self) -> bool {
        0 < self.players.len() <= 255 && (self.current_player as int) < self.players.len()
    }

    /// The player whose turn it is.
    pub open spec fn current(self) -> PlayerView {
        self.players[self.current_player as int]
    }

    /// The game with `p` in the place of the current player.
    pub open spec fn with_current(self, p: PlayerView) -> GameView {
        GameView { players: self.players.update(self.current_player as int, p), ..self }
    }

    /// The tax taken on a tile, 0 where none is.
    pub open spec fn tax_on(tile: TileView) -> u64 {
        match tile {
            TileView::Special(SpecialTile::IncomeTax) => INCOME_TAX,
            TileView::Special(SpecialTile::LuxuryTax) => LUXURY_TAX,
            _ => 0,
        }
    }

    /// The game after the current player has thrown `total`, with or without
    /// doubles.
    ///
    /// A player in jail who throws no doubles stays: the third such turn costs the
    /// fine (as far as the cash goes) and frees the player, without a move. Any
    /// other player moves `total` tiles round the board, receives the bonus for
    /// passing the start, goes to jail from the go-to-jail tile, and pays the tax
    /// of a tax tile (as far as the cash goes) into the free-parking pot.
    pub open spec fn after_move(self, total: u8, doubles: bool) -> Result<GameView, ProgramError> {
        let p = self.current();
        if !self.playable() {
            Err(rule(MonopolyError::InvalidGameState))
        } else if p.jail_turns > 0 && !doubles {
            if p.jail_turns + 1 >= MAX_JAIL_TURNS {
                Ok(
                    self.with_current(
                        PlayerView {
                            cash: (p.cash - least(p.cash as int, JAIL_FINE as int)) as u64,
                            jail_turns: 0,
                            ..p
                        },
                    ),
                )
            } else {
                Ok(self.with_current(PlayerView { jail_turns: (p.jail_turns + 1) as u8, ..p }))
            }
        } else {
            let target = (p.position + total) % (LAP as int);
            let bonus = if target < p.position {
                GO_BONUS as int
            } else {
                0
            };
            if target >= self.board.len() {
                Err(rule(MonopolyError::InvalidGameState))
            } else if p.cash + bonus > u64::MAX {
                Err(ProgramError::ArithmeticOverflow)
            } else if self.board[target] == TileView::Special(SpecialTile::GoToJail) {
                Ok(
                    self.with_current(
                        PlayerView {
                            cash: (p.cash + bonus) as u64,
                            position: JAIL_POSITION,
                            jail_turns: 1,
                            ..p
                        },
                    ),
                )
            } else {
                let paid = least(p.cash + bonus, Self::tax_on(self.board[target]) as int);
                if self.free_parking + paid > u64::MAX {
                    Err(ProgramError::ArithmeticOverflow)
                } else {
                    Ok(
                        GameView {
                            free_parking: (self.free_parking + paid) as u64,
                            ..self.with_current(
                                PlayerView {
                                    cash: (p.cash + bonus - paid) as u64,
                                    position: target as u8,
                                    jail_turns: 0,
                                    ..p
                                },
                            )
                        },
                    )
                }
            }
        }
    }
}

impl Game {
    /// Whether the game can be played.
    pub fn is_playable(&self) -> (b: bool)
        ensures
            b == self@.playable(),
    {
        self.players.len() > 0 && self.players.len() <= 255 && (self.current_player as usize)
            < self.players.len()
    }

    /// Moves the current player by a throw of `total`. On a refusal the game is
    /// left as it was.
    pub fn move_player(&mut self, total: u8, doubles: bool) -> (r: Result<(), ProgramError>)
        ensures
            match r {
                Ok(()) => old(self)@.after_move(total, doubles) == Ok::<GameView, ProgramError>(
                    final(self)@,
                ),
                Err(e) => old(self)@.after_move(total, doubles) == Err::<GameView, ProgramError>(e)
                    && *final(self) == *old(self),
            },
    {
        if !self.is_playable() {
            return Err(rule_error(MonopolyError::InvalidGameState));
        }
        let cur = self.current_player as usize;
        let ghost before = self@;
        if self.players[cur].jail_turns > 0 && !doubles {
            if self.players[cur].jail_turns >= MAX_JAIL_TURNS - 1 {
                let cash = self.players[cur].cash;
                self.players[cur].cash = if cash >= JAIL_FINE {
                    cash - JAIL_FINE
                } else {
                    0
                };
                self.players[cur].jail_turns = 0;
            } else {
                self.players[cur].jail_turns = self.players[cur].jail_turns + 1;
            }
            proof {
                assert(self@.players =~= before.after_move(total, doubles).unwrap().players);
                assert(self@.board =~= before.board);
            }
            return Ok(());
        }
        let position = self.players[cur].position;
        let target = ((position as u16 + total as u16) % (LAP as u16)) as u8;
        if target as usize >= self.board.len() {
            return Err(rule_error(MonopolyError::InvalidGameState));
        }
        let bonus: u64 = if target < position {
            GO_BONUS
        } else {
            0
        };
        let cash = match self.players[cur].cash.checked_add(bonus) {
            Some(cash) => cash,
            None => { return Err(ProgramError::ArithmeticOverflow); },
        };
        let tax: u64 = match &self.board[target as usize] {
            TileType::Special(SpecialTile::GoToJail) => {
                self.players[cur].cash = cash;
                self.players[cur].position = JAIL_POSITION;
                self.players[cur].jail_turns = 1;
                proof {
                    assert(self@.players =~= before.after_move(total, doubles).unwrap().players);
                    assert(self@.board =~= before.board);
                }
                return Ok(());
            },
            TileType::Special(SpecialTile::IncomeTax) => INCOME_TAX,
            TileType::Special(SpecialTile::LuxuryTax) => LUXURY_TAX,
            _ => 0,
        };
        assert(tax == GameView::tax_on(before.board[target as int]));
        let paid = if cash >= tax {
            tax
        } else {
            cash
        };
        let pot = match self.free_parking.checked_add(paid) {
            Some(pot) => pot,
            None => { return Err(ProgramError::ArithmeticOverflow); },
        };
        self.players[cur].cash = cash - paid;
        self.players[cur].position = target;
        self.players[cur].jail_turns = 0;
        self.free_parking = pot;
        proof {
            assert(self@.players =~= before.after_move(total, doubles).unwrap().players);
            assert(self@.board =~= before.board);
        }
        Ok(())
    }
}

/// The first seat from `from` on whose player owns tile `index`, if any does.
pub open spec fn holder_from(players: Seq<PlayerView>, index: u8, from: int) -> Option<int>
    decreases players.len() - from,
{
    if from < 0 || from >= players.len() {
        None
    } else if players[from].owns(index) {
        Some(from)
    } else {
        holder_from(players, index, from + 1)
    }
}

/// What `holder_from` finds is the first owner, and it finds none only where
/// there is none.
pub proof fn lemma_holder_from(players: Seq<PlayerView>, index: u8, from: int)
    requires
        0 <= from,
    ensures
        match holder_from(players, index, from) {
            Some(seat) => from <= seat < players.len() && players[seat].owns(index) && forall|
                j: int,
            | from <= j < seat ==> !(#[trigger] players[j]).owns(index),
            None => forall|j: int|
                from <= j < players.len() ==> !(#[trigger] players[j]).owns(index),
        },
    decreases players.len() - from,
{
    if from < players.len() && !players[from].owns(index) {
        lemma_holder_from(players, index, from + 1);
    }
}

impl PropertyView {
    /// What the next house costs: the hotel cost for the fifth, the house cost
    /// before.
    pub open spec fn build_cost(self) -> u64 {
        if self.houses == 4 {
            self.hotel_cost
        } else {
            self.house_cost
        }
    }
}

impl GameView {
    /// The seat of the first player who owns tile `index`, if any does.
    pub open spec fn holder(self, index: u8) -> Option<int> {
        holder_from(self.players, index, 0)
    }

    /// The game with `t` in the place of tile `index`.
    pub open spec fn with_property(self, index: u8, t: PropertyView) -> GameView {
        GameView { board: self.board.update(index as int, TileView::Property(t)), ..self }
    }

    /// The game after the current player, known to the host as `buyer`, has
    /// bought tile `index`.
    ///
    /// The tile has to be a property that nobody owns, neither by its own record
    /// nor by the list of a player, and the player has to have its cost. The
    /// player then pays the cost, the tile records the buyer, and the player's
    /// list ends with the tile.
    pub open spec fn after_buy(self, buyer: Pubkey, index: u8) -> Result<GameView, ProgramError> {
        let p = self.current();
        if !self.playable() {
            Err(rule(MonopolyError::InvalidGameState))
        } else if index >= self.board.len() {
            Err(rule(MonopolyError::InvalidPropertyIndex))
        } else {
            match self.board[index as int] {
                TileView::Special(_) => Err(rule(MonopolyError::NotAProperty)),
                TileView::Property(t) => if t.owner is Some || self.holder(index) is Some {
                    Err(rule(MonopolyError::PropertyAlreadyOwned))
                } else if p.cash < t.cost {
                    Err(rule(MonopolyError::InsufficientFunds))
                } else {
                    Ok(
                        self.with_current(
                            PlayerView {
                                cash: (p.cash - t.cost) as u64,
                                properties: p.properties.push(index),
                                ..p
                            },
                        ).with_property(index, PropertyView { owner: Some(buyer), ..t }),
                    )
                },
            }
        }
    }

    /// The game after the current player has built one house on tile `index`.
    ///
    /// The tile has to be a property that the player owns, a street whose whole
    /// colour group the player owns, with fewer than five houses, and the player
    /// has to have the cost of the next house.
    pub open spec fn after_build(self, index: u8) -> Result<GameView, ProgramError> {
        let p = self.current();
        if !self.playable() {
            Err(rule(MonopolyError::InvalidGameState))
        } else if index >= self.board.len() {
            Err(rule(MonopolyError::InvalidPropertyIndex))
        } else {
            match self.board[index as int] {
                TileView::Special(_) => Err(rule(MonopolyError::NotAProperty)),
                TileView::Property(t) => if !p.owns(index) {
                    Err(rule(MonopolyError::NotPropertyOwner))
                } else if !t.is_street() || !crate::utils::spec_owns_color_group(
                    p.properties,
                    self.board,
                    t.color,
                ) {
                    Err(rule(MonopolyError::IncompleteColorSet))
                } else if t.houses >= MAX_HOUSES {
                    Err(rule(MonopolyError::MaxHousesReached))
                } else if p.cash < t.build_cost() {
                    Err(rule(MonopolyError::InsufficientFunds))
                } else {
                    Ok(
                        self.with_current(
                            PlayerView { cash: (p.cash - t.build_cost()) as u64, ..p },
                        ).with_property(index, PropertyView { houses: (t.houses + 1) as u8, ..t }),
                    )
                },
            }
        }
    }

    /// The game after the current player has paid the rent of tile `index` to its
    /// owner, whom the host knows as `owner`.
    ///
    /// The tile has to be a property that another player owns; where the tile
    /// records an owner, it has to be `owner`. The rent is the first step of the
    /// rent schedule times the multiplier of the house count. The payer has to
    /// have it; it goes to the first player whose list holds the tile.
    pub open spec fn after_rent(self, owner: Pubkey, index: u8) -> Result<GameView, ProgramError> {
        let p = self.current();
        if !self.playable() {
            Err(rule(MonopolyError::InvalidGameState))
        } else if index >= self.board.len() {
            Err(rule(MonopolyError::InvalidPropertyIndex))
        } else {
            match self.board[index as int] {
                TileView::Special(_) => Err(rule(MonopolyError::NotAProperty)),
                TileView::Property(t) => if p.owns(index) {
                    Err(rule(MonopolyError::OwnProperty))
                } else if self.holder(index) is None {
                    Err(rule(MonopolyError::PropertyNotOwned))
                } else if t.owner is Some && t.owner != Some(owner) {
                    Err(rule(MonopolyError::NotRentOwner))
                } else if t.rent.len() == 0 {
                    Err(rule(MonopolyError::InvalidGameState))
                } else {
                    let rent = t.rent[0] * crate::utils::rent_multiplier(t.houses);
                    let seat = self.holder(index).unwrap();
                    if rent > u64::MAX {
                        Err(ProgramError::ArithmeticOverflow)
                    } else if p.cash < rent {
                        Err(rule(MonopolyError::InsufficientFunds))
                    } else if self.players[seat].cash + rent > u64::MAX {
                        Err(ProgramError::ArithmeticOverflow)
                    } else {
                        Ok(
                            GameView {
                                players: self.players.update(
                                    self.current_player as int,
                                    PlayerView { cash: (p.cash - rent) as u64, ..p },
                                ).update(
                                    seat,
                                    PlayerView {
                                        cash: (self.players[seat].cash + rent) as u64,
                                        ..self.players[seat]
                                    },
                                ),
                                ..self
                            },
                        )
                    }
                },
            }
        }
    }

    /// The game after the current player has been dealt `card`.
    ///
    /// A collect card adds its amount to the cash. A pay card takes its amount
    /// from the cash, which has to be there, into the free-parking pot. A move
    /// card sets the position, with the bonus where the new position lies before
    /// the old one. A jail card is kept.
    pub open spec fn after_card(self, card: Card) -> Result<GameView, ProgramError> {
        let p = self.current();
        if !self.playable() {
            Err(rule(MonopolyError::InvalidGameState))
        } else {
            match card {
                Card::CollectMoney(amount) => if p.cash + amount > u64::MAX {
                    Err(ProgramError::ArithmeticOverflow)
                } else {
                    Ok(self.with_current(PlayerView { cash: (p.cash + amount) as u64, ..p }))
                },
                Card::PayMoney(amount) => if p.cash < amount {
                    Err(rule(MonopolyError::InsufficientBalance))
                } else if self.free_parking + amount > u64::MAX {
                    Err(ProgramError::ArithmeticOverflow)
                } else {
                    Ok(
                        GameView {
                            free_parking: (self.free_parking + amount) as u64,
                            ..self.with_current(
                                PlayerView { cash: (p.cash - amount) as u64, ..p },
                            )
                        },
                    )
                },
                Card::Move(position) => {
                    let bonus = if position < p.position {
                        GO_BONUS as int
                    } else {
                        0
                    };
                    if p.cash + bonus > u64::MAX {
                        Err(ProgramError::ArithmeticOverflow)
                    } else {
                        Ok(
                            self.with_current(
                                PlayerView { cash: (p.cash + bonus) as u64, position, ..p },
                            ),
                        )
                    }
                },
                Card::GetOutOfJail => if p.get_out_of_jail_cards == u8::MAX {
                    Err(ProgramError::ArithmeticOverflow)
                } else {
                    Ok(
                        self.with_current(
                            PlayerView {
                                get_out_of_jail_cards: (p.get_out_of_jail_cards + 1) as u8,
                                ..p
                            },
                        ),
                    )
                },
            }
        }
    }
}

impl Game {
    /// The seat of the first player who owns tile `index`, if any does.
    pub fn find_holder(&self, index: u8) -> (seat: Option<usize>)
        ensures
            match seat {
                Some(seat) => self@.holder(index) == Some(seat as int)
                    && seat < self.players@.len(),
                None => self@.holder(index) is None,
            },
    {
        let mut i: usize = 0;
        while i < self.players.len()
            invariant
                i <= self.players@.len(),
                holder_from(self@.players, index, 0) == holder_from(self@.players, index, i as int),
            decreases self.players@.len() - i,
        {
            if self.players[i].owns(index) {
                return Some(i);
            }
            i += 1;
        }
        None
    }

    /// Buys tile `index` for the current player, whom the host knows as `buyer`.
    /// On a refusal the game is left as it was.
    pub fn buy_property(&mut self, buyer: &Pubkey, index: u8) -> (r: Result<(), ProgramError>)
        ensures
            match r {
                Ok(()) => old(self)@.after_buy(*buyer, index) == Ok::<GameView, ProgramError>(
                    final(self)@,
                ),
                Err(e) => old(self)@.after_buy(*buyer, index) == Err::<GameView, ProgramError>(e)
                    && *final(self) == *old(self),
            },
    {
        if !self.is_playable() {
            return Err(rule_error(MonopolyError::InvalidGameState));
        }
        let cur = self.current_player as usize;
        let idx = index as usize;
        if idx >= self.board.len() {
            return Err(rule_error(MonopolyError::InvalidPropertyIndex));
        }
        let ghost before = self@;
        let held = self.find_holder(index).is_some();
        let cost = match &self.board[idx] {
            TileType::Special(_) => {
                return Err(rule_error(MonopolyError::NotAProperty));
            },
            TileType::Property(t) => {
                if t.owner.is_some() || held {
                    return Err(rule_error(MonopolyError::PropertyAlreadyOwned));
                }
                t.cost
            },
        };
        if self.players[cur].cash < cost {
            return Err(rule_error(MonopolyError::InsufficientFunds));
        }
        self.players[cur].cash = self.players[cur].cash - cost;
        self.players[cur].properties.push(index);
        match &mut self.board[idx] {
            TileType::Property(t) => {
                t.owner = Some(*buyer);
            },
            TileType::Special(_) => {},
        }
        proof {
            let want = before.after_buy(*buyer, index).unwrap();
            assert(self@.players =~= want.players);
            assert(self@.board =~= want.board);
        }
        Ok(())
    }

    /// Builds one house on tile `index` for the current player. On a refusal the
    /// game is left as it was.
    pub fn build_house(&mut self, index: u8) -> (r: Result<(), ProgramError>)
        ensures
            match r {
                Ok(()) => old(self)@.after_build(index) == Ok::<GameView, ProgramError>(
                    final(self)@,
                ),
                Err(e) => old(self)@.after_build(index) == Err::<GameView, ProgramError>(e)
                    && *final(self) == *old(self),
            },
    {
        if !self.is_playable() {
            return Err(rule_error(MonopolyError::InvalidGameState));
        }
        let cur = self.current_player as usize;
        let idx = index as usize;
        if idx >= self.board.len() {
            return Err(rule_error(MonopolyError::InvalidPropertyIndex));
        }
        let ghost before = self@;
        let cost = match &self.board[idx] {
            TileType::Special(_) => {
                return Err(rule_error(MonopolyError::NotAProperty));
            },
            TileType::Property(t) => {
                if !self.players[cur].owns(index) {
                    return Err(rule_error(MonopolyError::NotPropertyOwner));
                }
                assert(crate::utils::tiles_view(self.board@) == before.board);
                if t.rent.len() != 6 || !crate::utils::owns_color_group(
                    self.players[cur].properties.as_slice(),
                    self.board.as_slice(),
                    t.color,
                ) {
                    return Err(rule_error(MonopolyError::IncompleteColorSet));
                }
                if t.houses >= MAX_HOUSES {
                    return Err(rule_error(MonopolyError::MaxHousesReached));
                }
                if t.houses == 4 {
                    t.hotel_cost
                } else {
                    t.house_cost
                }
            },
        };
        if self.players[cur].cash < cost {
            return Err(rule_error(MonopolyError::InsufficientFunds));
        }
        self.players[cur].cash = self.players[cur].cash - cost;
        match &mut self.board[idx] {
            TileType::Property(t) => {
                t.houses = t.houses + 1;
            },
            TileType::Special(_) => {},
        }
        proof {
            let want = before.after_build(index).unwrap();
            assert(self@.players =~= want.players);
            assert(self@.board =~= want.board);
        }
        Ok(())
    }

    /// Pays the rent of tile `index` from the current player to its owner, whom
    /// the host knows as `owner`. On a refusal the game is left as it was.
    pub fn pay_rent(&mut self, owner: &Pubkey, index: u8) -> (r: Result<(), ProgramError>)
        ensures
            match r {
                Ok(()) => old(self)@.after_rent(*owner, index) == Ok::<GameView, ProgramError>(
                    final(self)@,
                ),
                Err(e) => old(self)@.after_rent(*owner, index) == Err::<GameView, ProgramError>(e)
                    && *final(self) == *old(self),
            },
    {
        if !self.is_playable() {
            return Err(rule_error(MonopolyError::InvalidGameState));
        }
        let cur = self.current_player as usize;
        let idx = index as usize;
        if idx >= self.board.len() {
            return Err(rule_error(MonopolyError::InvalidPropertyIndex));
        }
        let ghost before = self@;
        let holder = self.find_holder(index);
        let (rent, seat) = match &self.board[idx] {
            TileType::Special(_) => {
                return Err(rule_error(MonopolyError::NotAProperty));
            },
            TileType::Property(t) => {
                if self.players[cur].owns(index) {
                    return Err(rule_error(MonopolyError::OwnProperty));
                }
                let seat = match holder {
                    Some(seat) => seat,
                    None => { return Err(rule_error(MonopolyError::PropertyNotOwned)); },
                };
                match &t.owner {
                    Some(recorded) => {
                        if *recorded != *owner {
                            return Err(rule_error(MonopolyError::NotRentOwner));
                        }
                    },
                    None => {},
                }
                if t.rent.len() == 0 {
                    return Err(rule_error(MonopolyError::InvalidGameState));
                }
                match crate::utils::checked_rent(t.rent[0], t.houses) {
                    Some(rent) => (rent, seat),
                    None => { return Err(ProgramError::ArithmeticOverflow); },
                }
            },
        };
        proof {
            lemma_holder_from(before.players, index, 0);
        }
        if self.players[cur].cash < rent {
            return Err(rule_error(MonopolyError::InsufficientFunds));
        }
        let credited = match self.players[seat].cash.checked_add(rent) {
            Some(credited) => credited,
            None => { return Err(ProgramError::ArithmeticOverflow); },
        };
        self.players[cur].cash = self.players[cur].cash - rent;
        self.players[seat].cash = credited;
        proof {
            let want = before.after_rent(*owner, index).unwrap();
            assert(self@.players =~= want.players);
            assert(self@.board =~= want.board);
        }
        Ok(())
    }

    /// Deals `card` to the current player. On a refusal the game is left as it
    /// was.
    pub fn apply_card(&mut self, card: Card) -> (r: Result<(), ProgramError>)
        ensures
            match r {
                Ok(()) => old(self)@.after_card(card) == Ok::<GameView, ProgramError>(final(self)@),
                Err(e) => old(self)@.after_card(card) == Err::<GameView, ProgramError>(e)
                    && *final(self) == *old(self),
            },
    {
        if !self.is_playable() {
            return Err(rule_error(MonopolyError::InvalidGameState));
        }
        let cur = self.current_player as usize;
        let ghost before = self@;
        match card {
            Card::CollectMoney(amount) => {
                let cash = match self.players[cur].cash.checked_add(amount) {
                    Some(cash) => cash,
                    None => { return Err(ProgramError::ArithmeticOverflow); },
                };
                self.players[cur].cash = cash;
            },
            Card::PayMoney(amount) => {
                if self.players[cur].cash < amount {
                    return Err(rule_error(MonopolyError::InsufficientBalance));
                }
                let pot = match self.free_parking.checked_add(amount) {
                    Some(pot) => pot,
                    None => { return Err(ProgramError::ArithmeticOverflow); },
                };
                self.players[cur].cash = self.players[cur].cash - amount;
                self.free_parking = pot;
            },
            Card::Move(position) => {
                let bonus: u64 = if position < self.players[cur].position {
                    GO_BONUS
                } else {
                    0
                };
                let cash = match self.players[cur].cash.checked_add(bonus) {
                    Some(cash) => cash,
                    None => { return Err(ProgramError::ArithmeticOverflow); },
                };
                self.players[cur].cash = cash;
                self.players[cur].position = position;
            },
            Card::GetOutOfJail => {
                if self.players[cur].get_out_of_jail_cards == u8::MAX {
                    return Err(ProgramError::ArithmeticOverflow);
                }
                self.players[cur].get_out_of_jail_cards = self.players[cur].get_out_of_jail_cards
                    + 1;
            },
        }
        proof {
            let want = before.after_card(card).unwrap();
            assert(self@.players =~= want.players);
            assert(self@.board =~= want.board);
        }
        Ok(())
    }
}

/// The first seat in `from..to` whose player is not bankrupt, if there is one.
pub open spec fn first_solvent(players: Seq<PlayerView>, from: int, to: int) -> Option<int>
    decreases to - from,
{
    if from < 0 || from >= to || from >= players.len() {
        None
    } else if !players[from].is_bankrupt() {
        Some(from)
    } else {
        first_solvent(players, from + 1, to)
    }
}

/// What `first_solvent` finds is solvent and the first such seat, and it finds
/// none only where every seat of the range is bankrupt.
pub proof fn lemma_first_solvent(players: Seq<PlayerView>, from: int, to: int)
    requires
        0 <= from,
        to <= players.len(),
    ensures
        match first_solvent(players, from, to) {
            Some(seat) => from <= seat < to && !players[seat].is_bankrupt() && forall|j: int|
                from <= j < seat ==> (#[trigger] players[j]).is_bankrupt(),
            None => forall|j: int| from <= j < to ==> (#[trigger] players[j]).is_bankrupt(),
        },
    decreases to - from,
{
    if from < to && players[from].is_bankrupt() {
        lemma_first_solvent(players, from + 1, to);
    }
}

/// A solvent seat before which every seat of the range is bankrupt is what
/// `first_solvent` finds.
pub proof fn lemma_first_solvent_is(players: Seq<PlayerView>, from: int, to: int, seat: int)
    requires
        0 <= from <= seat < to <= players.len(),
        !players[seat].is_bankrupt(),
        forall|j: int| from <= j < seat ==> (#[trigger] players[j]).is_bankrupt(),
    ensures
        first_solvent(players, from, to) == Some(seat),
    decreases seat - from,
{
    if from < seat {
        assert(players[from].is_bankrupt());
        lemma_first_solvent_is(players, from + 1, to, seat);
    }
}

/// Where every seat of a range is bankrupt, `first_solvent` finds none.
pub proof fn lemma_first_solvent_none(players: Seq<PlayerView>, from: int, to: int)
    requires
        0 <= from,
        to <= players.len(),
        forall|j: int| from <= j < to ==> (#[trigger] players[j]).is_bankrupt(),
    ensures
        first_solvent(players, from, to) is None,
    decreases to - from,
{
    if from < to {
        assert(players[from].is_bankrupt());
        lemma_first_solvent_none(players, from + 1, to);
    }
}

/// Number of players among the first `k` who are not bankrupt.
pub open spec fn solvent_count(players: Seq<PlayerView>, k: int) -> nat
    decreases k,
{
    if k <= 0 {
        0
    } else {
        solvent_count(players, k - 1) + if players[k - 1].is_bankrupt() {
            0nat
        } else {
            1nat
        }
    }
}

/// How a game stands.
#[derive(Clone, Copy, Debug, PartialEq, Eq, Structural)]
pub enum Standing {
    /// Exactly one player is not bankrupt: the player with this seat has won.
    Winner(u8),
    /// The game goes on: the seat of the player who is worth most, and that worth.
    Leader(u8, u64),
}

impl Standing {
    /// The seat of the winner, if there is one.
    pub fn winner(&self) -> (seat: Option<u8>)
        ensures
            seat == (match *self {
                Standing::Winner(seat) => Some(seat),
                Standing::Leader(_, _) => None,
            }),
    {
        match self {
            Standing::Winner(seat) => Some(*seat),
            Standing::Leader(_, _) => None,
        }
    }
}

impl GameView {
    /// The seat of the player whose turn comes next: the first solvent player
    /// behind the current one in the order of seats, going round once; where
    /// every player is bankrupt, the seat behind the current one.
    pub open spec fn next_seat(self) -> int {
        let cur = self.current_player as int;
        match first_solvent(self.players, cur + 1, self.players.len() as int) {
            Some(seat) => seat,
            None => match first_solvent(self.players, 0, cur + 1) {
                Some(seat) => seat,
                None => if cur + 1 == self.players.len() {
                    0
                } else {
                    cur + 1
                },
            },
        }
    }

    /// The game after the current player has ended the turn.
    pub open spec fn after_turn(self) -> Result<GameView, ProgramError> {
        if !self.playable() {
            Err(rule(MonopolyError::InvalidGameState))
        } else {
            Ok(GameView { current_player: self.next_seat() as u8, ..self })
        }
    }

    /// What the tile with the given index adds to the worth of its owner: the
    /// cost of the property and of the houses on it.
    pub open spec fn tile_value(self, index: u8) -> nat {
        if index < self.board.len() {
            match self.board[index as int] {
                TileView::Property(t) => (t.cost + t.house_cost * t.houses) as nat,
                TileView::Special(_) => 0,
            }
        } else {
            0
        }
    }

    /// The value of a list of tiles.
    pub open spec fn holdings(self, owned: Seq<u8>) -> nat
        decreases owned.len(),
    {
        if owned.len() == 0 {
            0
        } else {
            self.holdings(owned.drop_last()) + self.tile_value(owned.last())
        }
    }

    /// What the player in `seat` is worth: cash and the value of the tiles owned.
    pub open spec fn net_worth(self, seat: int) -> nat {
        self.players[seat].cash as nat + self.holdings(self.players[seat].properties)
    }

    /// The net worth as far as 64 bits can say it.
    pub open spec fn capped_worth(self, seat: int) -> u64 {
        least(self.net_worth(seat) as int, u64::MAX as int) as u64
    }

    /// The leader among the first `k` players: the first solvent player whose
    /// worth no other of them exceeds, with that worth; seat 0 with worth 0 where
    /// no solvent player is worth anything.
    pub open spec fn leader_upto(self, k: int) -> (int, u64)
        decreases k,
    {
        if k <= 0 {
            (0, 0)
        } else {
            let best = self.leader_upto(k - 1);
            if !self.players[k - 1].is_bankrupt() && self.capped_worth(k - 1) > best.1 {
                (k - 1, self.capped_worth(k - 1))
            } else {
                best
            }
        }
    }

    /// How the game stands: won by the only solvent player, or led by the player
    /// who is worth most.
    pub open spec fn standing(self) -> Result<Standing, ProgramError> {
        let n = self.players.len() as int;
        if !(0 < n <= 255) {
            Err(rule(MonopolyError::InvalidGameState))
        } else if solvent_count(self.players, n) == 1 {
            Ok(Standing::Winner(first_solvent(self.players, 0, n).unwrap() as u8))
        } else {
            Ok(Standing::Leader(self.leader_upto(n).0 as u8, self.leader_upto(n).1))
        }
    }
}

impl Game {
    /// Ends the turn of the current player: the turn goes to the next solvent
    /// player. On a refusal the game is left as it was.
    pub fn next_turn(&mut self) -> (r: Result<(), ProgramError>)
        ensures
            match r {
                Ok(()) => old(self)@.after_turn() == Ok::<GameView, ProgramError>(final(self)@),
                Err(e) => old(self)@.after_turn() == Err::<GameView, ProgramError>(e)
                    && *final(self) == *old(self),
            },
    {
        if !self.is_playable() {
            return Err(rule_error(MonopolyError::InvalidGameState));
        }
        let n = self.players.len();
        let cur = self.current_player as usize;
        let ghost players = self@.players;
        let mut seat: usize = if cur + 1 == n {
            0
        } else {
            cur + 1
        };
        let mut tries: usize = n;
        while tries > 0 && self.players[seat].is_bankrupt()
            invariant
                n == self.players@.len(),
                players == self@.players,
                0 < n <= 255,
                cur < n,
                seat < n,
                tries <= n,
                ({
                    ||| (cur < seat && tries == n - (seat - cur - 1) && forall|j: int|
                        cur < j < seat ==> (#[trigger] players[j]).is_bankrupt())
                    ||| (seat <= cur && tries == cur + 1 - seat && forall|j: int|
                        (cur < j < n || 0 <= j < seat) ==> (#[trigger] players[j]).is_bankrupt())
                    ||| (tries == 0 && seat == (if cur + 1 == n {
                        0
                    } else {
                        cur + 1
                    }) && forall|j: int| 0 <= j < n ==> (#[trigger] players[j]).is_bankrupt())
                }),
            decreases tries,
        {
            assert(players[seat as int] == self.players@[seat as int]@);
            seat = if seat + 1 == n {
                0
            } else {
                seat + 1
            };
            tries -= 1;
        }
        proof {
            assert(players[seat as int] == self.players@[seat as int]@);
            if tries == 0 {
                lemma_first_solvent_none(players, cur + 1, n as int);
                lemma_first_solvent_none(players, 0, cur + 1);
            } else if cur < seat {
                lemma_first_solvent_is(players, cur + 1, n as int, seat as int);
            } else {
                lemma_first_solvent_none(players, cur + 1, n as int);
                lemma_first_solvent_is(players, 0, cur + 1, seat as int);
            }
            assert(self@.next_seat() == seat);
        }
        self.current_player = seat as u8;
        Ok(())
    }

    /// What the player in `seat` is worth, as far as 64 bits can say it.
    pub fn worth(&self, seat: usize) -> (w: u64)
        requires
            seat < self.players@.len(),
        ensures
            w == self@.capped_worth(seat as int),
    {
        let player = &self.players[seat];
        let mut acc: u64 = player.cash;
        let mut k: usize = 0;
        let ghost g = self@;
        proof {
            assert(player.properties@.take(0) =~= Seq::<u8>::empty());
        }
        while k < player.properties.len()
            invariant
                k <= player.properties@.len(),
                g == self@,
                player@ == g.players[seat as int],
                acc == least(
                    (player.cash as nat + g.holdings(player.properties@.take(k as int))) as int,
                    u64::MAX as int,
                ),
            decreases player.properties@.len() - k,
        {
            let index = player.properties[k];
            let value: u128 = if (index as usize) < self.board.len() {
                match &self.board[index as usize] {
                    TileType::Property(t) => {
                        assert(t.house_cost * t.houses <= u64::MAX * 255) by (nonlinear_arith)
                            requires
                                t.house_cost <= u64::MAX,
                                t.houses <= 255,
                        ;
                        t.cost as u128 + (t.house_cost as u128) * (t.houses as u128)
                    },
                    TileType::Special(_) => 0,
                }
            } else {
                0
            };
            assert(value == g.tile_value(index));
            proof {
                let upto = player.properties@.take(k + 1);
                assert(upto.drop_last() =~= player.properties@.take(k as int));
                assert(upto.last() == index);
            }
            acc = if value >= (u64::MAX - acc) as u128 {
                u64::MAX
            } else {
                acc + value as u64
            };
            k += 1;
        }
        proof {
            assert(player.properties@.take(k as int) =~= player.properties@);
        }
        acc
    }

    /// How the game stands. The game is not changed.
    pub fn check_winner(&self) -> (r: Result<Standing, ProgramError>)
        ensures
            r == self@.standing(),
    {
        let n = self.players.len();
        if n == 0 || n > 255 {
            return Err(rule_error(MonopolyError::InvalidGameState));
        }
        let ghost g = self@;
        let mut solvent: usize = 0;
        let mut first: usize = 0;
        let mut leader: usize = 0;
        let mut best: u64 = 0;
        let mut k: usize = 0;
        while k < n
            invariant
                k <= n,
                n == self.players@.len(),
                n <= 255,
                g == self@,
                solvent == solvent_count(g.players, k as int),
                solvent <= k,
                solvent > 0 ==> first_solvent(g.players, 0, k as int) == Some(first as int),
                solvent == 0 ==> first_solvent(g.players, 0, k as int) is None,
                first < n,
                leader < n,
                (leader as int, best) == g.leader_upto(k as int),
            decreases n - k,
        {
            assert(g.players[k as int] == self.players@[k as int]@);
            proof {
                lemma_first_solvent(g.players, 0, k as int);
            }
            if !self.players[k].is_bankrupt() {
                proof {
                    if solvent == 0 {
                        lemma_first_solvent_is(g.players, 0, k + 1, k as int);
                    } else {
                        lemma_first_solvent_is(g.players, 0, k + 1, first as int);
                    }
                }
                if solvent == 0 {
                    first = k;
                }
                solvent += 1;
                let w = self.worth(k);
                if w > best {
                    best = w;
                    leader = k;
                }
            } else {
                proof {
                    if solvent == 0 {
                        lemma_first_solvent_none(g.players, 0, k + 1);
                    } else {
                        lemma_first_solvent_is(g.players, 0, k + 1, first as int);
                    }
                }
            }
            k += 1;
        }
        if solvent == 1 {
            Ok(Standing::Winner(first as u8))
        } else {
            Ok(Standing::Leader(leader as u8, best))
        }
    }
}

/// A row of cards after the card at `index` has been drawn: the card has left its
/// place and lies at the back.
pub open spec fn rotated(cards: Seq<Card>, index: int) -> Seq<Card> {
    cards.remove(index).push(cards[index])
}

/// A row of cards after `k` cards have been drawn from the front.
pub open spec fn drawn_from_front(cards: Seq<Card>, k: nat) -> Seq<Card>
    decreases k,
{
    if k == 0 {
        cards
    } else {
        drawn_from_front(rotated(cards, 0), (k - 1) as nat)
    }
}

impl CardDeckView {
    /// The deck after the card at `index` has been drawn.
    pub open spec fn after_draw(self, index: int) -> CardDeckView {
        CardDeckView { cards: rotated(self.cards, index), ..self }
    }

    /// The deck as it is used: an unfilled deck is filled with the fresh cards of
    /// the asked type and bound to the game.
    pub open spec fn ready(self, game: Pubkey, deck_type: DeckType) -> CardDeckView {
        if self.is_initialized {
            self
        } else {
            CardDeckView {
                is_initialized: true,
                cards: match deck_type {
                    DeckType::CommunityChest => crate::board::community_chest_cards(),
                    DeckType::Chance => crate::board::chance_cards(),
                },
                game,
                deck_type,
            }
        }
    }
}

impl CardDeck {
    /// Draws the card at `index`: the card moves to the back of the deck.
    pub fn draw(&mut self, index: usize) -> (card: Card)
        requires
            index < old(self)@.cards.len(),
        ensures
            card == old(self)@.cards[index as int],
            final(self)@ == old(self)@.after_draw(index as int),
            final(self)@.cards.len() == old(self)@.cards.len(),
    {
        let card = self.cards.remove(index);
        self.cards.push(card);
        card
    }

    /// Fills the deck and binds it to the game, unless it is filled already.
    pub fn make_ready(&mut self, game: &Pubkey, deck_type: DeckType)
        ensures
            final(self)@ == old(self)@.ready(*game, deck_type),
    {
        if !self.is_initialized {
            self.cards = match deck_type {
                DeckType::CommunityChest => crate::board::create_community_chest(),
                DeckType::Chance => crate::board::create_chance_cards(),
            };
            self.is_initialized = true;
            self.game = *game;
            self.deck_type = deck_type;
        }
    }
}

} // verus!
