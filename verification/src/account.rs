//! The accounts that hold the state: the game account, the accounts of single
//! players and properties, and the card decks, each with its layout on the wire.
use vstd::bytes::*;
use vstd::prelude::*;
use vstd::slice::*;

use crate::codec::{
    encode_bool, fits, lemma_len_numbers, lemma_overlay_join, lemma_overlay_window,
    lemma_pubkey_at, lemma_u32_at, lemma_window_part, overlay, pubkey_at, read_pubkey, read_u32,
    read_u8, u32_at, write_pubkey, write_u32, write_u8,
};
use crate::error::ProgramError;
use crate::game::{lemma_game_roundtrip, lemma_slot_write, Game, GameView};
use crate::player::{lemma_player_roundtrip, Player, PlayerView};
use crate::property::{lemma_property_roundtrip, Property, PropertyView};
use crate::pubkey::{lemma_pubkey_len, Pubkey};
use crate::state::{lemma_card_roundtrip, Card};

verus! {

/// An account as the host hands it to an instruction.
#[derive(Debug, PartialEq)]
pub struct Account {
    /// The identity of the account.
    pub key: Pubkey,
    /// The program that owns the account and may change its bytes.
    pub owner: Pubkey,
    /// Whether this identity signed the instruction.
    pub is_signer: bool,
    /// The bytes of the account.
    pub data: Vec<u8>,
}

impl Clone for Account {
    fn clone(&self) -> (copy: Account)
        ensures
            copy.key == self.key,
            copy.owner == self.owner,
            copy.is_signer == self.is_signer,
            copy.data@ == self.data@,
    {
        Account {
            key: self.key,
            owner: self.owner,
            is_signer: self.is_signer,
            data: slice_to_vec(self.data.as_slice()),
        }
    }
}

/// What can be read as the account of a game.
pub trait AccountExt {
    /// The bytes that are read.
    spec fn bytes(&self) -> Seq<u8>;

    /// The initialised game account that the bytes hold, or why there is none.
    fn try_into_game_account(&self) -> (r: Result<GameAccount, &'static str>)
        ensures
            match r {
                Ok(a) => GameAccount::spec_unpack(self.bytes()) == Ok::<
                    GameAccountView,
                    ProgramError,
                >(a@),
                Err(text) => GameAccount::spec_unpack(self.bytes()) is Err && text@
                    == "Failed to deserialize game account"@,
            },
    ;
}

impl AccountExt for Account {
    open spec fn bytes(&self) -> Seq<u8> {
        self.data@
    }

    fn try_into_game_account(&self) -> (r: Result<GameAccount, &'static str>) {
        match GameAccount::unpack(self.data.as_slice()) {
            Ok(a) => Ok(a),
            Err(_) => Err("Failed to deserialize game account"),
        }
    }
}

/// The account of a game: a flag and the game.
#[derive(Debug, PartialEq)]
pub struct GameAccount {
    pub is_initialized: bool,
    pub game: Game,
}

impl Clone for GameAccount {
    fn clone(&self) -> (copy: GameAccount)
        ensures
            copy@ == self@,
    {
        GameAccount { is_initialized: self.is_initialized, game: self.game.clone() }
    }
}

/// What a game account is, apart from how it is held in memory.
pub struct GameAccountView {
    pub is_initialized: bool,
    pub game: GameView,
}

impl View for GameAccount {
    type V = GameAccountView;

    open spec fn view(&self) -> GameAccountView {
        GameAccountView { is_initialized: self.is_initialized, game: self.game@ }
    }
}

impl GameAccountView {
    /// Whether the account can be written into a buffer of `GameAccount::LEN` bytes.
    pub open spec fn packable(self) -> bool {
        self.game.packable() && 1 + self.game.packed_len() <= 45115
    }

    /// Whether `after` is `before` with this account written over it: the flag in
    /// the first byte and the game behind it.
    pub open spec fn packed_over(self, before: Seq<u8>, after: Seq<u8>) -> bool {
        self.game.packed_over(overlay(before, 0, encode_bool(self.is_initialized)), 1, after)
    }
}

impl GameAccount {
    /// Bytes of the buffer of a game account: the flag and the room of a game.
    pub const LEN: usize = 45115;

    /// The account that the bytes hold, if they hold one.
    pub open spec fn decode(s: Seq<u8>) -> Option<GameAccountView> {
        if fits(s, 0, 1) && Game::readable(s, 1) {
            Some(GameAccountView { is_initialized: s[0] != 0, game: Game::at(s, 1) })
        } else {
            None
        }
    }

    /// What `unpack` makes of a buffer: the account where the buffer has the
    /// reserved length, holds an account and the account is initialised.
    pub open spec fn spec_unpack(s: Seq<u8>) -> Result<GameAccountView, ProgramError> {
        if s.len() != 45115 {
            Err(ProgramError::InvalidAccountData)
        } else {
            match Self::decode(s) {
                None => Err(ProgramError::InvalidAccountData),
                Some(v) => if v.is_initialized {
                    Ok(v)
                } else {
                    Err(ProgramError::UninitializedAccount)
                },
            }
        }
    }

    /// Whether the account holds a game.
    pub fn is_initialized(&self) -> (b: bool)
        ensures
            b == self.is_initialized,
    {
        self.is_initialized
    }

    /// Whether the account can be written into a buffer of `LEN` bytes.
    pub fn is_packable(&self) -> (b: bool)
        ensures
            b == self@.packable(),
    {
        match self.game.packed_len() {
            Some(n) => n <= Game::LEN,
            None => false,
        }
    }

    /// Writes the account over the start of `dst`.
    pub fn pack_into_slice(&self, dst: &mut [u8])
        requires
            self@.game.packable(),
            1 + self@.game.packed_len() <= old(dst)@.len(),
        ensures
            self@.packed_over(old(dst)@, final(dst)@),
            Self::decode(final(dst)@) == Some(self@),
    {
        assert(dst.len() == dst@.len());
        write_u8(
            dst,
            0,
            if self.is_initialized {
                1
            } else {
                0
            },
        );
        let ghost mid = dst@;
        self.game.pack_at(dst, 1);
        proof {
            lemma_game_roundtrip(mid, dst@, 1, self@.game);
            assert(dst@[0] == mid[0]);
        }
    }

    /// Reads an account from the start of `src`.
    pub fn unpack_from_slice(src: &[u8]) -> (r: Result<GameAccount, ProgramError>)
        ensures
            match r {
                Ok(a) => Self::decode(src@) == Some(a@),
                Err(e) => e == ProgramError::InvalidAccountData && Self::decode(src@) is None,
            },
    {
        let flag = match read_u8(src, 0) {
            Some(b) => b,
            None => { return Err(ProgramError::InvalidAccountData); },
        };
        match Game::unpack_at(src, 1) {
            Some((game, _)) => Ok(GameAccount { is_initialized: flag != 0, game }),
            None => Err(ProgramError::InvalidAccountData),
        }
    }

    /// Reads an account from a buffer of exactly `LEN` bytes, initialised or not.
    pub fn unpack_unchecked(input: &[u8]) -> (r: Result<GameAccount, ProgramError>)
        ensures
            match r {
                Ok(a) => input@.len() == Self::LEN && Self::decode(input@) == Some(a@),
                Err(e) => e == ProgramError::InvalidAccountData && (input@.len() != Self::LEN
                    || Self::decode(input@) is None),
            },
    {
        if input.len() != GameAccount::LEN {
            return Err(ProgramError::InvalidAccountData);
        }
        GameAccount::unpack_from_slice(input)
    }

    /// Reads an initialised account from a buffer of exactly `LEN` bytes.
    pub fn unpack(input: &[u8]) -> (r: Result<GameAccount, ProgramError>)
        ensures
            match r {
                Ok(a) => Self::spec_unpack(input@) == Ok::<GameAccountView, ProgramError>(a@),
                Err(e) => Self::spec_unpack(input@) == Err::<GameAccountView, ProgramError>(e),
            },
    {
        let value = match GameAccount::unpack_unchecked(input) {
            Ok(value) => value,
            Err(e) => { return Err(e); },
        };
        if value.is_initialized {
            Ok(value)
        } else {
            Err(ProgramError::UninitializedAccount)
        }
    }

    /// Writes the account into a buffer of exactly `LEN` bytes. Nothing is written
    /// where the buffer has another length or the account does not fit.
    pub fn pack(&self, dst: &mut [u8]) -> (r: Result<(), ProgramError>)
        ensures
            match r {
                Ok(()) => old(dst)@.len() == Self::LEN && self@.packable() && self@.packed_over(
                    old(dst)@,
                    final(dst)@,
                ) && Self::spec_unpack(final(dst)@) == (if self.is_initialized {
                    Ok::<GameAccountView, ProgramError>(self@)
                } else {
                    Err::<GameAccountView, ProgramError>(ProgramError::UninitializedAccount)
                }),
                Err(e) => final(dst)@ == old(dst)@ && if old(dst)@.len() != Self::LEN {
                    e == ProgramError::InvalidAccountData
                } else {
                    e == ProgramError::AccountDataTooSmall && !self@.packable()
                },
            },
    {
        if dst.len() != GameAccount::LEN {
            return Err(ProgramError::InvalidAccountData);
        }
        if !self.is_packable() {
            return Err(ProgramError::AccountDataTooSmall);
        }
        self.pack_into_slice(dst);
        Ok(())
    }
}

/// Which of the two decks a deck is.
#[derive(Clone, Copy, Debug, PartialEq, Eq, Structural)]
pub enum DeckType {
    CommunityChest,
    Chance,
}

impl DeckType {
    /// The byte that stands for this deck type.
    pub open spec fn tag(self) -> u8 {
        match self {
            DeckType::CommunityChest => 0,
            DeckType::Chance => 1,
        }
    }

    /// The deck type that a byte stands for, if any.
    pub open spec fn from_tag(b: u8) -> Option<DeckType> {
        if b == 0 {
            Some(DeckType::CommunityChest)
        } else if b == 1 {
            Some(DeckType::Chance)
        } else {
            None
        }
    }

    /// The byte that stands for this deck type.
    pub fn to_tag(&self) -> (b: u8)
        ensures
            b == self.tag(),
    {
        match self {
            DeckType::CommunityChest => 0,
            DeckType::Chance => 1,
        }
    }

    /// The deck type that a byte stands for, if any.
    pub fn try_from_tag(b: u8) -> (t: Option<DeckType>)
        ensures
            t == Self::from_tag(b),
    {
        match b {
            0 => Some(DeckType::CommunityChest),
            1 => Some(DeckType::Chance),
            _ => None,
        }
    }
}

/// The bytes of a row of cards, one behind the other, without a count.
pub open spec fn encode_cards(cards: Seq<Card>) -> Seq<u8>
    decreases cards.len(),
{
    if cards.len() == 0 {
        Seq::<u8>::empty()
    } else {
        cards[0].encode() + encode_cards(cards.drop_first())
    }
}

/// Whether `n` cards can be read one behind the other from `at` on.
pub open spec fn cards_readable(s: Seq<u8>, at: int, n: nat) -> bool
    decreases n,
{
    n == 0 || (Card::readable(s, at) && cards_readable(s, Card::end(s, at), (n - 1) as nat))
}

/// The `n` cards stored one behind the other from `at` on.
pub open spec fn cards_at(s: Seq<u8>, at: int, n: nat) -> Seq<Card>
    decreases n,
{
    if n == 0 {
        Seq::<Card>::empty()
    } else {
        seq![Card::at(s, at)] + cards_at(s, Card::end(s, at), (n - 1) as nat)
    }
}

/// The position just behind the `n` cards stored from `at` on.
pub open spec fn cards_end(s: Seq<u8>, at: int, n: nat) -> int
    decreases n,
{
    if n == 0 {
        at
    } else {
        cards_end(s, Card::end(s, at), (n - 1) as nat)
    }
}

/// A deck of cards that belongs to one game.
#[derive(Debug, PartialEq)]
pub struct CardDeck {
    pub is_initialized: bool,
    /// The cards, the next one to be drawn from the front first.
    pub cards: Vec<Card>,
    /// The game that the deck belongs to.
    pub game: Pubkey,
    pub deck_type: DeckType,
}

impl Clone for CardDeck {
    fn clone(&self) -> (copy: CardDeck)
        ensures
            copy@ == self@,
    {
        CardDeck {
            is_initialized: self.is_initialized,
            cards: slice_to_vec(self.cards.as_slice()),
            game: self.game,
            deck_type: self.deck_type,
        }
    }
}

/// What a deck is, apart from how it is held in memory.
pub struct CardDeckView {
    pub is_initialized: bool,
    pub cards: Seq<Card>,
    pub game: Pubkey,
    pub deck_type: DeckType,
}

impl View for CardDeck {
    type V = CardDeckView;

    open spec fn view(&self) -> CardDeckView {
        CardDeckView {
            is_initialized: self.is_initialized,
            cards: self.cards@,
            game: self.game,
            deck_type: self.deck_type,
        }
    }
}

impl CardDeckView {
    /// The bytes of this deck: flag, card count, cards, game, deck type.
    pub open spec fn encode(self) -> Seq<u8> {
        encode_bool(self.is_initialized) + spec_u32_to_le_bytes(self.cards.len() as u32)
            + encode_cards(self.cards) + self.game@ + seq![self.deck_type.tag()]
    }

    /// Whether the deck can be written into a buffer of `CardDeck::LEN` bytes.
    pub open spec fn packable(self) -> bool {
        self.cards.len() <= u32::MAX && self.encode().len() <= 1000
    }
}

impl CardDeck {
    /// Bytes of the buffer of a deck.
    pub const LEN: usize = 1000;

    /// Whether a deck can be read from the start of `s`.
    pub open spec fn readable(s: Seq<u8>) -> bool {
        let n = u32_at(s, 1) as nat;
        let end = cards_end(s, 5, n);
        &&& fits(s, 0, 5)
        &&& cards_readable(s, 5, n)
        &&& fits(s, end, 33)
        &&& DeckType::from_tag(s[end + 32]) is Some
    }

    /// The deck that the bytes hold, if they hold one.
    pub open spec fn decode(s: Seq<u8>) -> Option<CardDeckView> {
        if Self::readable(s) {
            let n = u32_at(s, 1) as nat;
            let end = cards_end(s, 5, n);
            Some(
                CardDeckView {
                    is_initialized: s[0] != 0,
                    cards: cards_at(s, 5, n),
                    game: pubkey_at(s, end),
                    deck_type: DeckType::from_tag(s[end + 32]).unwrap(),
                },
            )
        } else {
            None
        }
    }

    /// What `unpack` makes of a buffer: the deck where the buffer has the
    /// reserved length, holds a deck and the deck is initialised.
    pub open spec fn spec_unpack(s: Seq<u8>) -> Result<CardDeckView, ProgramError> {
        if s.len() != 1000 {
            Err(ProgramError::InvalidAccountData)
        } else {
            match Self::decode(s) {
                None => Err(ProgramError::InvalidAccountData),
                Some(v) => if v.is_initialized {
                    Ok(v)
                } else {
                    Err(ProgramError::UninitializedAccount)
                },
            }
        }
    }

    /// Whether the deck has been filled.
    pub fn is_initialized(&self) -> (b: bool)
        ensures
            b == self.is_initialized,
    {
        self.is_initialized
    }

    /// Number of bytes of this deck on the wire, or `None` where the card count
    /// does not fit 32 bits or the number does not fit a `usize`.
    pub fn encoded_len(&self) -> (n: Option<usize>)
        ensures
            match n {
                Some(n) => self@.cards.len() <= u32::MAX && n == self@.encode().len(),
                None => self@.cards.len() > u32::MAX || self@.encode().len() > usize::MAX,
            },
    {
        let count = self.cards.len();
        if count > u32::MAX as usize {
            return None;
        }
        let mut sum: u64 = 0;
        let mut i: usize = 0;
        proof {
            assert(self.cards@.take(0) =~= Seq::<Card>::empty());
        }
        while i < count
            invariant
                i <= count,
                count == self.cards@.len(),
                count <= u32::MAX,
                sum == encode_cards(self.cards@.take(i as int)).len(),
                sum <= 9 * i,
            decreases count - i,
        {
            let n = self.cards[i].encoded_len();
            proof {
                lemma_encode_cards_push(self.cards@.take(i as int), self.cards@[i as int]);
                assert(self.cards@.take(i as int).push(self.cards@[i as int]) =~= self.cards@.take(
                    i + 1,
                ));
            }
            sum = sum + n as u64;
            i += 1;
        }
        proof {
            assert(self.cards@.take(count as int) =~= self.cards@);
            lemma_deck_len(self@);
        }
        let total: u64 = 1 + 4 + sum + 32 + 1;
        if total > usize::MAX as u64 {
            None
        } else {
            Some(total as usize)
        }
    }

    /// Whether the deck can be written into a buffer of `LEN` bytes.
    pub fn is_packable(&self) -> (b: bool)
        ensures
            b == self@.packable(),
    {
        match self.encoded_len() {
            Some(n) => n <= CardDeck::LEN,
            None => false,
        }
    }

    /// Writes the deck over the start of `dst`; the bytes behind it stay.
    pub fn pack_into_slice(&self, dst: &mut [u8])
        requires
            self@.cards.len() <= u32::MAX,
            self@.encode().len() <= old(dst)@.len(),
        ensures
            final(dst)@ == overlay(old(dst)@, 0, self@.encode()),
            Self::decode(final(dst)@) == Some(self@),
    {
        let ghost total = dst.len();
        let ghost v = self@;
        let ghost start = old(dst)@;
        let count = self.cards.len();
        proof {
            lemma_deck_len(v);
            lemma_len_numbers(count as u32, 0);
            lemma_pubkey_len(self.game);
        }
        write_u8(
            dst,
            0,
            if self.is_initialized {
                1
            } else {
                0
            },
        );
        write_u32(dst, 1, count as u32);
        let ghost head = encode_bool(v.is_initialized) + spec_u32_to_le_bytes(count as u32);
        proof {
            lemma_overlay_join(
                start,
                0,
                encode_bool(v.is_initialized),
                spec_u32_to_le_bytes(count as u32),
            );
            assert(v.cards.take(0) =~= Seq::<Card>::empty());
            assert(head + encode_cards(v.cards.take(0)) =~= head);
        }
        let mut at: usize = 5;
        let mut i: usize = 0;
        while i < count
            invariant
                i <= count,
                count == self.cards@.len(),
                v == self@,
                head.len() == 5,
                dst@.len() == total,
                start.len() == total,
                v.encode().len() <= total,
                v.encode().len() == 5 + encode_cards(v.cards).len() + 33,
                at == 5 + encode_cards(v.cards.take(i as int)).len(),
                encode_cards(v.cards.take(i as int)).len() <= encode_cards(v.cards).len(),
                dst@ == overlay(start, 0, head + encode_cards(v.cards.take(i as int))),
            decreases count - i,
        {
            let ghost sofar = head + encode_cards(v.cards.take(i as int));
            proof {
                lemma_encode_cards_push(v.cards.take(i as int), v.cards[i as int]);
                assert(v.cards.take(i as int).push(v.cards[i as int]) =~= v.cards.take(i + 1));
                lemma_encode_cards_prefix(v.cards, i + 1);
            }
            at = self.cards[i].pack_at(dst, at);
            proof {
                lemma_overlay_join(start, 0, sofar, v.cards[i as int].encode());
                assert(sofar + v.cards[i as int].encode() =~= head + encode_cards(
                    v.cards.take(i + 1),
                ));
            }
            i += 1;
        }
        proof {
            assert(v.cards.take(count as int) =~= v.cards);
        }
        let ghost e3 = head + encode_cards(v.cards);
        write_pubkey(dst, at, &self.game);
        proof {
            lemma_overlay_join(start, 0, e3, v.game@);
        }
        write_u8(dst, at + 32, self.deck_type.to_tag());
        proof {
            lemma_overlay_join(start, 0, e3 + v.game@, seq![v.deck_type.tag()]);
            assert(e3 + v.game@ + seq![v.deck_type.tag()] =~= v.encode());
            lemma_overlay_window(start, 0, v.encode());
            lemma_deck_roundtrip(dst@, v);
        }
    }

    /// Reads a deck from the start of `src`.
    pub fn unpack_from_slice(src: &[u8]) -> (r: Result<CardDeck, ProgramError>)
        ensures
            match r {
                Ok(d) => Self::decode(src@) == Some(d@),
                Err(e) => e == ProgramError::InvalidAccountData && Self::decode(src@) is None,
            },
    {
        let ghost total = src.len();
        let flag = match read_u8(src, 0) {
            Some(b) => b,
            None => { return Err(ProgramError::InvalidAccountData); },
        };
        let count = match read_u32(src, 1) {
            Some(n) => n as usize,
            None => { return Err(ProgramError::InvalidAccountData); },
        };
        let mut cards: Vec<Card> = Vec::new();
        let mut at: usize = 5;
        let mut i: usize = 0;
        let ghost n = count as nat;
        while i < count
            invariant
                i <= count,
                n == count,
                n == u32_at(src@, 1) as nat,
                src@.len() == total,
                5 <= at <= total,
                cards@.len() == i,
                cards_readable(src@, 5, n) == cards_readable(src@, at as int, (n - i) as nat),
                cards_at(src@, 5, n) == cards@ + cards_at(src@, at as int, (n - i) as nat),
                cards_end(src@, 5, n) == cards_end(src@, at as int, (n - i) as nat),
            decreases count - i,
        {
            match Card::unpack_at(src, at) {
                Some((card, end)) => {
                    proof {
                        let rest = cards_at(src@, end as int, (n - i - 1) as nat);
                        assert(cards@ + (seq![card] + rest) =~= cards@.push(card) + rest);
                    }
                    cards.push(card);
                    at = end;
                },
                None => {
                    assert(!cards_readable(src@, at as int, (n - i) as nat));
                    return Err(ProgramError::InvalidAccountData);
                },
            }
            i += 1;
        }
        let game = match read_pubkey(src, at) {
            Some(key) => key,
            None => { return Err(ProgramError::InvalidAccountData); },
        };
        let deck_type = match read_u8(src, at + 32) {
            Some(b) => match DeckType::try_from_tag(b) {
                Some(t) => t,
                None => { return Err(ProgramError::InvalidAccountData); },
            },
            None => { return Err(ProgramError::InvalidAccountData); },
        };
        proof {
            assert(cards@ + Seq::<Card>::empty() =~= cards@);
        }
        Ok(CardDeck { is_initialized: flag != 0, cards, game, deck_type })
    }

    /// Reads a deck from a buffer of exactly `LEN` bytes, initialised or not.
    pub fn unpack_unchecked(input: &[u8]) -> (r: Result<CardDeck, ProgramError>)
        ensures
            match r {
                Ok(d) => input@.len() == Self::LEN && Self::decode(input@) == Some(d@),
                Err(e) => e == ProgramError::InvalidAccountData && (input@.len() != Self::LEN
                    || Self::decode(input@) is None),
            },
    {
        if input.len() != CardDeck::LEN {
            return Err(ProgramError::InvalidAccountData);
        }
        CardDeck::unpack_from_slice(input)
    }

    /// Reads an initialised deck from a buffer of exactly `LEN` bytes.
    pub fn unpack(input: &[u8]) -> (r: Result<CardDeck, ProgramError>)
        ensures
            match r {
                Ok(d) => Self::spec_unpack(input@) == Ok::<CardDeckView, ProgramError>(d@),
                Err(e) => Self::spec_unpack(input@) == Err::<CardDeckView, ProgramError>(e),
            },
    {
        let value = match CardDeck::unpack_unchecked(input) {
            Ok(value) => value,
            Err(e) => { return Err(e); },
        };
        if value.is_initialized {
            Ok(value)
        } else {
            Err(ProgramError::UninitializedAccount)
        }
    }

    /// Writes the deck into a buffer of exactly `LEN` bytes. Nothing is written
    /// where the buffer has another length or the deck does not fit.
    pub fn pack(&self, dst: &mut [u8]) -> (r: Result<(), ProgramError>)
        ensures
            match r {
                Ok(()) => old(dst)@.len() == Self::LEN && self@.packable() && final(dst)@
                    == overlay(old(dst)@, 0, self@.encode()) && Self::decode(final(dst)@) == Some(
                    self@,
                ),
                Err(e) => final(dst)@ == old(dst)@ && if old(dst)@.len() != Self::LEN {
                    e == ProgramError::InvalidAccountData
                } else {
                    e == ProgramError::AccountDataTooSmall && !self@.packable()
                },
            },
    {
        if dst.len() != CardDeck::LEN {
            return Err(ProgramError::InvalidAccountData);
        }
        if !self.is_packable() {
            return Err(ProgramError::AccountDataTooSmall);
        }
        self.pack_into_slice(dst);
        Ok(())
    }
}

/// Adding a card at the end of a row adds its bytes at the end of the encoding.
pub proof fn lemma_encode_cards_push(cards: Seq<Card>, card: Card)
    ensures
        encode_cards(cards.push(card)) == encode_cards(cards) + card.encode(),
    decreases cards.len(),
{
    if cards.len() == 0 {
        let one = cards.push(card);
        assert(one.drop_first() =~= Seq::<Card>::empty());
        assert(encode_cards(one.drop_first()) =~= Seq::<u8>::empty());
        assert(one[0] == card);
        assert(encode_cards(one) == one[0].encode() + encode_cards(one.drop_first()));
        assert(encode_cards(cards.push(card)) =~= card.encode());
        assert(encode_cards(cards) + card.encode() =~= card.encode());
    } else {
        lemma_encode_cards_push(cards.drop_first(), card);
        assert(cards.push(card).drop_first() =~= cards.drop_first().push(card));
        assert(encode_cards(cards.push(card)) =~= encode_cards(cards) + card.encode());
    }
}

/// The encoding of the first `n` cards is no longer than that of all.
pub proof fn lemma_encode_cards_prefix(cards: Seq<Card>, n: int)
    requires
        0 <= n <= cards.len(),
    ensures
        encode_cards(cards.take(n)).len() <= encode_cards(cards).len(),
    decreases cards.len() - n,
{
    if n < cards.len() {
        lemma_encode_cards_prefix(cards, n + 1);
        lemma_encode_cards_push(cards.take(n), cards[n]);
        assert(cards.take(n).push(cards[n]) =~= cards.take(n + 1));
    } else {
        assert(cards.take(n) =~= cards);
    }
}

/// A row of cards is read back from wherever its bytes stand.
pub proof fn lemma_cards_roundtrip(s: Seq<u8>, at: int, cards: Seq<Card>)
    requires
        fits(s, at, encode_cards(cards).len() as int),
        s.subrange(at, at + encode_cards(cards).len()) == encode_cards(cards),
    ensures
        cards_readable(s, at, cards.len()),
        cards_at(s, at, cards.len()) == cards,
        cards_end(s, at, cards.len()) == at + encode_cards(cards).len(),
    decreases cards.len(),
{
    if cards.len() > 0 {
        let enc = encode_cards(cards);
        let first = cards[0].encode();
        let rest = encode_cards(cards.drop_first());
        assert(enc.subrange(0, first.len() as int) =~= first);
        lemma_window_part(s, at, enc, 0, first);
        lemma_card_roundtrip(s, at, cards[0]);
        assert(enc.subrange(first.len() as int, first.len() as int + rest.len()) =~= rest);
        lemma_window_part(s, at, enc, first.len() as int, rest);
        lemma_cards_roundtrip(s, at + first.len(), cards.drop_first());
        assert(seq![cards[0]] + cards.drop_first() =~= cards);
    } else {
        assert(cards =~= Seq::<Card>::empty());
    }
}

/// The length of an encoded deck.
pub proof fn lemma_deck_len(v: CardDeckView)
    ensures
        v.encode().len() == 5 + encode_cards(v.cards).len() + 33,
{
    lemma_len_numbers(v.cards.len() as u32, 0);
    lemma_pubkey_len(v.game);
}

/// A deck is read back from the bytes that start with its encoding.
pub proof fn lemma_deck_roundtrip(s: Seq<u8>, v: CardDeckView)
    requires
        v.cards.len() <= u32::MAX,
        v.encode().len() <= s.len(),
        s.subrange(0, v.encode().len() as int) == v.encode(),
    ensures
        CardDeck::decode(s) == Some(v),
{
    lemma_deck_len(v);
    lemma_len_numbers(v.cards.len() as u32, 0);
    lemma_pubkey_len(v.game);
    let enc = v.encode();
    let count = spec_u32_to_le_bytes(v.cards.len() as u32);
    let cards = encode_cards(v.cards);
    let end = 5 + cards.len() as int;
    assert(s[0] == s.subrange(0, enc.len() as int)[0]);
    assert(enc.subrange(1, 5) =~= count);
    lemma_window_part(s, 0, enc, 1, count);
    lemma_u32_at(s, 1, v.cards.len() as u32);
    assert(enc.subrange(5, 5 + cards.len() as int) =~= cards);
    lemma_window_part(s, 0, enc, 5, cards);
    lemma_cards_roundtrip(s, 5, v.cards);
    assert(enc.subrange(end, end + 32) =~= v.game@);
    lemma_window_part(s, 0, enc, end, v.game@);
    lemma_pubkey_at(s, end, v.game);
    assert(s[end + 32] == s.subrange(0, enc.len() as int)[end + 32]);
}

/// The account of one player: a flag, the player, and the game it plays in.
#[derive(Debug, PartialEq)]
pub struct PlayerAccount {
    pub is_initialized: bool,
    pub player: Player,
    pub game: Pubkey,
}

impl Clone for PlayerAccount {
    fn clone(&self) -> (copy: PlayerAccount)
        ensures
            copy@ == self@,
    {
        PlayerAccount {
            is_initialized: self.is_initialized,
            player: self.player.clone(),
            game: self.game,
        }
    }
}

/// What a player account is, apart from how it is held in memory.
pub struct PlayerAccountView {
    pub is_initialized: bool,
    pub player: PlayerView,
    pub game: Pubkey,
}

impl View for PlayerAccount {
    type V = PlayerAccountView;

    open spec fn view(&self) -> PlayerAccountView {
        PlayerAccountView {
            is_initialized: self.is_initialized,
            player: self.player@,
            game: self.game,
        }
    }
}

impl PlayerAccountView {
    /// Whether the player fits the slot reserved for it.
    pub open spec fn packable(self) -> bool {
        self.player.encodable() && self.player.encode().len() <= 512
    }

    /// Whether `after` is `before` with this account written over it: the flag,
    /// the player at the start of its slot of 512 bytes, the game behind the slot.
    pub open spec fn packed_over(self, before: Seq<u8>, after: Seq<u8>) -> bool {
        &&& after.len() == before.len()
        &&& after[0] == encode_bool(self.is_initialized)[0]
        &&& after.subrange(1, 513) == overlay(before.subrange(1, 513), 0, self.player.encode())
        &&& after.subrange(513, 545) == self.game@
        &&& after.skip(545) == before.skip(545)
    }
}

impl PlayerAccount {
    /// Bytes of the buffer of a player account.
    pub const LEN: usize = 1000;

    /// The account that the bytes hold, if they hold one.
    pub open spec fn decode(s: Seq<u8>) -> Option<PlayerAccountView> {
        if fits(s, 0, 545) && Player::decode(s.subrange(1, 513)) is Some {
            Some(
                PlayerAccountView {
                    is_initialized: s[0] != 0,
                    player: Player::decode(s.subrange(1, 513)).unwrap(),
                    game: pubkey_at(s, 513),
                },
            )
        } else {
            None
        }
    }

    /// Whether the account holds a player.
    pub fn is_initialized(&self) -> (b: bool)
        ensures
            b == self.is_initialized,
    {
        self.is_initialized
    }

    /// Writes the account over the start of `dst`.
    pub fn pack_into_slice(&self, dst: &mut [u8])
        requires
            self@.packable(),
            old(dst)@.len() >= 545,
        ensures
            self@.packed_over(old(dst)@, final(dst)@),
            Self::decode(final(dst)@) == Some(self@),
    {
        assert(dst.len() == dst@.len());
        let ghost before = old(dst)@;
        write_u8(
            dst,
            0,
            if self.is_initialized {
                1
            } else {
                0
            },
        );
        let ghost cur = dst@;
        self.player.pack_at(dst, 1);
        proof {
            lemma_slot_write(before, cur, 1, 512, self@.player.encode());
            lemma_pubkey_len(self.game);
        }
        let ghost cur2 = dst@;
        write_pubkey(dst, 513, &self.game);
        proof {
            lemma_slot_write(before, cur2, 513, 32, self.game@);
            assert(overlay(before.subrange(513, 545), 0, self.game@) =~= self.game@);
            assert(dst@.subrange(1, 513) =~= cur2.subrange(1, 513));
            assert(dst@.skip(545) =~= before.skip(545));
            lemma_player_account_roundtrip(before, dst@, self@);
        }
    }

    /// Reads an account from the start of `src`.
    pub fn unpack_from_slice(src: &[u8]) -> (r: Result<PlayerAccount, ProgramError>)
        ensures
            match r {
                Ok(a) => Self::decode(src@) == Some(a@),
                Err(e) => e == ProgramError::InvalidAccountData && Self::decode(src@) is None,
            },
    {
        if src.len() < 545 {
            return Err(ProgramError::InvalidAccountData);
        }
        let flag = src[0];
        let player = match Player::unpack_from_slice(slice_subrange(src, 1, 513)) {
            Ok(p) => p,
            Err(e) => { return Err(e); },
        };
        let game = match read_pubkey(src, 513) {
            Some(key) => key,
            None => { return Err(ProgramError::InvalidAccountData); },
        };
        Ok(PlayerAccount { is_initialized: flag != 0, player, game })
    }

    /// Reads an initialised account from a buffer of exactly `LEN` bytes.
    pub fn unpack(input: &[u8]) -> (r: Result<PlayerAccount, ProgramError>)
        ensures
            match r {
                Ok(a) => input@.len() == Self::LEN && Self::decode(input@) == Some(a@)
                    && a.is_initialized,
                Err(e) => if input@.len() != Self::LEN || Self::decode(input@) is None {
                    e == ProgramError::InvalidAccountData
                } else {
                    e == ProgramError::UninitializedAccount && !Self::decode(
                        input@,
                    ).unwrap().is_initialized
                },
            },
    {
        if input.len() != PlayerAccount::LEN {
            return Err(ProgramError::InvalidAccountData);
        }
        let value = match PlayerAccount::unpack_from_slice(input) {
            Ok(value) => value,
            Err(e) => { return Err(e); },
        };
        if value.is_initialized {
            Ok(value)
        } else {
            Err(ProgramError::UninitializedAccount)
        }
    }
}

/// A player account is read back from the bytes that it was written over.
pub proof fn lemma_player_account_roundtrip(
    before: Seq<u8>,
    after: Seq<u8>,
    v: PlayerAccountView,
)
    requires
        v.packable(),
        before.len() >= 545,
        v.packed_over(before, after),
    ensures
        PlayerAccount::decode(after) == Some(v),
{
    let w = after.subrange(1, 513);
    lemma_overlay_window(before.subrange(1, 513), 0, v.player.encode());
    lemma_player_roundtrip(w, 0, v.player);
    lemma_pubkey_at(after, 513, v.game);
}

/// The account of one property: a flag, the property, and the game it belongs to.
#[derive(Debug, PartialEq)]
pub struct PropertyAccount {
    pub is_initialized: bool,
    pub property: Property,
    pub game: Pubkey,
}

impl Clone for PropertyAccount {
    fn clone(&self) -> (copy: PropertyAccount)
        ensures
            copy@ == self@,
    {
        PropertyAccount {
            is_initialized: self.is_initialized,
            property: self.property.clone(),
            game: self.game,
        }
    }
}

/// What a property account is, apart from how it is held in memory.
pub struct PropertyAccountView {
    pub is_initialized: bool,
    pub property: PropertyView,
    pub game: Pubkey,
}

impl View for PropertyAccount {
    type V = PropertyAccountView;

    open spec fn view(&self) -> PropertyAccountView {
        PropertyAccountView {
            is_initialized: self.is_initialized,
            property: self.property@,
            game: self.game,
        }
    }
}

impl PropertyAccountView {
    /// Whether the property fits the slot reserved for it.
    pub open spec fn packable(self) -> bool {
        self.property.encodable() && self.property.encode().len() <= 1024
    }

    /// Whether `after` is `before` with this account written over it: the flag,
    /// the property at the start of its slot of 1024 bytes, the game behind the
    /// slot.
    pub open spec fn packed_over(self, before: Seq<u8>, after: Seq<u8>) -> bool {
        &&& after.len() == before.len()
        &&& after[0] == encode_bool(self.is_initialized)[0]
        &&& after.subrange(1, 1025) == overlay(
            before.subrange(1, 1025),
            0,
            self.property.encode(),
        )
        &&& after.subrange(1025, 1057) == self.game@
        &&& after.skip(1057) == before.skip(1057)
    }
}

impl PropertyAccount {
    /// Bytes of the buffer of a property account: the flag, the room of a
    /// property and an identity.
    pub const LEN: usize = 1057;

    /// The account that the bytes hold, if they hold one.
    pub open spec fn decode(s: Seq<u8>) -> Option<PropertyAccountView> {
        if fits(s, 0, 1057) && Property::decode(s.subrange(1, 1025)) is Some {
            Some(
                PropertyAccountView {
                    is_initialized: s[0] != 0,
                    property: Property::decode(s.subrange(1, 1025)).unwrap(),
                    game: pubkey_at(s, 1025),
                },
            )
        } else {
            None
        }
    }

    /// Whether the account holds a property.
    pub fn is_initialized(&self) -> (b: bool)
        ensures
            b == self.is_initialized,
    {
        self.is_initialized
    }

    /// Writes the account over the start of `dst`.
    pub fn pack_into_slice(&self, dst: &mut [u8])
        requires
            self@.packable(),
            old(dst)@.len() >= 1057,
        ensures
            self@.packed_over(old(dst)@, final(dst)@),
            Self::decode(final(dst)@) == Some(self@),
    {
        assert(dst.len() == dst@.len());
        let ghost before = old(dst)@;
        write_u8(
            dst,
            0,
            if self.is_initialized {
                1
            } else {
                0
            },
        );
        let ghost cur = dst@;
        self.property.pack_at(dst, 1);
        proof {
            lemma_slot_write(before, cur, 1, 1024, self@.property.encode());
            lemma_pubkey_len(self.game);
        }
        let ghost cur2 = dst@;
        write_pubkey(dst, 1025, &self.game);
        proof {
            lemma_slot_write(before, cur2, 1025, 32, self.game@);
            assert(overlay(before.subrange(1025, 1057), 0, self.game@) =~= self.game@);
            assert(dst@.subrange(1, 1025) =~= cur2.subrange(1, 1025));
            assert(dst@.skip(1057) =~= before.skip(1057));
            lemma_property_account_roundtrip(before, dst@, self@);
        }
    }

    /// Reads an account from the start of `src`.
    pub fn unpack_from_slice(src: &[u8]) -> (r: Result<PropertyAccount, ProgramError>)
        ensures
            match r {
                Ok(a) => Self::decode(src@) == Some(a@),
                Err(e) => e == ProgramError::InvalidAccountData && Self::decode(src@) is None,
            },
    {
        if src.len() < 1057 {
            return Err(ProgramError::InvalidAccountData);
        }
        let flag = src[0];
        let property = match Property::unpack_from_slice(slice_subrange(src, 1, 1025)) {
            Ok(p) => p,
            Err(e) => { return Err(e); },
        };
        let game = match read_pubkey(src, 1025) {
            Some(key) => key,
            None => { return Err(ProgramError::InvalidAccountData); },
        };
        Ok(PropertyAccount { is_initialized: flag != 0, property, game })
    }

    /// Reads an initialised account from a buffer of exactly `LEN` bytes.
    pub fn unpack(input: &[u8]) -> (r: Result<PropertyAccount, ProgramError>)
        ensures
            match r {
                Ok(a) => input@.len() == Self::LEN && Self::decode(input@) == Some(a@)
                    && a.is_initialized,
                Err(e) => if input@.len() != Self::LEN || Self::decode(input@) is None {
                    e == ProgramError::InvalidAccountData
                } else {
                    e == ProgramError::UninitializedAccount && !Self::decode(
                        input@,
                    ).unwrap().is_initialized
                },
            },
    {
        if input.len() != PropertyAccount::LEN {
            return Err(ProgramError::InvalidAccountData);
        }
        let value = match PropertyAccount::unpack_from_slice(input) {
            Ok(value) => value,
            Err(e) => { return Err(e); },
        };
        if value.is_initialized {
            Ok(value)
        } else {
            Err(ProgramError::UninitializedAccount)
        }
    }
}

/// A property account is read back from the bytes that it was written over.
pub proof fn lemma_property_account_roundtrip(
    before: Seq<u8>,
    after: Seq<u8>,
    v: PropertyAccountView,
)
    requires
        v.packable(),
        before.len() >= 1057,
        v.packed_over(before, after),
    ensures
        PropertyAccount::decode(after) == Some(v),
{
    let w = after.subrange(1, 1025);
    lemma_overlay_window(before.subrange(1, 1025), 0, v.property.encode());
    lemma_property_roundtrip(w, 0, v.property);
    lemma_pubkey_at(after, 1025, v.game);
}

/// The game in an account that this program owns.
pub fn validate_game_account(program_id: &Pubkey, account: &Account) -> (r: Result<
    GameAccount,
    ProgramError,
>)
    ensures
        match r {
            Ok(a) => account.owner == *program_id && GameAccount::spec_unpack(account.data@)
                == Ok::<GameAccountView, ProgramError>(a@),
            Err(e) => if account.owner != *program_id {
                e == ProgramError::IncorrectProgramId
            } else {
                GameAccount::spec_unpack(account.data@) == Err::<GameAccountView, ProgramError>(e)
            },
        },
{
    if account.owner != *program_id {
        return Err(ProgramError::IncorrectProgramId);
    }
    GameAccount::unpack(account.data.as_slice())
}

/// The player in an account that this program owns.
pub fn validate_player_account(program_id: &Pubkey, account: &Account) -> (r: Result<
    PlayerAccount,
    ProgramError,
>)
    ensures
        match r {
            Ok(a) => account.owner == *program_id && account.data@.len() == PlayerAccount::LEN
                && PlayerAccount::decode(account.data@) == Some(a@) && a.is_initialized,
            Err(e) => if account.owner != *program_id {
                e == ProgramError::IncorrectProgramId
            } else if account.data@.len() != PlayerAccount::LEN || PlayerAccount::decode(
                account.data@,
            ) is None {
                e == ProgramError::InvalidAccountData
            } else {
                e == ProgramError::UninitializedAccount
            },
        },
{
    if account.owner != *program_id {
        return Err(ProgramError::IncorrectProgramId);
    }
    PlayerAccount::unpack(account.data.as_slice())
}

/// The property in an account that this program owns.
pub fn validate_property_account(program_id: &Pubkey, account: &Account) -> (r: Result<
    PropertyAccount,
    ProgramError,
>)
    ensures
        match r {
            Ok(a) => account.owner == *program_id && account.data@.len() == PropertyAccount::LEN
                && PropertyAccount::decode(account.data@) == Some(a@) && a.is_initialized,
            Err(e) => if account.owner != *program_id {
                e == ProgramError::IncorrectProgramId
            } else if account.data@.len() != PropertyAccount::LEN || PropertyAccount::decode(
                account.data@,
            ) is None {
                e == ProgramError::InvalidAccountData
            } else {
                e == ProgramError::UninitializedAccount
            },
        },
{
    if account.owner != *program_id {
        return Err(ProgramError::IncorrectProgramId);
    }
    PropertyAccount::unpack(account.data.as_slice())
}

/// The deck in an account that this program owns.
pub fn validate_card_deck(program_id: &Pubkey, account: &Account) -> (r: Result<
    CardDeck,
    ProgramError,
>)
    ensures
        match r {
            Ok(d) => account.owner == *program_id && CardDeck::spec_unpack(account.data@)
                == Ok::<CardDeckView, ProgramError>(d@),
            Err(e) => if account.owner != *program_id {
                e == ProgramError::IncorrectProgramId
            } else {
                CardDeck::spec_unpack(account.data@) == Err::<CardDeckView, ProgramError>(e)
            },
        },
{
    if account.owner != *program_id {
        return Err(ProgramError::IncorrectProgramId);
    }
    CardDeck::unpack(account.data.as_slice())
}

} // verus!
