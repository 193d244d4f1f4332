//! The state of a game and its layout on the wire: counts, and a slot of fixed
//! width for each tile and each player.
use vstd::bytes::*;
use vstd::prelude::*;
use vstd::slice::*;

use crate::codec::{
    encode_bool, fits, lemma_len_numbers, lemma_overlay_join, lemma_overlay_window, lemma_u32_at,
    lemma_u64_at, lemma_window_part, overlay, read_u32, read_u64, read_u8, u32_at, u64_at,
    write_u32, write_u64, write_u8,
};
use crate::error::ProgramError;
use crate::player::{lemma_player_roundtrip, Player, PlayerView};
use crate::property::{lemma_tile_roundtrip, TileType, TileView};

verus! {

/// The state of one game.
#[derive(Debug, PartialEq)]
pub struct Game {
    /// The tiles of the board; a tile's index is its position.
    pub board: Vec<TileType>,
    pub players: Vec<Player>,
    /// Index of the player whose turn it is.
    pub current_player: u8,
    /// Money paid in taxes and on cards.
    pub free_parking: u64,
    pub initialized: bool,
}

impl Clone for Game {
    fn clone(&self) -> (copy: Game)
        ensures
            copy@ == self@,
    {
        let mut board: Vec<TileType> = Vec::new();
        let mut i: usize = 0;
        while i < self.board.len()
            invariant
                i <= self.board@.len(),
                board@.len() == i,
                forall|k: int| 0 <= k < i ==> (#[trigger] board@[k])@ == self.board@[k]@,
            decreases self.board@.len() - i,
        {
            board.push(self.board[i].clone());
            i += 1;
        }
        let mut players: Vec<Player> = Vec::new();
        let mut j: usize = 0;
        while j < self.players.len()
            invariant
                j <= self.players@.len(),
                players@.len() == j,
                forall|k: int| 0 <= k < j ==> (#[trigger] players@[k])@ == self.players@[k]@,
            decreases self.players@.len() - j,
        {
            players.push(self.players[j].clone());
            j += 1;
        }
        let copy = Game {
            board,
            players,
            current_player: self.current_player,
            free_parking: self.free_parking,
            initialized: self.initialized,
        };
        proof {
            assert(copy@.board =~= self@.board);
            assert(copy@.players =~= self@.players);
        }
        copy
    }
}

/// What a game is, apart from how it is held in memory.
pub struct GameView {
    pub board: Seq<TileView>,
    pub players: Seq<PlayerView>,
    pub current_player: u8,
    pub free_parking: u64,
    pub initialized: bool,
}

impl View for Game {
    type V = GameView;

    open spec fn view(&self) -> GameView {
        GameView {
            board: self.board@.map_values(|t: TileType| t@),
            players: self.players@.map_values(|p: Player| p@),
            current_player: self.current_player,
            free_parking: self.free_parking,
            initialized: self.initialized,
        }
    }
}

/// Position of the slot of tile `i` of a game stored at `at`.
pub open spec fn tile_slot(at: int, i: int) -> int {
    at + 4 + 1025 * i
}

/// Position of the player count of a game with `tiles` tiles stored at `at`.
pub open spec fn players_pos(at: int, tiles: int) -> int {
    at + 4 + 1025 * tiles
}

/// Position of the slot of player `j` of a game with `tiles` tiles stored at `at`.
pub open spec fn player_slot(at: int, tiles: int, j: int) -> int {
    players_pos(at, tiles) + 4 + 512 * j
}

/// Position of what follows the players of a game stored at `at`: the current
/// player, the free-parking pot and the flag.
pub open spec fn trailer_pos(at: int, tiles: int, players: int) -> int {
    players_pos(at, tiles) + 4 + 512 * players
}

/// The slot of tile `i`.
pub open spec fn tile_window(s: Seq<u8>, at: int, i: int) -> Seq<u8> {
    s.subrange(tile_slot(at, i), tile_slot(at, i) + 1025)
}

/// The slot of player `j`.
pub open spec fn player_window(s: Seq<u8>, at: int, tiles: int, j: int) -> Seq<u8> {
    s.subrange(player_slot(at, tiles, j), player_slot(at, tiles, j) + 512)
}

impl GameView {
    /// Whether the game can be written: its counts fit 32 bits and every tile
    /// and player fits the slot reserved for it.
    pub open spec fn packable(self) -> bool {
        &&& self.board.len() <= u32::MAX
        &&& self.players.len() <= u32::MAX
        &&& forall|i: int|
            0 <= i < self.board.len() ==> (#[trigger] self.board[i]).encodable()
                && self.board[i].encode().len() <= 1025
        &&& forall|j: int|
            0 <= j < self.players.len() ==> (#[trigger] self.players[j]).encodable()
                && self.players[j].encode().len() <= 512
    }

    /// Number of bytes that the game takes: the tile count, a slot for each tile,
    /// the player count, a slot for each player, and ten bytes more.
    pub open spec fn packed_len(self) -> int {
        18 + 1025 * self.board.len() as int + 512 * self.players.len() as int
    }

    /// The ten bytes behind the players: current player, pot, flag.
    pub open spec fn trailer(self) -> Seq<u8> {
        seq![self.current_player] + spec_u64_to_le_bytes(self.free_parking) + encode_bool(
            self.initialized,
        )
    }

    /// Whether `after` is `before` with this game written from `at` on: the
    /// counts, each tile and each player at the start of its slot, the ten bytes
    /// behind them, and every other byte as it was.
    pub open spec fn packed_over(self, before: Seq<u8>, at: int, after: Seq<u8>) -> bool {
        let tiles = self.board.len() as int;
        let players = self.players.len() as int;
        &&& after.len() == before.len()
        &&& after.subrange(at, at + 4) == spec_u32_to_le_bytes(tiles as u32)
        &&& forall|i: int|
            0 <= i < tiles ==> #[trigger] tile_window(after, at, i) == overlay(
                tile_window(before, at, i),
                0,
                self.board[i].encode(),
            )
        &&& after.subrange(players_pos(at, tiles), players_pos(at, tiles) + 4)
            == spec_u32_to_le_bytes(players as u32)
        &&& forall|j: int|
            0 <= j < players ==> #[trigger] player_window(after, at, tiles, j) == overlay(
                player_window(before, at, tiles, j),
                0,
                self.players[j].encode(),
            )
        &&& after.subrange(
            trailer_pos(at, tiles, players),
            trailer_pos(at, tiles, players) + 10,
        ) == self.trailer()
        &&& forall|k: int|
            0 <= k < after.len() && (k < at || k >= at + self.packed_len()) ==> #[trigger] after[k]
                == before[k]
    }
}

impl Game {
    /// Bytes that a game with 40 tiles and 8 players takes.
    pub const LEN: usize = 45114;

    /// Whether a game can be read at `at`: the counts and the slots they announce
    /// lie inside `s`, every slot holds a tile or a player, and the ten bytes
    /// behind them are there.
    pub open spec fn readable(s: Seq<u8>, at: int) -> bool {
        let tiles = u32_at(s, at) as int;
        let players = u32_at(s, players_pos(at, tiles)) as int;
        &&& fits(s, at, 4)
        &&& fits(s, at + 4, 1025 * tiles)
        &&& forall|i: int|
            0 <= i < tiles ==> TileType::decode(#[trigger] tile_window(s, at, i)) is Some
        &&& fits(s, players_pos(at, tiles), 4)
        &&& fits(s, players_pos(at, tiles) + 4, 512 * players)
        &&& forall|j: int|
            0 <= j < players ==> Player::decode(#[trigger] player_window(s, at, tiles, j)) is Some
        &&& fits(s, trailer_pos(at, tiles, players), 10)
    }

    /// The game stored at `at`.
    pub open spec fn at(s: Seq<u8>, at: int) -> GameView {
        let tiles = u32_at(s, at) as int;
        let players = u32_at(s, players_pos(at, tiles)) as int;
        let trailer = trailer_pos(at, tiles, players);
        GameView {
            board: Seq::new(
                tiles as nat,
                |i: int| TileType::decode(tile_window(s, at, i)).unwrap(),
            ),
            players: Seq::new(
                players as nat,
                |j: int| Player::decode(player_window(s, at, tiles, j)).unwrap(),
            ),
            current_player: s[trailer],
            free_parking: u64_at(s, trailer + 1),
            initialized: s[trailer + 9] != 0,
        }
    }

    /// The position just behind the game stored at `at`.
    pub open spec fn end(s: Seq<u8>, at: int) -> int {
        let tiles = u32_at(s, at) as int;
        let players = u32_at(s, players_pos(at, tiles)) as int;
        trailer_pos(at, tiles, players) + 10
    }

    /// The game that the bytes start with, if they start with one.
    pub open spec fn decode(s: Seq<u8>) -> Option<GameView> {
        if Self::readable(s, 0) {
            Some(Self::at(s, 0))
        } else {
            None
        }
    }

    /// Whether the game has been set up.
    pub fn is_initialized(&self) -> (b: bool)
        ensures
            b == self.initialized,
    {
        self.initialized
    }

    /// Number of bytes that the game takes on the wire, or `None` where it cannot
    /// be written or the number does not fit a `usize`.
    pub fn packed_len(&self) -> (n: Option<usize>)
        ensures
            match n {
                Some(n) => self@.packable() && n == self@.packed_len(),
                None => !self@.packable() || self@.packed_len() > usize::MAX,
            },
    {
        let tiles = self.board.len();
        let players = self.players.len();
        if tiles > u32::MAX as usize || players > u32::MAX as usize {
            return None;
        }
        let mut i: usize = 0;
        while i < tiles
            invariant
                i <= tiles,
                tiles == self.board@.len(),
                forall|k: int|
                    0 <= k < i ==> (#[trigger] self@.board[k]).encodable()
                        && self@.board[k].encode().len() <= 1025,
            decreases tiles - i,
        {
            match self.board[i].encoded_len() {
                Some(n) => {
                    if n > TileType::LEN {
                        assert(!(self@.board[i as int].encode().len() <= 1025));
                        return None;
                    }
                },
                None => {
                    let ghost tile = self@.board[i as int];
                    assert(!tile.encodable() || !(tile.encode().len() <= 1025));
                    return None;
                },
            }
            i += 1;
        }
        let mut j: usize = 0;
        while j < players
            invariant
                j <= players,
                players == self.players@.len(),
                forall|k: int|
                    0 <= k < j ==> (#[trigger] self@.players[k]).encodable()
                        && self@.players[k].encode().len() <= 512,
            decreases players - j,
        {
            match self.players[j].encoded_len() {
                Some(n) => {
                    if n > Player::LEN {
                        assert(!(self@.players[j as int].encode().len() <= 512));
                        return None;
                    }
                },
                None => {
                    let ghost player = self@.players[j as int];
                    assert(!player.encodable() || !(player.encode().len() <= 512));
                    return None;
                },
            }
            j += 1;
        }
        let total: u128 = 4 + 1025 * (tiles as u128) + 4 + 512 * (players as u128) + 10;
        if total > usize::MAX as u128 {
            None
        } else {
            Some(total as usize)
        }
    }

    /// Writes the game from `at` on and returns the position behind it.
    pub fn pack_at(&self, dst: &mut [u8], at: usize) -> (end: usize)
        requires
            self@.packable(),
            fits(old(dst)@, at as int, self@.packed_len()),
        ensures
            self@.packed_over(old(dst)@, at as int, final(dst)@),
            end == at + self@.packed_len(),
    {
        let ghost total = dst.len();
        let ghost v = self@;
        let ghost before = old(dst)@;
        let tiles = self.board.len();
        let players = self.players.len();
        proof {
            lemma_len_numbers(tiles as u32, self.free_parking);
            lemma_len_numbers(players as u32, self.free_parking);
        }
        write_u32(dst, at, tiles as u32);
        proof {
            lemma_overlay_window(before, at as int, spec_u32_to_le_bytes(tiles as u32));
        }
        let mut i: usize = 0;
        while i < tiles
            invariant
                i <= tiles,
                tiles == self.board@.len(),
                v == self@,
                v.packable(),
                dst@.len() == total,
                before.len() == total,
                at + v.packed_len() <= total,
                dst@.subrange(at as int, at + 4) == spec_u32_to_le_bytes(tiles as u32),
                forall|k: int|
                    0 <= k < i ==> #[trigger] tile_window(dst@, at as int, k) == overlay(
                        tile_window(before, at as int, k),
                        0,
                        v.board[k].encode(),
                    ),
                forall|x: int|
                    0 <= x < total && (x < at || x >= tile_slot(at as int, i as int))
                        ==> #[trigger] dst@[x] == before[x],
            decreases tiles - i,
        {
            let ghost cur = dst@;
            let slot = at + 4 + 1025 * i;
            assert(v.board[i as int].encodable() && v.board[i as int].encode().len() <= 1025);
            self.board[i].pack_at(dst, slot);
            proof {
                let enc = v.board[i as int].encode();
                lemma_slot_write(before, cur, slot as int, 1025, enc);
                assert(dst@.subrange(at as int, at + 4) =~= cur.subrange(at as int, at + 4));
                assert forall|k: int| 0 <= k < i implies #[trigger] tile_window(
                    dst@,
                    at as int,
                    k,
                ) == overlay(tile_window(before, at as int, k), 0, v.board[k].encode()) by {
                    assert(tile_window(dst@, at as int, k) =~= tile_window(cur, at as int, k));
                }
            }
            i += 1;
        }
        let ppos = at + 4 + 1025 * tiles;
        let ghost cur = dst@;
        write_u32(dst, ppos, players as u32);
        proof {
            lemma_slot_write(before, cur, ppos as int, 4, spec_u32_to_le_bytes(players as u32));
            let count = spec_u32_to_le_bytes(players as u32);
            assert(overlay(before.subrange(ppos as int, ppos + 4), 0, count) =~= count);
            assert(dst@.subrange(at as int, at + 4) =~= cur.subrange(at as int, at + 4));
            assert forall|k: int| 0 <= k < tiles implies #[trigger] tile_window(dst@, at as int, k)
                == overlay(tile_window(before, at as int, k), 0, v.board[k].encode()) by {
                assert(tile_window(dst@, at as int, k) =~= tile_window(cur, at as int, k));
            }
        }
        let mut j: usize = 0;
        while j < players
            invariant
                j <= players,
                tiles == self.board@.len(),
                players == self.players@.len(),
                ppos == players_pos(at as int, tiles as int),
                v == self@,
                v.packable(),
                dst@.len() == total,
                before.len() == total,
                at + v.packed_len() <= total,
                dst@.subrange(at as int, at + 4) == spec_u32_to_le_bytes(tiles as u32),
                forall|k: int|
                    0 <= k < tiles ==> #[trigger] tile_window(dst@, at as int, k) == overlay(
                        tile_window(before, at as int, k),
                        0,
                        v.board[k].encode(),
                    ),
                dst@.subrange(ppos as int, ppos + 4) == spec_u32_to_le_bytes(players as u32),
                forall|k: int|
                    0 <= k < j ==> #[trigger] player_window(dst@, at as int, tiles as int, k)
                        == overlay(
                        player_window(before, at as int, tiles as int, k),
                        0,
                        v.players[k].encode(),
                    ),
                forall|x: int|
                    0 <= x < total && (x < at || x >= player_slot(
                        at as int,
                        tiles as int,
                        j as int,
                    )) ==> #[trigger] dst@[x] == before[x],
            decreases players - j,
        {
            let ghost cur = dst@;
            let slot = ppos + 4 + 512 * j;
            assert(v.players[j as int].encodable() && v.players[j as int].encode().len() <= 512);
            self.players[j].pack_at(dst, slot);
            proof {
                let enc = v.players[j as int].encode();
                lemma_slot_write(before, cur, slot as int, 512, enc);
                assert(dst@.subrange(at as int, at + 4) =~= cur.subrange(at as int, at + 4));
                assert(dst@.subrange(ppos as int, ppos + 4) =~= cur.subrange(
                    ppos as int,
                    ppos + 4,
                ));
                assert forall|k: int| 0 <= k < tiles implies #[trigger] tile_window(
                    dst@,
                    at as int,
                    k,
                ) == overlay(tile_window(before, at as int, k), 0, v.board[k].encode()) by {
                    assert(tile_window(dst@, at as int, k) =~= tile_window(cur, at as int, k));
                }
                assert forall|k: int| 0 <= k < j implies #[trigger] player_window(
                    dst@,
                    at as int,
                    tiles as int,
                    k,
                ) == overlay(
                    player_window(before, at as int, tiles as int, k),
                    0,
                    v.players[k].encode(),
                ) by {
                    assert(player_window(dst@, at as int, tiles as int, k) =~= player_window(
                        cur,
                        at as int,
                        tiles as int,
                        k,
                    ));
                }
            }
            j += 1;
        }
        let tpos = ppos + 4 + 512 * players;
        let ghost cur = dst@;
        write_u8(dst, tpos, self.current_player);
        write_u64(dst, tpos + 1, self.free_parking);
        write_u8(
            dst,
            tpos + 9,
            if self.initialized {
                1
            } else {
                0
            },
        );
        proof {
            let t1 = seq![v.current_player];
            let t2 = spec_u64_to_le_bytes(v.free_parking);
            let t3 = encode_bool(v.initialized);
            lemma_overlay_join(cur, tpos as int, t1, t2);
            lemma_overlay_join(cur, tpos as int, t1 + t2, t3);
            assert(dst@ == overlay(cur, tpos as int, v.trailer()));
            lemma_slot_write(before, cur, tpos as int, 10, v.trailer());
            let old_trailer = before.subrange(tpos as int, tpos + 10);
            assert(overlay(old_trailer, 0, v.trailer()) =~= v.trailer());
            assert(dst@.subrange(at as int, at + 4) =~= cur.subrange(at as int, at + 4));
            assert(dst@.subrange(ppos as int, ppos + 4) =~= cur.subrange(ppos as int, ppos + 4));
            assert forall|k: int| 0 <= k < tiles implies #[trigger] tile_window(dst@, at as int, k)
                == overlay(tile_window(before, at as int, k), 0, v.board[k].encode()) by {
                assert(tile_window(dst@, at as int, k) =~= tile_window(cur, at as int, k));
            }
            assert forall|k: int| 0 <= k < players implies #[trigger] player_window(
                dst@,
                at as int,
                tiles as int,
                k,
            ) == overlay(
                player_window(before, at as int, tiles as int, k),
                0,
                v.players[k].encode(),
            ) by {
                assert(player_window(dst@, at as int, tiles as int, k) =~= player_window(
                    cur,
                    at as int,
                    tiles as int,
                    k,
                ));
            }
        }
        tpos + 10
    }

    /// Reads the game at `at`; returns it with the position behind it.
    pub fn unpack_at(src: &[u8], at: usize) -> (r: Option<(Game, usize)>)
        ensures
            match r {
                Some((g, end)) => Self::readable(src@, at as int) && g@ == Self::at(
                    src@,
                    at as int,
                ) && end == Self::end(src@, at as int),
                None => !Self::readable(src@, at as int),
            },
    {
        let total = src.len();
        let tiles = match read_u32(src, at) {
            Some(n) => n as usize,
            None => { return None; },
        };
        if (total - (at + 4)) / 1025 < tiles {
            return None;
        }
        let mut board: Vec<TileType> = Vec::new();
        let mut i: usize = 0;
        while i < tiles
            invariant
                i <= tiles,
                src@.len() == total,
                at + 4 + 1025 * tiles <= total,
                tiles == u32_at(src@, at as int),
                board@.len() == i,
                forall|k: int|
                    0 <= k < i ==> TileType::decode(#[trigger] tile_window(src@, at as int, k))
                        == Some(board@[k]@),
            decreases tiles - i,
        {
            let slot = at + 4 + 1025 * i;
            let window = slice_subrange(src, slot, slot + 1025);
            assert(window@ == tile_window(src@, at as int, i as int));
            match TileType::unpack_from_slice(window) {
                Ok(t) => {
                    board.push(t);
                },
                Err(_) => {
                    assert(TileType::decode(tile_window(src@, at as int, i as int)) is None);
                    return None;
                },
            }
            i += 1;
        }
        let ppos = at + 4 + 1025 * tiles;
        let players = match read_u32(src, ppos) {
            Some(n) => n as usize,
            None => { return None; },
        };
        if (total - (ppos + 4)) / 512 < players {
            return None;
        }
        let mut list: Vec<Player> = Vec::new();
        let mut j: usize = 0;
        while j < players
            invariant
                j <= players,
                src@.len() == total,
                ppos == players_pos(at as int, tiles as int),
                ppos + 4 + 512 * players <= total,
                tiles == u32_at(src@, at as int),
                players == u32_at(src@, ppos as int),
                list@.len() == j,
                forall|k: int|
                    0 <= k < j ==> Player::decode(
                        #[trigger] player_window(src@, at as int, tiles as int, k),
                    ) == Some(list@[k]@),
            decreases players - j,
        {
            let slot = ppos + 4 + 512 * j;
            let window = slice_subrange(src, slot, slot + 512);
            assert(window@ == player_window(src@, at as int, tiles as int, j as int));
            match Player::unpack_from_slice(window) {
                Ok(p) => {
                    list.push(p);
                },
                Err(_) => {
                    assert(Player::decode(player_window(src@, at as int, tiles as int, j as int))
                        is None);
                    return None;
                },
            }
            j += 1;
        }
        let tpos = ppos + 4 + 512 * players;
        let current_player = match read_u8(src, tpos) {
            Some(b) => b,
            None => { return None; },
        };
        let free_parking = match read_u64(src, tpos + 1) {
            Some(x) => x,
            None => { return None; },
        };
        let flag = match read_u8(src, tpos + 9) {
            Some(b) => b,
            None => { return None; },
        };
        let g = Game {
            board,
            players: list,
            current_player,
            free_parking,
            initialized: flag != 0,
        };
        assert(g@.board =~= Self::at(src@, at as int).board);
        assert(g@.players =~= Self::at(src@, at as int).players);
        Some((g, tpos + 10))
    }

    /// Writes the game over the start of `dst`.
    pub fn pack_into_slice(&self, dst: &mut [u8])
        requires
            self@.packable(),
            self@.packed_len() <= old(dst)@.len(),
        ensures
            self@.packed_over(old(dst)@, 0, final(dst)@),
            Self::decode(final(dst)@) == Some(self@),
    {
        self.pack_at(dst, 0);
        proof {
            lemma_game_roundtrip(old(dst)@, dst@, 0, self@);
        }
    }

    /// Reads a game from the start of `src`.
    pub fn unpack_from_slice(src: &[u8]) -> (r: Result<Game, ProgramError>)
        ensures
            match r {
                Ok(g) => Self::decode(src@) == Some(g@),
                Err(e) => e == ProgramError::InvalidAccountData && Self::decode(src@) is None,
            },
    {
        match Game::unpack_at(src, 0) {
            Some((g, _)) => Ok(g),
            None => Err(ProgramError::InvalidAccountData),
        }
    }
}

/// Writing `enc` at the start of a slot that still holds its old bytes leaves the
/// slot as the old slot with `enc` over it, and nothing outside the slot changes.
pub proof fn lemma_slot_write(before: Seq<u8>, cur: Seq<u8>, slot: int, width: int, enc: Seq<u8>)
    requires
        cur.len() == before.len(),
        0 <= slot,
        enc.len() <= width,
        slot + width <= cur.len(),
        forall|x: int| slot <= x < cur.len() ==> #[trigger] cur[x] == before[x],
    ensures
        overlay(cur, slot, enc).subrange(slot, slot + width) == overlay(
            before.subrange(slot, slot + width),
            0,
            enc,
        ),
        overlay(cur, slot, enc).len() == cur.len(),
        forall|x: int| 0 <= x < slot ==> #[trigger] overlay(cur, slot, enc)[x] == cur[x],
        forall|x: int|
            slot + width <= x < cur.len() ==> #[trigger] overlay(cur, slot, enc)[x] == before[x],
{
    let next = overlay(cur, slot, enc);
    let want = overlay(before.subrange(slot, slot + width), 0, enc);
    assert forall|k: int| 0 <= k < width implies #[trigger] next.subrange(slot, slot + width)[k]
        == want[k] by {
        assert(cur[slot + k] == before[slot + k]);
    }
    assert(next.subrange(slot, slot + width) =~= want);
}

/// A game is read back from the bytes that it was written over.
pub proof fn lemma_game_roundtrip(before: Seq<u8>, after: Seq<u8>, at: int, v: GameView)
    requires
        0 <= at,
        v.packable(),
        fits(before, at, v.packed_len()),
        v.packed_over(before, at, after),
    ensures
        Game::readable(after, at),
        Game::at(after, at) == v,
        Game::end(after, at) == at + v.packed_len(),
{
    let tiles = v.board.len() as int;
    let players = v.players.len() as int;
    let ppos = players_pos(at, tiles);
    let tpos = trailer_pos(at, tiles, players);
    lemma_len_numbers(tiles as u32, v.free_parking);
    lemma_u32_at(after, at, tiles as u32);
    lemma_u32_at(after, ppos, players as u32);
    assert forall|i: int| 0 <= i < tiles implies TileType::decode(
        #[trigger] tile_window(after, at, i),
    ) == Some(v.board[i]) by {
        let w = tile_window(after, at, i);
        let enc = v.board[i].encode();
        assert(v.board[i].encodable() && enc.len() <= 1025);
        lemma_overlay_window(tile_window(before, at, i), 0, enc);
        lemma_tile_roundtrip(w, 0, v.board[i]);
    }
    assert forall|j: int| 0 <= j < players implies Player::decode(
        #[trigger] player_window(after, at, tiles, j),
    ) == Some(v.players[j]) by {
        let w = player_window(after, at, tiles, j);
        let enc = v.players[j].encode();
        assert(v.players[j].encodable() && enc.len() <= 512);
        lemma_overlay_window(player_window(before, at, tiles, j), 0, enc);
        lemma_player_roundtrip(w, 0, v.players[j]);
    }
    let trailer = v.trailer();
    let window = after.subrange(tpos, tpos + 10);
    assert(trailer.len() == 10);
    assert(after[tpos] == window[0]);
    assert(after[tpos + 9] == window[9]);
    assert(trailer.subrange(1, 9) =~= spec_u64_to_le_bytes(v.free_parking));
    lemma_window_part(after, tpos, trailer, 1, spec_u64_to_le_bytes(v.free_parking));
    lemma_u64_at(after, tpos + 1, v.free_parking);
    assert(Game::at(after, at).board =~= v.board);
    assert(Game::at(after, at).players =~= v.players);
}

} // verus!
