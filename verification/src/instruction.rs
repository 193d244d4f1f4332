//! The instructions that callers send, and their form on the wire: one byte for
//! the kind, then the operands.
use vstd::bytes::*;
use vstd::prelude::*;
use vstd::utf8::*;

use crate::account::DeckType;
use crate::codec::{
    bytes_end, encode_str, fits, lemma_len_numbers, lemma_len_str, lemma_overlay_join,
    lemma_overlay_window, lemma_str_at, lemma_u32_at, lemma_window_part, overlay, read_str,
    read_u32, read_u8, str_at, str_readable, u32_at, write_str, write_u32, write_u8,
};
use crate::error::ProgramError;

verus! {

/// What a caller can ask of the program.
#[derive(Debug, PartialEq)]
pub enum MonopolyInstruction {
    /// Set up a new game for the named players.
    InitGame { player_names: Vec<String> },
    /// Roll the dice and move the current player.
    MovePlayer,
    /// Buy the property with the given index for the current player.
    BuyProperty { property_index: u8 },
    /// Build a house or the hotel on the property with the given index.
    BuildHouse { property_index: u8 },
    /// Pay the rent of the property with the given index.
    PayRent { property_index: u8 },
    /// End the turn of the current player.
    NextTurn,
    /// Report the winner or the leader.
    CheckWinner,
    /// Draw a card from the deck of the given type.
    DrawCard { deck_type: DeckType },
}

impl Clone for MonopolyInstruction {
    fn clone(&self) -> (copy: MonopolyInstruction)
        ensures
            copy@ == self@,
    {
        match self {
            MonopolyInstruction::InitGame { player_names } => {
                let mut names: Vec<String> = Vec::new();
                let mut i: usize = 0;
                while i < player_names.len()
                    invariant
                        i <= player_names@.len(),
                        names@.len() == i,
                        forall|k: int| 0 <= k < i ==> (#[trigger] names@[k])@ == player_names@[k]@,
                    decreases player_names@.len() - i,
                {
                    names.push(player_names[i].clone());
                    i += 1;
                }
                proof {
                    assert(names_view(names@) =~= names_view(player_names@));
                }
                MonopolyInstruction::InitGame { player_names: names }
            },
            MonopolyInstruction::MovePlayer => MonopolyInstruction::MovePlayer,
            MonopolyInstruction::BuyProperty { property_index } => {
                MonopolyInstruction::BuyProperty { property_index: *property_index }
            },
            MonopolyInstruction::BuildHouse { property_index } => {
                MonopolyInstruction::BuildHouse { property_index: *property_index }
            },
            MonopolyInstruction::PayRent { property_index } => {
                MonopolyInstruction::PayRent { property_index: *property_index }
            },
            MonopolyInstruction::NextTurn => MonopolyInstruction::NextTurn,
            MonopolyInstruction::CheckWinner => MonopolyInstruction::CheckWinner,
            MonopolyInstruction::DrawCard { deck_type } => {
                MonopolyInstruction::DrawCard { deck_type: *deck_type }
            },
        }
    }
}

/// What an instruction is, apart from how it is held in memory.
pub enum InstructionView {
    InitGame { player_names: Seq<Seq<char>> },
    MovePlayer,
    BuyProperty { property_index: u8 },
    BuildHouse { property_index: u8 },
    PayRent { property_index: u8 },
    NextTurn,
    CheckWinner,
    DrawCard { deck_type: DeckType },
}

/// The texts of a list of names.
pub open spec fn names_view(names: Seq<String>) -> Seq<Seq<char>> {
    names.map_values(|name: String| name@)
}

impl View for MonopolyInstruction {
    type V = InstructionView;

    open spec fn view(&self) -> InstructionView {
        match self {
            MonopolyInstruction::InitGame { player_names } => InstructionView::InitGame {
                player_names: names_view(player_names@),
            },
            MonopolyInstruction::MovePlayer => InstructionView::MovePlayer,
            MonopolyInstruction::BuyProperty { property_index } => InstructionView::BuyProperty {
                property_index: *property_index,
            },
            MonopolyInstruction::BuildHouse { property_index } => InstructionView::BuildHouse {
                property_index: *property_index,
            },
            MonopolyInstruction::PayRent { property_index } => InstructionView::PayRent {
                property_index: *property_index,
            },
            MonopolyInstruction::NextTurn => InstructionView::NextTurn,
            MonopolyInstruction::CheckWinner => InstructionView::CheckWinner,
            MonopolyInstruction::DrawCard { deck_type } => InstructionView::DrawCard {
                deck_type: *deck_type,
            },
        }
    }
}

/// The bytes of a row of names, one behind the other, without a count.
pub open spec fn encode_names(names: Seq<Seq<char>>) -> Seq<u8>
    decreases names.len(),
{
    if names.len() == 0 {
        Seq::<u8>::empty()
    } else {
        encode_str(names[0]) + encode_names(names.drop_first())
    }
}

/// Whether each name can be written with a 32-bit length.
pub open spec fn names_encodable(names: Seq<Seq<char>>) -> bool {
    forall|i: int| 0 <= i < names.len() ==> encode_utf8(#[trigger] names[i]).len() <= u32::MAX
}

/// Whether `n` names can be read one behind the other from `at` on.
pub open spec fn names_readable(s: Seq<u8>, at: int, n: nat) -> bool
    decreases n,
{
    n == 0 || (str_readable(s, at) && names_readable(s, bytes_end(s, at), (n - 1) as nat))
}

/// The `n` names stored one behind the other from `at` on.
pub open spec fn names_at(s: Seq<u8>, at: int, n: nat) -> Seq<Seq<char>>
    decreases n,
{
    if n == 0 {
        Seq::<Seq<char>>::empty()
    } else {
        seq![str_at(s, at)] + names_at(s, bytes_end(s, at), (n - 1) as nat)
    }
}

impl InstructionView {
    /// Whether the lengths of this instruction can be written as 32-bit counts.
    pub open spec fn encodable(self) -> bool {
        match self {
            InstructionView::InitGame { player_names } => player_names.len() <= u32::MAX
                && names_encodable(player_names),
            _ => true,
        }
    }

    /// The bytes of this instruction: the number of its kind, then its operands.
    pub open spec fn encode(self) -> Seq<u8> {
        match self {
            InstructionView::InitGame { player_names } => seq![0u8] + spec_u32_to_le_bytes(
                player_names.len() as u32,
            ) + encode_names(player_names),
            InstructionView::MovePlayer => seq![1u8],
            InstructionView::BuyProperty { property_index } => seq![2u8, property_index],
            InstructionView::BuildHouse { property_index } => seq![3u8, property_index],
            InstructionView::PayRent { property_index } => seq![4u8, property_index],
            InstructionView::NextTurn => seq![5u8],
            InstructionView::CheckWinner => seq![6u8],
            InstructionView::DrawCard { deck_type } => seq![7u8, deck_type.tag()],
        }
    }
}

impl MonopolyInstruction {
    /// Bytes of the buffer that callers reserve for an instruction.
    pub const LEN: usize = 1024;

    /// The instruction that the bytes start with, if they start with one. Bytes
    /// behind the instruction are not looked at.
    pub open spec fn decode(s: Seq<u8>) -> Option<InstructionView> {
        if s.len() == 0 {
            None
        } else if s[0] == 0 {
            if fits(s, 1, 4) && names_readable(s, 5, u32_at(s, 1) as nat) {
                Some(
                    InstructionView::InitGame { player_names: names_at(s, 5, u32_at(s, 1) as nat) },
                )
            } else {
                None
            }
        } else if s[0] == 1 {
            Some(InstructionView::MovePlayer)
        } else if s[0] == 2 {
            if fits(s, 1, 1) {
                Some(InstructionView::BuyProperty { property_index: s[1] })
            } else {
                None
            }
        } else if s[0] == 3 {
            if fits(s, 1, 1) {
                Some(InstructionView::BuildHouse { property_index: s[1] })
            } else {
                None
            }
        } else if s[0] == 4 {
            if fits(s, 1, 1) {
                Some(InstructionView::PayRent { property_index: s[1] })
            } else {
                None
            }
        } else if s[0] == 5 {
            Some(InstructionView::NextTurn)
        } else if s[0] == 6 {
            Some(InstructionView::CheckWinner)
        } else if s[0] == 7 {
            if fits(s, 1, 1) && DeckType::from_tag(s[1]) is Some {
                Some(InstructionView::DrawCard { deck_type: DeckType::from_tag(s[1]).unwrap() })
            } else {
                None
            }
        } else {
            None
        }
    }

    /// Number of bytes of this instruction on the wire, or `None` where a length
    /// does not fit its 32-bit count or the sum does not fit a `usize`.
    pub fn encoded_len(&self) -> (n: Option<usize>)
        ensures
            match n {
                Some(n) => self@.encodable() && n == self@.encode().len(),
                None => !self@.encodable() || self@.encode().len() > usize::MAX,
            },
    {
        match self {
            MonopolyInstruction::InitGame { player_names } => {
                let count = player_names.len();
                if count > u32::MAX as usize {
                    return None;
                }
                let ghost names = names_view(player_names@);
                let mut sum: u128 = 0;
                let mut i: usize = 0;
                proof {
                    lemma_len_numbers(count as u32, 0);
                    assert(names.take(0) =~= Seq::<Seq<char>>::empty());
                }
                while i < count
                    invariant
                        i <= count,
                        count == player_names@.len(),
                        count <= u32::MAX,
                        names == names_view(player_names@),
                        self@ == (InstructionView::InitGame { player_names: names }),
                        names_encodable(names.take(i as int)),
                        sum == encode_names(names.take(i as int)).len(),
                        sum <= (4 + u32::MAX) * i,
                    decreases count - i,
                {
                    let len = player_names[i].as_str().as_bytes().len();
                    if len > u32::MAX as usize {
                        assert(!(encode_utf8(names[i as int]).len() <= u32::MAX));
                        assert(!names_encodable(names));
                        assert(self@ == InstructionView::InitGame { player_names: names });
                        return None;
                    }
                    proof {
                        lemma_encode_names_push(names.take(i as int), names[i as int]);
                        lemma_len_str(names[i as int]);
                        assert(names.take(i as int).push(names[i as int]) =~= names.take(i + 1));
                    }
                    sum = sum + 4 + len as u128;
                    i += 1;
                }
                proof {
                    assert(names.take(count as int) =~= names);
                }
                let total: u128 = 1 + 4 + sum;
                if total > usize::MAX as u128 {
                    None
                } else {
                    Some(total as usize)
                }
            },
            MonopolyInstruction::MovePlayer => Some(1),
            MonopolyInstruction::BuyProperty { .. } => Some(2),
            MonopolyInstruction::BuildHouse { .. } => Some(2),
            MonopolyInstruction::PayRent { .. } => Some(2),
            MonopolyInstruction::NextTurn => Some(1),
            MonopolyInstruction::CheckWinner => Some(1),
            MonopolyInstruction::DrawCard { .. } => Some(2),
        }
    }

    /// Writes the instruction over the start of `dst`; the bytes behind it stay.
    pub fn pack_into_slice(&self, dst: &mut [u8])
        requires
            self@.encodable(),
            self@.encode().len() <= old(dst)@.len(),
        ensures
            final(dst)@ == overlay(old(dst)@, 0, self@.encode()),
            Self::decode(final(dst)@) == Some(self@),
    {
        let ghost total = dst.len();
        let ghost start = old(dst)@;
        match self {
            MonopolyInstruction::InitGame { player_names } => {
                let count = player_names.len();
                let ghost names = names_view(player_names@);
                proof {
                    lemma_len_numbers(count as u32, 0);
                }
                write_u8(dst, 0, 0);
                write_u32(dst, 1, count as u32);
                let ghost head = seq![0u8] + spec_u32_to_le_bytes(count as u32);
                proof {
                    lemma_overlay_join(start, 0, seq![0u8], spec_u32_to_le_bytes(count as u32));
                    assert(names.take(0) =~= Seq::<Seq<char>>::empty());
                    assert(head + encode_names(names.take(0)) =~= head);
                }
                let mut at: usize = 5;
                let mut i: usize = 0;
                while i < count
                    invariant
                        i <= count,
                        count == player_names@.len(),
                        names == names_view(player_names@),
                        names_encodable(names),
                        head.len() == 5,
                        dst@.len() == total,
                        start.len() == total,
                        5 + encode_names(names).len() <= total,
                        at == 5 + encode_names(names.take(i as int)).len(),
                        encode_names(names.take(i as int)).len() <= encode_names(names).len(),
                        dst@ == overlay(start, 0, head + encode_names(names.take(i as int))),
                    decreases count - i,
                {
                    let ghost sofar = head + encode_names(names.take(i as int));
                    proof {
                        lemma_encode_names_push(names.take(i as int), names[i as int]);
                        assert(names.take(i as int).push(names[i as int]) =~= names.take(i + 1));
                        lemma_encode_names_prefix(names, i + 1);
                        lemma_len_str(names[i as int]);
                    }
                    at = write_str(dst, at, player_names[i].as_str());
                    proof {
                        lemma_overlay_join(start, 0, sofar, encode_str(names[i as int]));
                        assert(sofar + encode_str(names[i as int]) =~= head + encode_names(
                            names.take(i + 1),
                        ));
                    }
                    i += 1;
                }
                proof {
                    assert(names.take(count as int) =~= names);
                }
            },
            MonopolyInstruction::MovePlayer => {
                write_u8(dst, 0, 1);
            },
            MonopolyInstruction::BuyProperty { property_index } => {
                write_u8(dst, 0, 2);
                write_u8(dst, 1, *property_index);
                proof {
                    lemma_overlay_join(start, 0, seq![2u8], seq![*property_index]);
                    assert(seq![2u8] + seq![*property_index] =~= seq![2u8, *property_index]);
                }
            },
            MonopolyInstruction::BuildHouse { property_index } => {
                write_u8(dst, 0, 3);
                write_u8(dst, 1, *property_index);
                proof {
                    lemma_overlay_join(start, 0, seq![3u8], seq![*property_index]);
                    assert(seq![3u8] + seq![*property_index] =~= seq![3u8, *property_index]);
                }
            },
            MonopolyInstruction::PayRent { property_index } => {
                write_u8(dst, 0, 4);
                write_u8(dst, 1, *property_index);
                proof {
                    lemma_overlay_join(start, 0, seq![4u8], seq![*property_index]);
                    assert(seq![4u8] + seq![*property_index] =~= seq![4u8, *property_index]);
                }
            },
            MonopolyInstruction::NextTurn => {
                write_u8(dst, 0, 5);
            },
            MonopolyInstruction::CheckWinner => {
                write_u8(dst, 0, 6);
            },
            MonopolyInstruction::DrawCard { deck_type } => {
                write_u8(dst, 0, 7);
                write_u8(dst, 1, deck_type.to_tag());
                proof {
                    lemma_overlay_join(start, 0, seq![7u8], seq![deck_type.tag()]);
                    assert(seq![7u8] + seq![deck_type.tag()] =~= seq![7u8, deck_type.tag()]);
                }
            },
        }
        proof {
            lemma_overlay_window(start, 0, self@.encode());
            lemma_instruction_roundtrip(dst@, self@);
        }
    }

    /// Reads an instruction from the start of `src`.
    pub fn unpack_from_slice(src: &[u8]) -> (r: Result<MonopolyInstruction, ProgramError>)
        ensures
            match r {
                Ok(i) => Self::decode(src@) == Some(i@),
                Err(e) => e == ProgramError::InvalidInstructionData && Self::decode(src@) is None,
            },
    {
        let ghost total = src.len();
        let variant = match read_u8(src, 0) {
            Some(b) => b,
            None => { return Err(ProgramError::InvalidInstructionData); },
        };
        if variant == 0 {
            let count = match read_u32(src, 1) {
                Some(n) => n as usize,
                None => { return Err(ProgramError::InvalidInstructionData); },
            };
            let mut player_names: Vec<String> = Vec::new();
            let mut at: usize = 5;
            let mut i: usize = 0;
            let ghost n = count as nat;
            while i < count
                invariant
                    i <= count,
                    n == count,
                    n == u32_at(src@, 1) as nat,
                    src@.len() == total,
                    5 <= at <= total,
                    src@[0] == 0,
                    fits(src@, 1, 4),
                    player_names@.len() == i,
                    names_readable(src@, 5, n) == names_readable(src@, at as int, (n - i) as nat),
                    names_at(src@, 5, n) == names_view(player_names@) + names_at(
                        src@,
                        at as int,
                        (n - i) as nat,
                    ),
                decreases count - i,
            {
                match read_str(src, at) {
                    Some((name, end)) => {
                        proof {
                            let rest = names_at(src@, end as int, (n - i - 1) as nat);
                            assert(names_view(player_names@) + (seq![name@] + rest) =~= names_view(
                                player_names@.push(name),
                            ) + rest);
                        }
                        player_names.push(name);
                        at = end;
                    },
                    None => {
                        assert(!names_readable(src@, at as int, (n - i) as nat));
                        return Err(ProgramError::InvalidInstructionData);
                    },
                }
                i += 1;
            }
            proof {
                assert(names_view(player_names@) + Seq::<Seq<char>>::empty() =~= names_view(
                    player_names@,
                ));
            }
            Ok(MonopolyInstruction::InitGame { player_names })
        } else if variant == 1 {
            Ok(MonopolyInstruction::MovePlayer)
        } else if variant == 2 {
            match read_u8(src, 1) {
                Some(property_index) => Ok(MonopolyInstruction::BuyProperty { property_index }),
                None => Err(ProgramError::InvalidInstructionData),
            }
        } else if variant == 3 {
            match read_u8(src, 1) {
                Some(property_index) => Ok(MonopolyInstruction::BuildHouse { property_index }),
                None => Err(ProgramError::InvalidInstructionData),
            }
        } else if variant == 4 {
            match read_u8(src, 1) {
                Some(property_index) => Ok(MonopolyInstruction::PayRent { property_index }),
                None => Err(ProgramError::InvalidInstructionData),
            }
        } else if variant == 5 {
            Ok(MonopolyInstruction::NextTurn)
        } else if variant == 6 {
            Ok(MonopolyInstruction::CheckWinner)
        } else if variant == 7 {
            match read_u8(src, 1) {
                Some(b) => match DeckType::try_from_tag(b) {
                    Some(deck_type) => Ok(MonopolyInstruction::DrawCard { deck_type }),
                    None => Err(ProgramError::InvalidInstructionData),
                },
                None => Err(ProgramError::InvalidInstructionData),
            }
        } else {
            Err(ProgramError::InvalidInstructionData)
        }
    }

    /// Reads an instruction from the bytes that a caller sent.
    pub fn try_from_slice(input: &[u8]) -> (r: Result<MonopolyInstruction, ProgramError>)
        ensures
            match r {
                Ok(i) => Self::decode(input@) == Some(i@),
                Err(e) => e == ProgramError::InvalidInstructionData && Self::decode(input@) is None,
            },
    {
        MonopolyInstruction::unpack_from_slice(input)
    }

    /// The bytes of the instruction as a caller sends them: exactly its encoding.
    /// `None` where a length does not fit its 32-bit count.
    pub fn to_bytes(&self) -> (r: Option<Vec<u8>>)
        ensures
            match r {
                Some(bytes) => self@.encodable() && bytes@ == self@.encode() && Self::decode(
                    bytes@,
                ) == Some(self@),
                None => !self@.encodable() || self@.encode().len() > usize::MAX,
            },
    {
        let n = match self.encoded_len() {
            Some(n) => n,
            None => { return None; },
        };
        let mut bytes: Vec<u8> = Vec::new();
        let mut i: usize = 0;
        while i < n
            invariant
                i <= n,
                bytes@.len() == i,
            decreases n - i,
        {
            bytes.push(0);
            i += 1;
        }
        self.pack_into_slice(bytes.as_mut_slice());
        proof {
            assert(bytes@ =~= self@.encode());
        }
        Some(bytes)
    }
}

/// Adding a name at the end of a row adds its bytes at the end of the encoding.
pub proof fn lemma_encode_names_push(names: Seq<Seq<char>>, name: Seq<char>)
    ensures
        encode_names(names.push(name)) == encode_names(names) + encode_str(name),
    decreases names.len(),
{
    if names.len() == 0 {
        let one = names.push(name);
        assert(one.drop_first() =~= Seq::<Seq<char>>::empty());
        assert(encode_names(one.drop_first()) =~= Seq::<u8>::empty());
        assert(one[0] == name);
        assert(encode_names(one) == encode_str(one[0]) + encode_names(one.drop_first()));
        assert(encode_names(names.push(name)) =~= encode_str(name));
        assert(encode_names(names) + encode_str(name) =~= encode_str(name));
    } else {
        lemma_encode_names_push(names.drop_first(), name);
        assert(names.push(name).drop_first() =~= names.drop_first().push(name));
        assert(encode_names(names.push(name)) =~= encode_names(names) + encode_str(name));
    }
}

/// The encoding of the first `n` names is no longer than that of all.
pub proof fn lemma_encode_names_prefix(names: Seq<Seq<char>>, n: int)
    requires
        0 <= n <= names.len(),
    ensures
        encode_names(names.take(n)).len() <= encode_names(names).len(),
    decreases names.len() - n,
{
    if n < names.len() {
        lemma_encode_names_prefix(names, n + 1);
        lemma_encode_names_push(names.take(n), names[n]);
        assert(names.take(n).push(names[n]) =~= names.take(n + 1));
    } else {
        assert(names.take(n) =~= names);
    }
}

/// A row of names is read back from wherever its bytes stand.
pub proof fn lemma_names_roundtrip(s: Seq<u8>, at: int, names: Seq<Seq<char>>)
    requires
        names_encodable(names),
        fits(s, at, encode_names(names).len() as int),
        s.subrange(at, at + encode_names(names).len()) == encode_names(names),
    ensures
        names_readable(s, at, names.len()),
        names_at(s, at, names.len()) == names,
    decreases names.len(),
{
    if names.len() > 0 {
        let enc = encode_names(names);
        let first = encode_str(names[0]);
        let rest = encode_names(names.drop_first());
        assert(enc.subrange(0, first.len() as int) =~= first);
        lemma_window_part(s, at, enc, 0, first);
        lemma_str_at(s, at, names[0]);
        assert(enc.subrange(first.len() as int, first.len() as int + rest.len()) =~= rest);
        lemma_window_part(s, at, enc, first.len() as int, rest);
        assert forall|i: int| 0 <= i < names.drop_first().len() implies encode_utf8(
            #[trigger] names.drop_first()[i],
        ).len() <= u32::MAX by {
            assert(names.drop_first()[i] == names[i + 1]);
        }
        lemma_names_roundtrip(s, at + first.len(), names.drop_first());
        assert(seq![names[0]] + names.drop_first() =~= names);
    } else {
        assert(names =~= Seq::<Seq<char>>::empty());
    }
}

/// An instruction is read back from the bytes that start with its encoding.
pub proof fn lemma_instruction_roundtrip(s: Seq<u8>, v: InstructionView)
    requires
        v.encodable(),
        v.encode().len() <= s.len(),
        s.subrange(0, v.encode().len() as int) == v.encode(),
    ensures
        MonopolyInstruction::decode(s) == Some(v),
{
    let enc = v.encode();
    assert(s[0] == s.subrange(0, enc.len() as int)[0]);
    match v {
        InstructionView::InitGame { player_names } => {
            lemma_len_numbers(player_names.len() as u32, 0);
            let count = spec_u32_to_le_bytes(player_names.len() as u32);
            let names = encode_names(player_names);
            assert(enc.subrange(1, 5) =~= count);
            lemma_window_part(s, 0, enc, 1, count);
            lemma_u32_at(s, 1, player_names.len() as u32);
            assert(enc.subrange(5, 5 + names.len() as int) =~= names);
            lemma_window_part(s, 0, enc, 5, names);
            lemma_names_roundtrip(s, 5, player_names);
        },
        InstructionView::BuyProperty { property_index } => {
            assert(s[1] == s.subrange(0, enc.len() as int)[1]);
        },
        InstructionView::BuildHouse { property_index } => {
            assert(s[1] == s.subrange(0, enc.len() as int)[1]);
        },
        InstructionView::PayRent { property_index } => {
            assert(s[1] == s.subrange(0, enc.len() as int)[1]);
        },
        InstructionView::DrawCard { deck_type } => {
            assert(s[1] == s.subrange(0, enc.len() as int)[1]);
        },
        _ => {},
    }
}

} // verus!
