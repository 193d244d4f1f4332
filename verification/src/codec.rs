//! Reading and writing the wire format: numbers lowest byte first, counted
//! lists and texts with a four-byte length in front, all with their bounds
//! checked. A read never looks past the end of its buffer, and a write changes
//! the bytes it is given and no others.
use vstd::bytes::*;
use vstd::prelude::*;
use vstd::slice::*;
use vstd::utf8::*;

use crate::error::ProgramError;
use crate::pubkey::{lemma_pubkey_equal_by_bytes, Pubkey};

verus! {

/// `dst` with `bytes` written over it from position `at` on.
pub open spec fn overlay(dst: Seq<u8>, at: int, bytes: Seq<u8>) -> Seq<u8> {
    Seq::new(
        dst.len(),
        |k: int|
            if at <= k < at + bytes.len() {
                bytes[k - at]
            } else {
                dst[k]
            },
    )
}

/// Whether `n` bytes from position `at` on lie inside `s`.
pub open spec fn fits(s: Seq<u8>, at: int, n: int) -> bool {
    0 <= at && 0 <= n && at + n <= s.len()
}

/// The 32-bit number stored at `at`, lowest byte first.
pub open spec fn u32_at(s: Seq<u8>, at: int) -> u32 {
    spec_u32_from_le_bytes(s.subrange(at, at + 4))
}

/// The 64-bit number stored at `at`, lowest byte first.
pub open spec fn u64_at(s: Seq<u8>, at: int) -> u64 {
    spec_u64_from_le_bytes(s.subrange(at, at + 8))
}

/// The `n` 64-bit numbers stored one after another from `at` on.
pub open spec fn u64s_at(s: Seq<u8>, at: int, n: int) -> Seq<u64> {
    Seq::new(n as nat, |i: int| u64_at(s, at + 8 * i))
}

/// The bytes of a list of 64-bit numbers, each lowest byte first, without a count.
pub open spec fn encode_u64s(v: Seq<u64>) -> Seq<u8>
    decreases v.len(),
{
    if v.len() == 0 {
        Seq::<u8>::empty()
    } else {
        encode_u64s(v.drop_last()) + spec_u64_to_le_bytes(v.last())
    }
}

/// A list of 64-bit numbers on the wire: its count in four bytes, then the numbers.
pub open spec fn encode_u64_list(v: Seq<u64>) -> Seq<u8> {
    spec_u32_to_le_bytes(v.len() as u32) + encode_u64s(v)
}

/// A byte string on the wire: its length in four bytes, then the bytes.
pub open spec fn encode_bytes(b: Seq<u8>) -> Seq<u8> {
    spec_u32_to_le_bytes(b.len() as u32) + b
}

/// A text on the wire: the length of its UTF-8 form in four bytes, then that form.
pub open spec fn encode_str(text: Seq<char>) -> Seq<u8> {
    encode_bytes(encode_utf8(text))
}

/// A flag on the wire: one byte, 1 for true and 0 for false.
pub open spec fn encode_bool(b: bool) -> Seq<u8> {
    seq![if b { 1u8 } else { 0u8 }]
}

/// Whether a length-prefixed byte string can be read at `at`.
pub open spec fn bytes_readable(s: Seq<u8>, at: int) -> bool {
    fits(s, at, 4) && fits(s, at + 4, u32_at(s, at) as int)
}

/// The payload of the length-prefixed byte string at `at`.
pub open spec fn bytes_at(s: Seq<u8>, at: int) -> Seq<u8> {
    s.subrange(at + 4, at + 4 + u32_at(s, at))
}

/// The position just behind the length-prefixed byte string at `at`.
pub open spec fn bytes_end(s: Seq<u8>, at: int) -> int {
    at + 4 + u32_at(s, at)
}

/// Whether a text can be read at `at`: its bytes are there and are UTF-8.
pub open spec fn str_readable(s: Seq<u8>, at: int) -> bool {
    bytes_readable(s, at) && valid_utf8(bytes_at(s, at))
}

/// The text stored at `at`.
pub open spec fn str_at(s: Seq<u8>, at: int) -> Seq<char> {
    decode_utf8(bytes_at(s, at))
}

/// Whether a counted list of 64-bit numbers can be read at `at`.
pub open spec fn u64_list_readable(s: Seq<u8>, at: int) -> bool {
    fits(s, at, 4) && fits(s, at + 4, 8 * u32_at(s, at))
}

/// The counted list of 64-bit numbers stored at `at`.
pub open spec fn u64_list_at(s: Seq<u8>, at: int) -> Seq<u64> {
    u64s_at(s, at + 4, u32_at(s, at) as int)
}

/// The position just behind the counted list of 64-bit numbers at `at`.
pub open spec fn u64_list_end(s: Seq<u8>, at: int) -> int {
    at + 4 + 8 * u32_at(s, at)
}

/// The identity whose 32 bytes stand from `at` on.
pub open spec fn pubkey_at(s: Seq<u8>, at: int) -> Pubkey {
    choose|key: Pubkey| key@ == s.subrange(at, at + 32)
}

/// The result of a decoder: the value where the bytes hold one, and the refusal
/// `InvalidAccountData` where they do not.
pub open spec fn decoded<T>(value: Option<T>) -> Result<T, ProgramError> {
    match value {
        Some(v) => Ok(v),
        None => Err(ProgramError::InvalidAccountData),
    }
}

/// An identity is read back from wherever its bytes stand.
pub proof fn lemma_pubkey_at(s: Seq<u8>, at: int, key: Pubkey)
    requires
        s.subrange(at, at + 32) == key@,
    ensures
        pubkey_at(s, at) == key,
{
    lemma_pubkey_equal_by_bytes(pubkey_at(s, at), key);
}

/// The length of an encoded text.
pub proof fn lemma_len_str(text: Seq<char>)
    ensures
        encode_str(text).len() == 4 + encode_utf8(text).len(),
        encode_bytes(encode_utf8(text)).len() == 4 + encode_utf8(text).len(),
{
    lemma_auto_spec_u32_to_from_le_bytes();
    assert(spec_u32_to_le_bytes(encode_utf8(text).len() as u32).len() == 4);
}

/// The length of an encoded byte string.
pub proof fn lemma_len_bytes(b: Seq<u8>)
    ensures
        encode_bytes(b).len() == 4 + b.len(),
{
    lemma_auto_spec_u32_to_from_le_bytes();
    assert(spec_u32_to_le_bytes(b.len() as u32).len() == 4);
}

/// The length of an encoded list of numbers.
pub proof fn lemma_len_u64_list(v: Seq<u64>)
    ensures
        encode_u64_list(v).len() == 4 + 8 * v.len(),
{
    lemma_auto_spec_u32_to_from_le_bytes();
    assert(spec_u32_to_le_bytes(v.len() as u32).len() == 4);
    lemma_encode_u64s(v);
}

/// The lengths of encoded numbers.
pub proof fn lemma_len_numbers(x: u32, y: u64)
    ensures
        spec_u32_to_le_bytes(x).len() == 4,
        spec_u64_to_le_bytes(y).len() == 8,
{
    lemma_auto_spec_u32_to_from_le_bytes();
    lemma_auto_spec_u64_to_from_le_bytes();
    assert(spec_u32_to_le_bytes(x).len() == 4);
}

/// Writing two byte strings one behind the other is writing their concatenation.
pub proof fn lemma_overlay_join(dst: Seq<u8>, at: int, a: Seq<u8>, b: Seq<u8>)
    requires
        0 <= at,
    ensures
        overlay(overlay(dst, at, a), at + a.len(), b) == overlay(dst, at, a + b),
{
    assert(overlay(overlay(dst, at, a), at + a.len(), b) =~= overlay(dst, at, a + b));
}

/// What was written is found again where it was written.
pub proof fn lemma_overlay_window(dst: Seq<u8>, at: int, bytes: Seq<u8>)
    requires
        fits(dst, at, bytes.len() as int),
    ensures
        overlay(dst, at, bytes).subrange(at, at + bytes.len()) == bytes,
        overlay(dst, at, bytes).len() == dst.len(),
{
    assert(overlay(dst, at, bytes).subrange(at, at + bytes.len()) =~= bytes);
}

/// The encoding of a list of numbers has eight bytes for each, and each number is
/// found at its place.
pub proof fn lemma_encode_u64s(v: Seq<u64>)
    ensures
        encode_u64s(v).len() == 8 * v.len(),
        forall|i: int|
            0 <= i < v.len() ==> #[trigger] u64_at(encode_u64s(v), 8 * i) == v[i],
    decreases v.len(),
{
    lemma_auto_spec_u64_to_from_le_bytes();
    if v.len() > 0 {
        let head = v.drop_last();
        lemma_encode_u64s(head);
        let all = encode_u64s(v);
        assert forall|i: int| 0 <= i < v.len() implies #[trigger] u64_at(all, 8 * i) == v[i] by {
            if i < head.len() {
                assert(all.subrange(8 * i, 8 * i + 8) =~= encode_u64s(head).subrange(
                    8 * i,
                    8 * i + 8,
                ));
                assert(u64_at(encode_u64s(head), 8 * i) == head[i]);
            } else {
                assert(all.subrange(8 * i, 8 * i + 8) =~= spec_u64_to_le_bytes(v.last()));
            }
        }
    }
}

/// Adding one number to a list adds its eight bytes to the encoding.
pub proof fn lemma_encode_u64s_push(v: Seq<u64>, x: u64)
    ensures
        encode_u64s(v.push(x)) == encode_u64s(v) + spec_u64_to_le_bytes(x),
{
    assert(v.push(x).drop_last() =~= v);
}

/// A 32-bit number is read back from wherever its four bytes stand.
pub proof fn lemma_u32_at(s: Seq<u8>, at: int, x: u32)
    requires
        fits(s, at, 4),
        s.subrange(at, at + 4) == spec_u32_to_le_bytes(x),
    ensures
        u32_at(s, at) == x,
{
    lemma_auto_spec_u32_to_from_le_bytes();
    assert(spec_u32_to_le_bytes(x).len() == 4);
}

/// A 64-bit number is read back from wherever its eight bytes stand.
pub proof fn lemma_u64_at(s: Seq<u8>, at: int, x: u64)
    requires
        fits(s, at, 8),
        s.subrange(at, at + 8) == spec_u64_to_le_bytes(x),
    ensures
        u64_at(s, at) == x,
{
    lemma_auto_spec_u64_to_from_le_bytes();
}

/// A counted list of numbers is read back from wherever its encoding stands.
pub proof fn lemma_u64_list_at(s: Seq<u8>, at: int, v: Seq<u64>)
    requires
        v.len() <= u32::MAX,
        fits(s, at, encode_u64_list(v).len() as int),
        s.subrange(at, at + encode_u64_list(v).len()) == encode_u64_list(v),
    ensures
        encode_u64_list(v).len() == 4 + 8 * v.len(),
        u64_list_readable(s, at),
        u64_list_at(s, at) == v,
        u64_list_end(s, at) == at + encode_u64_list(v).len(),
{
    lemma_auto_spec_u32_to_from_le_bytes();
    lemma_auto_spec_u64_to_from_le_bytes();
    lemma_encode_u64s(v);
    let enc = encode_u64_list(v);
    let count = spec_u32_to_le_bytes(v.len() as u32);
    assert(s.subrange(at, at + 4) =~= enc.subrange(0, 4));
    assert(enc.subrange(0, 4) =~= count);
    assert(u32_at(s, at) == v.len());
    assert forall|i: int| 0 <= i < v.len() implies u64_list_at(s, at)[i] == v[i] by {
        let part = encode_u64s(v).subrange(8 * i, 8 * i + 8);
        assert(enc.subrange(4 + 8 * i, 4 + 8 * i + 8) =~= part);
        lemma_window_part(s, at, enc, 4 + 8 * i, part);
        assert(u64_at(encode_u64s(v), 8 * i) == v[i]);
    }
    assert(u64_list_at(s, at) =~= v);
}

/// A byte string is read back from wherever its length-prefixed form stands.
pub proof fn lemma_bytes_at(s: Seq<u8>, at: int, b: Seq<u8>)
    requires
        b.len() <= u32::MAX,
        fits(s, at, encode_bytes(b).len() as int),
        s.subrange(at, at + encode_bytes(b).len()) == encode_bytes(b),
    ensures
        encode_bytes(b).len() == 4 + b.len(),
        bytes_readable(s, at),
        bytes_at(s, at) == b,
        bytes_end(s, at) == at + encode_bytes(b).len(),
{
    lemma_auto_spec_u32_to_from_le_bytes();
    let enc = encode_bytes(b);
    assert(s.subrange(at, at + 4) =~= enc.subrange(0, 4));
    assert(enc.subrange(0, 4) =~= spec_u32_to_le_bytes(b.len() as u32));
    assert(u32_at(s, at) == b.len());
    assert(enc.subrange(4, 4 + b.len() as int) =~= b);
    lemma_window_part(s, at, enc, 4, b);
}

/// A text is read back from wherever its encoding stands.
pub proof fn lemma_str_at(s: Seq<u8>, at: int, text: Seq<char>)
    requires
        encode_utf8(text).len() <= u32::MAX,
        fits(s, at, encode_str(text).len() as int),
        s.subrange(at, at + encode_str(text).len()) == encode_str(text),
    ensures
        encode_str(text).len() == 4 + encode_utf8(text).len(),
        str_readable(s, at),
        str_at(s, at) == text,
        bytes_end(s, at) == at + encode_str(text).len(),
{
    lemma_bytes_at(s, at, encode_utf8(text));
    encode_utf8_valid_utf8(text);
    encode_utf8_decode_utf8(text);
}

/// A part of a written byte string is found at its place in the buffer.
pub proof fn lemma_window_part(s: Seq<u8>, at: int, whole: Seq<u8>, from: int, part: Seq<u8>)
    requires
        fits(s, at, whole.len() as int),
        s.subrange(at, at + whole.len()) == whole,
        fits(whole, from, part.len() as int),
        whole.subrange(from, from + part.len()) == part,
    ensures
        fits(s, at + from, part.len() as int),
        s.subrange(at + from, at + from + part.len()) == part,
{
    let got = s.subrange(at + from, at + from + part.len());
    assert forall|k: int| 0 <= k < part.len() implies #[trigger] got[k] == part[k] by {
        assert(s[at + from + k] == s.subrange(at, at + whole.len())[from + k]);
        assert(part[k] == whole.subrange(from, from + part.len())[k]);
    }
    assert(got =~= part);
}

/// The byte at `at`, or `None` behind the end.
pub fn read_u8(src: &[u8], at: usize) -> (r: Option<u8>)
    ensures
        r == (if fits(src@, at as int, 1) {
            Some(src@[at as int])
        } else {
            None
        }),
{
    if at < src.len() {
        Some(src[at])
    } else {
        None
    }
}

/// The 32-bit number at `at`, or `None` where four bytes are not there.
pub fn read_u32(src: &[u8], at: usize) -> (r: Option<u32>)
    ensures
        r == (if fits(src@, at as int, 4) {
            Some(u32_at(src@, at as int))
        } else {
            None
        }),
{
    if at <= src.len() && src.len() - at >= 4 {
        Some(u32_from_le_bytes(slice_subrange(src, at, at + 4)))
    } else {
        None
    }
}

/// The 64-bit number at `at`, or `None` where eight bytes are not there.
pub fn read_u64(src: &[u8], at: usize) -> (r: Option<u64>)
    ensures
        r == (if fits(src@, at as int, 8) {
            Some(u64_at(src@, at as int))
        } else {
            None
        }),
{
    if at <= src.len() && src.len() - at >= 8 {
        Some(u64_from_le_bytes(slice_subrange(src, at, at + 8)))
    } else {
        None
    }
}

/// A copy of the `n` bytes from `at` on, or `None` where they are not all there.
pub fn read_raw(src: &[u8], at: usize, n: usize) -> (r: Option<Vec<u8>>)
    ensures
        match r {
            Some(b) => fits(src@, at as int, n as int) && b@ == src@.subrange(
                at as int,
                at + n,
            ),
            None => !fits(src@, at as int, n as int),
        },
{
    if at <= src.len() && src.len() - at >= n {
        Some(slice_to_vec(slice_subrange(src, at, at + n)))
    } else {
        None
    }
}

/// The length-prefixed byte string at `at` and the position behind it.
pub fn read_bytes(src: &[u8], at: usize) -> (r: Option<(Vec<u8>, usize)>)
    ensures
        match r {
            Some((b, end)) => bytes_readable(src@, at as int) && b@ == bytes_at(src@, at as int)
                && end == bytes_end(src@, at as int),
            None => !bytes_readable(src@, at as int),
        },
{
    let total = src.len();
    let len = match read_u32(src, at) {
        Some(len) => len as usize,
        None => { return None; },
    };
    if total - (at + 4) < len {
        return None;
    }
    match read_raw(src, at + 4, len) {
        Some(b) => Some((b, at + 4 + len)),
        None => None,
    }
}

/// `String::from_utf8` of std: the text that the bytes spell where they are valid
/// UTF-8, and no text where they are not.
#[verifier::external_body]
fn string_from_utf8(bytes: Vec<u8>) -> (r: Option<String>)
    ensures
        valid_utf8(bytes@) ==> r.is_some() && r.unwrap()@ == decode_utf8(bytes@),
        !valid_utf8(bytes@) ==> r.is_none(),
{
    match String::from_utf8(bytes) {
        Ok(text) => Some(text),
        Err(_) => None,
    }
}

/// The text at `at` and the position behind it.
pub fn read_str(src: &[u8], at: usize) -> (r: Option<(String, usize)>)
    ensures
        match r {
            Some((text, end)) => str_readable(src@, at as int) && text@ == str_at(
                src@,
                at as int,
            ) && end == bytes_end(src@, at as int),
            None => !str_readable(src@, at as int),
        },
{
    match read_bytes(src, at) {
        Some((b, end)) => match string_from_utf8(b) {
            Some(text) => Some((text, end)),
            None => None,
        },
        None => None,
    }
}

/// The counted list of 64-bit numbers at `at` and the position behind it.
pub fn read_u64_list(src: &[u8], at: usize) -> (r: Option<(Vec<u64>, usize)>)
    ensures
        match r {
            Some((v, end)) => u64_list_readable(src@, at as int) && v@ == u64_list_at(
                src@,
                at as int,
            ) && end == u64_list_end(src@, at as int),
            None => !u64_list_readable(src@, at as int),
        },
{
    let ghost total = src.len();
    let count = match read_u32(src, at) {
        Some(count) => count as usize,
        None => { return None; },
    };
    let start = at + 4;
    if (src.len() - start) / 8 < count {
        return None;
    }
    let mut v: Vec<u64> = Vec::new();
    let mut i: usize = 0;
    while i < count
        invariant
            i <= count,
            start == at + 4,
            start + 8 * count <= src@.len(),
            src@.len() == total,
            v@ == u64s_at(src@, start as int, i as int),
        decreases count - i,
    {
        let x = match read_u64(src, start + 8 * i) {
            Some(x) => x,
            None => { return None; },
        };
        v.push(x);
        i += 1;
        assert(v@ =~= u64s_at(src@, start as int, i as int));
    }
    Some((v, start + 8 * count))
}

/// The identity stored in the 32 bytes from `at` on.
pub fn read_pubkey(src: &[u8], at: usize) -> (r: Option<Pubkey>)
    ensures
        match r {
            Some(key) => fits(src@, at as int, 32) && key@ == src@.subrange(at as int, at + 32)
                && key == pubkey_at(src@, at as int),
            None => !fits(src@, at as int, 32),
        },
{
    let total = src.len();
    if !(at <= total && total - at >= 32) {
        return None;
    }
    let mut bytes: [u8; 32] = [0u8; 32];
    let mut i: usize = 0;
    while i < 32
        invariant
            i <= 32,
            at + 32 <= src@.len(),
            src@.len() == total,
            forall|j: int| 0 <= j < i ==> bytes@[j] == src@[at + j],
        decreases 32 - i,
    {
        bytes[i] = src[at + i];
        i += 1;
    }
    let key = Pubkey { bytes };
    assert(key@ =~= src@.subrange(at as int, at + 32));
    proof {
        lemma_pubkey_at(src@, at as int, key);
    }
    Some(key)
}

/// Writes one byte at `at`.
pub fn write_u8(dst: &mut [u8], at: usize, x: u8)
    requires
        fits(old(dst)@, at as int, 1),
    ensures
        final(dst)@ == overlay(old(dst)@, at as int, seq![x]),
{
    dst[at] = x;
    assert(dst@ =~= overlay(old(dst)@, at as int, seq![x]));
}

/// Writes `bytes` from `at` on.
pub fn write_raw(dst: &mut [u8], at: usize, bytes: &[u8])
    requires
        fits(old(dst)@, at as int, bytes@.len() as int),
    ensures
        final(dst)@ == overlay(old(dst)@, at as int, bytes@),
{
    let n = bytes.len();
    let ghost total = dst.len();
    let mut i: usize = 0;
    assert(dst@ =~= overlay(old(dst)@, at as int, bytes@.take(0)));
    while i < n
        invariant
            i <= n,
            n == bytes@.len(),
            at + n <= dst@.len(),
            dst@.len() == total,
            dst@ == overlay(old(dst)@, at as int, bytes@.take(i as int)),
        decreases n - i,
    {
        dst[at + i] = bytes[i];
        i += 1;
        assert(dst@ =~= overlay(old(dst)@, at as int, bytes@.take(i as int)));
    }
    assert(bytes@.take(n as int) =~= bytes@);
}

/// Writes a 32-bit number at `at`, lowest byte first.
pub fn write_u32(dst: &mut [u8], at: usize, x: u32)
    requires
        fits(old(dst)@, at as int, 4),
    ensures
        final(dst)@ == overlay(old(dst)@, at as int, spec_u32_to_le_bytes(x)),
{
    let b = u32_to_le_bytes(x);
    write_raw(dst, at, b.as_slice());
}

/// Writes a 64-bit number at `at`, lowest byte first.
pub fn write_u64(dst: &mut [u8], at: usize, x: u64)
    requires
        fits(old(dst)@, at as int, 8),
    ensures
        final(dst)@ == overlay(old(dst)@, at as int, spec_u64_to_le_bytes(x)),
{
    let b = u64_to_le_bytes(x);
    write_raw(dst, at, b.as_slice());
}

/// Writes a byte string with its length in front; returns the position behind it.
pub fn write_bytes(dst: &mut [u8], at: usize, bytes: &[u8]) -> (end: usize)
    requires
        bytes@.len() <= u32::MAX,
        fits(old(dst)@, at as int, 4 + bytes@.len() as int),
    ensures
        final(dst)@ == overlay(old(dst)@, at as int, encode_bytes(bytes@)),
        end == at + 4 + bytes@.len(),
        encode_bytes(bytes@).len() == 4 + bytes@.len(),
{
    proof {
        lemma_auto_spec_u32_to_from_le_bytes();
        assert(spec_u32_to_le_bytes(bytes@.len() as u32).len() == 4);
    }
    assert(dst.len() == dst@.len());
    write_u32(dst, at, bytes.len() as u32);
    write_raw(dst, at + 4, bytes);
    proof {
        lemma_overlay_join(
            old(dst)@,
            at as int,
            spec_u32_to_le_bytes(bytes@.len() as u32),
            bytes@,
        );
    }
    at + 4 + bytes.len()
}

/// Writes a text with the length of its UTF-8 form in front; returns the position
/// behind it.
pub fn write_str(dst: &mut [u8], at: usize, text: &str) -> (end: usize)
    requires
        encode_utf8(text@).len() <= u32::MAX,
        fits(old(dst)@, at as int, 4 + encode_utf8(text@).len() as int),
    ensures
        final(dst)@ == overlay(old(dst)@, at as int, encode_str(text@)),
        end == at + encode_str(text@).len(),
        encode_str(text@).len() == 4 + encode_utf8(text@).len(),
{
    write_bytes(dst, at, text.as_bytes())
}

/// Writes a list of 64-bit numbers with its count in front; returns the position
/// behind it.
pub fn write_u64_list(dst: &mut [u8], at: usize, v: &Vec<u64>) -> (end: usize)
    requires
        v@.len() <= u32::MAX,
        fits(old(dst)@, at as int, 4 + 8 * v@.len() as int),
    ensures
        final(dst)@ == overlay(old(dst)@, at as int, encode_u64_list(v@)),
        end == at + encode_u64_list(v@).len(),
        encode_u64_list(v@).len() == 4 + 8 * v@.len(),
{
    proof {
        lemma_auto_spec_u32_to_from_le_bytes();
        lemma_auto_spec_u64_to_from_le_bytes();
        lemma_encode_u64s(v@);
    }
    let n = v.len();
    let ghost total = dst.len();
    assert(spec_u32_to_le_bytes(n as u32).len() == 4);
    write_u32(dst, at, n as u32);
    let ghost count = spec_u32_to_le_bytes(n as u32);
    let mut i: usize = 0;
    proof {
        assert(v@.take(0) =~= Seq::<u64>::empty());
        assert(count + encode_u64s(v@.take(0)) =~= count);
    }
    while i < n
        invariant
            i <= n,
            n == v@.len(),
            count == spec_u32_to_le_bytes(n as u32),
            count.len() == 4,
            at + 4 + 8 * n <= dst@.len(),
            dst@.len() == old(dst)@.len(),
            dst@.len() == total,
            encode_u64s(v@.take(i as int)).len() == 8 * i,
            dst@ == overlay(old(dst)@, at as int, count + encode_u64s(v@.take(i as int))),
        decreases n - i,
    {
        let ghost sofar = count + encode_u64s(v@.take(i as int));
        write_u64(dst, at + 4 + 8 * i, v[i]);
        proof {
            lemma_overlay_join(old(dst)@, at as int, sofar, spec_u64_to_le_bytes(v@[i as int]));
            lemma_encode_u64s_push(v@.take(i as int), v@[i as int]);
            lemma_encode_u64s(v@.take(i + 1));
            assert(v@.take(i as int).push(v@[i as int]) =~= v@.take(i + 1));
            assert(sofar + spec_u64_to_le_bytes(v@[i as int]) =~= count + encode_u64s(
                v@.take(i + 1),
            ));
        }
        i += 1;
    }
    proof {
        assert(v@.take(n as int) =~= v@);
    }
    at + 4 + 8 * n
}

/// Writes the 32 bytes of an identity from `at` on.
pub fn write_pubkey(dst: &mut [u8], at: usize, key: &Pubkey)
    requires
        fits(old(dst)@, at as int, 32),
    ensures
        final(dst)@ == overlay(old(dst)@, at as int, key@),
{
    let bytes = key.to_bytes();
    write_raw(dst, at, bytes.as_slice());
}

} // verus!
