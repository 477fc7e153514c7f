//! Byte-level primitives shared by the codecs: fixed-width integers under a
//! byte-order flag, and hexadecimal text.
//!
//! Every exec reader is specified against a total spec-level parser over
//! `Seq<u8>` that returns the decoded value and the bytes consumed, or
//! `None` when the input is too short. Every exec writer is specified
//! against a spec-level encoder that returns the exact byte sequence.

use vstd::prelude::*;
use crate::error::Error;

verus! {

// --- spec encoders (the write side is always little-endian) ---

/// The four little-endian bytes of a 32-bit integer.
#[verifier::opaque]
pub open spec fn enc_u32_le(v: u32) -> Seq<u8> {
    seq![
        (v & 0xff) as u8,
        ((v >> 8) & 0xff) as u8,
        ((v >> 16) & 0xff) as u8,
        ((v >> 24) & 0xff) as u8,
    ]
}

/// The eight little-endian bytes of a 64-bit integer.
#[verifier::opaque]
pub open spec fn enc_u64_le(v: u64) -> Seq<u8> {
    seq![
        (v & 0xff) as u8,
        ((v >> 8) & 0xff) as u8,
        ((v >> 16) & 0xff) as u8,
        ((v >> 24) & 0xff) as u8,
        ((v >> 32) & 0xff) as u8,
        ((v >> 40) & 0xff) as u8,
        ((v >> 48) & 0xff) as u8,
        ((v >> 56) & 0xff) as u8,
    ]
}

/// A signed 32-bit integer is written as its two's-complement bits.
pub open spec fn enc_i32_le(v: i32) -> Seq<u8> {
    enc_u32_le(v as u32)
}

// --- spec parsers ---

/// The 32-bit integer denoted by four bytes given least-significant first.
#[verifier::opaque]
pub open spec fn u32_le_of(b0: u8, b1: u8, b2: u8, b3: u8) -> u32 {
    (b0 as u32) | ((b1 as u32) << 8) | ((b2 as u32) << 16) | ((b3 as u32) << 24)
}

/// The 64-bit integer denoted by eight bytes given least-significant first.
#[verifier::opaque]
pub open spec fn u64_le_of(
    b0: u8,
    b1: u8,
    b2: u8,
    b3: u8,
    b4: u8,
    b5: u8,
    b6: u8,
    b7: u8,
) -> u64 {
    (b0 as u64) | ((b1 as u64) << 8) | ((b2 as u64) << 16) | ((b3 as u64) << 24) | ((b4 as u64)
        << 32) | ((b5 as u64) << 40) | ((b6 as u64) << 48) | ((b7 as u64) << 56)
}

/// Parse a 32-bit integer under the byte-order flag `be`.
pub open spec fn p_u32(s: Seq<u8>, be: bool) -> Option<(u32, nat)> {
    if s.len() < 4 {
        None
    } else if be {
        Some((u32_le_of(s[3], s[2], s[1], s[0]), 4nat))
    } else {
        Some((u32_le_of(s[0], s[1], s[2], s[3]), 4nat))
    }
}

/// Parse a signed 32-bit integer: the same bits, reinterpreted.
pub open spec fn p_i32(s: Seq<u8>, be: bool) -> Option<(i32, nat)> {
    match p_u32(s, be) {
        Some((v, n)) => Some((v as i32, n)),
        None => None,
    }
}

/// Parse a 64-bit integer under the byte-order flag `be`.
pub open spec fn p_u64(s: Seq<u8>, be: bool) -> Option<(u64, nat)> {
    if s.len() < 8 {
        None
    } else if be {
        Some((u64_le_of(s[7], s[6], s[5], s[4], s[3], s[2], s[1], s[0]), 8nat))
    } else {
        Some((u64_le_of(s[0], s[1], s[2], s[3], s[4], s[5], s[6], s[7]), 8nat))
    }
}

// --- encode/parse round trips ---

/// Parsing little-endian bytes just written gives the integer back.
pub proof fn lemma_u32_le_roundtrip(v: u32, rest: Seq<u8>)
    ensures
        enc_u32_le(v).len() == 4,
        p_u32(enc_u32_le(v) + rest, false) == Some((v, 4nat)),
{
    reveal(enc_u32_le);
    reveal(u32_le_of);
    let s = enc_u32_le(v) + rest;
    assert(s[0] == (v & 0xff) as u8);
    assert(s[1] == ((v >> 8) & 0xff) as u8);
    assert(s[2] == ((v >> 16) & 0xff) as u8);
    assert(s[3] == ((v >> 24) & 0xff) as u8);
    assert(u32_le_of(
        (v & 0xff) as u8,
        ((v >> 8) & 0xff) as u8,
        ((v >> 16) & 0xff) as u8,
        ((v >> 24) & 0xff) as u8,
    ) == v) by (bit_vector);
}

/// Parsing the bytes of a signed integer gives the integer back.
pub proof fn lemma_i32_le_roundtrip(v: i32, rest: Seq<u8>)
    ensures
        enc_i32_le(v).len() == 4,
        p_i32(enc_i32_le(v) + rest, false) == Some((v, 4nat)),
{
    lemma_u32_le_roundtrip(v as u32, rest);
    assert((v as u32) as i32 == v) by (bit_vector);
}

/// Parsing little-endian bytes just written gives the integer back.
pub proof fn lemma_u64_le_roundtrip(v: u64, rest: Seq<u8>)
    ensures
        enc_u64_le(v).len() == 8,
        p_u64(enc_u64_le(v) + rest, false) == Some((v, 8nat)),
{
    reveal(enc_u64_le);
    reveal(u64_le_of);
    let s = enc_u64_le(v) + rest;
    assert(s[0] == (v & 0xff) as u8);
    assert(s[1] == ((v >> 8) & 0xff) as u8);
    assert(s[2] == ((v >> 16) & 0xff) as u8);
    assert(s[3] == ((v >> 24) & 0xff) as u8);
    assert(s[4] == ((v >> 32) & 0xff) as u8);
    assert(s[5] == ((v >> 40) & 0xff) as u8);
    assert(s[6] == ((v >> 48) & 0xff) as u8);
    assert(s[7] == ((v >> 56) & 0xff) as u8);
    assert(u64_le_of(
        (v & 0xff) as u8,
        ((v >> 8) & 0xff) as u8,
        ((v >> 16) & 0xff) as u8,
        ((v >> 24) & 0xff) as u8,
        ((v >> 32) & 0xff) as u8,
        ((v >> 40) & 0xff) as u8,
        ((v >> 48) & 0xff) as u8,
        ((v >> 56) & 0xff) as u8,
    ) == v) by (bit_vector);
}

// --- exec readers ---

/// Read one byte and advance the cursor; `Read` error at end of input.
pub(crate) fn read_byte(bytes: &Vec<u8>, pos: &mut usize) -> (r: Result<u8, Error>)
    requires
        *old(pos) <= bytes@.len(),
    ensures
        *final(pos) <= bytes@.len(),
        match r {
            Ok(b) => *old(pos) < bytes@.len() && b == bytes@[*old(pos) as int] && *final(pos) == *old(pos) + 1,
            Err(e) => e is Read && *old(pos) == bytes@.len() && *final(pos) == *old(pos),
        },
{
    if *pos < bytes.len() {
        let b = bytes[*pos];
        *pos = *pos + 1;
        Ok(b)
    } else {
        Err(Error::Read("unexpected end of input".to_owned()))
    }
}

/// Read a 32-bit integer under the byte-order flag `is_be`.
pub(crate) fn read_u32(bytes: &Vec<u8>, pos: &mut usize, is_be: bool) -> (r: Result<u32, Error>)
    requires
        *old(pos) <= bytes@.len(),
    ensures
        *final(pos) <= bytes@.len(),
        *final(pos) >= *old(pos),
        match r {
            Ok(v) => p_u32(bytes@.skip(*old(pos) as int), is_be) == Some((v, 4nat)) && *final(pos) == *old(pos) + 4,
            Err(e) => e is Read && p_u32(bytes@.skip(*old(pos) as int), is_be) is None,
        },
{
    let ghost s = bytes@.skip(*old(pos) as int);
    proof {
        reveal(u32_le_of);
    }
    let b0 = read_byte(bytes, pos)?;
    let b1 = read_byte(bytes, pos)?;
    let b2 = read_byte(bytes, pos)?;
    let b3 = read_byte(bytes, pos)?;
    proof {
        assert(s.len() >= 4);
        assert(s[0] == b0 && s[1] == b1 && s[2] == b2 && s[3] == b3);
    }
    let v: u32 = if is_be {
        (b3 as u32) | ((b2 as u32) << 8) | ((b1 as u32) << 16) | ((b0 as u32) << 24)
    } else {
        (b0 as u32) | ((b1 as u32) << 8) | ((b2 as u32) << 16) | ((b3 as u32) << 24)
    };
    Ok(v)
}

/// Read a signed 32-bit integer: the same bits, reinterpreted.
pub(crate) fn read_i32(bytes: &Vec<u8>, pos: &mut usize, is_be: bool) -> (r: Result<i32, Error>)
    requires
        *old(pos) <= bytes@.len(),
    ensures
        *final(pos) <= bytes@.len(),
        *final(pos) >= *old(pos),
        match r {
            Ok(v) => p_i32(bytes@.skip(*old(pos) as int), is_be) == Some((v, 4nat)) && *final(pos) == *old(pos) + 4,
            Err(e) => e is Read && p_i32(bytes@.skip(*old(pos) as int), is_be) is None,
        },
{
    let v = read_u32(bytes, pos, is_be)?;
    Ok(v as i32)
}

/// Read a 64-bit integer under the byte-order flag `is_be`.
pub(crate) fn read_u64(bytes: &Vec<u8>, pos: &mut usize, is_be: bool) -> (r: Result<u64, Error>)
    requires
        *old(pos) <= bytes@.len(),
    ensures
        *final(pos) <= bytes@.len(),
        *final(pos) >= *old(pos),
        match r {
            Ok(v) => p_u64(bytes@.skip(*old(pos) as int), is_be) == Some((v, 8nat)) && *final(pos) == *old(pos) + 8,
            Err(e) => e is Read && p_u64(bytes@.skip(*old(pos) as int), is_be) is None,
        },
{
    let ghost s = bytes@.skip(*old(pos) as int);
    proof {
        reveal(u64_le_of);
    }
    let b0 = read_byte(bytes, pos)?;
    let b1 = read_byte(bytes, pos)?;
    let b2 = read_byte(bytes, pos)?;
    let b3 = read_byte(bytes, pos)?;
    let b4 = read_byte(bytes, pos)?;
    let b5 = read_byte(bytes, pos)?;
    let b6 = read_byte(bytes, pos)?;
    let b7 = read_byte(bytes, pos)?;
    proof {
        assert(s.len() >= 8);
        assert(s[0] == b0 && s[1] == b1 && s[2] == b2 && s[3] == b3);
        assert(s[4] == b4 && s[5] == b5 && s[6] == b6 && s[7] == b7);
    }
    let v: u64 = if is_be {
        (b7 as u64) | ((b6 as u64) << 8) | ((b5 as u64) << 16) | ((b4 as u64) << 24) | ((b3 as u64)
            << 32) | ((b2 as u64) << 40) | ((b1 as u64) << 48) | ((b0 as u64) << 56)
    } else {
        (b0 as u64) | ((b1 as u64) << 8) | ((b2 as u64) << 16) | ((b3 as u64) << 24) | ((b4 as u64)
            << 32) | ((b5 as u64) << 40) | ((b6 as u64) << 48) | ((b7 as u64) << 56)
    };
    Ok(v)
}

// --- exec writers (always little-endian) ---

/// Append the four little-endian bytes of `v`.
pub(crate) fn write_u32_le(out: &mut Vec<u8>, v: u32)
    ensures
        final(out)@ == old(out)@ + enc_u32_le(v),
{
    out.push((v & 0xff) as u8);
    out.push(((v >> 8) & 0xff) as u8);
    out.push(((v >> 16) & 0xff) as u8);
    out.push(((v >> 24) & 0xff) as u8);
    proof {
        reveal(enc_u32_le);
        assert(out@ =~= old(out)@ + enc_u32_le(v));
    }
}

/// Append the bits of a signed 32-bit integer, little-endian.
pub(crate) fn write_i32_le(out: &mut Vec<u8>, v: i32)
    ensures
        final(out)@ == old(out)@ + enc_i32_le(v),
{
    write_u32_le(out, v as u32);
}

// --- hexadecimal text ---

/// The uppercase hexadecimal digit of a value below 16.
pub open spec fn hex_digit(n: int) -> char
    recommends
        0 <= n < 16,
{
    if n < 10 {
        (n + 48) as char
    } else {
        (n + 55) as char
    }
}

/// The uppercase hexadecimal spelling of a byte sequence, two digits per
/// byte, high nibble first.
pub open spec fn hex_upper(s: Seq<u8>) -> Seq<char>
    decreases s.len(),
{
    if s.len() == 0 {
        Seq::empty()
    } else {
        hex_upper(s.drop_last()) + seq![
            hex_digit(s.last() as int / 16),
            hex_digit(s.last() as int % 16),
        ]
    }
}

/// Whether a character is an uppercase hexadecimal digit.
pub open spec fn is_hex_upper(c: char) -> bool {
    (48 <= c as int && c as int <= 57) || (65 <= c as int && c as int <= 70)
}

/// The value of an uppercase hexadecimal digit: digits, then letters
/// from 55 up, exactly as the decoder computes it.
pub open spec fn hex_val_upper(c: char) -> int {
    if c as int <= 57 {
        c as int - 48
    } else {
        c as int - 55
    }
}

/// The bytes an uppercase hexadecimal text denotes, one per digit pair.
pub open spec fn unhex_upper(s: Seq<char>) -> Seq<u8>
    decreases s.len(),
{
    if s.len() < 2 {
        Seq::empty()
    } else {
        unhex_upper(s.take(s.len() - 2)).push(
            (hex_val_upper(s[s.len() - 2]) * 16 + hex_val_upper(s[s.len() - 1])) as u8,
        )
    }
}

/// Whether a character is a lowercase hexadecimal digit.
pub open spec fn is_hex_lower(c: char) -> bool {
    (48 <= c as int && c as int <= 57) || (97 <= c as int && c as int <= 102)
}

/// The value of a lowercase hexadecimal digit.
pub open spec fn hex_val_lower(c: char) -> int {
    if c as int <= 57 {
        c as int - 48
    } else {
        c as int - 87
    }
}

/// The bytes a lowercase hexadecimal text denotes, one per digit pair.
pub open spec fn unhex_lower(s: Seq<char>) -> Seq<u8>
    decreases s.len(),
{
    if s.len() < 2 {
        Seq::empty()
    } else {
        unhex_lower(s.take(s.len() - 2)).push(
            (hex_val_lower(s[s.len() - 2]) * 16 + hex_val_lower(s[s.len() - 1])) as u8,
        )
    }
}

/// Hexadecimal text decodes back to the exact bytes it spelt.
pub proof fn lemma_hex_roundtrip(b: Seq<u8>)
    ensures
        hex_upper(b).len() == 2 * b.len(),
        unhex_upper(hex_upper(b)) == b,
        forall|i: int| 0 <= i < hex_upper(b).len() ==> is_hex_upper(#[trigger] hex_upper(b)[i]),
    decreases b.len(),
{
    if b.len() == 0 {
        assert(unhex_upper(hex_upper(b)) =~= b);
    } else {
        lemma_hex_roundtrip(b.drop_last());
        let q = hex_upper(b);
        let hb = b.last() as int / 16;
        let lb = b.last() as int % 16;
        assert(0 <= hb < 16 && 0 <= lb < 16);
        assert(q.take(q.len() - 2) =~= hex_upper(b.drop_last()));
        assert(q[q.len() - 2] == hex_digit(hb) && q[q.len() - 1] == hex_digit(lb));
        assert(hex_val_upper(hex_digit(hb)) == hb);
        assert(hex_val_upper(hex_digit(lb)) == lb);
        assert(hb * 16 + lb == b.last());
        assert(unhex_upper(q) =~= b);
        assert forall|i: int| 0 <= i < q.len() implies is_hex_upper(#[trigger] q[i]) by {
            if i < q.len() - 2 {
                assert(q[i] == hex_upper(b.drop_last())[i]);
            }
        }
    }
}

/// Relies on String::from_utf8: bytes below 0x80 are valid UTF-8, one
/// character per byte.
#[verifier::external_body]
fn ascii_to_string(bytes: Vec<u8>) -> (r: String)
    requires
        forall|i: int| 0 <= i < bytes@.len() ==> bytes@[i] < 0x80,
    ensures
        r@ == bytes@.map_values(|b: u8| b as char),
{
    String::from_utf8(bytes).unwrap()
}

/// Spell a byte sequence in uppercase hexadecimal.
#[verifier::loop_isolation(false)]
pub(crate) fn to_hex_upper(bytes: &Vec<u8>) -> (r: String)
    ensures
        r@ == hex_upper(bytes@),
{
    let mut acc: Vec<u8> = Vec::new();
    let mut i: usize = 0;
    while i < bytes.len()
        invariant
            i <= bytes@.len(),
            forall|k: int| 0 <= k < acc@.len() ==> acc@[k] < 0x80,
            acc@.map_values(|b: u8| b as char) == hex_upper(bytes@.take(i as int)),
        decreases bytes@.len() - i,
    {
        let b = bytes[i];
        let hb = b >> 4;
        let lb = b & 0x0f;
        proof {
            assert(hb == b as int / 16 && hb < 16) by (bit_vector)
                requires
                    hb == b >> 4,
            ;
            assert(lb == b as int % 16 && lb < 16) by (bit_vector)
                requires
                    lb == b & 0x0f,
            ;
        }
        let c1: u8 = if hb < 10 {
            hb + 48
        } else {
            hb + 55
        };
        let c2: u8 = if lb < 10 {
            lb + 48
        } else {
            lb + 55
        };
        let ghost acc0 = acc@;
        acc.push(c1);
        acc.push(c2);
        i = i + 1;
        proof {
            assert(bytes@.take(i as int).drop_last() =~= bytes@.take(i - 1));
            assert(bytes@.take(i as int).last() == b);
            assert(acc@.map_values(|x: u8| x as char) =~= acc0.map_values(|x: u8| x as char)
                + seq![c1 as char, c2 as char]);
        }
    }
    proof {
        assert(bytes@.take(bytes@.len() as int) =~= bytes@);
    }
    ascii_to_string(acc)
}

/// Append the eight little-endian bytes of `v`.
pub(crate) fn write_u64_le(out: &mut Vec<u8>, v: u64)
    ensures
        final(out)@ == old(out)@ + enc_u64_le(v),
{
    out.push((v & 0xff) as u8);
    out.push(((v >> 8) & 0xff) as u8);
    out.push(((v >> 16) & 0xff) as u8);
    out.push(((v >> 24) & 0xff) as u8);
    out.push(((v >> 32) & 0xff) as u8);
    out.push(((v >> 40) & 0xff) as u8);
    out.push(((v >> 48) & 0xff) as u8);
    out.push(((v >> 56) & 0xff) as u8);
    proof {
        reveal(enc_u64_le);
        assert(out@ =~= old(out)@ + enc_u64_le(v));
    }
}

} // verus!
