//! 32-bit word operations the cipher is built from: rotation and the
//! little-endian packing of bytes into words, together with the cancellation
//! lemmas that make the inverse block transform exact.

use vstd::prelude::*;

verus! {

/// `x` rotated left by `n` bit places; the amount counts modulo 32.
pub open spec fn rotl(x: u32, n: u32) -> u32 {
    let s: u32 = (n % 32) as u32;
    if s == 0 {
        x
    } else {
        (x << s) | (x >> ((32 - s) as u32))
    }
}

/// `x` rotated right by `n` bit places; the amount counts modulo 32.
pub open spec fn rotr(x: u32, n: u32) -> u32 {
    let s: u32 = (n % 32) as u32;
    if s == 0 {
        x
    } else {
        (x >> s) | (x << ((32 - s) as u32))
    }
}

/// The four bytes `b0..b3` read as one little-endian 32-bit word.
pub open spec fn le_word(b0: u8, b1: u8, b2: u8, b3: u8) -> u32 {
    (b0 as u32) | ((b1 as u32) << 8) | ((b2 as u32) << 16) | ((b3 as u32) << 24)
}

/// Byte `k` of the little-endian encoding of `x`, for `0 <= k < 4`.
pub open spec fn word_byte(x: u32, k: int) -> u8 {
    if k == 0 {
        (x & 0xff) as u8
    } else if k == 1 {
        ((x >> 8) & 0xff) as u8
    } else if k == 2 {
        ((x >> 16) & 0xff) as u8
    } else {
        ((x >> 24) & 0xff) as u8
    }
}

pub fn rotate_left(x: u32, n: u32) -> (r: u32)
    ensures
        r == rotl(x, n),
{
    let s: u32 = n % 32;
    if s == 0 {
        x
    } else {
        (x << s) | (x >> (32 - s))
    }
}

pub fn rotate_right(x: u32, n: u32) -> (r: u32)
    ensures
        r == rotr(x, n),
{
    let s: u32 = n % 32;
    if s == 0 {
        x
    } else {
        (x >> s) | (x << (32 - s))
    }
}

/// Rotating right undoes rotating left by the same amount.
pub proof fn lemma_rot_cancel(x: u32, n: u32)
    ensures
        rotr(rotl(x, n), n) == x,
{
    let s: u32 = (n % 32) as u32;
    if s != 0 {
        let y: u32 = (x << s) | (x >> ((32 - s) as u32));
        assert(((y >> s) | (y << ((32 - s) as u32))) == x) by (bit_vector)
            requires
                y == (x << s) | (x >> ((32 - s) as u32)),
                0 < s < 32,
        ;
    }
}

/// Wrapping subtraction undoes wrapping addition of the same word.
pub proof fn lemma_wrapping_cancel(x: u32, k: u32)
    ensures
        x.wrapping_add(k).wrapping_sub(k) == x,
{
}

/// Xoring twice with the same word is the identity.
pub proof fn lemma_xor_cancel(x: u32, y: u32)
    ensures
        (x ^ y) ^ y == x,
{
    assert((x ^ y) ^ y == x) by (bit_vector);
}

/// Reading the four little-endian bytes of a word gives the word back.
pub proof fn lemma_word_of_bytes_cancel(x: u32)
    ensures
        le_word(word_byte(x, 0), word_byte(x, 1), word_byte(x, 2), word_byte(x, 3)) == x,
{
    assert(le_word(
        (x & 0xff) as u8,
        ((x >> 8) & 0xff) as u8,
        ((x >> 16) & 0xff) as u8,
        ((x >> 24) & 0xff) as u8,
    ) == x) by (bit_vector);
}

/// Each byte of the word packed from four bytes is the byte it came from.
pub proof fn lemma_bytes_of_word_cancel(b0: u8, b1: u8, b2: u8, b3: u8)
    ensures
        word_byte(le_word(b0, b1, b2, b3), 0) == b0,
        word_byte(le_word(b0, b1, b2, b3), 1) == b1,
        word_byte(le_word(b0, b1, b2, b3), 2) == b2,
        word_byte(le_word(b0, b1, b2, b3), 3) == b3,
{
    let x = le_word(b0, b1, b2, b3);
    assert((x & 0xff) as u8 == b0 && ((x >> 8) & 0xff) as u8 == b1 && ((x >> 16) & 0xff) as u8
        == b2 && ((x >> 24) & 0xff) as u8 == b3) by (bit_vector)
        requires
            x == (b0 as u32) | ((b1 as u32) << 8) | ((b2 as u32) << 16) | ((b3 as u32) << 24),
    ;
}

/// Packs four bytes into a little-endian 32-bit word.
pub fn word_of_bytes(b0: u8, b1: u8, b2: u8, b3: u8) -> (r: u32)
    ensures
        r == le_word(b0, b1, b2, b3),
{
    (b0 as u32) | ((b1 as u32) << 8) | ((b2 as u32) << 16) | ((b3 as u32) << 24)
}

/// Extracts byte `k` of the little-endian encoding of `x`.
pub fn byte_of_word(x: u32, k: u32) -> (r: u8)
    requires
        k < 4,
    ensures
        r == word_byte(x, k as int),
{
    if k == 0 {
        #[verifier::truncate] ((x & 0xff) as u8)
    } else if k == 1 {
        #[verifier::truncate] (((x >> 8) & 0xff) as u8)
    } else if k == 2 {
        #[verifier::truncate] (((x >> 16) & 0xff) as u8)
    } else {
        #[verifier::truncate] (((x >> 24) & 0xff) as u8)
    }
}

} // verus!
