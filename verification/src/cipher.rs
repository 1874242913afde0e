//! The block cipher context: the round-key table with its round count,
//! the two inverse 64-bit block transforms, and the proofs that tie them
//! together — decryption undoes encryption on every block.

use vstd::prelude::*;
use crate::schedule::round_keys;
use crate::schedule::expand_key;
use crate::words::le_word;
use crate::words::word_byte;
use crate::words::rotl;
use crate::words::rotr;
use crate::words::lemma_rot_cancel;
use crate::words::lemma_wrapping_cancel;
use crate::words::lemma_xor_cancel;
use crate::words::lemma_word_of_bytes_cancel;
use crate::words::lemma_bytes_of_word_cancel;
use crate::words::word_of_bytes;
use crate::words::byte_of_word;
use crate::words::rotate_left;
use crate::words::rotate_right;
use crate::schedule::lemma_round_keys_len;

verus! {

/// The one failure of construction: a parameter outside the caller's
/// contract. Raised only by [`RC5::new`]; the block transforms are total.
#[derive(Clone, Copy, Debug, PartialEq, Eq, Structural)]
pub enum InvalidParameter {
    /// The round count was zero; it must be positive.
    RoundCountZero,
    /// The key was empty; it must hold at least one byte.
    EmptyKey,
}

/// One encryption round: each half is xored with the other, rotated by it,
/// and shifted by a fresh round key — `b` already seeing the new `a`.
pub open spec fn enc_round(a: u32, b: u32, k0: u32, k1: u32) -> (u32, u32) {
    let a1 = rotl(a ^ b, b).wrapping_add(k0);
    let b1 = rotl(b ^ a1, a1).wrapping_add(k1);
    (a1, b1)
}

/// One decryption round: the exact inverse of [`enc_round`], undoing `b`
/// first so that `a`'s step sees the value encryption used.
pub open spec fn dec_round(a: u32, b: u32, k0: u32, k1: u32) -> (u32, u32) {
    let b1 = rotr(b.wrapping_sub(k1), a) ^ a;
    let a1 = rotr(a.wrapping_sub(k0), b1) ^ b1;
    (a1, b1)
}

/// The block halves after encryption rounds `1..=r`, in that order.
pub open spec fn enc_rounds(a: u32, b: u32, keys: Seq<u32>, r: int) -> (u32, u32)
    decreases r,
{
    if r <= 0 {
        (a, b)
    } else {
        let p = enc_rounds(a, b, keys, r - 1);
        enc_round(p.0, p.1, keys[2 * r], keys[2 * r + 1])
    }
}

/// The block halves after decryption rounds `r..=1`, in that order.
pub open spec fn dec_rounds(a: u32, b: u32, keys: Seq<u32>, r: int) -> (u32, u32)
    decreases r,
{
    if r <= 0 {
        (a, b)
    } else {
        let p = dec_round(a, b, keys[2 * r], keys[2 * r + 1]);
        dec_rounds(p.0, p.1, keys, r - 1)
    }
}

/// The encrypted halves of a block: whitening with the first two round
/// keys, then the full sequence of rounds.
pub open spec fn enc_words(a: u32, b: u32, keys: Seq<u32>, rounds: u32) -> (u32, u32) {
    enc_rounds(a.wrapping_add(keys[0]), b.wrapping_add(keys[1]), keys, rounds as int)
}

/// The decrypted halves of a block: the rounds run backwards, then the
/// whitening taken off.
pub open spec fn dec_words(a: u32, b: u32, keys: Seq<u32>, rounds: u32) -> (u32, u32) {
    let p = dec_rounds(a, b, keys, rounds as int);
    (p.0.wrapping_sub(keys[0]), p.1.wrapping_sub(keys[1]))
}

/// An 8-byte block encrypted under the table `keys`: the two little-endian
/// word halves transformed and written back in the same order.
pub open spec fn encrypted_block(keys: Seq<u32>, rounds: u32, x: Seq<u8>) -> Seq<u8>
    recommends
        x.len() == 8,
{
    let p = enc_words(
        le_word(x[0], x[1], x[2], x[3]),
        le_word(x[4], x[5], x[6], x[7]),
        keys,
        rounds,
    );
    seq![
        word_byte(p.0, 0),
        word_byte(p.0, 1),
        word_byte(p.0, 2),
        word_byte(p.0, 3),
        word_byte(p.1, 0),
        word_byte(p.1, 1),
        word_byte(p.1, 2),
        word_byte(p.1, 3),
    ]
}

/// An 8-byte block decrypted under the table `keys`.
pub open spec fn decrypted_block(keys: Seq<u32>, rounds: u32, x: Seq<u8>) -> Seq<u8>
    recommends
        x.len() == 8,
{
    let p = dec_words(
        le_word(x[0], x[1], x[2], x[3]),
        le_word(x[4], x[5], x[6], x[7]),
        keys,
        rounds,
    );
    seq![
        word_byte(p.0, 0),
        word_byte(p.0, 1),
        word_byte(p.0, 2),
        word_byte(p.0, 3),
        word_byte(p.1, 0),
        word_byte(p.1, 1),
        word_byte(p.1, 2),
        word_byte(p.1, 3),
    ]
}

/// One decryption round undoes one encryption round under the same two keys.
proof fn lemma_round_cancel(a: u32, b: u32, k0: u32, k1: u32)
    ensures
        dec_round(enc_round(a, b, k0, k1).0, enc_round(a, b, k0, k1).1, k0, k1) == (a, b),
{
    let a1 = rotl(a ^ b, b).wrapping_add(k0);
    let b1 = rotl(b ^ a1, a1).wrapping_add(k1);
    lemma_wrapping_cancel(rotl(b ^ a1, a1), k1);
    lemma_rot_cancel(b ^ a1, a1);
    lemma_xor_cancel(b, a1);
    assert(rotr(b1.wrapping_sub(k1), a1) ^ a1 == b);
    lemma_wrapping_cancel(rotl(a ^ b, b), k0);
    lemma_rot_cancel(a ^ b, b);
    lemma_xor_cancel(a, b);
    assert(rotr(a1.wrapping_sub(k0), b) ^ b == a);
}

/// Running the decryption rounds backwards undoes the encryption rounds.
proof fn lemma_rounds_cancel(a: u32, b: u32, keys: Seq<u32>, r: int)
    ensures
        dec_rounds(enc_rounds(a, b, keys, r).0, enc_rounds(a, b, keys, r).1, keys, r) == (a, b),
    decreases r,
{
    if r > 0 {
        let p = enc_rounds(a, b, keys, r - 1);
        lemma_round_cancel(p.0, p.1, keys[2 * r], keys[2 * r + 1]);
        lemma_rounds_cancel(a, b, keys, r - 1);
    }
}

/// Decrypting the two encrypted halves of a block gives the halves back.
proof fn lemma_words_cancel(a: u32, b: u32, keys: Seq<u32>, rounds: u32)
    ensures
        dec_words(enc_words(a, b, keys, rounds).0, enc_words(a, b, keys, rounds).1, keys, rounds)
            == (a, b),
{
    lemma_rounds_cancel(a.wrapping_add(keys[0]), b.wrapping_add(keys[1]), keys, rounds as int);
    lemma_wrapping_cancel(a, keys[0]);
    lemma_wrapping_cancel(b, keys[1]);
}

/// The cipher context: the round count and the round-key table derived
/// from the secret key at construction, immutable from then on.
pub struct RC5 {
    rounds: u32,
    sub_keys: Vec<u32>,
}

impl RC5 {
    /// The context's round count.
    pub closed spec fn round_count(&self) -> u32 {
        self.rounds
    }

    /// The context's round-key table.
    pub closed spec fn key_table(&self) -> Seq<u32> {
        self.sub_keys@
    }

    /// A valid context: a positive, machine-bounded round count and a
    /// table of exactly `2 * (rounds + 1)` words.
    pub open spec fn wf(&self) -> bool {
        &&& 1 <= self.round_count() <= 0x0fff_ffff
        &&& self.key_table().len() == 2 * (self.round_count() + 1)
    }

    /// The context that construction from `key` and `rounds` yields.
    pub open spec fn built_from(&self, key: Seq<u8>, rounds: u32) -> bool {
        &&& self.round_count() == rounds
        &&& self.key_table() == round_keys(key, rounds)
    }

    /// Builds a context from a secret key and a round count, expanding the
    /// key into the round-key table. Fails, and builds nothing, exactly when
    /// the round count is zero or the key is empty. The two upper bounds
    /// only keep the table length within machine range.
    pub fn new(key: &[u8], rounds: u32) -> (r: Result<RC5, InvalidParameter>)
        requires
            rounds <= 0x0fff_ffff,
            key@.len() <= 0x0fff_ffff,
        ensures
            match r {
                Ok(c) => rounds >= 1 && key@.len() >= 1 && c.wf() && c.built_from(key@, rounds),
                Err(InvalidParameter::RoundCountZero) => rounds == 0,
                Err(InvalidParameter::EmptyKey) => rounds >= 1 && key@.len() == 0,
            },
    {
        if rounds == 0 {
            return Err(InvalidParameter::RoundCountZero);
        }
        if key.len() == 0 {
            return Err(InvalidParameter::EmptyKey);
        }
        let s = expand_key(key, rounds);
        proof {
            lemma_round_keys_len(key@, rounds);
        }
        Ok(RC5 { rounds, sub_keys: s })
    }

    /// Encrypts one 8-byte block in place: the two little-endian word
    /// halves are whitened and then mixed for the full round count.
    pub fn encrypt_block(&self, block: &mut [u8; 8])
        requires
            self.wf(),
        ensures
            final(block)@ == encrypted_block(self.key_table(), self.round_count(), old(block)@),
    {
        let mut a = word_of_bytes(block[0], block[1], block[2], block[3]);
        let mut b = word_of_bytes(block[4], block[5], block[6], block[7]);
        let ghost keys = self.key_table();

        a = a.wrapping_add(self.sub_keys[0]);
        b = b.wrapping_add(self.sub_keys[1]);
        let ghost aw = a;
        let ghost bw = b;

        let mut r: u32 = 1;
        while r <= self.rounds
            invariant
                self.wf(),
                keys == self.key_table(),
                1 <= r <= self.rounds + 1,
                (a, b) == enc_rounds(aw, bw, keys, r - 1),
            decreases self.rounds + 1 - r,
        {
            let idx = 2 * (r as usize);
            a = rotate_left(a ^ b, b).wrapping_add(self.sub_keys[idx]);
            b = rotate_left(b ^ a, a).wrapping_add(self.sub_keys[idx + 1]);
            proof {
                assert(enc_rounds(aw, bw, keys, r as int) == enc_round(
                    enc_rounds(aw, bw, keys, r - 1).0,
                    enc_rounds(aw, bw, keys, r - 1).1,
                    keys[2 * (r as int)],
                    keys[2 * (r as int) + 1],
                ));
            }
            r = r + 1;
        }
        assert((a, b) == enc_words(
            le_word(old(block)@[0], old(block)@[1], old(block)@[2], old(block)@[3]),
            le_word(old(block)@[4], old(block)@[5], old(block)@[6], old(block)@[7]),
            keys,
            self.round_count(),
        ));

        block[0] = byte_of_word(a, 0);
        block[1] = byte_of_word(a, 1);
        block[2] = byte_of_word(a, 2);
        block[3] = byte_of_word(a, 3);
        block[4] = byte_of_word(b, 0);
        block[5] = byte_of_word(b, 1);
        block[6] = byte_of_word(b, 2);
        block[7] = byte_of_word(b, 3);
        assert(block@ =~= encrypted_block(keys, self.round_count(), old(block)@));
    }

    /// Decrypts one 8-byte block in place: the rounds are undone from the
    /// last to the first, then the whitening is taken off.
    pub fn decrypt_block(&self, block: &mut [u8; 8])
        requires
            self.wf(),
        ensures
            final(block)@ == decrypted_block(self.key_table(), self.round_count(), old(block)@),
    {
        let mut a = word_of_bytes(block[0], block[1], block[2], block[3]);
        let mut b = word_of_bytes(block[4], block[5], block[6], block[7]);
        let ghost keys = self.key_table();
        let ghost a0 = a;
        let ghost b0 = b;

        let mut r: u32 = self.rounds;
        while r >= 1
            invariant
                self.wf(),
                keys == self.key_table(),
                r <= self.rounds,
                dec_rounds(a, b, keys, r as int) == dec_rounds(
                    a0,
                    b0,
                    keys,
                    self.round_count() as int,
                ),
            decreases r,
        {
            let idx = 2 * (r as usize);
            let ghost a_before = a;
            let ghost b_before = b;
            b = rotate_right(b.wrapping_sub(self.sub_keys[idx + 1]), a) ^ a;
            a = rotate_right(a.wrapping_sub(self.sub_keys[idx]), b) ^ b;
            proof {
                assert(dec_rounds(a_before, b_before, keys, r as int) == dec_rounds(
                    a,
                    b,
                    keys,
                    r - 1,
                ));
            }
            r = r - 1;
        }
        b = b.wrapping_sub(self.sub_keys[1]);
        a = a.wrapping_sub(self.sub_keys[0]);
        assert((a, b) == dec_words(a0, b0, keys, self.round_count()));

        block[0] = byte_of_word(a, 0);
        block[1] = byte_of_word(a, 1);
        block[2] = byte_of_word(a, 2);
        block[3] = byte_of_word(a, 3);
        block[4] = byte_of_word(b, 0);
        block[5] = byte_of_word(b, 1);
        block[6] = byte_of_word(b, 2);
        block[7] = byte_of_word(b, 3);
        assert(block@ =~= decrypted_block(keys, self.round_count(), old(block)@));
    }

    /// The round count the context was built with.
    pub fn num_rounds(&self) -> (r: u32)
        ensures
            r == self.round_count(),
    {
        self.rounds
    }

    /// The number of words in the round-key table.
    pub fn table_len(&self) -> (n: usize)
        ensures
            n == self.key_table().len(),
    {
        self.sub_keys.len()
    }

    /// Word `i` of the round-key table.
    pub fn round_key(&self, i: usize) -> (w: u32)
        requires
            i < self.key_table().len(),
        ensures
            w == self.key_table()[i as int],
    {
        self.sub_keys[i]
    }
}

/// Round-trip law: decrypting what was encrypted under the same context
/// gives the original block back, for every valid context and every
/// 8-byte block.
pub proof fn lemma_round_trip(c: &RC5, x: Seq<u8>)
    requires
        c.wf(),
        x.len() == 8,
    ensures
        decrypted_block(
            c.key_table(),
            c.round_count(),
            encrypted_block(c.key_table(), c.round_count(), x),
        ) == x,
{
    let keys = c.key_table();
    let rounds = c.round_count();
    let a = le_word(x[0], x[1], x[2], x[3]);
    let b = le_word(x[4], x[5], x[6], x[7]);
    let p = enc_words(a, b, keys, rounds);
    lemma_word_of_bytes_cancel(p.0);
    lemma_word_of_bytes_cancel(p.1);
    lemma_words_cancel(a, b, keys, rounds);
    lemma_bytes_of_word_cancel(x[0], x[1], x[2], x[3]);
    lemma_bytes_of_word_cancel(x[4], x[5], x[6], x[7]);
    assert(decrypted_block(keys, rounds, encrypted_block(keys, rounds, x)) =~= x);
}

/// Determinism law: two contexts built from the same key and round count
/// carry the same table, and so transform every block identically.
pub proof fn lemma_construct_deterministic(
    c1: &RC5,
    c2: &RC5,
    key: Seq<u8>,
    rounds: u32,
    x: Seq<u8>,
)
    requires
        c1.built_from(key, rounds),
        c2.built_from(key, rounds),
    ensures
        c1.key_table() == c2.key_table(),
        encrypted_block(c1.key_table(), c1.round_count(), x) == encrypted_block(
            c2.key_table(),
            c2.round_count(),
            x,
        ),
        decrypted_block(c1.key_table(), c1.round_count(), x) == decrypted_block(
            c2.key_table(),
            c2.round_count(),
            x,
        ),
{
}

} // verus!
