//! The key scheduler: derives the round-key table from the secret key and
//! the round count. `round_keys` is the mathematical statement of the table;
//! `expand_key` computes it and is proved to return exactly that value.

use vstd::prelude::*;
use crate::words::le_word;
use crate::words::rotl;

verus! {

/// First magic constant of the schedule, derived from the base of the
/// natural logarithms; seeds the table so that even an all-zero key
/// produces an unstructured table.
pub const P32: u32 = 0xB7E15163;

/// Second magic constant of the schedule, derived from the golden ratio;
/// the step between consecutive seed words.
pub const Q32: u32 = 0x9E3779B9;

/// Seed word `i` of the table: `P32` stepped `i` times by `Q32`, wrapping.
pub open spec fn seed_word(i: int) -> u32
    decreases i,
{
    if i <= 0 {
        P32
    } else {
        seed_word(i - 1).wrapping_add(Q32)
    }
}

/// The number of words the key bytes pack into: one word per four bytes,
/// the last word padded with zero bytes.
pub open spec fn key_words_len(key_len: nat) -> nat {
    (key_len + 3) / 4
}

/// Byte `i` of the key, or zero past its end (the padding of the last word).
pub open spec fn key_byte(key: Seq<u8>, i: int) -> u8 {
    if 0 <= i < key.len() {
        key[i]
    } else {
        0
    }
}

/// Word `w` of the little-endian packing of the key bytes.
pub open spec fn key_word(key: Seq<u8>, w: int) -> u32 {
    le_word(key_byte(key, 4 * w), key_byte(key, 4 * w + 1), key_byte(key, 4 * w + 2), key_byte(key, 4 * w + 3))
}

/// The key bytes packed into little-endian words.
pub open spec fn key_words(key: Seq<u8>) -> Seq<u32> {
    Seq::new(key_words_len(key.len()), |w: int| key_word(key, w))
}

/// The seeded table before any key material is mixed in.
pub open spec fn seed_table(rounds: u32) -> Seq<u32> {
    Seq::new((2 * (rounds + 1)) as nat, |i: int| seed_word(i))
}

/// The full state of the mixing loop: the table `s`, the packed key `l`,
/// the running accumulators `a` and `b`, and the two cyclic indices.
pub ghost struct MixState {
    pub s: Seq<u32>,
    pub l: Seq<u32>,
    pub a: u32,
    pub b: u32,
    pub i: int,
    pub j: int,
}

/// One turn of the mixing loop: stir the next table word, then the next
/// key word, each feeding the accumulators of the turn after it.
pub open spec fn mix_step(m: MixState) -> MixState {
    let a1 = rotl(m.s[m.i].wrapping_add(m.a).wrapping_add(m.b), 3);
    let s1 = m.s.update(m.i, a1);
    let b1 = rotl(m.l[m.j].wrapping_add(a1).wrapping_add(m.b), a1.wrapping_add(m.b));
    let l1 = m.l.update(m.j, b1);
    MixState {
        s: s1,
        l: l1,
        a: a1,
        b: b1,
        i: (m.i + 1) % (m.s.len() as int),
        j: (m.j + 1) % (m.l.len() as int),
    }
}

/// The mixing loop run for `n` turns.
pub open spec fn mix_turns(m: MixState, n: nat) -> MixState
    decreases n,
{
    if n == 0 {
        m
    } else {
        mix_step(mix_turns(m, (n - 1) as nat))
    }
}

/// The state the mixing loop starts from.
pub open spec fn mix_start(key: Seq<u8>, rounds: u32) -> MixState {
    (MixState { s: seed_table(rounds), l: key_words(key), a: 0, b: 0, i: 0, j: 0 })
}

/// How many turns the mixing loop runs: three times the longer of the
/// two word arrays.
pub open spec fn mix_turn_count(key: Seq<u8>, rounds: u32) -> nat {
    let t = (2 * (rounds + 1)) as nat;
    let lw = key_words_len(key.len());
    if t >= lw {
        3 * t
    } else {
        3 * lw
    }
}

/// The round-key table derived from `key` and `rounds`: the seeded table
/// after the whole mixing loop has run.
pub open spec fn round_keys(key: Seq<u8>, rounds: u32) -> Seq<u32> {
    mix_turns(mix_start(key, rounds), mix_turn_count(key, rounds)).s
}

/// The mixing loop never changes the shape of its state: the two word
/// arrays keep their lengths and the two indices stay in range.
pub proof fn lemma_mix_turns_shape(m: MixState, n: nat)
    requires
        m.s.len() >= 1,
        m.l.len() >= 1,
        0 <= m.i < m.s.len(),
        0 <= m.j < m.l.len(),
    ensures
        mix_turns(m, n).s.len() == m.s.len(),
        mix_turns(m, n).l.len() == m.l.len(),
        0 <= mix_turns(m, n).i < m.s.len(),
        0 <= mix_turns(m, n).j < m.l.len(),
    decreases n,
{
    if n > 0 {
        lemma_mix_turns_shape(m, (n - 1) as nat);
    }
}

/// The table produced for any non-empty key has exactly `2 * (rounds + 1)`
/// words, whatever the key's length.
pub proof fn lemma_round_keys_len(key: Seq<u8>, rounds: u32)
    requires
        key.len() >= 1,
    ensures
        round_keys(key, rounds).len() == 2 * (rounds + 1),
{
    lemma_mix_turns_shape(mix_start(key, rounds), mix_turn_count(key, rounds));
}

/// Computes the round-key table for `key` and `rounds`.
///
/// The bounds on the arguments only keep the table length and the turn
/// count within machine range; the algorithm itself has no upper limits.
pub fn expand_key(key: &[u8], rounds: u32) -> (s: Vec<u32>)
    requires
        1 <= rounds <= 0x0fff_ffff,
        1 <= key@.len() <= 0x0fff_ffff,
    ensures
        s@ == round_keys(key@, rounds),
{
    let t: usize = 2 * (rounds as usize + 1);

    // Seed the table from the two magic constants.
    let mut s: Vec<u32> = Vec::new();
    s.push(P32);
    let mut i: usize = 1;
    while i < t
        invariant
            1 <= i <= t,
            s@.len() == i,
            forall|k: int| 0 <= k < i ==> s@[k] == seed_word(k),
        decreases t - i,
    {
        let w = s[i - 1].wrapping_add(Q32);
        assert(seed_word(i as int) == seed_word(i as int - 1).wrapping_add(Q32));
        assert(w == seed_word(i as int));
        s.push(w);
        i = i + 1;
    }
    assert(s@ =~= seed_table(rounds));

    // Pack the key bytes into little-endian words, the last zero-padded.
    let key_len = key.len();
    let lw: usize = (key_len + 3) / 4;
    let mut l: Vec<u32> = Vec::new();
    let mut w: usize = 0;
    while w < lw
        invariant
            0 <= w <= lw,
            lw == key_words_len(key@.len()),
            key_len == key@.len(),
            1 <= key@.len() <= 0x0fff_ffff,
            l@.len() == w,
            forall|k: int| 0 <= k < w ==> l@[k] == key_word(key@, k),
        decreases lw - w,
    {
        let base = 4 * w;
        let b0 = key[base];
        let b1 = if base + 1 < key_len { key[base + 1] } else { 0 };
        let b2 = if base + 2 < key_len { key[base + 2] } else { 0 };
        let b3 = if base + 3 < key_len { key[base + 3] } else { 0 };
        let word = crate::words::word_of_bytes(b0, b1, b2, b3);
        assert(word == key_word(key@, w as int));
        l.push(word);
        w = w + 1;
    }
    assert(l@ =~= key_words(key@));

    // Mix the key words into the table, each turn feeding the next.
    let v: usize = 3 * (if t >= lw { t } else { lw });
    let ghost m0 = mix_start(key@, rounds);
    assert(v == mix_turn_count(key@, rounds));
    let mut a: u32 = 0;
    let mut b: u32 = 0;
    let mut si: usize = 0;
    let mut lj: usize = 0;
    let mut n: usize = 0;
    while n < v
        invariant
            0 <= n <= v,
            t == s@.len(),
            lw == l@.len(),
            2 <= t,
            1 <= lw,
            si < t,
            lj < lw,
            mix_turns(m0, n as nat) == (MixState {
                s: s@,
                l: l@,
                a: a,
                b: b,
                i: si as int,
                j: lj as int,
            }),
        decreases v - n,
    {
        let ghost m_before = mix_turns(m0, n as nat);
        let ra = crate::words::rotate_left(s[si].wrapping_add(a).wrapping_add(b), 3);
        s[si] = ra;
        a = ra;
        let rb = crate::words::rotate_left(l[lj].wrapping_add(a).wrapping_add(b), a.wrapping_add(b));
        l[lj] = rb;
        b = rb;
        si = (si + 1) % t;
        lj = (lj + 1) % lw;
        n = n + 1;
        proof {
            assert(mix_turns(m0, n as nat) == mix_step(m_before));
        }
    }
    assert(s@ == round_keys(key@, rounds));
    s
}

} // verus!
