//! Random numbers.

use vstd::prelude::*;

use crate::float_bits::{read_word, word_at};

verus! {

/// `getrandom::getrandom` on four bytes. Nothing can be said of the bytes: they
/// are random, and may be anything where the system has none to give.
#[verifier::external_body]
fn random_bytes() -> (r: [u8; 4]) {
    let mut buf: [u8; 4] = [0, 0, 0, 0];
    let _ = getrandom::getrandom(&mut buf);
    buf
}

/// The word that four bytes make, the first one lowest.
pub fn word_of(bytes: &[u8; 4]) -> (r: u32)
    ensures
        r == word_at(bytes@, 0),
{
    read_word(bytes.as_slice(), 0)
}

/// A random word.
pub fn random_word() -> (r: u32) {
    word_of(&random_bytes())
}

/// The number between `min_val` and `max_val` that a word picks.
pub open spec fn picked(word: u32, min_val: u32, max_val: u32) -> int {
    min_val + word as int % (max_val - min_val + 1)
}

/// The number between `min_val` and `max_val` that a word picks.
pub fn pick_u32(word: u32, min_val: u32, max_val: u32) -> (r: u32)
    requires
        min_val <= max_val,
        max_val - min_val < u32::MAX,
    ensures
        r == picked(word, min_val, max_val),
        min_val <= r <= max_val,
{
    let dif: u32 = (max_val - min_val) + 1;
    min_val + (word % dif)
}

/// A random number between `min_val` and `max_val`, both of them possible.
pub fn random_u32(min_val: u32, max_val: u32) -> (r: u32)
    requires
        min_val <= max_val,
        max_val - min_val < u32::MAX,
    ensures
        min_val <= r <= max_val,
{
    pick_u32(random_word(), min_val, max_val)
}

/// Every number of the range is picked by some word.
pub proof fn every_number_can_be_picked(min_val: u32, max_val: u32, n: u32)
    requires
        min_val <= n <= max_val,
    ensures
        picked((n - min_val) as u32, min_val, max_val) == n,
{
    vstd::arithmetic::div_mod::lemma_small_mod(
        (n - min_val) as nat,
        (max_val - min_val + 1) as nat,
    );
}

/// A word picks its remainder: words that differ by the length of the range pick the
/// same number, neighbours pick neighbours, and after the largest number comes the
/// smallest.
pub proof fn words_go_round_the_range(
    word: u32,
    min_val: u32,
    max_val: u32,
    a: u32,
    b: u32,
    c: u32,
)
    requires
        min_val <= max_val,
        max_val - min_val < u32::MAX,
        word + (max_val - min_val + 1) <= u32::MAX,
        call_ensures(pick_u32, (word, min_val, max_val), a),
        call_ensures(pick_u32, ((word + 1) as u32, min_val, max_val), b),
        call_ensures(pick_u32, ((word + (max_val - min_val + 1)) as u32, min_val, max_val), c),
    ensures
        min_val <= a <= max_val,
        a == c,
        a < max_val ==> b == a + 1,
        a == max_val ==> b == min_val,
        word <= max_val - min_val ==> a == min_val + word,
{
    let n = max_val - min_val + 1;
    let w = word as int;
    vstd::arithmetic::div_mod::lemma_fundamental_div_mod(w, n);
    let q = w / n;
    let m = w % n;
    assert(0 <= m < n) by {
        vstd::arithmetic::div_mod::lemma_mod_bound(w, n);
    }
    assert(w == n * q + m);
    assert((w + n) % n == m) by {
        vstd::arithmetic::div_mod::lemma_mod_add_multiples_vanish(w, n);
    }
    if m + 1 < n {
        vstd::arithmetic::div_mod::lemma_fundamental_div_mod_converse_mod(w + 1, n, q, m + 1);
    } else {
        assert(w + 1 == (q + 1) * n + 0) by (nonlinear_arith)
            requires
                w == n * q + m,
                m + 1 == n,
        ;
        vstd::arithmetic::div_mod::lemma_fundamental_div_mod_converse_mod(w + 1, n, q + 1, 0);
    }
    if w < n {
        vstd::arithmetic::div_mod::lemma_small_mod(w as nat, n as nat);
    }
}

/// The four bytes of a word stand from the lowest to the highest.
pub proof fn words_are_made_of_their_bytes(bytes: [u8; 4], r: u32)
    requires
        call_ensures(word_of, (&bytes,), r),
    ensures
        r as int == bytes@[0] as int + 0x100 * (bytes@[1] as int) + 0x1_0000 * (bytes@[2] as int)
            + 0x100_0000 * (bytes@[3] as int),
{
    crate::float_bits::words_hold_their_bytes(bytes@, 0);
}

} // verus!
