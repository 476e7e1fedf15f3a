//! The runtime memory probe: write a counter-derived pattern into a scratch area and
//! fold what reads back into a checksum.

use vstd::prelude::*;

verus! {

/// Words in the scratch area.
pub const SCRATCH_WORDS: usize = 64;

/// The pattern word for slot `i`: `base + i`, wrapping at 2^64.
pub open spec fn pattern_word(base: u64, i: int) -> u64 {
    vstd::wrapping::u64_specs::wrapping_add(base, i as u64)
}

/// Exclusive-or of the first `n` words of `s`.
pub open spec fn xor_fold(s: Seq<u64>, n: nat) -> u64
    decreases n,
{
    if n == 0 {
        0
    } else {
        xor_fold(s, (n - 1) as nat) ^ s[n - 1]
    }
}

/// The checksum that a probe seeded with `base` reads back from sound memory.
pub open spec fn expected_checksum(base: u64) -> u64 {
    xor_fold(Seq::new(64, |i: int| pattern_word(base, i)), 64)
}

/// The pattern to write into the scratch area: `base + i` (wrapping) in slot `i`.
pub fn probe_pattern(base: u64) -> (words: [u64; 64])
    ensures
        forall|i: int| 0 <= i < 64 ==> #[trigger] words@[i] == pattern_word(base, i),
{
    let mut words: [u64; 64] = [0u64; 64];
    let mut i: usize = 0;
    while i < SCRATCH_WORDS
        invariant
            i <= 64,
            words@.len() == 64,
            forall|j: int| 0 <= j < i ==> #[trigger] words@[j] == pattern_word(base, j),
        decreases 64 - i,
    {
        words[i] = base.wrapping_add(i as u64);
        i = i + 1;
    }
    words
}

/// Exclusive-or of the words read back from the scratch area.
pub fn probe_checksum(read: &[u64; 64]) -> (checksum: u64)
    ensures
        checksum == xor_fold(read@, 64),
{
    let mut checksum: u64 = 0;
    let mut k: usize = 0;
    while k < SCRATCH_WORDS
        invariant
            k <= 64,
            read@.len() == 64,
            checksum == xor_fold(read@, k as nat),
        decreases 64 - k,
    {
        checksum = checksum ^ read[k];
        k = k + 1;
    }
    checksum
}

/// Where memory reads back the pattern that was written, the checksum is
/// `expected_checksum(base)`.
pub proof fn lemma_sound_memory_checksum(base: u64, read: Seq<u64>)
    requires
        read.len() == 64,
        forall|i: int| 0 <= i < 64 ==> #[trigger] read[i] == pattern_word(base, i),
    ensures
        xor_fold(read, 64) == expected_checksum(base),
{
    assert(read =~= Seq::new(64, |i: int| pattern_word(base, i)));
}

/// Every bit of every word counts in the checksum: flipping the bits `mask` of word `i`
/// among the first `n` flips exactly those bits of the fold, and a word beyond the
/// first `n` does not count.
pub proof fn lemma_xor_fold_flip(s: Seq<u64>, n: nat, i: int, mask: u64)
    requires
        n <= s.len(),
        0 <= i < s.len(),
    ensures
        xor_fold(s.update(i, s[i] ^ mask), n) == if i < n {
            xor_fold(s, n) ^ mask
        } else {
            xor_fold(s, n)
        },
    decreases n,
{
    if n > 0 {
        let u = s.update(i, s[i] ^ mask);
        let k = (n - 1) as nat;
        lemma_xor_fold_flip(s, k, i, mask);
        let x = xor_fold(s, k);
        let w = s[n - 1];
        if i == n - 1 {
            assert(u[n - 1] == w ^ mask);
            assert(x ^ (w ^ mask) == (x ^ w) ^ mask) by (bit_vector);
        } else if i < n - 1 {
            assert(u[n - 1] == w);
            assert((x ^ mask) ^ w == (x ^ w) ^ mask) by (bit_vector);
        } else {
            assert(u[n - 1] == w);
        }
    }
}

/// The fold of words that are all zero is zero; with `lemma_xor_fold_flip` this pins the
/// checksum down as the exclusive-or of every bit of every word.
pub proof fn lemma_xor_fold_zero(s: Seq<u64>, n: nat)
    requires
        n <= s.len(),
        forall|i: int| 0 <= i < n ==> s[i] == 0,
    ensures
        xor_fold(s, n) == 0,
    decreases n,
{
    if n > 0 {
        lemma_xor_fold_zero(s, (n - 1) as nat);
        assert(0u64 ^ 0u64 == 0u64) by (bit_vector);
    }
}

/// Slot `i` of the pattern holds `base + i` reduced modulo 2^64.
pub proof fn lemma_pattern_word_value(base: u64, i: int)
    requires
        0 <= i < 64,
    ensures
        pattern_word(base, i) == (base + i) % 0x1_0000_0000_0000_0000,
{
}

} // verus!
