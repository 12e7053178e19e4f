//! What fingerprints and buckets tell of blocks.
use crate::model::DcCkfModel;
use vstd::prelude::*;
#[allow(unused_imports)]
use crate::addressing::{
    mixed, CkfAddressing, FIRST_MULTIPLIER, SECOND_MULTIPLIER, STATE_STEP,
};
#[allow(unused_imports)]
use crate::laws::law_found_exactly_when_a_colliding_block_is_owned;
#[allow(unused_imports)]
use crate::mutator::{advanced, starts_in_second, victim_slot};
#[allow(unused_imports)]
use crate::ownership::owns;

verus! {

/// Undoes a multiplication by `FIRST_MULTIPLIER`.
pub const FIRST_INVERSE: u64 = 0x96de_1b17_3f11_9089;

/// Undoes a multiplication by `SECOND_MULTIPLIER`.
pub const SECOND_INVERSE: u64 = 0x3196_42b2_d24d_8ec3;

/// The word whose mixing is the given one.
pub open spec fn unmixed(word: u64) -> u64 {
    let b = (word ^ (word >> 31) ^ (word >> 62)).wrapping_mul(SECOND_INVERSE);
    let a = (b ^ (b >> 27) ^ (b >> 54)).wrapping_mul(FIRST_INVERSE);
    a ^ (a >> 30) ^ (a >> 60)
}

/// Multiplications by a number and by its inverse undo each other.
proof fn lemma_inverse(x: u64, factor: u64, inverse: u64)
    requires
        factor as int * inverse as int % 0x1_0000_0000_0000_0000 == 1,
    ensures
        x.wrapping_mul(factor).wrapping_mul(inverse) == x,
        x.wrapping_mul(inverse).wrapping_mul(factor) == x,
{
    let m: int = 0x1_0000_0000_0000_0000;
    let (a, f, g) = (x as int, factor as int, inverse as int);
    vstd::arithmetic::div_mod::lemma_mul_mod_noop_left(a * f, g, m);
    vstd::arithmetic::div_mod::lemma_mul_mod_noop_left(a * g, f, m);
    vstd::arithmetic::mul::lemma_mul_is_associative(a, f, g);
    vstd::arithmetic::mul::lemma_mul_is_associative(a, g, f);
    vstd::arithmetic::mul::lemma_mul_is_commutative(f, g);
    vstd::arithmetic::div_mod::lemma_mul_mod_noop_right(a, f * g, m);
    vstd::arithmetic::div_mod::lemma_small_mod(x as nat, m as nat);
}

/// Mixing is a bijection on words: it can be undone, and reaches every word.
pub proof fn law_mixing_is_a_bijection(word: u64)
    ensures
        unmixed(mixed(word)) == word,
        mixed(unmixed(word)) == word,
{
    assert(FIRST_MULTIPLIER as int * FIRST_INVERSE as int % 0x1_0000_0000_0000_0000 == 1);
    assert(SECOND_MULTIPLIER as int * SECOND_INVERSE as int % 0x1_0000_0000_0000_0000 == 1);
    assert(forall|x: u64| #![auto]
        (x ^ (x >> 31)) ^ ((x ^ (x >> 31)) >> 31) ^ ((x ^ (x >> 31)) >> 62) == x) by (bit_vector);
    assert(forall|x: u64| #![auto]
        (x ^ (x >> 27)) ^ ((x ^ (x >> 27)) >> 27) ^ ((x ^ (x >> 27)) >> 54) == x) by (bit_vector);
    assert(forall|x: u64| #![auto]
        (x ^ (x >> 30)) ^ ((x ^ (x >> 30)) >> 30) ^ ((x ^ (x >> 30)) >> 60) == x) by (bit_vector);
    assert(forall|x: u64| #![auto]
        (x ^ (x >> 31) ^ (x >> 62)) ^ ((x ^ (x >> 31) ^ (x >> 62)) >> 31) == x) by (bit_vector);
    assert(forall|x: u64| #![auto]
        (x ^ (x >> 27) ^ (x >> 54)) ^ ((x ^ (x >> 27) ^ (x >> 54)) >> 27) == x) by (bit_vector);
    assert(forall|x: u64| #![auto]
        (x ^ (x >> 30) ^ (x >> 60)) ^ ((x ^ (x >> 30) ^ (x >> 60)) >> 30) == x) by (bit_vector);
    let x = word ^ (word >> 30);
    lemma_inverse(x, FIRST_MULTIPLIER, FIRST_INVERSE);
    let a = x.wrapping_mul(FIRST_MULTIPLIER);
    let y = a ^ (a >> 27);
    lemma_inverse(y, SECOND_MULTIPLIER, SECOND_INVERSE);
    let p = word ^ (word >> 31) ^ (word >> 62);
    lemma_inverse(p, SECOND_MULTIPLIER, SECOND_INVERSE);
    let b = p.wrapping_mul(SECOND_INVERSE);
    let q = b ^ (b >> 27) ^ (b >> 54);
    lemma_inverse(q, FIRST_MULTIPLIER, FIRST_INVERSE);
}

/// Different words mix to different words.
pub proof fn law_mixing_keeps_words_apart(first: u64, second: u64)
    requires
        first != second,
    ensures
        mixed(first) != mixed(second),
{
    law_mixing_is_a_bijection(first);
    law_mixing_is_a_bijection(second);
}

/// A mask of low bits takes the remainder.
proof fn lemma_low_bits(word: u64, mask: u64)
    requires
        mask & ((mask + 1) as u64) == 0,
        mask < 0x0400_0000_0000_0000,
    ensures
        word & mask == word as int % (mask + 1),
    decreases mask,
{
    if mask == 0 {
        assert(word & 0 == 0) by (bit_vector);
    } else {
        let (w, m) = (word >> 1, mask >> 1);
        assert(w == word / 2 && m == mask / 2 && word & mask == 2 * (w & m) + word % 2 && m & ((m
            + 1) as u64) == 0 && mask == 2 * m + 1) by (bit_vector)
            requires
                mask & ((mask + 1) as u64) == 0,
                0 < mask < 0x0400_0000_0000_0000,
                w == word >> 1,
                m == mask >> 1,
        ;
        lemma_low_bits(w, m);
        vstd::arithmetic::div_mod::lemma_mod_breakdown(word as int, 2, m + 1);
    }
}

/// A block's fingerprint is what stands in the top sixteen bits of its mixed
/// hash, one in place of zero, and its first bucket what stands in the low bits.
pub proof fn law_probe_reads_the_mixed_hash(addressing: CkfAddressing, hash: u64)
    requires
        addressing.wf(),
    ensures
        ({
            let word = mixed(hash ^ mixed(addressing.seed()));
            let top = word / 0x1_0000_0000_0000;
            let probe = addressing.probe(hash);
            &&& probe.fingerprint == (if top == 0 {
                1
            } else {
                top
            })
            &&& probe.bucket_a == word as int % addressing.bucket_count() as int
        }),
{
    let word = mixed(hash ^ mixed(addressing.seed()));
    let mask = (addressing.bucket_count() - 1) as u64;
    addressing.lemma_bucket_count();
    assert(mask & ((mask + 1) as u64) == ((mask + 1) as u64) & mask) by (bit_vector);
    lemma_low_bits(word, mask);
    assert(word >> 48 == word / 0x1_0000_0000_0000 && word >> 48 <= 0xffff) by (bit_vector);
}

/// Fingerprints tell blocks apart: two blocks share one only if their mixed
/// hashes agree in the top sixteen bits, or both have zero or one there.
pub proof fn law_fingerprints_keep_blocks_apart(addressing: CkfAddressing, first: u64, second: u64)
    requires
        addressing.wf(),
        addressing.probe(first).fingerprint == addressing.probe(second).fingerprint,
    ensures
        ({
            let first_top = mixed(first ^ mixed(addressing.seed())) / 0x1_0000_0000_0000;
            let second_top = mixed(second ^ mixed(addressing.seed())) / 0x1_0000_0000_0000;
            first_top == second_top || (first_top <= 1 && second_top <= 1)
        }),
{
    law_probe_reads_the_mixed_hash(addressing, first);
    law_probe_reads_the_mixed_hash(addressing, second);
}

/// Every fingerprint but zero occurs: some block has it, whatever the size of
/// the lane.
pub proof fn law_every_fingerprint_is_taken(addressing: CkfAddressing, fingerprint: u16)
    requires
        fingerprint != 0,
    ensures
        exists|hash: u64| (#[trigger] addressing.probe(hash)).fingerprint == fingerprint,
{
    let salt = mixed(addressing.seed());
    let f = fingerprint as u64;
    let word = f << 48;
    assert(word >> 48 == f) by (bit_vector)
        requires
            f <= 0xffff,
            word == f << 48,
    ;
    law_mixing_is_a_bijection(word);
    let plain = unmixed(word);
    assert((plain ^ salt) ^ salt == plain) by (bit_vector);
    assert(addressing.probe(plain ^ salt).fingerprint == fingerprint);
}

/// Every fingerprint but zero occurs, with every first bucket: some block has
/// both.
pub proof fn law_every_fingerprint_and_bucket_is_taken(
    addressing: CkfAddressing,
    fingerprint: u16,
    bucket: usize,
)
    requires
        addressing.wf(),
        addressing.bucket_count() <= 0x1_0000_0000_0000,
        fingerprint != 0,
        bucket < addressing.bucket_count(),
    ensures
        exists|hash: u64| (#[trigger] addressing.probe(hash)).fingerprint == fingerprint
            && addressing.probe(hash).bucket_a == bucket,
{
    addressing.lemma_bucket_count();
    let mask = (addressing.bucket_count() - 1) as u64;
    let salt = mixed(addressing.seed());
    let (f, b) = (fingerprint as u64, bucket as u64);
    let word = (f << 48) | b;
    assert(mask & ((mask + 1) as u64) == ((mask + 1) as u64) & mask) by (bit_vector);
    assert(word & mask == b && word >> 48 == f) by (bit_vector)
        requires
            mask & ((mask + 1) as u64) == 0,
            mask < 0x1_0000_0000_0000,
            b <= mask,
            f <= 0xffff,
            word == (f << 48) | b,
    ;
    law_mixing_is_a_bijection(word);
    let hash = unmixed(word) ^ salt;
    let plain = unmixed(word);
    assert((plain ^ salt) ^ salt == plain) by (bit_vector);
    assert(addressing.probe(hash).fingerprint == fingerprint);
    assert(addressing.probe(hash).bucket_a == bucket);
}

/// The two buckets of a fingerprint differ in their lowest bit and, above it,
/// exactly in the bits of the mixed fingerprint that the lane has room for.
pub proof fn law_other_bucket_reads_the_mixed_fingerprint(
    addressing: CkfAddressing,
    bucket: usize,
    fingerprint: u16,
)
    requires
        addressing.wf(),
        bucket < addressing.bucket_count(),
    ensures
        ({
            let apart = bucket as u64 ^ addressing.spec_alternate(bucket, fingerprint) as u64;
            let word = mixed(fingerprint as u64);
            &&& apart % 2 == 1
            &&& apart as int / 2 == (word as int % addressing.bucket_count() as int) / 2
        }),
{
    addressing.lemma_bucket_count();
    addressing.lemma_alternate(bucket, fingerprint);
    let mask = (addressing.bucket_count() - 1) as u64;
    let word = mixed(fingerprint as u64);
    let b = bucket as u64;
    let d = (word & mask) | 1;
    assert(mask & ((mask + 1) as u64) == ((mask + 1) as u64) & mask) by (bit_vector);
    lemma_low_bits(word, mask);
    assert((b ^ d) <= mask) by (bit_vector)
        requires
            mask & ((mask + 1) as u64) == 0,
            1 <= mask < 0x0400_0000_0000_0000,
            b <= mask,
            d == (word & mask) | 1,
    ;
    assert((b ^ (b ^ d)) == d && d % 2 == 1 && d / 2 == (word & mask) / 2) by (bit_vector)
        requires
            d == (word & mask) | 1,
    ;
    assert(addressing.spec_alternate(bucket, fingerprint) as u64 == b ^ d);
}

/// Fingerprints whose mixed words differ in the bits that a lane has room for,
/// the lowest one aside, lead from the same bucket to different ones.
pub proof fn law_fingerprints_spread_over_buckets(
    addressing: CkfAddressing,
    bucket: usize,
    first: u16,
    second: u16,
)
    requires
        addressing.wf(),
        bucket < addressing.bucket_count(),
        (mixed(first as u64) as int % addressing.bucket_count() as int) / 2 != (mixed(
            second as u64,
        ) as int % addressing.bucket_count() as int) / 2,
    ensures
        addressing.spec_alternate(bucket, first) != addressing.spec_alternate(bucket, second),
{
    law_other_bucket_reads_the_mixed_fingerprint(addressing, bucket, first);
    law_other_bucket_reads_the_mixed_fingerprint(addressing, bucket, second);
}

/// A block that is kept apart from every owned block, by its fingerprint or by
/// its buckets, is not found.
pub proof fn law_block_kept_apart_is_not_found(state: DcCkfModel, hash: u64)
    requires
        state.inv(),
        forall|key: u128, held: u64| #[trigger]
            owns(state.members, key, held) ==> {
                let probe = state.addressing.probe(hash);
                let other = state.addressing.probe(held);
                ||| probe.fingerprint != other.fingerprint
                ||| (probe.bucket_a != other.bucket_a && probe.bucket_a != other.bucket_b)
            },
    ensures
        !state.may_contain(hash),
{
    law_found_exactly_when_a_colliding_block_is_owned(state, hash);
}

/// An empty filter finds nothing.
pub proof fn law_nothing_is_found_where_nothing_is_owned(state: DcCkfModel, hash: u64)
    requires
        state.inv(),
        forall|key: u128, held: u64| !owns(state.members, key, held),
    ensures
        !state.may_contain(hash),
{
    law_block_kept_apart_is_not_found(state, hash);
}

/// Every draw moves the generator on, from different states to different ones.
pub proof fn law_generator_moves_on(first: u64, second: u64)
    ensures
        advanced(first) != first,
        first != second ==> advanced(first) != advanced(second),
{
}

/// Relocation favours no slot and no bucket: for each of them there is a
/// generator state that draws it next.
pub proof fn law_every_slot_and_bucket_can_be_drawn(slot: u64, second: bool)
    requires
        slot < 4,
    ensures
        exists|rng: u64| victim_slot(#[trigger] advanced(rng)) == slot,
        exists|rng: u64| starts_in_second(#[trigger] advanced(rng)) == second,
{
    law_mixing_is_a_bijection(slot);
    let rng = unmixed(slot).wrapping_sub(STATE_STEP);
    assert(advanced(rng) == unmixed(slot));
    let side: u64 = if second {
        1
    } else {
        0
    };
    law_mixing_is_a_bijection(side);
    let other = unmixed(side).wrapping_sub(STATE_STEP);
    assert(advanced(other) == unmixed(side));
}

} // verus!
