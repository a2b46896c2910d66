//! The proof-of-work predicate and the arithmetic behind it.
//!
//! A nonce answers a prefix at a difficulty `d` when the SHA-256 digest of
//! `prefix ++ nonce`, with its bytes reversed and read as one unsigned number,
//! has its `d` lowest bits zero.

use crate::digest::sha256;
use crate::digest::sha256_of;
use vstd::arithmetic::div_mod::lemma_fundamental_div_mod;
use vstd::arithmetic::div_mod::lemma_mod_multiples_basic;
use vstd::arithmetic::div_mod::lemma_mod_multiples_vanish;
use vstd::arithmetic::power2::lemma2_to64;
use vstd::arithmetic::power2::lemma_pow2_adds;
use vstd::arithmetic::power2::lemma_pow2_pos;
use vstd::arithmetic::power2::pow2;
use vstd::prelude::*;

verus! {

/// The number that `bytes` spell when the first byte is the most significant.
pub open spec fn be_value(bytes: Seq<u8>) -> nat
    decreases bytes.len(),
{
    if bytes.len() == 0 {
        0
    } else {
        256 * be_value(bytes.drop_last()) + bytes.last() as nat
    }
}

/// The number that `bytes` spell when the first byte is the least significant.
pub open spec fn le_value(bytes: Seq<u8>) -> nat
    decreases bytes.len(),
{
    if bytes.len() == 0 {
        0
    } else {
        bytes[0] as nat + 256 * le_value(bytes.skip(1))
    }
}

/// The number a digest stands for: its bytes reversed, then read big-endian.
pub open spec fn digest_number(digest: Seq<u8>) -> nat {
    be_value(digest.reverse())
}

/// The `bits` lowest bits of `value` are all zero.
pub open spec fn low_bits_zero(value: nat, bits: nat) -> bool {
    value % pow2(bits) == 0
}

/// The digest is good enough for the difficulty.
pub open spec fn meets_difficulty(digest: Seq<u8>, difficulty: u8) -> bool {
    low_bits_zero(digest_number(digest), difficulty as nat)
}

/// The nonce answers the prefix at the difficulty.
pub open spec fn nonce_valid(prefix: Seq<u8>, nonce: Seq<u8>, difficulty: u8) -> bool {
    meets_difficulty(sha256_of(prefix + nonce), difficulty)
}

/// The same test as `low_bits_zero(le_value(bytes), bits)`, read off the bytes:
/// whole zero bytes first, then the low bits of the byte after them.
pub open spec fn low_bytes_clear(bytes: Seq<u8>, bits: nat) -> bool
    decreases bits,
{
    if bits == 0 || bytes.len() == 0 {
        true
    } else if bits >= 8 {
        bytes[0] == 0 && low_bytes_clear(bytes.skip(1), (bits - 8) as nat)
    } else {
        bytes[0] as nat % pow2(bits) == 0
    }
}

/// Reversing and reading big-endian is reading little-endian.
pub proof fn lemma_reversed_is_little_endian(bytes: Seq<u8>)
    ensures
        be_value(bytes.reverse()) == le_value(bytes),
    decreases bytes.len(),
{
    if bytes.len() > 0 {
        let r = bytes.reverse();
        assert(r.last() == bytes[0]);
        assert(r.drop_last() =~= bytes.skip(1).reverse());
        lemma_reversed_is_little_endian(bytes.skip(1));
    }
}

/// A number is a multiple of `256 * p` exactly when its lowest byte is zero
/// and the rest is a multiple of `p`.
proof fn lemma_whole_byte(low: nat, rest: nat, p: nat)
    requires
        low < 256,
        p > 0,
    ensures
        ((low + 256 * rest) % (256 * p) == 0) <==> (low == 0 && rest % p == 0),
{
    let v = (low + 256 * rest) as int;
    let m = (256 * p) as int;
    lemma_fundamental_div_mod(v, m);
    lemma_fundamental_div_mod(rest as int, p as int);
    if v % m == 0 {
        let q = v / m;
        assert(low + 256 * rest == 256 * (p * q)) by (nonlinear_arith)
            requires
                v == m * q,
                m == 256 * p,
                v == low + 256 * rest,
        ;
        assert(rest == p * q);
        assert(p * q == q * p) by (nonlinear_arith);
        lemma_mod_multiples_basic(q, p as int);
    }
    if low == 0 && rest % p == 0 {
        let k = rest as int / p as int;
        assert(v == k * m) by (nonlinear_arith)
            requires
                v == 256 * rest,
                rest == p * k,
                m == 256 * p,
        ;
        lemma_mod_multiples_basic(k, m);
    }
}

/// Fewer than eight low bits of a number are the low bits of its lowest byte.
proof fn lemma_part_byte(low: nat, rest: nat, bits: nat)
    requires
        bits < 8,
    ensures
        (low + 256 * rest) % pow2(bits) == low % pow2(bits),
{
    let p = pow2(bits);
    let q = pow2((8 - bits) as nat);
    lemma_pow2_pos(bits);
    lemma_pow2_adds(bits, (8 - bits) as nat);
    lemma2_to64();
    assert(p * q == 256);
    assert(256 * rest == p * (q * rest)) by (nonlinear_arith)
        requires
            p * q == 256,
    ;
    lemma_mod_multiples_vanish((q * rest) as int, low as int, p as int);
}

/// The lowest bits of a little-endian number can be tested byte by byte.
pub proof fn lemma_low_bits_by_bytes(bytes: Seq<u8>, bits: nat)
    ensures
        low_bits_zero(le_value(bytes), bits) == low_bytes_clear(bytes, bits),
    decreases bits,
{
    lemma2_to64();
    lemma_pow2_pos(bits);
    if bits == 0 {
        assert(le_value(bytes) % 1 == 0);
    } else if bytes.len() == 0 {
        assert(0nat % pow2(bits) == 0) by (nonlinear_arith)
            requires
                pow2(bits) > 0,
        ;
    } else if bits >= 8 {
        let rest = (bits - 8) as nat;
        lemma_pow2_adds(8, rest);
        lemma_pow2_pos(rest);
        lemma_whole_byte(bytes[0] as nat, le_value(bytes.skip(1)), pow2(rest));
        lemma_low_bits_by_bytes(bytes.skip(1), rest);
    } else {
        lemma_part_byte(bytes[0] as nat, le_value(bytes.skip(1)), bits);
    }
}

/// What `meets_difficulty` asks of the digest's bytes.
pub proof fn lemma_meets_difficulty_by_bytes(digest: Seq<u8>, difficulty: u8)
    ensures
        meets_difficulty(digest, difficulty) == low_bytes_clear(digest, difficulty as nat),
{
    lemma_reversed_is_little_endian(digest);
    lemma_low_bits_by_bytes(digest, difficulty as nat);
}

/// What is good enough for a difficulty is good enough for every lower one.
pub proof fn lemma_lower_difficulty_is_easier(digest: Seq<u8>, harder: u8, easier: u8)
    requires
        easier <= harder,
        meets_difficulty(digest, harder),
    ensures
        meets_difficulty(digest, easier),
{
    let value = digest_number(digest) as int;
    let low = pow2(easier as nat) as int;
    let rest = pow2((harder - easier) as nat) as int;
    let high = pow2(harder as nat) as int;
    lemma_pow2_pos(easier as nat);
    lemma_pow2_pos(harder as nat);
    lemma_pow2_adds(easier as nat, (harder - easier) as nat);
    lemma_fundamental_div_mod(value, high);
    let k = value / high;
    assert(value == (rest * k) * low) by (nonlinear_arith)
        requires
            value == high * k,
            high == low * rest,
    ;
    lemma_mod_multiples_basic(rest * k, low);
}

/// Difficulty zero asks nothing: every nonce answers every prefix.
pub proof fn lemma_zero_difficulty_accepts_all(prefix: Seq<u8>, nonce: Seq<u8>)
    ensures
        nonce_valid(prefix, nonce, 0),
{
    lemma_meets_difficulty_by_bytes(sha256_of(prefix + nonce), 0);
}

/// The `len` lowest bytes of `value`, least significant first.
pub open spec fn le_bytes(value: nat, len: nat) -> Seq<u8>
    decreases len,
{
    if len == 0 {
        Seq::empty()
    } else {
        seq![(value % 256) as u8] + le_bytes(value / 256, (len - 1) as nat)
    }
}

/// The sixteen bytes that a counter is sent as: little-endian.
pub open spec fn counter_bytes(counter: u128) -> Seq<u8> {
    le_bytes(counter as nat, 16)
}

/// `le_bytes` gives as many bytes as were asked for.
pub proof fn lemma_le_bytes_len(value: nat, len: nat)
    ensures
        le_bytes(value, len).len() == len,
    decreases len,
{
    if len > 0 {
        lemma_le_bytes_len(value / 256, (len - 1) as nat);
    }
}

/// A number that fits in `len` bytes is read back from its `len` bytes.
pub proof fn lemma_le_bytes_roundtrip(value: nat, len: nat)
    requires
        value < pow2(8 * len),
    ensures
        le_value(le_bytes(value, len)) == value,
    decreases len,
{
    lemma2_to64();
    if len > 0 {
        let rest = (len - 1) as nat;
        let bytes = le_bytes(value, len);
        lemma_le_bytes_len(value / 256, rest);
        assert(bytes.skip(1) =~= le_bytes(value / 256, rest));
        lemma_pow2_adds(8, 8 * rest);
        assert(8 + 8 * rest == 8 * len);
        lemma_le_bytes_roundtrip(value / 256, rest);
    }
}

/// A counter is read back from the bytes it is sent as, so two counters are
/// never sent as the same bytes.
pub proof fn lemma_counter_roundtrip(counter: u128)
    ensures
        counter_bytes(counter).len() == 16,
        le_value(counter_bytes(counter)) == counter,
{
    lemma2_to64();
    lemma_pow2_adds(64, 64);
    lemma_le_bytes_len(counter as nat, 16);
    lemma_le_bytes_roundtrip(counter as nat, 16);
}

/// Two to the power `bits`, for a power that fits in a byte.
fn small_pow2(bits: u8) -> (m: u8)
    requires
        bits < 8,
    ensures
        m == pow2(bits as nat),
{
    let mut m: u8 = 1;
    let mut i: u8 = 0;
    proof {
        lemma2_to64();
    }
    while i < bits
        invariant
            i <= bits < 8,
            m == pow2(i as nat),
        decreases bits - i,
    {
        proof {
            lemma2_to64();
        }
        m = m * 2;
        i = i + 1;
    }
    m
}

/// Tests a digest against a difficulty.
///
/// The digest may have any length; bits beyond its last byte count as zero.
pub fn digest_meets(digest: &[u8], difficulty: u8) -> (ok: bool)
    ensures
        ok == meets_difficulty(digest@, difficulty),
{
    proof {
        lemma_meets_difficulty_by_bytes(digest@, difficulty);
    }
    let mut bits: u8 = difficulty;
    let mut k: usize = 0;
    assert(digest@.skip(0) =~= digest@);
    while bits >= 8 && k < digest.len()
        invariant
            k <= digest@.len(),
            meets_difficulty(digest@, difficulty) == low_bytes_clear(
                digest@.skip(k as int),
                bits as nat,
            ),
        decreases bits,
    {
        assert(digest@.skip(k as int)[0] == digest@[k as int]);
        if digest[k] != 0 {
            return false;
        }
        proof {
            assert(digest@.skip(k as int).skip(1) =~= digest@.skip(k + 1));
        }
        bits = bits - 8;
        k = k + 1;
    }
    if bits == 0 || k >= digest.len() {
        return true;
    }
    if bits >= 8 {
        return true;
    }
    let m: u8 = small_pow2(bits);
    proof {
        lemma_pow2_pos(bits as nat);
        assert(digest@.skip(k as int)[0] == digest@[k as int]);
    }
    digest[k] % m == 0
}

/// Appends the bytes of `src` to `dst`.
fn append_bytes(dst: &mut Vec<u8>, src: &[u8])
    ensures
        final(dst)@ == old(dst)@ + src@,
{
    let mut i: usize = 0;
    while i < src.len()
        invariant
            i <= src@.len(),
            dst@ == old(dst)@ + src@.take(i as int),
        decreases src@.len() - i,
    {
        dst.push(src[i]);
        proof {
            assert(src@.take(i + 1) =~= src@.take(i as int).push(src@[i as int]));
        }
        i = i + 1;
    }
    proof {
        assert(src@.take(i as int) =~= src@);
    }
}

/// Writes a counter as the sixteen bytes it is sent as.
pub fn encode_counter(counter: u128) -> (bytes: Vec<u8>)
    ensures
        bytes@ == counter_bytes(counter),
{
    let mut bytes: Vec<u8> = Vec::new();
    let mut rest: u128 = counter;
    let mut i: usize = 0;
    while i < 16
        invariant
            i <= 16,
            bytes@ + le_bytes(rest as nat, (16 - i) as nat) == counter_bytes(counter),
        decreases 16 - i,
    {
        proof {
            let tail = le_bytes(rest as nat / 256, (16 - i - 1) as nat);
            assert(bytes@.push((rest % 256) as u8) + tail =~= bytes@ + (seq![(rest % 256) as u8]
                + tail));
        }
        bytes.push((rest % 256) as u8);
        rest = rest / 256;
        i = i + 1;
    }
    assert(bytes@ + Seq::<u8>::empty() =~= bytes@);
    bytes
}

/// Tests whether `nonce` answers `prefix` at `difficulty`.
pub fn check_nonce(prefix: &[u8], nonce: &[u8], difficulty: u8) -> (ok: bool)
    ensures
        ok == nonce_valid(prefix@, nonce@, difficulty),
{
    let mut message: Vec<u8> = Vec::new();
    append_bytes(&mut message, prefix);
    append_bytes(&mut message, nonce);
    assert(message@ =~= prefix@ + nonce@);
    let digest = sha256(message.as_slice());
    digest_meets(digest.as_slice(), difficulty)
}

} // verus!
