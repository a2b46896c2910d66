//! The two ways of finding a nonce: random draws one after another, and all
//! counters at once.

use crate::pow::check_nonce;
use crate::pow::counter_bytes;
use crate::pow::encode_counter;
use crate::pow::lemma_counter_roundtrip;
use crate::pow::lemma_zero_difficulty_accepts_all;
use crate::pow::nonce_valid;
use crate::wire::NONCE_LEN;
use rand::distributions::Alphanumeric;
use rand::Rng;
use rayon::iter::IntoParallelIterator;
use rayon::iter::ParallelIterator;
use vstd::prelude::*;

verus! {

/// An ASCII digit or letter.
pub open spec fn is_alphanumeric(b: u8) -> bool {
    ||| 0x30 <= b <= 0x39
    ||| 0x41 <= b <= 0x5a
    ||| 0x61 <= b <= 0x7a
}

/// Sixteen ASCII digits and letters: the shape of a drawn nonce.
pub open spec fn is_printable_nonce(nonce: Seq<u8>) -> bool {
    &&& nonce.len() == NONCE_LEN
    &&& forall|i: int| 0 <= i < nonce.len() ==> is_alphanumeric(#[trigger] nonce[i])
}

/// The counter, sent as sixteen bytes, answers the prefix at the difficulty.
pub open spec fn counter_valid(prefix: Seq<u8>, counter: u128, difficulty: u8) -> bool {
    nonce_valid(prefix, counter_bytes(counter), difficulty)
}

/// Draws one sample of `rand::distributions::Alphanumeric` from
/// `rand::thread_rng()`.
///
/// Trusted: the byte is an ASCII digit or letter. Which one is left open, and
/// two calls may differ. The generator is seeded by the system on a thread's
/// first draw and panics there if the system has no randomness to give.
#[verifier::external_body]
fn random_alphanumeric() -> (b: u8)
    ensures
        is_alphanumeric(b),
{
    rand::thread_rng().sample(Alphanumeric)
}

/// Runs rayon's `find_any` over every 128-bit counter, with `check_counter`
/// as the predicate.
///
/// Trusted: a counter that comes back passed the predicate, and nothing comes
/// back only if no counter passes it. Which passing counter comes back is
/// left open. The search stops at the first counter found to pass; where
/// none passes it ends only after all `2^128` have been tried.
#[verifier::external_body]
fn find_any_counter(prefix: &[u8], difficulty: u8) -> (found: Option<u128>)
    ensures
        found matches Some(c) ==> counter_valid(prefix@, c, difficulty),
        found is None ==> forall|c: u128| !#[trigger] counter_valid(prefix@, c, difficulty),
{
    (0..=u128::MAX).into_par_iter().find_any(|c: &u128| check_counter(prefix, *c, difficulty))
}

/// Tests whether a counter answers `prefix` at `difficulty`.
pub fn check_counter(prefix: &[u8], counter: u128, difficulty: u8) -> (ok: bool)
    ensures
        ok == counter_valid(prefix@, counter, difficulty),
{
    let nonce = encode_counter(counter);
    check_nonce(prefix, nonce.as_slice(), difficulty)
}

/// Draws a nonce of sixteen random digits and letters.
pub fn draw_nonce() -> (nonce: Vec<u8>)
    ensures
        is_printable_nonce(nonce@),
{
    let mut nonce: Vec<u8> = Vec::new();
    while nonce.len() < NONCE_LEN
        invariant
            nonce@.len() <= NONCE_LEN,
            forall|i: int| 0 <= i < nonce@.len() ==> is_alphanumeric(#[trigger] nonce@[i]),
        decreases NONCE_LEN - nonce@.len(),
    {
        let b: u8 = random_alphanumeric();
        nonce.push(b);
    }
    nonce
}

/// Searches for a nonce by drawing random candidates, at most `attempts` of
/// them.
///
/// A nonce that comes back answers the prefix. At difficulty zero the first
/// candidate is accepted, so any budget above zero is enough. At a higher
/// difficulty each draw succeeds with a chance of one in `2^difficulty`, and
/// the budget may run out.
pub fn solve_pow_within(prefix: &[u8], difficulty: u8, attempts: u64) -> (found: Option<Vec<u8>>)
    ensures
        found matches Some(nonce) ==> is_printable_nonce(nonce@) && nonce_valid(
            prefix@,
            nonce@,
            difficulty,
        ),
        attempts == 0 ==> found is None,
        difficulty == 0 && attempts > 0 ==> found is Some,
{
    let mut left: u64 = attempts;
    while left > 0
        invariant
            left <= attempts,
            difficulty == 0 ==> left == attempts,
        decreases left,
    {
        let nonce = draw_nonce();
        if check_nonce(prefix, nonce.as_slice(), difficulty) {
            return Some(nonce);
        }
        proof {
            if difficulty == 0 {
                lemma_zero_difficulty_accepts_all(prefix@, nonce@);
            }
        }
        left = left - 1;
    }
    None
}

/// Searches for a nonce by drawing random candidates until one answers.
///
/// The search gives up after `u64::MAX` draws, which no run will see; only
/// then is the result `None`.
pub fn solve_pow(prefix: &[u8], difficulty: u8) -> (found: Option<Vec<u8>>)
    ensures
        found matches Some(nonce) ==> is_printable_nonce(nonce@) && nonce_valid(
            prefix@,
            nonce@,
            difficulty,
        ),
        difficulty == 0 ==> found is Some,
{
    solve_pow_within(prefix, difficulty, u64::MAX)
}

/// Searches every 128-bit counter in parallel and returns the bytes of one
/// that answers the prefix.
///
/// Should no counter at all answer, the bytes of counter zero come back.
pub fn solve_pow_parallel(prefix: &[u8], difficulty: u8) -> (nonce: Vec<u8>)
    ensures
        nonce@.len() == NONCE_LEN,
        nonce_valid(prefix@, nonce@, difficulty) || (nonce@ == counter_bytes(0) && forall|c: u128|
            !#[trigger] counter_valid(prefix@, c, difficulty)),
        difficulty == 0 ==> nonce_valid(prefix@, nonce@, difficulty),
{
    let counter: u128 = match find_any_counter(prefix, difficulty) {
        Some(c) => c,
        None => 0,
    };
    proof {
        lemma_counter_roundtrip(counter);
        lemma_zero_difficulty_accepts_all(prefix@, counter_bytes(counter));
    }
    encode_counter(counter)
}

} // verus!
