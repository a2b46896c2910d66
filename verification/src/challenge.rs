//! Answering one challenge: confirm the pixel, or find a nonce and build the
//! response.

use crate::grid::PixelColor;
use crate::grid::PixelGrid;
use crate::pow::counter_bytes;
use crate::pow::nonce_valid;
use crate::solver::counter_valid;
use crate::solver::solve_pow_parallel;
use crate::wire::decode_target;
use crate::wire::target_of;
use crate::wire::PixelCoordinate;
use crate::wire::CHALLENGE_LEN;
use crate::wire::NONCE_LEN;
use crate::wire::RESPONSE_LEN;
use vstd::prelude::*;
use vstd::slice::slice_subrange;

verus! {

/// Why a datagram is not answered.
#[derive(Clone, Copy, Debug, PartialEq, Eq, Structural)]
pub enum ChallengeError {
    /// The datagram is shorter than a challenge.
    InvalidChallenge,
    /// The challenge names a pixel outside the image.
    OutOfBounds,
}

/// What a challenge leads to.
#[derive(Debug, PartialEq, Eq)]
pub enum Outcome {
    /// The server already shows the wanted colour at this pixel, or the pixel
    /// is fully transparent. Nothing is to be sent.
    Confirmed(PixelCoordinate),
    /// The bytes of the challenge response that is to be sent.
    Respond(Vec<u8>),
}

/// The colour that the server reports at the challenged pixel.
pub open spec fn observed_rgb(challenge: Seq<u8>) -> (u8, u8, u8) {
    (challenge[4], challenge[5], challenge[6])
}

/// The difficulty that the server asks for.
pub open spec fn difficulty_of(challenge: Seq<u8>) -> u8 {
    challenge[7]
}

/// The part of a datagram that is the challenge, and the prefix of the proof
/// of work.
pub open spec fn challenge_prefix(challenge: Seq<u8>) -> Seq<u8> {
    challenge.take(CHALLENGE_LEN as int)
}

/// The datagram is long enough to be a challenge.
pub open spec fn is_challenge(datagram: Seq<u8>) -> bool {
    datagram.len() >= CHALLENGE_LEN
}

/// The datagram is a challenge for a pixel of the image.
pub open spec fn is_challenge_for(grid: PixelGrid, datagram: Seq<u8>) -> bool {
    is_challenge(datagram) && grid.contains(target_of(datagram))
}

/// The challenge settles its pixel: the server shows the wanted colour, or
/// the pixel is fully transparent.
pub open spec fn confirms(grid: PixelGrid, datagram: Seq<u8>) -> bool {
    let color = grid.color_at(target_of(datagram));
    &&& is_challenge_for(grid, datagram)
    &&& (observed_rgb(datagram) == (color.r, color.g, color.b) || color.a == 0)
}

/// The challenge has to be answered with a proof of work.
pub open spec fn demands_work(grid: PixelGrid, datagram: Seq<u8>) -> bool {
    is_challenge_for(grid, datagram) && !confirms(grid, datagram)
}

/// The response made of a challenge, a nonce and the colour to write.
pub open spec fn response_bytes(challenge: Seq<u8>, nonce: Seq<u8>, color: PixelColor) -> Seq<u8> {
    challenge_prefix(challenge) + nonce + seq![color.r, color.g, color.b]
}

/// The nonce is what the parallel search gives for the challenge: it answers
/// the challenge, or it is counter zero and no counter answers.
pub open spec fn nonce_answers(challenge: Seq<u8>, nonce: Seq<u8>) -> bool {
    let prefix = challenge_prefix(challenge);
    let difficulty = difficulty_of(challenge);
    &&& nonce.len() == NONCE_LEN
    &&& (nonce_valid(prefix, nonce, difficulty) || (nonce == counter_bytes(0) && forall|c: u128|
        !#[trigger] counter_valid(prefix, c, difficulty)))
}

/// `response` is a well-made answer to `challenge` for the image `grid`.
pub open spec fn is_response(grid: PixelGrid, challenge: Seq<u8>, response: Seq<u8>) -> bool {
    let nonce = response.subrange(CHALLENGE_LEN as int, CHALLENGE_LEN + NONCE_LEN);
    &&& response.len() == RESPONSE_LEN
    &&& response == response_bytes(challenge, nonce, grid.color_at(target_of(challenge)))
    &&& nonce_answers(challenge, nonce)
}

/// Lays out a challenge response: the 24 bytes of the challenge, the nonce,
/// and the red, green and blue to write.
pub fn assemble_response(challenge: &[u8], nonce: &[u8], color: PixelColor) -> (response: Vec<u8>)
    requires
        is_challenge(challenge@),
    ensures
        response@ == response_bytes(challenge@, nonce@, color),
        response@.len() == CHALLENGE_LEN + nonce@.len() + 3,
{
    let mut response: Vec<u8> = Vec::new();
    let mut i: usize = 0;
    while i < CHALLENGE_LEN
        invariant
            i <= CHALLENGE_LEN <= challenge@.len(),
            response@ == challenge@.take(i as int),
        decreases CHALLENGE_LEN - i,
    {
        response.push(challenge[i]);
        proof {
            assert(challenge@.take(i + 1) =~= challenge@.take(i as int).push(challenge@[i as int]));
        }
        i = i + 1;
    }
    let mut j: usize = 0;
    while j < nonce.len()
        invariant
            j <= nonce@.len(),
            response@ == challenge_prefix(challenge@) + nonce@.take(j as int),
        decreases nonce@.len() - j,
    {
        response.push(nonce[j]);
        proof {
            assert(nonce@.take(j + 1) =~= nonce@.take(j as int).push(nonce@[j as int]));
            assert(response@ =~= challenge_prefix(challenge@) + nonce@.take(j + 1));
        }
        j = j + 1;
    }
    proof {
        assert(nonce@.take(j as int) =~= nonce@);
    }
    response.push(color.r);
    response.push(color.g);
    response.push(color.b);
    proof {
        assert(response@ =~= response_bytes(challenge@, nonce@, color));
    }
    response
}

/// Answers one datagram from the server.
///
/// A datagram shorter than a challenge is refused, and so is a challenge for
/// a pixel outside the image. A challenge that already shows the pixel's
/// colour, or whose pixel is fully transparent, confirms the pixel. Any
/// other challenge is answered: the proof of work is searched for over the 24
/// bytes of the challenge, at the difficulty the challenge names, and the
/// response is laid out for sending.
pub fn respond_to_challenge(grid: &PixelGrid, datagram: &[u8]) -> (outcome: Result<
    Outcome,
    ChallengeError,
>)
    requires
        grid.wf(),
    ensures
        outcome == Err::<Outcome, ChallengeError>(ChallengeError::InvalidChallenge)
            <==> !is_challenge(datagram@),
        outcome == Err::<Outcome, ChallengeError>(ChallengeError::OutOfBounds) <==> is_challenge(
            datagram@,
        ) && !grid.contains(target_of(datagram@)),
        outcome matches Ok(Outcome::Confirmed(c)) ==> c == target_of(datagram@),
        outcome matches Ok(Outcome::Confirmed(_)) <==> confirms(*grid, datagram@),
        outcome matches Ok(Outcome::Respond(response)) ==> is_response(
            *grid,
            datagram@,
            response@,
        ),
        outcome matches Ok(Outcome::Respond(_)) <==> demands_work(*grid, datagram@),
{
    if datagram.len() < CHALLENGE_LEN {
        return Err(ChallengeError::InvalidChallenge);
    }
    let target = decode_target(datagram);
    if !grid.has_pixel(target) {
        return Err(ChallengeError::OutOfBounds);
    }
    let color = grid.pixel(target);
    if datagram[4] == color.r && datagram[5] == color.g && datagram[6] == color.b {
        return Ok(Outcome::Confirmed(target));
    }
    if color.a == 0 {
        return Ok(Outcome::Confirmed(target));
    }
    let difficulty: u8 = datagram[7];
    let prefix = slice_subrange(datagram, 0, CHALLENGE_LEN);
    assert(prefix@ =~= challenge_prefix(datagram@));
    let nonce = solve_pow_parallel(prefix, difficulty);
    let response = assemble_response(datagram, nonce.as_slice(), color);
    proof {
        assert(response@.subrange(CHALLENGE_LEN as int, CHALLENGE_LEN + NONCE_LEN) =~= nonce@);
    }
    Ok(Outcome::Respond(response))
}

} // verus!
