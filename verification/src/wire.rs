//! Byte layout of the datagrams exchanged with the canvas server.
//!
//! All multi-byte integers are little-endian.
//!
//! | message            | layout                                              | size |
//! |--------------------|-----------------------------------------------------|------|
//! | pixel request      | x, y                                                | 4    |
//! | challenge          | x, y, observed r g b, difficulty, entropy           | 24   |
//! | challenge response | challenge, nonce (16 bytes), r g b to write         | 43   |

use vstd::prelude::*;

verus! {

/// Length of a pixel request.
pub const REQUEST_LEN: usize = 4;

/// Length of a challenge; a shorter datagram is not a challenge.
pub const CHALLENGE_LEN: usize = 24;

/// Length of the nonce that answers a challenge.
pub const NONCE_LEN: usize = 16;

/// Length of a challenge response.
pub const RESPONSE_LEN: usize = 43;

/// A position in the image: column `x`, row `y`.
#[derive(Clone, Copy, Debug, PartialEq, Eq, Structural)]
pub struct PixelCoordinate {
    pub x: u16,
    pub y: u16,
}

/// The two bytes of `v`, low byte first.
pub open spec fn u16_le(v: u16) -> Seq<u8> {
    seq![(v % 256) as u8, (v / 256) as u8]
}

/// The number whose low byte is `lo` and whose high byte is `hi`.
pub open spec fn le_u16(lo: u8, hi: u8) -> u16 {
    (lo + 256 * hi) as u16
}

/// The request for the pixel at `c`.
pub open spec fn request_bytes(c: PixelCoordinate) -> Seq<u8> {
    u16_le(c.x) + u16_le(c.y)
}

/// The coordinate that the first four bytes of a request or a challenge name.
pub open spec fn target_of(bytes: Seq<u8>) -> PixelCoordinate
    recommends
        bytes.len() >= 4,
{
    PixelCoordinate { x: le_u16(bytes[0], bytes[1]), y: le_u16(bytes[2], bytes[3]) }
}

/// Reading back what `u16_le` wrote gives the number again.
pub proof fn lemma_u16_roundtrip(v: u16)
    ensures
        u16_le(v).len() == 2,
        le_u16(u16_le(v)[0], u16_le(v)[1]) == v,
{
}

/// A request names the coordinate it was made for.
pub proof fn lemma_request_names_target(c: PixelCoordinate)
    ensures
        request_bytes(c).len() == REQUEST_LEN,
        target_of(request_bytes(c)) == c,
{
    lemma_u16_roundtrip(c.x);
    lemma_u16_roundtrip(c.y);
}

/// Builds the four-byte request for the pixel at `c`.
pub fn encode_request(c: PixelCoordinate) -> (bytes: Vec<u8>)
    ensures
        bytes@ == request_bytes(c),
{
    let mut bytes: Vec<u8> = Vec::new();
    bytes.push((c.x % 256) as u8);
    bytes.push((c.x / 256) as u8);
    bytes.push((c.y % 256) as u8);
    bytes.push((c.y / 256) as u8);
    assert(bytes@ =~= request_bytes(c));
    bytes
}

/// Reads the coordinate at the head of a datagram.
pub fn decode_target(bytes: &[u8]) -> (c: PixelCoordinate)
    requires
        bytes@.len() >= 4,
    ensures
        c == target_of(bytes@),
{
    let x: u16 = bytes[0] as u16 + 256 * (bytes[1] as u16);
    let y: u16 = bytes[2] as u16 + 256 * (bytes[3] as u16);
    PixelCoordinate { x, y }
}

} // verus!
