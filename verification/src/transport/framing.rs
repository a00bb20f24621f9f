//! Length-prefixed framing shared by the stream transports (TCP, TLS, Tor,
//! I2P): each message goes out as its length in 4 big-endian bytes, then the
//! payload. A receiver refuses a length above [`MAX_FRAME`].
use vstd::prelude::*;

verus! {

/// The largest payload a receiver accepts: 10 MiB.
pub const MAX_FRAME: usize = 10 * 1024 * 1024;

/// Why a frame header was refused.
#[derive(Debug, Clone, Copy, PartialEq, Eq, Structural)]
pub enum FrameError {
    /// The announced length exceeds [`MAX_FRAME`].
    PayloadTooLarge,
}

impl FrameError {
    /// The refusal as text.
    pub fn to_string(&self) -> (s: String)
        ensures
            s@ == "Payload too large"@,
    {
        "Payload too large".to_owned()
    }
}

/// The number that four bytes spell, most significant first.
pub open spec fn be_u32_value(b: Seq<u8>) -> nat {
    (b[0] as nat) * 0x100_0000 + (b[1] as nat) * 0x1_0000 + (b[2] as nat) * 0x100 + (b[3] as nat)
}

/// The header announcing a payload of `len` bytes. The length is taken
/// modulo 2^32, as the cast to `u32` on the sending side does.
pub fn encode_len(len: usize) -> (header: [u8; 4])
    ensures
        header@.len() == 4,
        be_u32_value(header@) == (len as nat) % 0x1_0000_0000,
{
    let x: u32 = ((len as u64) % 0x1_0000_0000) as u32;
    let b0: u8 = (x >> 24) as u8;
    let b1: u8 = ((x >> 16) & 0xff) as u8;
    let b2: u8 = ((x >> 8) & 0xff) as u8;
    let b3: u8 = (x & 0xff) as u8;
    assert(b0 as u32 * 0x100_0000 + b1 as u32 * 0x1_0000 + b2 as u32 * 0x100 + b3 as u32 == x)
        by (bit_vector)
        requires
            b0 == (x >> 24) as u8,
            b1 == ((x >> 16) & 0xff) as u8,
            b2 == ((x >> 8) & 0xff) as u8,
            b3 == (x & 0xff) as u8,
    ;
    let header = [b0, b1, b2, b3];
    assert(header@[0] == b0 && header@[1] == b1 && header@[2] == b2 && header@[3] == b3);
    header
}

/// The payload length a header announces; refused above [`MAX_FRAME`].
pub fn decode_len(header: [u8; 4]) -> (r: Result<usize, FrameError>)
    ensures
        match r {
            Ok(n) => n == be_u32_value(header@) && n <= MAX_FRAME,
            Err(FrameError::PayloadTooLarge) => be_u32_value(header@) > MAX_FRAME,
        },
{
    let b0 = header[0];
    let b1 = header[1];
    let b2 = header[2];
    let b3 = header[3];
    let x: u32 = ((b0 as u32) << 24) | ((b1 as u32) << 16) | ((b2 as u32) << 8) | (b3 as u32);
    assert(x == b0 as u32 * 0x100_0000 + b1 as u32 * 0x1_0000 + b2 as u32 * 0x100 + b3 as u32)
        by (bit_vector)
        requires
            x == ((b0 as u32) << 24) | ((b1 as u32) << 16) | ((b2 as u32) << 8) | (b3 as u32),
    ;
    let len = x as usize;
    if len > MAX_FRAME {
        return Err(FrameError::PayloadTooLarge);
    }
    Ok(len)
}

/// Framing law: a receiver reads back the length that a sender announced,
/// for every payload within [`MAX_FRAME`].
pub proof fn law_header_roundtrip(len: nat, header: Seq<u8>)
    requires
        len <= MAX_FRAME,
        header.len() == 4,
        be_u32_value(header) == len % 0x1_0000_0000,
    ensures
        be_u32_value(header) == len,
        be_u32_value(header) <= MAX_FRAME,
{
}

} // verus!
