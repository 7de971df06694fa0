//! The frame check sequence: CRC-16/IBM-SDLC (polynomial `0x1021`, initial
//! value `0xFFFF`, reflected in and out, output xor `0xFFFF`) over the
//! information-field bytes.

use vstd::prelude::*;

verus! {

/// The CRC-16/IBM-SDLC value of a byte sequence. The checksum is a pure
/// function of the bytes alone; the reference implementation in the `crc`
/// crate computes it.
pub uninterp spec fn crc16_of(data: Seq<u8>) -> u16;

/// Relies on `crc::Crc::<u16>::checksum` with the `CRC_16_IBM_SDLC`
/// algorithm: a deterministic checksum of the bytes alone.
#[verifier::external_body]
pub fn compute_crc16(data: &[u8]) -> (r: u16)
    ensures
        r == crc16_of(data@),
{
    let crc = crc::Crc::<u16>::new(&crc::CRC_16_IBM_SDLC);
    crc.checksum(data)
}

} // verus!
