//! Error taxonomy of the codec: every failure the two pipelines can surface
//! is a distinct case that a caller can match on.

use vstd::prelude::*;

verus! {

/// Errors produced by the encode and decode pipelines.
#[derive(Clone, Copy, Debug, PartialEq, Eq, Structural)]
pub enum CodecError {
    /// The byte buffer cannot physically hold a valid frame.
    InputTooShort,
    /// No `0x7E` framing flag opens the buffer.
    NoStartFlag,
    /// The byte after the information field's checksum is not `0x7E`.
    NoEndFlag,
    /// The address field runs past the end of the buffer before an
    /// end-of-address bit is seen.
    AddressDecodeFailure,
    /// The two bytes after the address field are not `0x03, 0xF0`.
    MissingControlOrPid,
    /// The frame check sequence does not match the information field.
    /// `expected` is the checksum computed over the received information
    /// bytes; `actual` is the value stored in the frame.
    CrcMismatch { expected: u16, actual: u16 },
    /// The audio container is not mono 16-bit PCM at 44100 Hz.
    InvalidWav,
    /// A sequenced fragment is missing during reassembly.
    FragmentIncomplete,
    /// Fragments disagree on their total count during reassembly.
    FragmentInconsistent,
    /// The information field is empty; a frame carries at least one
    /// information byte, so empty payloads are rejected at the encoder.
    EmptyInformation,
}

/// A plain error wrapper carrying a human-readable message, kept for the
/// service layer around the codec.
#[derive(Debug)]
pub struct CustomError(pub String);

} // verus!
