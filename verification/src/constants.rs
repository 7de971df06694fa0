//! Shared constants of the wire format and of the audio layer.

use vstd::prelude::*;

verus! {

/// Largest number of raw payload bytes carried by a single frame before
/// fragmentation takes over.
pub const MAX_PAYLOAD_SIZE: usize = 256;

/// PCM sample rate, in samples per second.
pub const SAMPLE_RATE: u32 = 44100;

/// Symbol rate of the AFSK layer, in bits per second.
pub const BAUD_RATE: u32 = 1200;

/// Samples per AFSK bit: `SAMPLE_RATE / BAUD_RATE`, truncated.
pub const SAMPLES_PER_BIT: usize = 36;

/// Bits per PCM sample of the audio container.
pub const BITS_PER_SAMPLE: u16 = 16;

/// AX.25 framing flag byte, first and last byte of every frame.
pub const FLAG: u8 = 0x7E;

/// AX.25 control byte of a UI-frame.
pub const CONTROL_UI: u8 = 0x03;

/// AX.25 protocol-id byte meaning "no layer 3".
pub const PID_NO_LAYER3: u8 = 0xF0;

} // verus!
