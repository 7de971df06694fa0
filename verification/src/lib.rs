//! APRS-over-audio codec: AX.25 UI-frame assembly and parsing, CRC-16/IBM-SDLC
//! checking, payload fragmentation, and Bell 202 AFSK modulation/demodulation
//! at 1200 baud over 16-bit mono PCM at 44100 Hz.
//!
//! The encoder turns a routing envelope plus text payload into a PCM sample
//! stream; the decoder recovers the packet from such a stream. Both directions
//! carry exact contracts, and the round trip is proved: decoding the encoder's
//! own clean output returns the original packet.

pub mod address;
pub mod checksum;
pub mod constants;
pub mod errors;
pub mod fragment;
pub mod frame;
pub mod modem;
pub mod packet;
pub mod pipeline;
pub mod strutil;
