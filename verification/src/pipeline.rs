//! The two pipelines: a packet to PCM samples, and PCM samples back to a
//! packet.
//!
//! Encoding fragments the information, frames each fragment, and modulates
//! the frames in order with nothing between them. Decoding demodulates the
//! sample stream into bits, packs the bits into bytes, and parses the first
//! frame found. The round trip is proved below: for every wire-normal
//! packet with 1 to 256 information bytes, decoding the encoder's clean
//! output yields exactly the original fields.

use crate::address::callsign_part;
use crate::address::lemma_address_roundtrip;
use crate::address::spec_decode_address;
use crate::address::spec_normalized_address;
use crate::address::valid_callsign_byte;
use crate::errors::CodecError;
use crate::fragment::concat_seqs;
use crate::fragment::lemma_concat_take_snoc;
use crate::fragment::prepare_packets;
use crate::fragment::spec_fragment_infos;
use crate::frame::digis_bytes;
use crate::frame::lemma_frame_roundtrip;
use crate::frame::parse_aprs_packet;
use crate::frame::parsed_dest7;
use crate::frame::parsed_digis7;
use crate::frame::parsed_info;
use crate::frame::parsed_src7;
use crate::frame::spec_frame;
use crate::frame::spec_parse_err;
use crate::modem::afsk_modulate;
use crate::modem::bits_of_bytes;
use crate::modem::bits_to_bytes;
use crate::modem::demodulate_afsk;
use crate::modem::lemma_bits_of_bytes_concat;
use crate::modem::lemma_demod_modulate;
use crate::modem::lemma_modulate_concat;
use crate::modem::lemma_pack_unpack;
use crate::modem::spec_demod;
use crate::modem::spec_modulate;
use crate::modem::spec_pack_bits;
use crate::packet::AprsPacket;
use crate::strutil::utf8_lossy_of;
use vstd::prelude::*;
use vstd::string::StringSliceAdditionalSpecFns;
use vstd::utf8::encode_utf8;

verus! {

/// All frame bytes of a message, in transmission order: one frame per
/// fragment of the information.
pub open spec fn spec_wire_bytes(
    dest: Seq<u8>,
    src: Seq<u8>,
    digis: Seq<Seq<u8>>,
    info: Seq<u8>,
) -> Seq<u8> {
    concat_seqs(
        Seq::new(
            spec_fragment_infos(info).len(),
            |i: int| spec_frame(dest, src, digis, spec_fragment_infos(info)[i]),
        ),
    )
}

/// The PCM stream of a message: the modulation of all its frame bytes,
/// with no inter-frame silence.
pub open spec fn spec_encode_samples(
    dest: Seq<u8>,
    src: Seq<u8>,
    digis: Seq<Seq<u8>>,
    info: Seq<u8>,
) -> Seq<i16> {
    spec_modulate(bits_of_bytes(spec_wire_bytes(dest, src, digis, info)))
}

/// Encodes a message into AFSK audio samples: the information is
/// fragmented, each fragment framed and modulated, the symbols
/// concatenated. An empty information field is rejected, since a frame
/// carries at least one information byte; every other input encodes, with
/// exactly `8 * 36` samples per frame byte.
pub fn encode_message(
    source: &str,
    destination: &str,
    digipeaters: &Vec<String>,
    information: &str,
) -> (r: Result<Vec<i16>, CodecError>)
    ensures
        r is Err <==> information.spec_bytes().len() == 0,
        r matches Err(e) ==> e == CodecError::EmptyInformation,
        r matches Ok(samples) ==> {
            let wire = spec_wire_bytes(
                destination.spec_bytes(),
                source.spec_bytes(),
                digis_bytes(digipeaters@),
                information.spec_bytes(),
            );
            &&& samples@ == spec_encode_samples(
                destination.spec_bytes(),
                source.spec_bytes(),
                digis_bytes(digipeaters@),
                information.spec_bytes(),
            )
            &&& samples@.len() == 8 * 36 * wire.len()
        },
{
    let info_bytes = information.as_bytes();
    if info_bytes.len() == 0 {
        return Err(CodecError::EmptyInformation);
    }
    let packets = prepare_packets(source, destination, digipeaters, information);
    let ghost frames = Seq::new(
        spec_fragment_infos(information.spec_bytes()).len(),
        |i: int|
            spec_frame(
                destination.spec_bytes(),
                source.spec_bytes(),
                digis_bytes(digipeaters@),
                spec_fragment_infos(information.spec_bytes())[i],
            ),
    );
    let mut samples: Vec<i16> = Vec::new();
    let n = packets.len();
    let mut i: usize = 0;
    while i < n
        invariant
            0 <= i <= n,
            n == packets@.len(),
            packets.deep_view() == frames,
            samples@ == spec_modulate(bits_of_bytes(concat_seqs(frames.take(i as int)))),
        decreases n - i,
    {
        let mut piece = afsk_modulate(packets[i].as_slice());
        proof {
            assert(packets@[i as int]@ == frames[i as int]);
        }
        let ghost done = concat_seqs(frames.take(i as int));
        samples.append(&mut piece);
        proof {
            lemma_concat_take_snoc(frames, i as int);
            lemma_bits_of_bytes_concat(done, frames[i as int]);
            lemma_modulate_concat(
                bits_of_bytes(done),
                bits_of_bytes(frames[i as int]),
            );
            assert(samples@ =~= spec_modulate(
                bits_of_bytes(concat_seqs(frames.take(i + 1))),
            ));
        }
        i += 1;
    }
    proof {
        assert(frames.take(n as int) =~= frames);
        let winfos = spec_fragment_infos(information.spec_bytes());
        assert(frames =~= Seq::new(
            winfos.len(),
            |i: int|
                spec_frame(
                    destination.spec_bytes(),
                    source.spec_bytes(),
                    digis_bytes(digipeaters@),
                    winfos[i],
                ),
        ));
        let wire = spec_wire_bytes(
            destination.spec_bytes(),
            source.spec_bytes(),
            digis_bytes(digipeaters@),
            information.spec_bytes(),
        );
        assert(wire == concat_seqs(frames));
        crate::modem::lemma_bits_of_bytes_len(wire);
        crate::modem::lemma_modulate_len(bits_of_bytes(wire));
        assert(samples@ == spec_encode_samples(
            destination.spec_bytes(),
            source.spec_bytes(),
            digis_bytes(digipeaters@),
            information.spec_bytes(),
        ));
        assert(bits_of_bytes(wire).len() == 8 * wire.len());
        assert(samples@.len() == 36 * bits_of_bytes(wire).len());
        assert(samples@.len() == 8 * 36 * wire.len()) by (nonlinear_arith)
            requires
                samples@.len() == 36 * bits_of_bytes(wire).len(),
                bits_of_bytes(wire).len() == 8 * wire.len(),
        ;
        assert(information.spec_bytes().len() != 0);
    }
    Ok(samples)
}

/// Decodes a PCM sample stream back into a packet: the stream is
/// demodulated into bits, the bits packed into bytes, and the byte stream
/// parsed as a frame, with the frame parser's exact outcome.
pub fn decode_audio(samples: &[i16]) -> (r: Result<AprsPacket, CodecError>)
    ensures
        ({
            let b = spec_pack_bits(spec_demod(samples@));
            &&& r is Err <==> spec_parse_err(b) is Some
            &&& r matches Err(e) ==> Some(e) == spec_parse_err(b)
            &&& r matches Ok(p) ==> {
                &&& encode_utf8(p.destination@) == spec_decode_address(parsed_dest7(b))
                &&& encode_utf8(p.source@) == spec_decode_address(parsed_src7(b))
                &&& p.digipeaters@.len() == parsed_digis7(b).len()
                &&& forall|i: int|
                    0 <= i < p.digipeaters@.len() ==> encode_utf8(#[trigger] p.digipeaters@[i]@)
                        == spec_decode_address(parsed_digis7(b)[i])
                &&& p.information@ == utf8_lossy_of(parsed_info(b))
            }
        }),
{
    let bits = demodulate_afsk(samples);
    let bytes = bits_to_bytes(bits.as_slice());
    parse_aprs_packet(bytes.as_slice())
}

/// True of an address text as it stands on the air: a callsign of one to
/// six uppercase letters or digits, and an SSID suffix exactly when the
/// SSID is nonzero, so that the text is its own normalised form.
pub open spec fn wire_normal_address(a: Seq<u8>) -> bool {
    &&& 1 <= callsign_part(a).len() <= 6
    &&& forall|i: int|
        0 <= i < callsign_part(a).len() ==> valid_callsign_byte(#[trigger] callsign_part(a)[i])
    &&& spec_normalized_address(a) == a
}

/// The codec's core invariant, the round trip: for every packet whose
/// addresses are wire-normal and whose information holds 1 to 256 bytes,
/// demodulating and parsing the encoder's own clean output succeeds and
/// returns every field unchanged.
pub proof fn lemma_codec_roundtrip(dest: Seq<u8>, src: Seq<u8>, digis: Seq<Seq<u8>>, info: Seq<u8>)
    requires
        wire_normal_address(dest),
        wire_normal_address(src),
        forall|i: int| 0 <= i < digis.len() ==> wire_normal_address(#[trigger] digis[i]),
        1 <= info.len() <= 256,
    ensures
        ({
            let b = spec_pack_bits(spec_demod(spec_encode_samples(dest, src, digis, info)));
            &&& spec_parse_err(b) is None
            &&& spec_decode_address(parsed_dest7(b)) == dest
            &&& spec_decode_address(parsed_src7(b)) == src
            &&& parsed_digis7(b).len() == digis.len()
            &&& forall|i: int|
                0 <= i < digis.len() ==> spec_decode_address(#[trigger] parsed_digis7(b)[i])
                    == digis[i]
            &&& parsed_info(b) == info
        }),
{
    // With at most 256 bytes there is exactly one fragment, sent bare, and
    // exactly one frame.
    let frame = spec_frame(dest, src, digis, info);
    assert(spec_fragment_infos(info) == seq![info]);
    let frames = Seq::new(
        spec_fragment_infos(info).len(),
        |i: int| spec_frame(dest, src, digis, spec_fragment_infos(info)[i]),
    );
    assert(frames[0] == frame);
    assert(frames.drop_first() =~= Seq::<Seq<u8>>::empty());
    assert(concat_seqs(Seq::<Seq<u8>>::empty()) =~= Seq::<u8>::empty());
    assert(concat_seqs(frames) =~= frame);
    assert(spec_wire_bytes(dest, src, digis, info) == frame);

    // The modem and the byte packer are exact inverses on clean output.
    lemma_demod_modulate(bits_of_bytes(frame));
    lemma_pack_unpack(frame);
    let b = spec_pack_bits(spec_demod(spec_encode_samples(dest, src, digis, info)));
    assert(b == frame);

    // The parser reads back the encoded wire forms, and each decodes to
    // its normalised text, which is the original.
    lemma_frame_roundtrip(dest, src, digis, info);
    lemma_address_roundtrip(dest, false);
    lemma_address_roundtrip(src, digis.len() == 0);
    assert forall|i: int| 0 <= i < digis.len() implies spec_decode_address(
        #[trigger] parsed_digis7(b)[i],
    ) == digis[i] by {
        lemma_address_roundtrip(digis[i], i == digis.len() - 1);
    }
}

} // verus!
