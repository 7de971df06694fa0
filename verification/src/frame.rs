//! The frame assembler and its inverse parser: an AX.25 UI-frame byte
//! sequence from routing fields and information, and back.
//!
//! Wire layout, in order: `FLAG(1) | DEST(7) | SRC(7) | DIGI*(0..) |
//! CTRL(1)=0x03 | PID(1)=0xF0 | INFO(1..) | FCS(2, little-endian) | FLAG(1)`.
//! The end-of-address bit is set only on the address that immediately
//! precedes the control byte: the destination is never last, the source is
//! last exactly when there are no digipeaters, else the final digipeater is.
//! The FCS is the CRC-16/IBM-SDLC of the information field alone.

use crate::address::decode_address;
use crate::address::encode_address;
use crate::address::lemma_enc_addr_bytes;
use crate::address::spec_decode_address;
use crate::address::spec_encode_address;
use crate::checksum::compute_crc16;
use crate::constants::CONTROL_UI;
use crate::constants::FLAG;
use crate::constants::PID_NO_LAYER3;
use crate::checksum::crc16_of;
use crate::errors::CodecError;
use crate::packet::AprsPacket;
use crate::strutil::string_from_utf8_lossy;
use crate::strutil::utf8_lossy_of;
use vstd::bytes::spec_u16_from_le_bytes;
use vstd::bytes::spec_u16_to_le_bytes;
use vstd::bytes::u16_from_le_bytes;
use vstd::bytes::u16_to_le_bytes;
use vstd::prelude::*;
use vstd::slice::slice_subrange;
use vstd::string::StringSliceAdditionalSpecFns;
use vstd::utf8::encode_utf8;

verus! {

/// A buffer shorter than this cannot hold a frame: 20 framing and address
/// bytes plus at least one information byte.
pub const MIN_FRAME_LEN: usize = 21;

/// The UTF-8 bytes of each digipeater string, in order.
pub open spec fn digis_bytes(ds: Seq<String>) -> Seq<Seq<u8>> {
    ds.map_values(|d: String| encode_utf8(d@))
}

/// The encoded digipeater address block starting at entry `k`: each entry in
/// its 7-byte form, the final one carrying the end-of-address mark.
pub open spec fn spec_digi_field_from(ds: Seq<Seq<u8>>, k: int) -> Seq<u8>
    decreases ds.len() - k,
{
    if k < 0 || k >= ds.len() {
        Seq::empty()
    } else {
        spec_encode_address(ds[k], k == ds.len() - 1) + spec_digi_field_from(ds, k + 1)
    }
}

/// The whole address field: destination, source, then the digipeaters. The
/// source carries the end-of-address mark exactly when there are none.
pub open spec fn spec_address_field(dest: Seq<u8>, src: Seq<u8>, digis: Seq<Seq<u8>>) -> Seq<u8> {
    spec_encode_address(dest, false) + spec_encode_address(src, digis.len() == 0)
        + spec_digi_field_from(digis, 0)
}

/// The complete frame for the given routing fields and information bytes.
pub open spec fn spec_frame(dest: Seq<u8>, src: Seq<u8>, digis: Seq<Seq<u8>>, info: Seq<u8>) -> Seq<
    u8,
> {
    seq![0x7Eu8] + spec_address_field(dest, src, digis) + seq![0x03u8, 0xF0u8] + info
        + spec_u16_to_le_bytes(crc16_of(info)) + seq![0x7Eu8]
}

/// The digipeater block holds seven bytes per entry.
pub proof fn lemma_digi_field_len(ds: Seq<Seq<u8>>, k: int)
    requires
        0 <= k <= ds.len(),
    ensures
        spec_digi_field_from(ds, k).len() == 7 * (ds.len() - k),
    decreases ds.len() - k,
{
    if k < ds.len() {
        lemma_digi_field_len(ds, k + 1);
    }
}

/// Assembles one frame from routing texts and raw information bytes. Total:
/// addresses normalise as the address codec says, and any byte string is
/// framed as given.
pub fn assemble_frame(
    destination: &str,
    source: &str,
    digipeaters: &Vec<String>,
    info: &[u8],
) -> (r: Vec<u8>)
    ensures
        r@ == spec_frame(
            destination.spec_bytes(),
            source.spec_bytes(),
            digis_bytes(digipeaters@),
            info@,
        ),
{
    let ghost ds = digis_bytes(digipeaters@);
    let mut packet: Vec<u8> = Vec::new();
    packet.push(FLAG);

    // Address field: destination first (never last), then source (last
    // exactly when no digipeater follows), then the digipeaters.
    let mut dest_b = encode_address(destination, false);
    packet.append(&mut dest_b);
    let last_src = digipeaters.len() == 0;
    let mut src_b = encode_address(source, last_src);
    packet.append(&mut src_b);

    let ghost head = seq![0x7Eu8] + spec_encode_address(destination.spec_bytes(), false)
        + spec_encode_address(source.spec_bytes(), ds.len() == 0);
    assert(packet@ =~= head);

    let k = digipeaters.len();
    let mut i: usize = 0;
    while i < k
        invariant
            0 <= i <= k,
            k == digipeaters@.len(),
            ds == digis_bytes(digipeaters@),
            packet@ + spec_digi_field_from(ds, i as int) =~= head + spec_digi_field_from(ds, 0),
        decreases k - i,
    {
        let is_last = i == k - 1;
        let d = &digipeaters[i];
        let mut digi_b = encode_address(d.as_str(), is_last);
        proof {
            assert(ds[i as int] == encode_utf8(digipeaters@[i as int]@));
        }
        let ghost before = packet@;
        packet.append(&mut digi_b);
        proof {
            assert(packet@ =~= before + spec_encode_address(ds[i as int], i == k - 1));
            assert(spec_digi_field_from(ds, i as int) == spec_encode_address(
                ds[i as int],
                i == k - 1,
            ) + spec_digi_field_from(ds, i + 1));
            assert(packet@ + spec_digi_field_from(ds, i + 1) =~= before + spec_digi_field_from(
                ds,
                i as int,
            ));
        }
        i += 1;
    }
    assert(packet@ =~= head + spec_digi_field_from(ds, 0));

    // Control byte, protocol id, information, checksum, closing flag.
    packet.push(CONTROL_UI);
    packet.push(PID_NO_LAYER3);
    let ghost before_info = packet@;
    let mut j: usize = 0;
    while j < info.len()
        invariant
            0 <= j <= info@.len(),
            packet@ =~= before_info + info@.take(j as int),
        decreases info@.len() - j,
    {
        packet.push(info[j]);
        j += 1;
    }
    assert(packet@ =~= before_info + info@);

    let crc = compute_crc16(info);
    let mut crc_b = u16_to_le_bytes(crc);
    packet.append(&mut crc_b);
    packet.push(FLAG);
    assert(packet@ =~= spec_frame(
        destination.spec_bytes(),
        source.spec_bytes(),
        ds,
        info@,
    ));
    packet
}

impl AprsPacket {
    /// Assembles this packet into its frame bytes.
    pub fn encode(&self) -> (r: Vec<u8>)
        ensures
            r@ == spec_frame(
                encode_utf8(self.destination@),
                encode_utf8(self.source@),
                digis_bytes(self.digipeaters@),
                encode_utf8(self.information@),
            ),
    {
        assemble_frame(
            self.destination.as_str(),
            self.source.as_str(),
            &self.digipeaters,
            self.information.as_str().as_bytes(),
        )
    }
}

/// Index of the first framing flag in a buffer, or its length when none
/// occurs.
pub open spec fn flag_pos(b: Seq<u8>) -> int
    decreases b.len(),
{
    if b.len() == 0 {
        0
    } else if b[0] == 0x7E {
        0
    } else {
        1 + flag_pos(b.drop_first())
    }
}

/// `flag_pos` of a sequence whose first flag, if any, stands at `i`.
proof fn lemma_flag_pos_at(b: Seq<u8>, i: int)
    requires
        0 <= i <= b.len(),
        forall|j: int| 0 <= j < i ==> b[j] != 0x7E,
        i == b.len() || b[i] == 0x7E,
    ensures
        flag_pos(b) == i,
    decreases b.len(),
{
    if i > 0 {
        lemma_flag_pos_at(b.drop_first(), i - 1);
    }
}

/// Where the address field ends. `p` points just past a 7-byte address;
/// while that address's last byte has its low bit clear, a further address
/// of 7 bytes follows. The result points just past the address carrying the
/// end-of-address mark, or is -1 when the bytes run out first.
pub open spec fn addr_end(b: Seq<u8>, p: int) -> int
    decreases b.len() - p,
{
    if p < 1 || p > b.len() {
        -1
    } else if b[p - 1] & 0x01 == 1 {
        p
    } else if p + 7 <= b.len() {
        addr_end(b, p + 7)
    } else {
        -1
    }
}

/// The first error the parser meets on a buffer, or `None` when the buffer
/// parses: checks run in the order short buffer, start flag, address field,
/// room for the information field, control and protocol-id bytes, checksum,
/// end flag.
pub open spec fn spec_parse_err(b: Seq<u8>) -> Option<CodecError> {
    let n = b.len() as int;
    if n < MIN_FRAME_LEN {
        Some(CodecError::InputTooShort)
    } else if flag_pos(b) == n {
        Some(CodecError::NoStartFlag)
    } else if flag_pos(b) + 15 > n {
        Some(CodecError::AddressDecodeFailure)
    } else if addr_end(b, flag_pos(b) + 15) < 0 {
        Some(CodecError::AddressDecodeFailure)
    } else if addr_end(b, flag_pos(b) + 15) + 6 > n {
        Some(CodecError::InputTooShort)
    } else if b[addr_end(b, flag_pos(b) + 15)] != 0x03 || b[addr_end(b, flag_pos(b) + 15) + 1]
        != 0xF0 {
        Some(CodecError::MissingControlOrPid)
    } else if crc16_of(parsed_info(b)) != spec_u16_from_le_bytes(b.subrange(n - 3, n - 1)) {
        Some(
            CodecError::CrcMismatch {
                expected: crc16_of(parsed_info(b)),
                actual: spec_u16_from_le_bytes(b.subrange(n - 3, n - 1)),
            },
        )
    } else if b[n - 1] != 0x7E {
        Some(CodecError::NoEndFlag)
    } else {
        None
    }
}

/// The destination's 7 wire bytes: right after the start flag.
pub open spec fn parsed_dest7(b: Seq<u8>) -> Seq<u8> {
    b.subrange(flag_pos(b) + 1, flag_pos(b) + 8)
}

/// The source's 7 wire bytes: right after the destination.
pub open spec fn parsed_src7(b: Seq<u8>) -> Seq<u8> {
    b.subrange(flag_pos(b) + 8, flag_pos(b) + 15)
}

/// The 7-byte groups of the digipeater block, between the source and the
/// end of the address field.
pub open spec fn parsed_digis7(b: Seq<u8>) -> Seq<Seq<u8>> {
    let st14 = flag_pos(b) + 15;
    let ae = addr_end(b, st14);
    Seq::new(((ae - st14) / 7) as nat, |i: int| b.subrange(st14 + 7 * i, st14 + 7 * i + 7))
}

/// The information bytes: after the control and protocol-id bytes, before
/// the 2-byte checksum and the closing flag.
pub open spec fn parsed_info(b: Seq<u8>) -> Seq<u8> {
    b.subrange(addr_end(b, flag_pos(b) + 15) + 2, b.len() - 3)
}

/// Parses a frame buffer back into a packet, or reports the first fault as
/// `spec_parse_err` says. On success every field is the decoded text of its
/// wire bytes.
pub fn parse_aprs_packet(bytes: &[u8]) -> (r: Result<AprsPacket, CodecError>)
    ensures
        r is Err <==> spec_parse_err(bytes@) is Some,
        r matches Err(e) ==> Some(e) == spec_parse_err(bytes@),
        r matches Ok(p) ==> {
            &&& encode_utf8(p.destination@) == spec_decode_address(parsed_dest7(bytes@))
            &&& encode_utf8(p.source@) == spec_decode_address(parsed_src7(bytes@))
            &&& p.digipeaters@.len() == parsed_digis7(bytes@).len()
            &&& forall|i: int|
                0 <= i < p.digipeaters@.len() ==> encode_utf8(#[trigger] p.digipeaters@[i]@)
                    == spec_decode_address(parsed_digis7(bytes@)[i])
            &&& p.information@ == utf8_lossy_of(parsed_info(bytes@))
        },
{
    let ghost b = bytes@;
    let n = bytes.len();
    if n < MIN_FRAME_LEN {
        return Err(CodecError::InputTooShort);
    }

    // Find the start flag.
    let mut fp: usize = 0;
    while fp < n && bytes[fp] != FLAG
        invariant
            0 <= fp <= n,
            n == b.len(),
            bytes@ == b,
            forall|j: int| 0 <= j < fp ==> b[j] != 0x7E,
        decreases n - fp,
    {
        fp += 1;
    }
    proof {
        lemma_flag_pos_at(b, fp as int);
    }
    if fp == n {
        return Err(CodecError::NoStartFlag);
    }
    let st = fp + 1;

    // The two fixed addresses need 14 bytes.
    if n - st < 14 {
        return Err(CodecError::AddressDecodeFailure);
    }

    // Scan past further addresses while the end-of-address bit is clear.
    let mut p = st + 14;
    while bytes[p - 1] & 0x01 == 0
        invariant
            st + 14 <= p <= n,
            st == fp + 1 <= n,
            21 <= n == b.len(),
            bytes@ == b,
            flag_pos(b) == fp,
            fp < n,
            addr_end(b, st + 14) == addr_end(b, p as int),
            (p - (st + 14)) % 7 == 0,
        decreases n - p,
    {
        if n - p < 7 {
            assert(addr_end(b, p as int) == -1);
            return Err(CodecError::AddressDecodeFailure);
        }
        p += 7;
    }
    proof {
        let x = b[p - 1];
        assert(x & 0x01 == 0 || x & 0x01 == 1) by (bit_vector);
    }
    assert(addr_end(b, (st + 14) as int) == p);

    // Room for control, protocol id, one information byte, the checksum and
    // the closing flag.
    if n - p < 6 {
        return Err(CodecError::InputTooShort);
    }
    if bytes[p] != CONTROL_UI || bytes[p + 1] != PID_NO_LAYER3 {
        return Err(CodecError::MissingControlOrPid);
    }

    // Information field and checksum.
    let info_slice = slice_subrange(bytes, p + 2, n - 3);
    assert(info_slice@ == parsed_info(b));
    let computed = compute_crc16(info_slice);
    let stored = u16_from_le_bytes(slice_subrange(bytes, n - 3, n - 1));
    if computed != stored {
        return Err(CodecError::CrcMismatch { expected: computed, actual: stored });
    }
    if bytes[n - 1] != FLAG {
        return Err(CodecError::NoEndFlag);
    }

    // Decode the fields.
    let destination = decode_address(slice_subrange(bytes, st, st + 7));
    let source = decode_address(slice_subrange(bytes, st + 7, st + 14));
    let mut digipeaters: Vec<String> = Vec::new();
    let mut q = st + 14;
    while q < p
        invariant
            st + 14 <= q <= p <= n,
            n == b.len(),
            bytes@ == b,
            st == fp + 1,
            flag_pos(b) == fp,
            addr_end(b, st + 14) == p,
            (q - (st + 14)) % 7 == 0,
            (p - (st + 14)) % 7 == 0,
            digipeaters@.len() == (q - (st + 14)) / 7,
            forall|i: int|
                0 <= i < digipeaters@.len() ==> encode_utf8(#[trigger] digipeaters@[i]@)
                    == spec_decode_address(b.subrange(st + 14 + 7 * i, st + 14 + 7 * i + 7)),
        decreases p - q,
    {
        assert(p - q >= 7) by {
            assert((p - q) % 7 == 0) by {
                let a = (q - (st + 14)) as int;
                let c = (p - (st + 14)) as int;
                assert(a % 7 == 0 && c % 7 == 0 ==> (c - a) % 7 == 0) by (nonlinear_arith);
            }
        }
        let d = decode_address(slice_subrange(bytes, q, q + 7));
        digipeaters.push(d);
        proof {
            let i = ((q - (st + 14)) / 7) as int;
            assert(st + 14 + 7 * i == q);
        }
        q += 7;
    }
    let information = string_from_utf8_lossy(info_slice);
    proof {
        assert(parsed_digis7(b).len() == (p - (st + 14)) / 7);
        assert(forall|i: int|
            0 <= i < parsed_digis7(b).len() ==> #[trigger] parsed_digis7(b)[i] == b.subrange(
                st + 14 + 7 * i,
                st + 14 + 7 * i + 7,
            ));
    }
    Ok(AprsPacket { source, destination, digipeaters, information })
}

/// Pointwise view of the digipeater block: byte `u` of group `t - k`.
proof fn lemma_digi_field_from_at(ds: Seq<Seq<u8>>, k: int, t: int, u: int)
    requires
        0 <= k <= t < ds.len(),
        0 <= u < 7,
    ensures
        spec_digi_field_from(ds, k)[7 * (t - k) + u] == spec_encode_address(
            ds[t],
            t == ds.len() - 1,
        )[u],
    decreases t - k,
{
    lemma_enc_addr_bytes(ds[k], k == ds.len() - 1);
    lemma_digi_field_len(ds, k + 1);
    if t == k {
    } else {
        lemma_digi_field_from_at(ds, k + 1, t, u);
    }
}

/// A scan that starts just past one address and sees `k` clear end-of-address
/// marks, then a set one, ends just past the marked address.
proof fn lemma_addr_end_marks(b: Seq<u8>, start: int, k: int)
    requires
        1 <= start,
        0 <= k,
        start + 7 * k <= b.len(),
        forall|j: int| 0 <= j < k ==> (#[trigger] b[start + 7 * j - 1] & 0x01) == 0,
        b[start + 7 * k - 1] & 0x01 == 1,
    ensures
        addr_end(b, start) == start + 7 * k,
    decreases k,
{
    if k == 0 {
    } else {
        assert(b[start + 7 * 0 - 1] & 0x01 == 0);
        assert forall|j: int| 0 <= j < k - 1 implies (#[trigger] b[(start + 7) + 7 * j - 1]
            & 0x01) == 0 by {
            assert(b[start + 7 * (j + 1) - 1] & 0x01 == 0);
            assert((start + 7) + 7 * j - 1 == start + 7 * (j + 1) - 1);
        }
        assert(b[(start + 7) + 7 * (k - 1) - 1] & 0x01 == 1);
        lemma_addr_end_marks(b, start + 7, k - 1);
    }
}

/// Shape of every assembled frame, whatever its fields hold: it opens and
/// closes with the flag byte, and the control byte `0x03` and protocol id
/// `0xF0` stand immediately after the final address.
pub proof fn lemma_frame_shape(dest: Seq<u8>, src: Seq<u8>, digis: Seq<Seq<u8>>, info: Seq<u8>)
    ensures
        ({
            let b = spec_frame(dest, src, digis, info);
            let k = digis.len() as int;
            &&& b.len() == 20 + 7 * k + info.len()
            &&& b[0] == 0x7E && b[b.len() - 1] == 0x7E
            &&& b[15 + 7 * k] == 0x03 && b[15 + 7 * k + 1] == 0xF0
        }),
{
    let k = digis.len() as int;
    let ed = spec_encode_address(dest, false);
    let es = spec_encode_address(src, k == 0);
    let dd = spec_digi_field_from(digis, 0);
    let af = ed + es + dd;
    let b = spec_frame(dest, src, digis, info);
    lemma_enc_addr_bytes(dest, false);
    lemma_enc_addr_bytes(src, k == 0);
    lemma_digi_field_len(digis, 0);
    vstd::bytes::lemma_auto_spec_u16_to_from_le_bytes();
    assert(af.len() == 14 + 7 * k);
    assert(b.len() == 20 + 7 * k + info.len());
    assert(b[0] == 0x7E);
    assert(b[b.len() - 1] == 0x7E);
    assert(b[15 + 7 * k] == 0x03 && b[15 + 7 * k + 1] == 0xF0);
}

/// Framing round trip at the byte level: the parser accepts every assembled
/// frame with at least one information byte, and reads back exactly the wire
/// forms the assembler wrote. Every assembled frame opens and closes with
/// the flag byte, and carries `0x03, 0xF0` right after its address field.
pub proof fn lemma_frame_roundtrip(dest: Seq<u8>, src: Seq<u8>, digis: Seq<Seq<u8>>, info: Seq<u8>)
    requires
        info.len() >= 1,
    ensures
        ({
            let b = spec_frame(dest, src, digis, info);
            let k = digis.len() as int;
            &&& b.len() == 20 + 7 * k + info.len()
            &&& b[0] == 0x7E && b[b.len() - 1] == 0x7E
            &&& b[15 + 7 * k] == 0x03 && b[15 + 7 * k + 1] == 0xF0
            &&& spec_parse_err(b) is None
            &&& parsed_dest7(b) == spec_encode_address(dest, false)
            &&& parsed_src7(b) == spec_encode_address(src, k == 0)
            &&& parsed_digis7(b).len() == k
            &&& forall|i: int|
                0 <= i < k ==> #[trigger] parsed_digis7(b)[i] == spec_encode_address(
                    digis[i],
                    i == k - 1,
                )
            &&& parsed_info(b) == info
        }),
{
    let k = digis.len() as int;
    let ed = spec_encode_address(dest, false);
    let es = spec_encode_address(src, k == 0);
    let dd = spec_digi_field_from(digis, 0);
    let af = ed + es + dd;
    let crcb = spec_u16_to_le_bytes(crc16_of(info));
    let b = spec_frame(dest, src, digis, info);
    let n = b.len() as int;

    lemma_enc_addr_bytes(dest, false);
    lemma_enc_addr_bytes(src, k == 0);
    lemma_digi_field_len(digis, 0);
    vstd::bytes::lemma_auto_spec_u16_to_from_le_bytes();
    assert(af.len() == 14 + 7 * k);
    assert(n == 20 + 7 * k + info.len());

    // Pointwise layout facts.
    assert(b[0] == 0x7E);
    assert forall|u: int| 0 <= u < 7 implies b[1 + u] == ed[u] && b[8 + u] == es[u] by {
        assert(af[u] == ed[u] && af[7 + u] == es[u]);
    }
    assert forall|t: int, u: int| 0 <= t < k && 0 <= u < 7 implies #[trigger] b[15 + 7 * t + u]
        == spec_encode_address(digis[t], t == k - 1)[u] by {
        lemma_digi_field_from_at(digis, 0, t, u);
        assert(af[14 + 7 * t + u] == dd[7 * t + u]);
        assert(b[1 + (14 + 7 * t + u)] == af[14 + 7 * t + u]);
    }
    assert(b[15 + 7 * k] == 0x03 && b[15 + 7 * k + 1] == 0xF0);
    assert forall|u: int| 0 <= u < info.len() implies b[17 + 7 * k + u] == info[u] by {}
    assert(b[n - 3] == crcb[0] && b[n - 2] == crcb[1]);
    assert(b[n - 1] == 0x7E);

    // The parser's walk: start flag at 0, address field ends at 15 + 7k.
    lemma_flag_pos_at(b, 0);
    assert forall|j: int| 0 <= j < k implies (#[trigger] b[15 + 7 * j - 1] & 0x01) == 0 by {
        if j == 0 {
            assert(af[13int] == es[6]);
            assert(b[14] == af[13]);
        } else {
            lemma_digi_field_from_at(digis, 0, j - 1, 6);
            assert(dd[7 * (j - 1) + 6] == spec_encode_address(digis[j - 1], j - 1 == k - 1)[6]);
            assert(af[14 + 7 * (j - 1) + 6] == dd[7 * (j - 1) + 6]);
            assert(b[15 + 7 * j - 1] == af[14 + 7 * (j - 1) + 6]);
            assert((spec_encode_address(digis[j - 1], j - 1 == k - 1)[6] & 0x01) == 0) by {
                lemma_enc_addr_bytes(digis[j - 1], j - 1 == k - 1);
            }
        }
    }
    assert(b[15 + 7 * k - 1] & 0x01 == 1) by {
        if k == 0 {
            assert(af[13int] == es[6]);
            assert(b[14] == af[13]);
        } else {
            lemma_digi_field_from_at(digis, 0, k - 1, 6);
            assert(dd[7 * (k - 1) + 6] == spec_encode_address(digis[k - 1], true)[6]);
            assert(af[14 + 7 * (k - 1) + 6] == dd[7 * (k - 1) + 6]);
            assert(b[15 + 7 * k - 1] == af[14 + 7 * (k - 1) + 6]);
            assert((spec_encode_address(digis[k - 1], true)[6] & 0x01) == 1) by {
                lemma_enc_addr_bytes(digis[k - 1], true);
            }
        }
    }
    lemma_addr_end_marks(b, 15, k);
    let ae = 15 + 7 * k;
    assert(addr_end(b, flag_pos(b) + 15) == ae);

    // The fields read back are the encoded forms.
    assert(parsed_info(b) =~= info);
    assert(b.subrange(n - 3, n - 1) =~= crcb);
    assert(spec_u16_from_le_bytes(b.subrange(n - 3, n - 1)) == crc16_of(info));
    assert(spec_parse_err(b) is None);
    assert(parsed_dest7(b) =~= ed);
    assert(parsed_src7(b) =~= es);
    assert(parsed_digis7(b).len() == k);
    assert forall|i: int| 0 <= i < k implies #[trigger] parsed_digis7(b)[i] == spec_encode_address(
        digis[i],
        i == k - 1,
    ) by {
        lemma_enc_addr_bytes(digis[i], i == k - 1);
        let ei = spec_encode_address(digis[i], i == k - 1);
        assert forall|u: int| 0 <= u < 7 implies #[trigger] ei[u] == b[15 + 7 * i + u] by {
            lemma_digi_field_from_at(digis, 0, i, u);
            assert(af[14 + 7 * i + u] == dd[7 * i + u]);
            assert(b[15 + 7 * i + u] == af[14 + 7 * i + u]);
        }
        assert(parsed_digis7(b)[i] =~= spec_encode_address(digis[i], i == k - 1));
    }
}

} // verus!
