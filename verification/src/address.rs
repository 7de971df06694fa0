//! The address codec: a callsign with optional SSID suffix to and from the
//! 7-byte shifted AX.25 address form.
//!
//! On the wire, bytes 0 to 5 carry the callsign, uppercased, truncated to six
//! characters, padded on the right with spaces, each byte shifted left by one
//! bit. Byte 6 carries `0x60 | (ssid << 1) | last`, where `last` marks the
//! final address of the frame's address field.

use crate::strutil::dec_bytes;
use crate::strutil::is_digit;
use crate::strutil::lemma_ascii_valid_utf8;
use crate::strutil::lemma_dec_bytes_digits;
use crate::strutil::push_decimal;
use crate::strutil::spec_decimal;
use crate::strutil::string_from_utf8;
use vstd::prelude::*;
use vstd::string::StringSliceAdditionalSpecFns;
use vstd::utf8::encode_utf8;

verus! {

/// ASCII uppercase of one byte: `a`..`z` map to `A`..`Z`, all else unchanged.
pub open spec fn upper_byte(b: u8) -> u8 {
    if 0x61 <= b <= 0x7A {
        (b - 0x20) as u8
    } else {
        b
    }
}

/// The bytes of an address before its first `-`, the callsign part.
pub open spec fn callsign_part(s: Seq<u8>) -> Seq<u8>
    decreases s.len(),
{
    if s.len() == 0 || s[0] == 0x2D {
        Seq::empty()
    } else {
        seq![s[0]] + callsign_part(s.drop_first())
    }
}

/// The bytes of an address after its first `-`; empty when there is none.
pub open spec fn after_dash(s: Seq<u8>) -> Seq<u8>
    decreases s.len(),
{
    if s.len() == 0 {
        Seq::empty()
    } else if s[0] == 0x2D {
        s.drop_first()
    } else {
        after_dash(s.drop_first())
    }
}

/// The SSID text of an address: between the first `-` and the next `-` or the
/// end. Empty when the address has no `-`.
pub open spec fn ssid_part(s: Seq<u8>) -> Seq<u8> {
    callsign_part(after_dash(s))
}

/// The SSID value an address text denotes: its SSID text read as a decimal
/// number when that text is a nonempty digit string with value at most 15,
/// and 0 otherwise.
pub open spec fn spec_ssid(s: Seq<u8>) -> u8 {
    if s.len() > 0 && (forall|i: int| 0 <= i < s.len() ==> is_digit(#[trigger] s[i]))
        && spec_decimal(s) <= 15 {
        spec_decimal(s) as u8
    } else {
        0
    }
}

/// An SSID value never exceeds 15, whatever text it was read from.
pub proof fn lemma_ssid_le_15(s: Seq<u8>)
    ensures
        spec_ssid(s) <= 15,
{
    if s.len() > 0 && (forall|i: int| 0 <= i < s.len() ==> is_digit(#[trigger] s[i]))
        && spec_decimal(s) <= 15 {
        crate::strutil::lemma_decimal_nonneg(s);
    }
}

/// The callsign as sent: uppercased, truncated to six bytes, padded on the
/// right with ASCII spaces to exactly six.
pub open spec fn norm_callsign(cs: Seq<u8>) -> Seq<u8> {
    let up = cs.map_values(|b: u8| upper_byte(b));
    if up.len() >= 6 {
        up.take(6)
    } else {
        up + Seq::new((6 - up.len()) as nat, |i: int| 0x20u8)
    }
}

/// Pointwise description of the normalised callsign: the uppercased input
/// bytes while they last, space padding after.
pub proof fn lemma_norm_at(cs: Seq<u8>, i: int)
    requires
        0 <= i < 6,
    ensures
        norm_callsign(cs).len() == 6,
        i < cs.len() ==> norm_callsign(cs)[i] == upper_byte(cs[i]),
        i >= cs.len() ==> norm_callsign(cs)[i] == 0x20u8,
{
}

/// The SSID byte: reserved bits `0x60`, the SSID in bits 1 to 4, and the
/// end-of-address mark in bit 0.
pub open spec fn ssid_byte(ssid: u8, last: bool) -> u8
    recommends
        ssid <= 15,
{
    (0x60 + 2 * (ssid as int) + if last {
        1int
    } else {
        0int
    }) as u8
}

/// The 7-byte AX.25 form of an address text: the six shifted callsign bytes,
/// then the SSID byte.
pub open spec fn spec_encode_address(s: Seq<u8>, last: bool) -> Seq<u8> {
    norm_callsign(callsign_part(s)).map_values(|b: u8| (b << 1) as u8) + seq![
        ssid_byte(spec_ssid(ssid_part(s)), last),
    ]
}

/// Shape of an encoded address: seven bytes, the six callsign bytes with a
/// clear low bit, and the end-of-address mark in the low bit of the last.
pub proof fn lemma_enc_addr_bytes(a: Seq<u8>, l: bool)
    ensures
        spec_encode_address(a, l).len() == 7,
        forall|u: int| 0 <= u < 6 ==> (#[trigger] spec_encode_address(a, l)[u] & 0x01) == 0,
        (spec_encode_address(a, l)[6] & 0x01) == if l {
            1u8
        } else {
            0u8
        },
{
    lemma_norm_at(callsign_part(a), 0);
    lemma_ssid_le_15(ssid_part(a));
    let e = spec_encode_address(a, l);
    let norm = norm_callsign(callsign_part(a));
    assert forall|u: int| 0 <= u < 6 implies (#[trigger] e[u] & 0x01) == 0 by {
        let x = norm[u];
        assert(e[u] == (x << 1) as u8);
        assert((((x << 1) as u8) & 0x01) == 0) by (bit_vector);
    }
    let v = spec_ssid(ssid_part(a));
    assert(e[6] == ssid_byte(v, l));
    if l {
        assert(v <= 15 ==> (((0x60 + 2 * (v as int) + 1) as u8) & 0x01) == 1) by (bit_vector);
    } else {
        assert(v <= 15 ==> (((0x60 + 2 * (v as int) + 0) as u8) & 0x01) == 0) by (bit_vector);
    }
}

/// The SSID carried by the last byte of a 7-byte address form.
pub open spec fn ssid_of_byte(b: u8) -> u8 {
    (b >> 1) & 0x0F
}

/// The end-of-address mark carried by the last byte of a 7-byte address form.
pub open spec fn is_last_of_byte(b: u8) -> bool {
    b & 0x01 == 1
}

/// `s` without its trailing ASCII spaces.
pub open spec fn trim_trailing_spaces(s: Seq<u8>) -> Seq<u8>
    decreases s.len(),
{
    if s.len() > 0 && s.last() == 0x20 {
        trim_trailing_spaces(s.drop_last())
    } else {
        s
    }
}

/// Trimming trailing spaces leaves a prefix of the input.
pub proof fn lemma_trim_prefix(s: Seq<u8>)
    ensures
        trim_trailing_spaces(s).len() <= s.len(),
        forall|k: int|
            0 <= k < trim_trailing_spaces(s).len() ==> #[trigger] trim_trailing_spaces(s)[k]
                == s[k],
    decreases s.len(),
{
    if s.len() > 0 && s.last() == 0x20 {
        lemma_trim_prefix(s.drop_last());
    }
}

/// The address text a 7-byte AX.25 form decodes to: the six callsign bytes
/// shifted back and stripped of their space padding, then `-<ssid>` when the
/// SSID is nonzero.
pub open spec fn spec_decode_address(b: Seq<u8>) -> Seq<u8>
    recommends
        b.len() == 7,
{
    let cs = trim_trailing_spaces(Seq::new(6, |i: int| (b[i] >> 1) as u8));
    let ssid = ssid_of_byte(b[6]);
    if ssid == 0 {
        cs
    } else {
        cs + seq![0x2Du8] + dec_bytes(ssid as nat)
    }
}

/// `callsign_part` of a sequence whose first dash, if any, stands at `i` is
/// the prefix of length `i`.
proof fn lemma_callsign_part_take(s: Seq<u8>, i: int)
    requires
        0 <= i <= s.len(),
        forall|j: int| 0 <= j < i ==> s[j] != 0x2D,
        i == s.len() || s[i] == 0x2D,
    ensures
        callsign_part(s) == s.take(i),
    decreases s.len(),
{
    if i == 0 {
        assert(callsign_part(s) =~= s.take(0));
    } else {
        lemma_callsign_part_take(s.drop_first(), i - 1);
        assert(callsign_part(s) =~= s.take(i));
    }
}

/// `after_dash` of a sequence whose first dash stands at `i` is everything
/// past `i`.
proof fn lemma_after_dash_skip(s: Seq<u8>, i: int)
    requires
        0 <= i < s.len(),
        forall|j: int| 0 <= j < i ==> s[j] != 0x2D,
        s[i] == 0x2D,
    ensures
        after_dash(s) == s.skip(i + 1),
    decreases s.len(),
{
    if i == 0 {
        assert(after_dash(s) =~= s.skip(1));
    } else {
        lemma_after_dash_skip(s.drop_first(), i - 1);
        assert(s.drop_first().skip(i) =~= s.skip(i + 1));
    }
}

/// `after_dash` of a dash-free sequence is empty.
proof fn lemma_after_dash_none(s: Seq<u8>)
    requires
        forall|j: int| 0 <= j < s.len() ==> s[j] != 0x2D,
    ensures
        after_dash(s) == Seq::<u8>::empty(),
    decreases s.len(),
{
    if s.len() > 0 {
        lemma_after_dash_none(s.drop_first());
    }
}

/// Encodes an address text into its 7-byte AX.25 form. Total: any text
/// normalises to some callsign and SSID as `spec_encode_address` says.
pub fn encode_address(address: &str, last: bool) -> (r: Vec<u8>)
    ensures
        r@ == spec_encode_address(address.spec_bytes(), last),
        r@.len() == 7,
{
    let bytes = address.as_bytes();
    let n = bytes.len();
    let ghost s = bytes@;

    // Find the first dash: everything before it is the callsign.
    let mut dash: usize = 0;
    while dash < n && bytes[dash] != 0x2D
        invariant
            0 <= dash <= n,
            n == s.len(),
            bytes@ == s,
            forall|j: int| 0 <= j < dash ==> s[j] != 0x2D,
        decreases n - dash,
    {
        dash += 1;
    }
    proof {
        lemma_callsign_part_take(s, dash as int);
    }

    // Shift the uppercased callsign bytes, then pad with shifted spaces.
    let mut encoded: Vec<u8> = Vec::new();
    let mut i: usize = 0;
    let cs_len: usize = if dash < 6 {
        dash
    } else {
        6
    };
    while i < cs_len
        invariant
            0 <= i <= cs_len,
            cs_len <= dash <= n,
            cs_len <= 6,
            n == s.len(),
            bytes@ == s,
            callsign_part(s) == s.take(dash as int),
            encoded@ =~= norm_callsign(callsign_part(s)).map_values(|b: u8| (b << 1) as u8).take(
                i as int,
            ),
        decreases cs_len - i,
    {
        let b = bytes[i];
        let up: u8 = if b >= 0x61 && b <= 0x7A {
            b - 0x20
        } else {
            b
        };
        encoded.push(up << 1);
        i += 1;
    }
    while encoded.len() < 6
        invariant
            cs_len <= 6,
            cs_len <= encoded@.len() <= 6,
            dash <= n,
            n == s.len(),
            callsign_part(s) == s.take(dash as int),
            cs_len == if dash < 6 {
                dash as int
            } else {
                6
            },
            encoded@ =~= norm_callsign(callsign_part(s)).map_values(|b: u8| (b << 1) as u8).take(
                encoded@.len() as int,
            ),
        decreases 6 - encoded@.len(),
    {
        assert((0x20u8 << 1) == 0x40u8) by (bit_vector);
        proof {
            lemma_norm_at(callsign_part(s), encoded@.len() as int);
            assert(callsign_part(s).len() == dash);
            assert(norm_callsign(callsign_part(s))[encoded@.len() as int] == 0x20u8);
        }
        encoded.push(0x40);
    }
    proof {
        lemma_norm_at(callsign_part(s), 0);
    }
    assert(encoded@ =~= norm_callsign(callsign_part(s)).map_values(|b: u8| (b << 1) as u8));

    // Parse the SSID: the digits between the first dash and the next.
    let mut ssid: u8 = 0;
    if dash < n {
        let start = dash + 1;
        let mut end = start;
        while end < n && bytes[end] != 0x2D
            invariant
                start <= end <= n,
                n == s.len(),
                bytes@ == s,
                forall|j: int| start <= j < end ==> s[j] != 0x2D,
            decreases n - end,
        {
            end += 1;
        }
        proof {
            lemma_after_dash_skip(s, dash as int);
            lemma_callsign_part_take(s.skip(dash + 1), end - start);
            assert(ssid_part(s) =~= s.subrange(start as int, end as int));
        }
        let ghost sp = ssid_part(s);

        // Accumulate the decimal value, capped at 16 so that anything above
        // 15 is recognised without overflow.
        let mut acc: u32 = 0;
        let mut digits_ok: bool = end > start;
        let mut j = start;
        while j < end
            invariant
                start <= j <= end <= n,
                n == s.len(),
                bytes@ == s,
                sp == s.subrange(start as int, end as int),
                acc <= 16,
                digits_ok == (end > start && forall|k: int|
                    0 <= k < j - start ==> is_digit(#[trigger] sp[k])),
                digits_ok ==> acc == (if spec_decimal(sp.take(j - start)) <= 15 {
                    spec_decimal(sp.take(j - start))
                } else {
                    16int
                }),
            decreases end - j,
        {
            let b = bytes[j];
            proof {
                assert(sp[j - start] == s[j as int]);
            }
            if b >= 0x30 && b <= 0x39 {
                let d = (b - 0x30) as u32;
                let next = acc * 10 + d;
                proof {
                    assert(is_digit(sp[j - start]));
                    assert(sp.take(j + 1 - start).drop_last() =~= sp.take(j - start));
                    assert(sp.take(j + 1 - start).last() == s[j as int]);
                }
                acc = if next > 16 {
                    16
                } else {
                    next
                };
            } else {
                assert(!is_digit(sp[j - start]));
                digits_ok = false;
            }
            j += 1;
        }
        assert(digits_ok ==> sp.take(end - start) =~= sp);
        if digits_ok && acc <= 15 {
            ssid = acc as u8;
        }
        assert(ssid == spec_ssid(ssid_part(s)));
    } else {
        proof {
            lemma_after_dash_none(s);
        }
        assert(ssid == spec_ssid(ssid_part(s)));
    }

    // The SSID byte: reserved bits, SSID, end-of-address mark.
    let mut ssid_b: u8 = 0x60 | (ssid << 1);
    if last {
        ssid_b |= 1;
    }
    proof {
        let v = ssid;
        assert(v <= 15 ==> (0x60u8 | (v << 1)) == (0x60 + 2 * (v as int)) as u8 && ((0x60u8 | (v
            << 1)) | 1u8) == (0x60 + 2 * (v as int) + 1) as u8) by (bit_vector);
    }
    encoded.push(ssid_b);
    assert(encoded@ =~= spec_encode_address(s, last));
    encoded
}

/// Decodes a 7-byte AX.25 address form back into its text, as
/// `spec_decode_address` says. The end-of-address mark is `bytes[6] & 1`,
/// which the frame parser reads directly.
pub fn decode_address(bytes: &[u8]) -> (r: String)
    requires
        bytes@.len() == 7,
    ensures
        encode_utf8(r@) == spec_decode_address(bytes@),
{
    let ghost b = bytes@;
    let mut cs: Vec<u8> = Vec::new();
    let mut i: usize = 0;
    while i < 6
        invariant
            0 <= i <= 6,
            bytes@ == b,
            b.len() == 7,
            cs@ =~= Seq::new(i as nat, |k: int| (b[k] >> 1) as u8),
        decreases 6 - i,
    {
        let sh = bytes[i] >> 1;
        cs.push(sh);
        i += 1;
    }
    let ghost cs6 = Seq::new(6, |k: int| (b[k] >> 1) as u8);
    assert(cs@ =~= cs6);

    // Strip the space padding from the right.
    while cs.len() > 0 && cs[cs.len() - 1] == 0x20
        invariant
            trim_trailing_spaces(cs@) == trim_trailing_spaces(cs6),
            forall|k: int| 0 <= k < cs@.len() ==> cs@[k] == cs6[k],
            cs@.len() <= 6,
        decreases cs@.len(),
    {
        cs.pop();
    }
    assert(cs@ == trim_trailing_spaces(cs6));

    let ssid = (bytes[6] >> 1) & 0x0F;
    if ssid != 0 {
        cs.push(0x2D);
        push_decimal(&mut cs, ssid as u64);
        assert(cs@ =~= spec_decode_address(b));
    } else {
        assert(cs@ =~= spec_decode_address(b));
    }

    // All bytes are ASCII: shifted-back bytes are below 0x80, and the dash
    // and digits are too.
    proof {
        let v = bytes[6];
        assert(((v >> 1) & 0x0F) <= 15) by (bit_vector);
        lemma_dec_bytes_digits(ssid_of_byte(b[6]) as nat);
        lemma_trim_prefix(cs6);
        let t = trim_trailing_spaces(cs6);
        assert forall|k: int| 0 <= k < cs@.len() implies cs@[k] < 0x80 by {
            if k < t.len() {
                assert(cs@[k] == cs6[k]);
                let x = b[k];
                assert((x >> 1) < 0x80) by (bit_vector);
            } else if cs@.len() > t.len() {
                // The dash or a decimal digit of the SSID suffix.
                if k > t.len() {
                    assert(is_digit(dec_bytes(ssid_of_byte(b[6]) as nat)[k - t.len() - 1]));
                }
            }
        }
        lemma_ascii_valid_utf8(cs@);
    }
    match string_from_utf8(cs.as_slice()) {
        Some(s) => s,
        None => {
            proof {
                assert(false);
            }
            String::new()
        },
    }
}

/// The normalised text form of an address: the uppercased callsign, with
/// `-<ssid>` appended when the SSID value is nonzero.
pub open spec fn spec_normalized_address(s: Seq<u8>) -> Seq<u8> {
    let cs = callsign_part(s).map_values(|b: u8| upper_byte(b));
    let ssid = spec_ssid(ssid_part(s));
    if ssid == 0 {
        cs
    } else {
        cs + seq![0x2Du8] + dec_bytes(ssid as nat)
    }
}

/// True of a byte a callsign may hold: an ASCII letter of either case or a
/// digit.
pub open spec fn valid_callsign_byte(b: u8) -> bool {
    is_digit(b) || (0x41 <= b <= 0x5A) || (0x61 <= b <= 0x7A)
}

/// Address idempotence: decoding an encoded address yields the normalised
/// text and the same end-of-address mark, for every address whose callsign
/// part is one to six letters or digits.
pub proof fn lemma_address_roundtrip(s: Seq<u8>, last: bool)
    requires
        1 <= callsign_part(s).len() <= 6,
        forall|i: int|
            0 <= i < callsign_part(s).len() ==> valid_callsign_byte(#[trigger] callsign_part(s)[i]),
    ensures
        spec_decode_address(spec_encode_address(s, last)) == spec_normalized_address(s),
        is_last_of_byte(spec_encode_address(s, last)[6]) == last,
{
    let cs = callsign_part(s);
    let up = cs.map_values(|b: u8| upper_byte(b));
    let norm = norm_callsign(cs);
    let ssid = spec_ssid(ssid_part(s));
    let e = spec_encode_address(s, last);
    let back = Seq::new(6, |i: int| (e[i] >> 1) as u8);

    assert(ssid <= 15) by {
        lemma_ssid_le_15(ssid_part(s));
    }
    // The SSID byte decodes to the SSID and the mark.
    assert(e[6] == ssid_byte(ssid, last));
    let v = ssid;
    if last {
        assert(v <= 15 ==> ((((0x60 + 2 * (v as int) + 1) as u8) >> 1) & 0x0F) == v && (((0x60 + 2
            * (v as int) + 1) as u8) & 0x01) == 1) by (bit_vector);
    } else {
        assert(v <= 15 ==> ((((0x60 + 2 * (v as int) + 0) as u8) >> 1) & 0x0F) == v && (((0x60 + 2
            * (v as int) + 0) as u8) & 0x01) == 0) by (bit_vector);
    }
    assert(ssid_of_byte(e[6]) == ssid);
    assert(is_last_of_byte(e[6]) == last);

    // Each callsign byte survives the shift round trip; padding decodes to
    // spaces.
    assert forall|i: int| 0 <= i < 6 implies back[i] == norm[i] by {
        assert(e[i] == (norm[i] << 1) as u8);
        if i < up.len() {
            let b = cs[i];
            assert(valid_callsign_byte(b));
            let u = upper_byte(b);
            assert(norm[i] == u);
            assert(0x30 <= u <= 0x5A);
            assert(0x30 <= u <= 0x5A ==> (((u << 1) as u8) >> 1) == u) by (bit_vector);
        } else {
            assert(norm[i] == 0x20u8);
            assert((((0x20u8 << 1) as u8) >> 1) == 0x20u8) by (bit_vector);
        }
    }

    // Trimming removes exactly the padding.
    assert(back =~= up + Seq::new((6 - up.len()) as nat, |i: int| 0x20u8));
    lemma_trim_pad(up, (6 - up.len()) as nat);
    assert(up.len() > 0);
    assert(valid_callsign_byte(cs[up.len() - 1]));
    assert(up.last() == upper_byte(cs[up.len() - 1]));
    assert(up.last() != 0x20);
    assert(trim_trailing_spaces(back) == up);
    assert(spec_decode_address(e) =~= spec_normalized_address(s));
}

/// Trimming trailing spaces from a padded sequence gives back the unpadded
/// sequence, when that does not itself end in a space.
proof fn lemma_trim_pad(x: Seq<u8>, pad: nat)
    requires
        x.len() == 0 || x.last() != 0x20,
    ensures
        trim_trailing_spaces(x + Seq::new(pad, |i: int| 0x20u8)) == x,
    decreases pad,
{
    if pad == 0 {
        assert(x + Seq::new(0, |i: int| 0x20u8) =~= x);
        if x.len() > 0 {
            assert(trim_trailing_spaces(x) == x);
        }
    } else {
        let padded = x + Seq::new(pad, |i: int| 0x20u8);
        assert(padded.last() == 0x20);
        assert(padded.drop_last() =~= x + Seq::new((pad - 1) as nat, |i: int| 0x20u8));
        lemma_trim_pad(x, (pad - 1) as nat);
    }
}

} // verus!
