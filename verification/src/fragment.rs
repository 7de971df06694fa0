//! The fragmenter: an oversized information field is split into sequenced
//! sub-payloads of at most `MAX_PAYLOAD_SIZE` raw bytes each, and the
//! receiver side reassembles them.
//!
//! With more than one chunk, each chunk's information field is prefixed with
//! the ASCII sequence mark `{i:k}`, `i` 1-based; a single chunk is sent
//! bare. Reassembly concatenates the payloads in sequence order, stripping
//! the marks; the digit runs of a mark are limited to ten digits.

use crate::constants::MAX_PAYLOAD_SIZE;
use crate::errors::CodecError;
use crate::frame::assemble_frame;
use crate::frame::digis_bytes;
use crate::frame::spec_frame;
use crate::strutil::dec_bytes;
use crate::strutil::all_digits;
use crate::strutil::is_digit;
use crate::strutil::lemma_decimal_bound;
use crate::strutil::lemma_pow10_10;
use crate::strutil::pow10;
use crate::strutil::lemma_dec_bytes_digits;
use crate::strutil::lemma_decimal_of_dec_bytes;
use crate::strutil::push_decimal;
use crate::strutil::spec_decimal;
use vstd::prelude::*;
use vstd::string::StringSliceAdditionalSpecFns;

verus! {

/// The raw chunks of an information field: consecutive runs of at most 256
/// bytes, in order; an empty field has no chunks.
pub open spec fn spec_chunks(info: Seq<u8>) -> Seq<Seq<u8>>
    decreases info.len(),
{
    if info.len() == 0 {
        Seq::empty()
    } else if info.len() <= 256 {
        seq![info]
    } else {
        seq![info.take(256)] + spec_chunks(info.skip(256))
    }
}

/// The sequence mark `{i:k}` as bytes, `i` 1-based.
pub open spec fn spec_seq_mark(i: int, k: int) -> Seq<u8>
    recommends
        0 <= i,
        0 <= k,
{
    seq![0x7Bu8] + dec_bytes(i as nat) + seq![0x3Au8] + dec_bytes(k as nat) + seq![0x7Du8]
}

/// The information fields actually sent: the chunks, each prefixed with its
/// sequence mark when there is more than one.
pub open spec fn spec_fragment_infos(info: Seq<u8>) -> Seq<Seq<u8>> {
    let chunks = spec_chunks(info);
    if chunks.len() <= 1 {
        chunks
    } else {
        Seq::new(chunks.len(), |i: int| spec_seq_mark(i + 1, chunks.len() as int) + chunks[i])
    }
}

/// Concatenation of a sequence of byte strings, in order.
pub open spec fn concat_seqs(xs: Seq<Seq<u8>>) -> Seq<u8>
    decreases xs.len(),
{
    if xs.len() == 0 {
        Seq::empty()
    } else {
        xs[0] + concat_seqs(xs.drop_first())
    }
}

/// The chunks of an information field concatenate back to it.
pub proof fn lemma_chunks_concat(info: Seq<u8>)
    ensures
        concat_seqs(spec_chunks(info)) == info,
    decreases info.len(),
{
    if info.len() == 0 {
        assert(concat_seqs(spec_chunks(info)) =~= info);
    } else if info.len() <= 256 {
        assert(seq![info].drop_first() =~= Seq::<Seq<u8>>::empty());
        assert(concat_seqs(Seq::<Seq<u8>>::empty()) =~= Seq::<u8>::empty());
        assert(concat_seqs(spec_chunks(info)) =~= info);
    } else {
        lemma_chunks_concat(info.skip(256));
        assert((seq![info.take(256)] + spec_chunks(info.skip(256))).drop_first() =~= spec_chunks(
            info.skip(256),
        ));
        assert(concat_seqs(spec_chunks(info)) =~= info);
    }
}

/// Every chunk holds between 1 and 256 bytes.
pub proof fn lemma_chunks_sizes(info: Seq<u8>)
    ensures
        forall|i: int|
            0 <= i < spec_chunks(info).len() ==> 1 <= (#[trigger] spec_chunks(info)[i]).len()
                <= 256,
    decreases info.len(),
{
    if info.len() > 256 {
        lemma_chunks_sizes(info.skip(256));
        assert forall|i: int| 0 <= i < spec_chunks(info).len() implies 1 <= (#[trigger] spec_chunks(
            info,
        )[i]).len() <= 256 by {
            if i > 0 {
                assert(spec_chunks(info)[i] == spec_chunks(info.skip(256))[i - 1]);
            }
        }
    }
}

/// Splits raw information bytes into the information fields to send: the
/// fragmenter proper. One bare field for up to 256 bytes, else one field
/// per 256-byte chunk, each opened by its `{i:k}` sequence mark; an empty
/// input yields no fields.
pub fn fragment_info(info: &[u8]) -> (r: Vec<Vec<u8>>)
    ensures
        r.deep_view() == spec_fragment_infos(info@),
{
    let n = info.len();
    let mut out: Vec<Vec<u8>> = Vec::new();
    if n == 0 {
        assert(out.deep_view() =~~= spec_fragment_infos(info@));
        return out;
    }
    if n <= MAX_PAYLOAD_SIZE {
        let chunk = vstd::slice::slice_to_vec(info);
        out.push(chunk);
        assert(out.deep_view() =~~= spec_fragment_infos(info@));
        return out;
    }

    // Count the chunks: n > 256, so k >= 2.
    let total: usize = 1 + (n - 1) / MAX_PAYLOAD_SIZE;
    proof {
        lemma_chunk_count(info@);
        assert(1 + (n - 1) as int / 256 == (n + 255) as int / 256) by (nonlinear_arith)
            requires
                n >= 1,
        ;
    }
    let ghost chunks = spec_chunks(info@);
    let mut i: usize = 0;
    let mut start: usize = 0;
    while i < total
        invariant
            0 <= i <= total,
            i < total ==> start == 256 * i,
            n == info@.len(),
            256 < n,
            total == (n + 255) / 256,
            total == chunks.len(),
            chunks == spec_chunks(info@),
            out@.len() == i,
            forall|j: int| 0 <= j < total ==> #[trigger] chunks[j] == chunk_at(info@, j),
            out.deep_view() =~~= Seq::new(
                i as nat,
                |j: int| spec_seq_mark(j + 1, total as int) + chunks[j],
            ),
        decreases total - i,
    {
        proof {
            lemma_chunk_bounds(info@, i as int);
        }
        let end = if n - start >= MAX_PAYLOAD_SIZE {
            start + MAX_PAYLOAD_SIZE
        } else {
            n
        };
        let mut field: Vec<u8> = Vec::new();
        field.push(0x7B);
        push_decimal(&mut field, (i + 1) as u64);
        field.push(0x3A);
        push_decimal(&mut field, total as u64);
        field.push(0x7D);
        assert(field@ =~= spec_seq_mark(i + 1, total as int));
        let ghost mark = field@;
        let mut j = start;
        while j < end
            invariant
                start <= j <= end <= n,
                n == info@.len(),
                field@ =~= mark + info@.subrange(start as int, j as int),
            decreases end - j,
        {
            field.push(info[j]);
            j += 1;
        }
        assert(field@ =~= mark + info@.subrange(start as int, end as int));
        proof {
            assert(chunk_at(info@, i as int) == info@.subrange(start as int, end as int));
        }
        let ghost prev_deep = out.deep_view();
        out.push(field);
        proof {
            assert(out@.len() == i + 1);
            assert(out@[i as int]@ == mark + info@.subrange(start as int, end as int));
            assert(out@[i as int].deep_view() =~= out@[i as int]@);
            assert forall|j: int| 0 <= j < i + 1 implies out.deep_view()[j] == Seq::new(
                (i + 1) as nat,
                |j2: int| spec_seq_mark(j2 + 1, total as int) + chunks[j2],
            )[j] by {
                if j < i {
                    assert(out.deep_view()[j] == prev_deep[j]);
                } else {
                    assert(out.deep_view()[j] == out@[i as int].deep_view());
                }
            }
            assert(out.deep_view() =~~= Seq::new(
                (i + 1) as nat,
                |j: int| spec_seq_mark(j + 1, total as int) + chunks[j],
            ));
        }
        start = end;
        i += 1;
    }
    assert(out.deep_view() =~~= spec_fragment_infos(info@));
    out
}

/// Chunk `j` of an information field, by its byte offsets.
pub open spec fn chunk_at(info: Seq<u8>, j: int) -> Seq<u8> {
    info.subrange(
        256 * j,
        if 256 * j + 256 <= info.len() {
            256 * j + 256
        } else {
            info.len() as int
        },
    )
}

/// There are `ceil(len / 256)` chunks, and each sits at its byte offsets.
proof fn lemma_chunk_count(info: Seq<u8>)
    ensures
        spec_chunks(info).len() == (info.len() + 255) / 256,
        forall|j: int|
            0 <= j < spec_chunks(info).len() ==> #[trigger] spec_chunks(info)[j] == chunk_at(
                info,
                j,
            ),
    decreases info.len(),
{
    if info.len() == 0 {
    } else if info.len() <= 256 {
        assert(chunk_at(info, 0) =~= info);
    } else {
        lemma_chunk_count(info.skip(256));
        let rest = info.skip(256);
        assert forall|j: int| 0 <= j < spec_chunks(info).len() implies #[trigger] spec_chunks(
            info,
        )[j] == chunk_at(info, j) by {
            if j == 0 {
                assert(chunk_at(info, 0) =~= info.take(256));
            } else {
                assert(spec_chunks(info)[j] == spec_chunks(rest)[j - 1]);
                assert(chunk_at(rest, j - 1) =~= chunk_at(info, j));
            }
        }
    }
}

/// The start offset of a chunk lies inside the field, and its end offset is
/// where the next chunk starts.
proof fn lemma_chunk_bounds(info: Seq<u8>, j: int)
    requires
        0 <= j < (info.len() + 255) / 256,
    ensures
        256 * j < info.len(),
        256 * j + 256 <= info.len() || (info.len() + 255) / 256 == j + 1,
    decreases j,
{
    assert(256 * j < info.len() && (256 * j + 256 <= info.len() || (info.len() + 255) / 256 == j
        + 1)) by (nonlinear_arith)
        requires
            0 <= j < (info.len() + 255) / 256,
    ;
}

/// Prepares the frames of a message: the information is fragmented and each
/// fragment framed with the same routing fields.
pub fn prepare_packets(
    source: &str,
    destination: &str,
    digipeaters: &Vec<String>,
    information: &str,
) -> (r: Vec<Vec<u8>>)
    ensures
        r.deep_view() == Seq::new(
            spec_fragment_infos(information.spec_bytes()).len(),
            |i: int|
                spec_frame(
                    destination.spec_bytes(),
                    source.spec_bytes(),
                    digis_bytes(digipeaters@),
                    spec_fragment_infos(information.spec_bytes())[i],
                ),
        ),
{
    let fields = fragment_info(information.as_bytes());
    let ghost frags = spec_fragment_infos(information.spec_bytes());
    let mut out: Vec<Vec<u8>> = Vec::new();
    let mut i: usize = 0;
    let n = fields.len();
    while i < n
        invariant
            0 <= i <= n,
            n == fields@.len(),
            fields.deep_view() == frags,
            out@.len() == i,
            out.deep_view() =~~= Seq::new(
                i as nat,
                |j: int|
                    spec_frame(
                        destination.spec_bytes(),
                        source.spec_bytes(),
                        digis_bytes(digipeaters@),
                        frags[j],
                    ),
            ),
        decreases n - i,
    {
        let f = assemble_frame(destination, source, digipeaters, fields[i].as_slice());
        proof {
            assert(fields@[i as int]@ == frags[i as int]);
        }
        let ghost prev_deep = out.deep_view();
        out.push(f);
        proof {
            assert(out@[i as int].deep_view() =~= out@[i as int]@);
            assert forall|j: int| 0 <= j < i + 1 implies out.deep_view()[j] == Seq::new(
                (i + 1) as nat,
                |j2: int|
                    spec_frame(
                        destination.spec_bytes(),
                        source.spec_bytes(),
                        digis_bytes(digipeaters@),
                        frags[j2],
                    ),
            )[j] by {
                if j < i {
                    assert(out.deep_view()[j] == prev_deep[j]);
                } else {
                    assert(out.deep_view()[j] == out@[i as int].deep_view());
                }
            }
            assert(out.deep_view() =~~= Seq::new(
                (i + 1) as nat,
                |j: int|
                    spec_frame(
                        destination.spec_bytes(),
                        source.spec_bytes(),
                        digis_bytes(digipeaters@),
                        frags[j],
                    ),
            ));
        }
        i += 1;
    }
    proof {
        assert(n == frags.len());
    }
    out
}

/// The bytes of a sequence mark's text before the first `c`, the mark
/// scanner's building block.
pub open spec fn take_until(s: Seq<u8>, c: u8) -> Seq<u8>
    decreases s.len(),
{
    if s.len() == 0 || s[0] == c {
        Seq::empty()
    } else {
        seq![s[0]] + take_until(s.drop_first(), c)
    }
}

/// Whether `c` occurs in `s`.
pub open spec fn has_byte(s: Seq<u8>, c: u8) -> bool
    decreases s.len(),
{
    if s.len() == 0 {
        false
    } else if s[0] == c {
        true
    } else {
        has_byte(s.drop_first(), c)
    }
}

/// The bytes after the first occurrence of `c`; empty when there is none.
pub open spec fn skip_past(s: Seq<u8>, c: u8) -> Seq<u8>
    decreases s.len(),
{
    if s.len() == 0 {
        Seq::empty()
    } else if s[0] == c {
        s.drop_first()
    } else {
        skip_past(s.drop_first(), c)
    }
}

/// The scanners at a known first occurrence: when `c` first occurs at `i`,
/// `take_until` is the prefix, `skip_past` the rest.
proof fn lemma_scan_at(s: Seq<u8>, c: u8, i: int)
    requires
        0 <= i <= s.len(),
        forall|j: int| 0 <= j < i ==> s[j] != c,
        i == s.len() || s[i] == c,
    ensures
        take_until(s, c) == s.take(i),
        has_byte(s, c) == (i < s.len()),
        i < s.len() ==> skip_past(s, c) == s.skip(i + 1),
    decreases s.len(),
{
    if i == 0 {
        assert(take_until(s, c) =~= s.take(0));
        if 0 < s.len() {
            assert(skip_past(s, c) =~= s.skip(1));
        }
    } else {
        lemma_scan_at(s.drop_first(), c, i - 1);
        assert(take_until(s, c) =~= s.take(i));
        if i < s.len() {
            assert(s.drop_first().skip(i) =~= s.skip(i + 1));
        }
    }
}

/// What a sequence mark at the head of an information field denotes: the
/// 1-based index, the total count, and the payload after the mark. `None`
/// when the field does not open with a well-formed mark; the digit runs are
/// limited to ten digits.
pub open spec fn spec_frag_prefix(b: Seq<u8>) -> Option<(int, int, Seq<u8>)> {
    if b.len() == 0 || b[0] != 0x7B {
        None
    } else {
        let rest = b.drop_first();
        let istr = take_until(rest, 0x3A);
        if !has_byte(rest, 0x3A) {
            None
        } else {
            let rest2 = skip_past(rest, 0x3A);
            let kstr = take_until(rest2, 0x7D);
            if !has_byte(rest2, 0x7D) {
                None
            } else if !(1 <= istr.len() <= 10) || !all_digits(istr) || !(1 <= kstr.len() <= 10)
                || !all_digits(kstr) {
                None
            } else {
                Some((spec_decimal(istr), spec_decimal(kstr), skip_past(rest2, 0x7D)))
            }
        }
    }
}

/// Scans a digit run of at most ten digits out of `b[from..to]`.
fn parse_digits(b: &[u8], from: usize, to: usize) -> (r: Option<u64>)
    requires
        from <= to <= b@.len(),
    ensures
        ({
            let d = b@.subrange(from as int, to as int);
            &&& r is Some <==> (1 <= d.len() <= 10 && all_digits(d))
            &&& r matches Some(v) ==> v == spec_decimal(d)
        }),
{
    let ghost d = b@.subrange(from as int, to as int);
    if to == from || to - from > 10 {
        return None;
    }
    let mut acc: u64 = 0;
    let mut j = from;
    while j < to
        invariant
            from <= j <= to <= b@.len(),
            to - from <= 10,
            d == b@.subrange(from as int, to as int),
            all_digits(d.take(j - from)),
            acc == spec_decimal(d.take(j - from)),
            acc < 10_000_000_000,
        decreases to - j,
    {
        let c = b[j];
        if c < 0x30 || c > 0x39 {
            proof {
                assert(d[j - from] == b@[j as int]);
                assert(!is_digit(d[j - from]));
            }
            return None;
        }
        proof {
            assert(d.take(j + 1 - from).drop_last() =~= d.take(j - from));
            assert(d.take(j + 1 - from).last() == b@[j as int]);
            assert(all_digits(d.take(j + 1 - from)));
            lemma_decimal_bound(d.take(j + 1 - from));
            lemma_pow10_10();
            lemma_pow10_le(d.take(j + 1 - from).len(), 10);
        }
        acc = acc * 10 + (c - 0x30) as u64;
        j += 1;
    }
    assert(d.take(to - from) =~= d);
    Some(acc)
}

/// Powers of ten grow with the exponent.
proof fn lemma_pow10_le(a: nat, b: nat)
    requires
        a <= b,
    ensures
        pow10(a) <= pow10(b),
    decreases b,
{
    if a < b {
        lemma_pow10_le(a, (b - 1) as nat);
        assert(pow10((b - 1) as nat) >= 1) by {
            lemma_pow10_pos((b - 1) as nat);
        }
    }
}

/// Powers of ten are positive.
proof fn lemma_pow10_pos(n: nat)
    ensures
        pow10(n) >= 1,
    decreases n,
{
    if n > 0 {
        lemma_pow10_pos((n - 1) as nat);
    }
}

/// Reads the sequence mark opening an information field, as
/// `spec_frag_prefix` says.
pub fn parse_frag_prefix(b: &[u8]) -> (r: Option<(u64, u64, Vec<u8>)>)
    ensures
        r is Some <==> spec_frag_prefix(b@) is Some,
        r matches Some((i, k, p)) ==> spec_frag_prefix(b@) == Some((i as int, k as int, p@)),
{
    let n = b.len();
    if n == 0 || b[0] != 0x7B {
        return None;
    }
    let ghost rest = b@.drop_first();

    // The index digits run from 1 to the first colon.
    let mut ci: usize = 1;
    while ci < n && b[ci] != 0x3A
        invariant
            1 <= ci <= n,
            n == b@.len(),
            forall|j: int| 1 <= j < ci ==> b@[j] != 0x3A,
        decreases n - ci,
    {
        ci += 1;
    }
    proof {
        lemma_scan_at(rest, 0x3A, ci - 1);
        assert(take_until(rest, 0x3A) =~= b@.subrange(1, ci as int));
    }
    if ci == n {
        return None;
    }
    let iv = parse_digits(b, 1, ci);
    proof {
        assert(skip_past(rest, 0x3A) =~= b@.skip(ci + 1));
    }

    // The count digits run from past the colon to the first closing brace.
    let ghost rest2 = skip_past(rest, 0x3A);
    let mut di: usize = ci + 1;
    while di < n && b[di] != 0x7D
        invariant
            ci + 1 <= di <= n,
            ci < n,
            n == b@.len(),
            forall|j: int| ci + 1 <= j < di ==> b@[j] != 0x7D,
        decreases n - di,
    {
        di += 1;
    }
    proof {
        assert(rest2 =~= b@.skip(ci + 1));
        lemma_scan_at(rest2, 0x7D, di - ci - 1);
        assert(take_until(rest2, 0x7D) =~= b@.subrange(ci + 1, di as int));
    }
    if di == n {
        return None;
    }
    let kv = parse_digits(b, ci + 1, di);
    proof {
        assert(skip_past(rest2, 0x7D) =~= b@.skip(di + 1));
    }

    match (iv, kv) {
        (Some(i), Some(k)) => {
            let payload = vstd::slice::slice_to_vec(vstd::slice::slice_subrange(b, di + 1, n));
            assert(payload@ =~= skip_past(rest2, 0x7D));
            Some((i, k, payload))
        },
        _ => None,
    }
}

/// Filling the sequence slots: fragments from `j` on are read in order,
/// each one's payload stored at its 1-based index. The first fragment
/// without a mark or with a different count stops the fill.
pub open spec fn spec_fill(
    infos: Seq<Seq<u8>>,
    j: int,
    slots: Seq<Option<Seq<u8>>>,
) -> Result<Seq<Option<Seq<u8>>>, CodecError>
    decreases infos.len() - j,
{
    if j < 0 || j >= infos.len() {
        Ok(slots)
    } else {
        match spec_frag_prefix(infos[j]) {
            None => Err(CodecError::FragmentInconsistent),
            Some((i, k, p)) => {
                if k != slots.len() {
                    Err(CodecError::FragmentInconsistent)
                } else if !(1 <= i <= slots.len()) {
                    Err(CodecError::FragmentIncomplete)
                } else {
                    spec_fill(infos, j + 1, slots.update(i - 1, Some(p)))
                }
            },
        }
    }
}

/// Whether every sequence slot has been filled.
pub open spec fn all_filled(slots: Seq<Option<Seq<u8>>>) -> bool {
    forall|i: int| 0 <= i < slots.len() ==> (#[trigger] slots[i]) is Some
}

/// The payloads of the filled slots, concatenated in slot order.
pub open spec fn concat_filled(slots: Seq<Option<Seq<u8>>>) -> Seq<u8>
    decreases slots.len(),
{
    if slots.len() == 0 {
        Seq::empty()
    } else {
        (match slots[0] {
            Some(p) => p,
            None => Seq::empty(),
        }) + concat_filled(slots.drop_first())
    }
}

/// The UTF-8 bytes of each information string, in order.
pub open spec fn strings_bytes(ds: Seq<String>) -> Seq<Seq<u8>> {
    ds.map_values(|d: String| vstd::utf8::encode_utf8(d@))
}

/// What reassembly makes of a sequence of information fields. No fields is
/// a missing fragment. When the first field carries no sequence mark, the
/// fields are concatenated as they stand. Otherwise every field must carry
/// a mark with the same count, the count must equal the number of fields,
/// and the payloads are concatenated in sequence order; a slot left empty
/// is a missing fragment, a diverging count or an unmarked field is an
/// inconsistency.
pub open spec fn spec_reassemble(infos: Seq<Seq<u8>>) -> Result<Seq<u8>, CodecError> {
    if infos.len() == 0 {
        Err(CodecError::FragmentIncomplete)
    } else {
        match spec_frag_prefix(infos[0]) {
            None => Ok(concat_seqs(infos)),
            Some((i0, k0, p0)) => {
                if k0 != infos.len() {
                    Err(CodecError::FragmentInconsistent)
                } else {
                    match spec_fill(infos, 0, Seq::new(infos.len(), |t: int| None)) {
                        Err(e) => Err(e),
                        Ok(slots) => if all_filled(slots) {
                            Ok(concat_filled(slots))
                        } else {
                            Err(CodecError::FragmentIncomplete)
                        },
                    }
                }
            },
        }
    }
}

/// A concatenation grows one element at a time.
pub proof fn lemma_concat_take_snoc(xs: Seq<Seq<u8>>, i: int)
    requires
        0 <= i < xs.len(),
    ensures
        concat_seqs(xs.take(i + 1)) == concat_seqs(xs.take(i)) + xs[i],
    decreases i,
{
    if i == 0 {
        assert(xs.take(1).drop_first() =~= Seq::<Seq<u8>>::empty());
        assert(xs.take(0) =~= Seq::<Seq<u8>>::empty());
        assert(concat_seqs(xs.take(1)) =~= concat_seqs(xs.take(0)) + xs[0]);
    } else {
        lemma_concat_take_snoc(xs.drop_first(), i - 1);
        assert(xs.take(i + 1).drop_first() =~= xs.drop_first().take(i));
        assert(xs.take(i).drop_first() =~= xs.drop_first().take(i - 1));
        assert(concat_seqs(xs.take(i + 1)) =~= concat_seqs(xs.take(i)) + xs[i]);
    }
}

/// A filled-slot concatenation grows one slot at a time.
proof fn lemma_concat_filled_take_snoc(xs: Seq<Option<Seq<u8>>>, i: int)
    requires
        0 <= i < xs.len(),
        xs[i] is Some,
    ensures
        concat_filled(xs.take(i + 1)) == concat_filled(xs.take(i)) + xs[i]->0,
    decreases i,
{
    if i == 0 {
        assert(xs.take(1).drop_first() =~= Seq::<Option<Seq<u8>>>::empty());
        assert(xs.take(0) =~= Seq::<Option<Seq<u8>>>::empty());
        assert(concat_filled(xs.take(1)) =~= concat_filled(xs.take(0)) + xs[0]->0);
    } else {
        lemma_concat_filled_take_snoc(xs.drop_first(), i - 1);
        assert(xs.take(i + 1).drop_first() =~= xs.drop_first().take(i));
        assert(xs.take(i).drop_first() =~= xs.drop_first().take(i - 1));
        assert(concat_filled(xs.take(i + 1)) =~= concat_filled(xs.take(i)) + xs[i]->0);
    }
}

/// Reassembles raw information fields into the original payload bytes, as
/// `spec_reassemble` says.
pub fn reassemble_info_bytes(infos: &Vec<Vec<u8>>) -> (r: Result<Vec<u8>, CodecError>)
    ensures
        r is Ok <==> spec_reassemble(infos.deep_view()) is Ok,
        r matches Err(e) ==> spec_reassemble(infos.deep_view()) == Err::<Seq<u8>, CodecError>(e),
        r matches Ok(out) ==> out@ == spec_reassemble(infos.deep_view())->Ok_0,
{
    let ghost ib = infos.deep_view();
    let n = infos.len();
    proof {
        assert forall|q: int| 0 <= q < n implies ib[q] == infos@[q]@ by {
            assert(infos@[q].deep_view() =~= infos@[q]@);
        }
    }
    if n == 0 {
        return Err(CodecError::FragmentIncomplete);
    }
    let first = parse_frag_prefix(infos[0].as_slice());
    match first {
        None => {
            // No sequence mark: the fields are concatenated as they stand.
            let mut buf: Vec<u8> = Vec::new();
            let mut t: usize = 0;
            while t < n
                invariant
                    0 <= t <= n,
                    n == infos@.len(),
                    ib == infos.deep_view(),
                    forall|q: int| 0 <= q < n ==> #[trigger] ib[q] == infos@[q]@,
                    buf@ == concat_seqs(ib.take(t as int)),
                decreases n - t,
            {
                let piece = infos[t].as_slice();
                let ghost before = buf@;
                let mut u: usize = 0;
                while u < piece.len()
                    invariant
                        0 <= u <= piece@.len(),
                        buf@ =~= before + piece@.take(u as int),
                    decreases piece@.len() - u,
                {
                    buf.push(piece[u]);
                    u += 1;
                }
                proof {
                    assert(buf@ =~= before + piece@);
                    assert(piece@ == ib[t as int]);
                    lemma_concat_take_snoc(ib, t as int);
                }
                t += 1;
            }
            proof {
                assert(ib.take(n as int) =~= ib);
            }
            Ok(buf)
        },
        Some((_i0, k0, _p0)) => {
            if k0 != n as u64 {
                return Err(CodecError::FragmentInconsistent);
            }
            // Fill one slot per fragment, at the fragment's own index.
            let mut slots: Vec<Option<Vec<u8>>> = Vec::new();
            let mut t: usize = 0;
            while t < n
                invariant
                    0 <= t <= n,
                    slots@.len() == t,
                    forall|j: int| 0 <= j < t ==> (#[trigger] slots@[j]) is None,
                decreases n - t,
            {
                slots.push(None);
                t += 1;
            }
            let ghost init = Seq::new(n as nat, |t: int| None::<Seq<u8>>);
            assert(slots.deep_view() =~~= init);
            let mut j: usize = 0;
            while j < n
                invariant
                    0 <= j <= n,
                    0 < n == infos@.len(),
                    ib == infos.deep_view(),
                    forall|q: int| 0 <= q < n ==> #[trigger] ib[q] == infos@[q]@,
                    spec_frag_prefix(ib[0]) is Some,
                    spec_frag_prefix(ib[0])->Some_0.1 == n as int,
                    slots@.len() == n,
                    init == Seq::new(n as nat, |t: int| None::<Seq<u8>>),
                    spec_fill(ib, j as int, slots.deep_view()) == spec_fill(ib, 0, init),
                decreases n - j,
            {
                match parse_frag_prefix(infos[j].as_slice()) {
                    None => {
                        return Err(CodecError::FragmentInconsistent);
                    },
                    Some((i, k, p)) => {
                        if k != n as u64 {
                            return Err(CodecError::FragmentInconsistent);
                        }
                        if i < 1 || i > n as u64 {
                            return Err(CodecError::FragmentIncomplete);
                        }
                        let idx = (i - 1) as usize;
                        let ghost before_slots = slots.deep_view();
                        let ghost before_v = slots@;
                        let ghost pv = p@;
                        let _ = slots.remove(idx);
                        slots.insert(idx, Some(p));
                        proof {
                            assert(pv == spec_frag_prefix(ib[j as int])->Some_0.2);
                            assert forall|q: int| 0 <= q < n implies slots.deep_view()[q]
                                == before_slots.update(idx as int, Some(pv))[q] by {
                                if q == idx {
                                    assert(slots@[q].deep_view() =~= Some(pv));
                                } else {
                                    assert(slots@[q] == before_v[q]);
                                    assert(before_slots[q] == before_v[q].deep_view());
                                }
                            }
                            assert(slots.deep_view() =~~= before_slots.update(
                                idx as int,
                                Some(pv),
                            ));
                        }
                    },
                }
                j += 1;
            }
            // Every slot must be filled; concatenate in slot order.
            let ghost final_slots = slots.deep_view();
            proof {
                assert(spec_fill(ib, n as int, final_slots) == Ok::<
                    Seq<Option<Seq<u8>>>,
                    CodecError,
                >(final_slots));
            }
            let mut buf: Vec<u8> = Vec::new();
            let mut t: usize = 0;
            while t < n
                invariant
                    0 <= t <= n,
                    0 < n == infos@.len(),
                    ib == infos.deep_view(),
                    spec_frag_prefix(ib[0]) is Some,
                    spec_frag_prefix(ib[0])->Some_0.1 == n as int,
                    init == Seq::new(n as nat, |t2: int| None::<Seq<u8>>),
                    spec_fill(ib, 0, init) == Ok::<Seq<Option<Seq<u8>>>, CodecError>(final_slots),
                    slots@.len() == n,
                    final_slots == slots.deep_view(),
                    forall|q: int| 0 <= q < t ==> (#[trigger] final_slots[q]) is Some,
                    buf@ == concat_filled(final_slots.take(t as int)),
                decreases n - t,
            {
                match &slots[t] {
                    Some(p) => {
                        let ghost before = buf@;
                        let mut u: usize = 0;
                        while u < p.len()
                            invariant
                                0 <= u <= p@.len(),
                                buf@ =~= before + p@.take(u as int),
                            decreases p@.len() - u,
                        {
                            buf.push(p[u]);
                            u += 1;
                        }
                        proof {
                            assert(buf@ =~= before + p@);
                            assert(final_slots[t as int] == Some(p@));
                            lemma_concat_filled_take_snoc(final_slots, t as int);
                        }
                    },
                    None => {
                        return Err(CodecError::FragmentIncomplete);
                    },
                }
                t += 1;
            }
            proof {
                assert(final_slots.take(n as int) =~= final_slots);
                assert(all_filled(final_slots));
            }
            Ok(buf)
        },
    }
}

/// Reassembles decoded information fields into the original payload text,
/// as `spec_reassemble` says over the bytes of the fields; the reassembled
/// bytes are handed back as text, invalid UTF-8 replaced. Where a chunk
/// boundary split a multi-byte character, only the byte-level form is
/// faithful: use `reassemble_info_bytes` on the raw fields instead.
pub fn reassemble_infos(infos: &Vec<String>) -> (r: Result<String, CodecError>)
    ensures
        r is Ok <==> spec_reassemble(strings_bytes(infos@)) is Ok,
        r matches Err(e) ==> spec_reassemble(strings_bytes(infos@)) == Err::<Seq<u8>, CodecError>(
            e,
        ),
        r matches Ok(out) ==> {
            let bytes = spec_reassemble(strings_bytes(infos@))->Ok_0;
            &&& out@ == crate::strutil::utf8_lossy_of(bytes)
            &&& vstd::utf8::valid_utf8(bytes) ==> vstd::utf8::encode_utf8(out@) == bytes
        },
{
    let mut raw: Vec<Vec<u8>> = Vec::new();
    let n = infos.len();
    let mut t: usize = 0;
    while t < n
        invariant
            0 <= t <= n,
            n == infos@.len(),
            raw@.len() == t,
            raw.deep_view() =~~= strings_bytes(infos@).take(t as int),
        decreases n - t,
    {
        let ghost prev_deep = raw.deep_view();
        let piece = vstd::slice::slice_to_vec(infos[t].as_str().as_bytes());
        let ghost pv = piece@;
        raw.push(piece);
        proof {
            assert forall|q: int| 0 <= q < t + 1 implies raw.deep_view()[q] == strings_bytes(
                infos@,
            ).take(t + 1)[q] by {
                if q < t {
                    assert(raw.deep_view()[q] == prev_deep[q]);
                } else {
                    assert(raw@[q].deep_view() =~= pv);
                }
            }
            assert(raw.deep_view() =~~= strings_bytes(infos@).take(t + 1));
        }
        t += 1;
    }
    proof {
        assert(strings_bytes(infos@).take(n as int) =~= strings_bytes(infos@));
        assert(raw.deep_view() =~~= strings_bytes(infos@));
    }
    match reassemble_info_bytes(&raw) {
        Err(e) => Err(e),
        Ok(bytes) => {
            let out = crate::strutil::string_from_utf8_lossy(bytes.as_slice());
            Ok(out)
        },
    }
}

/// A number below the `d`-th power of ten needs at most `d` digits.
proof fn lemma_dec_bytes_len(n: nat, d: nat)
    requires
        1 <= d,
        n < pow10(d),
    ensures
        dec_bytes(n).len() <= d,
    decreases d,
{
    if n >= 10 {
        assert(pow10(1) == 10 * pow10(0));
        if d == 1 {
            assert(false);
        }
        let p = pow10((d - 1) as nat);
        assert(pow10(d) == 10 * p);
        lemma_pow10_pos((d - 1) as nat);
        assert(n / 10 < p) by (nonlinear_arith)
            requires
                n < 10 * p,
                n >= 10,
                p >= 1,
        ;
        lemma_dec_bytes_len(n / 10, (d - 1) as nat);
    }
}

/// A sequence mark followed by a payload parses back to its own index,
/// count and payload.
proof fn lemma_mark_prefix(i: int, k: int, chunk: Seq<u8>)
    requires
        1 <= i < 10_000_000_000,
        1 <= k < 10_000_000_000,
    ensures
        spec_frag_prefix(spec_seq_mark(i, k) + chunk) == Some((i, k, chunk)),
{
    lemma_pow10_10();
    lemma_dec_bytes_len(i as nat, 10);
    lemma_dec_bytes_len(k as nat, 10);
    lemma_dec_bytes_digits(i as nat);
    lemma_dec_bytes_digits(k as nat);
    lemma_decimal_of_dec_bytes(i as nat);
    lemma_decimal_of_dec_bytes(k as nat);
    let di = dec_bytes(i as nat);
    let dk = dec_bytes(k as nat);
    let b = spec_seq_mark(i, k) + chunk;
    assert(b[0] == 0x7B);
    let rest = b.drop_first();
    assert(rest =~= di + seq![0x3Au8] + dk + seq![0x7Du8] + chunk);

    // The index digits run to the first colon.
    assert forall|j: int| 0 <= j < di.len() implies rest[j] != 0x3A by {
        assert(rest[j] == di[j]);
        assert(is_digit(di[j]));
    }
    assert(rest[di.len() as int] == 0x3A);
    lemma_scan_at(rest, 0x3A, di.len() as int);
    assert(take_until(rest, 0x3A) =~= di);
    let rest2 = skip_past(rest, 0x3A);
    assert(rest2 =~= dk + seq![0x7Du8] + chunk);

    // The count digits run to the first closing brace.
    assert forall|j: int| 0 <= j < dk.len() implies rest2[j] != 0x7D by {
        assert(rest2[j] == dk[j]);
        assert(is_digit(dk[j]));
    }
    assert(rest2[dk.len() as int] == 0x7D);
    lemma_scan_at(rest2, 0x7D, dk.len() as int);
    assert(take_until(rest2, 0x7D) =~= dk);
    assert(skip_past(rest2, 0x7D) =~= chunk);
}

/// Fragment round trip, as the format states it: a single chunk is sent
/// bare and is the payload itself; with more than one chunk, stripping the
/// sequence mark of each field and concatenating in order gives back the
/// original bytes.
pub proof fn lemma_fragment_concat(info: Seq<u8>)
    ensures
        ({
            let frags = spec_fragment_infos(info);
            let k = frags.len() as int;
            &&& k <= 1 ==> concat_seqs(frags) == info
            &&& k > 1 ==> concat_seqs(
                Seq::new(
                    frags.len(),
                    |i: int| frags[i].skip(spec_seq_mark(i + 1, k).len() as int),
                ),
            ) == info
        }),
{
    lemma_chunks_concat(info);
    let chunks = spec_chunks(info);
    let frags = spec_fragment_infos(info);
    let k = frags.len() as int;
    if k > 1 {
        let stripped = Seq::new(
            frags.len(),
            |i: int| frags[i].skip(spec_seq_mark(i + 1, k).len() as int),
        );
        assert forall|i: int| 0 <= i < k implies stripped[i] == chunks[i] by {
            assert(frags[i] == spec_seq_mark(i + 1, k) + chunks[i]);
            assert(frags[i].skip(spec_seq_mark(i + 1, k).len() as int) =~= chunks[i]);
        }
        assert(stripped =~~= chunks);
    }
}

/// Filling from position `j` over well-marked fragments fills every slot
/// from `j` on with its chunk.
proof fn lemma_fill_all(
    frags: Seq<Seq<u8>>,
    chunks: Seq<Seq<u8>>,
    j: int,
    slots: Seq<Option<Seq<u8>>>,
)
    requires
        frags.len() == chunks.len(),
        slots.len() == frags.len(),
        0 <= j <= frags.len(),
        forall|t: int|
            0 <= t < frags.len() ==> spec_frag_prefix(#[trigger] frags[t]) == Some(
                (t + 1, frags.len() as int, chunks[t]),
            ),
    ensures
        spec_fill(frags, j, slots) == Ok::<Seq<Option<Seq<u8>>>, CodecError>(
            Seq::new(
                slots.len(),
                |t: int|
                    if t >= j {
                        Some(chunks[t])
                    } else {
                        slots[t]
                    },
            ),
        ),
    decreases frags.len() - j,
{
    let expect = Seq::new(
        slots.len(),
        |t: int|
            if t >= j {
                Some(chunks[t])
            } else {
                slots[t]
            },
    );
    if j == frags.len() {
        assert(expect =~= slots);
    } else {
        let updated = slots.update(j, Some(chunks[j]));
        lemma_fill_all(frags, chunks, j + 1, updated);
        assert(Seq::new(
            updated.len(),
            |t: int|
                if t >= j + 1 {
                    Some(chunks[t])
                } else {
                    updated[t]
                },
        ) =~= expect);
    }
}

/// Fully filled slots concatenate to the concatenation of their contents.
proof fn lemma_concat_filled_some(chunks: Seq<Seq<u8>>)
    ensures
        concat_filled(Seq::new(chunks.len(), |t: int| Some(chunks[t]))) == concat_seqs(chunks),
    decreases chunks.len(),
{
    let slots = Seq::new(chunks.len(), |t: int| Some(chunks[t]));
    if chunks.len() > 0 {
        lemma_concat_filled_some(chunks.drop_first());
        assert(slots.drop_first() =~= Seq::new(
            chunks.drop_first().len(),
            |t: int| Some(chunks.drop_first()[t]),
        ));
        assert(concat_filled(slots) =~= concat_seqs(chunks));
    }
}

/// Fragmenting and reassembling returns the original information bytes,
/// for every nonempty field whose chunk count the ten-digit marks can carry
/// and whose bare form is not itself mistakable for a marked fragment.
pub proof fn lemma_reassemble_roundtrip(info: Seq<u8>)
    requires
        1 <= info.len(),
        spec_chunks(info).len() < 10_000_000_000,
        spec_chunks(info).len() > 1 || info[0] != 0x7B,
    ensures
        spec_reassemble(spec_fragment_infos(info)) == Ok::<Seq<u8>, CodecError>(info),
{
    lemma_chunks_concat(info);
    let chunks = spec_chunks(info);
    let frags = spec_fragment_infos(info);
    let k = chunks.len() as int;
    assert(k >= 1);
    lemma_chunk_count(info);
    if k == 1 {
        assert(frags == chunks);
        assert(info.len() <= 256) by (nonlinear_arith)
            requires
                (info.len() + 255) as int / 256 == 1,
        ;
        assert(chunks == seq![info]);
        assert(frags[0] == info);
        assert(spec_frag_prefix(info) is None);
        assert(concat_seqs(frags) == info);
    } else {
        assert forall|t: int| 0 <= t < k implies spec_frag_prefix(#[trigger] frags[t]) == Some(
            (t + 1, k, chunks[t]),
        ) by {
            assert(frags[t] == spec_seq_mark(t + 1, k) + chunks[t]);
            lemma_mark_prefix(t + 1, k, chunks[t]);
        }
        let init = Seq::new(frags.len(), |t: int| None::<Seq<u8>>);
        lemma_fill_all(frags, chunks, 0, init);
        let full = Seq::new(init.len(), |t: int| if t >= 0 {
            Some(chunks[t])
        } else {
            init[t]
        });
        assert(full =~= Seq::new(chunks.len(), |t: int| Some(chunks[t])));
        assert(all_filled(full));
        lemma_concat_filled_some(chunks);
    }
}

} // verus!
