//! The AFSK layer: bits to Bell 202 tone samples and back.
//!
//! Modulation emits, for every bit, one symbol of `SAMPLES_PER_BIT = 36`
//! signed 16-bit samples of a pure sine at 1200 Hz (MARK, bit 1) or 2200 Hz
//! (SPACE, bit 0), phase reset at each symbol start, peak-scaled to the full
//! 16-bit range. Demodulation slices the sample stream into consecutive
//! 36-sample windows and compares the spectral energy of the two tones in
//! each window: the energies are the squared magnitudes of the window's DFT
//! components at bins 1 and 2 (the bins nearest 1200 Hz and 2200 Hz),
//! computed in fixed-point integer arithmetic with twiddle factors scaled by
//! 4096. A window is a MARK exactly when the bin-1 energy exceeds the bin-2
//! energy. Byte packing is most-significant-bit first.

use crate::constants::SAMPLES_PER_BIT;
use vstd::prelude::*;

verus! {

/// One symbol of the MARK tone: `round(sin(2*pi*1200*n/44100) * 32767)`
/// for `n` in `0..36`, the bit-1 waveform with phase reset at the symbol start.
pub open spec fn mark_tone() -> Seq<i16> {
    seq![0i16, 5575i16, 10987i16, 16079i16, 20702i16, 24722i16, 28020i16, 30502i16, 32094i16, 32750i16, 32451i16, 31206i16, 29051i16, 26049i16, 22287i16, 17876i16, 12943i16, 7632i16, 2099i16, -3495i16, -8987i16, -14217i16, -19033i16, -23293i16, -26875i16, -29672i16, -31605i16, -32616i16, -32675i16, -31782i16, -29963i16, -27269i16, -23780i16, -19598i16, -14845i16, -9658i16]
}

/// The `mark_tone` table as a runtime vector.
pub fn mark_tone_vec() -> (r: Vec<i16>)
    ensures
        r@ == mark_tone(),
{
    let v: Vec<i16> = vec![0, 5575, 10987, 16079, 20702, 24722, 28020, 30502, 32094, 32750, 32451, 31206, 29051, 26049, 22287, 17876, 12943, 7632, 2099, -3495, -8987, -14217, -19033, -23293, -26875, -29672, -31605, -32616, -32675, -31782, -29963, -27269, -23780, -19598, -14845, -9658];
    assert(v@ =~= mark_tone());
    v
}

/// One symbol of the SPACE tone: `round(sin(2*pi*2200*n/44100) * 32767)`
/// for `n` in `0..36`, the bit-0 waveform with phase reset at the symbol start.
pub open spec fn space_tone() -> Seq<i16> {
    seq![0i16, 10103i16, 19222i16, 26468i16, 31134i16, 32767i16, 31206i16, 26605i16, 19411i16, 10325i16, 233i16, -9881i16, -19033i16, -26330i16, -31061i16, -32765i16, -31277i16, -26740i16, -19598i16, -10546i16, -467i16, 9658i16, 18842i16, 26190i16, 30986i16, 32762i16, 31345i16, 26875i16, 19785i16, 10767i16, 700i16, -9435i16, -18651i16, -26049i16, -30909i16, -32757i16]
}

/// The `space_tone` table as a runtime vector.
pub fn space_tone_vec() -> (r: Vec<i16>)
    ensures
        r@ == space_tone(),
{
    let v: Vec<i16> = vec![0, 10103, 19222, 26468, 31134, 32767, 31206, 26605, 19411, 10325, 233, -9881, -19033, -26330, -31061, -32765, -31277, -26740, -19598, -10546, -467, 9658, 18842, 26190, 30986, 32762, 31345, 26875, 19785, 10767, 700, -9435, -18651, -26049, -30909, -32757];
    assert(v@ =~= space_tone());
    v
}

/// Cosine twiddles of DFT bin 1 (the bin nearest 1200 Hz at this window
/// length): `round(cos(2*pi*n/36) * 4096)` for `n` in `0..36`.
pub open spec fn cos_bin1() -> Seq<i16> {
    seq![4096i16, 4034i16, 3849i16, 3547i16, 3138i16, 2633i16, 2048i16, 1401i16, 711i16, 0i16, -711i16, -1401i16, -2048i16, -2633i16, -3138i16, -3547i16, -3849i16, -4034i16, -4096i16, -4034i16, -3849i16, -3547i16, -3138i16, -2633i16, -2048i16, -1401i16, -711i16, 0i16, 711i16, 1401i16, 2048i16, 2633i16, 3138i16, 3547i16, 3849i16, 4034i16]
}

/// The `cos_bin1` table as a runtime vector.
pub fn cos_bin1_vec() -> (r: Vec<i16>)
    ensures
        r@ == cos_bin1(),
{
    let v: Vec<i16> = vec![4096, 4034, 3849, 3547, 3138, 2633, 2048, 1401, 711, 0, -711, -1401, -2048, -2633, -3138, -3547, -3849, -4034, -4096, -4034, -3849, -3547, -3138, -2633, -2048, -1401, -711, 0, 711, 1401, 2048, 2633, 3138, 3547, 3849, 4034];
    assert(v@ =~= cos_bin1());
    v
}

/// Sine twiddles of DFT bin 1: `round(sin(2*pi*n/36) * 4096)`.
pub open spec fn sin_bin1() -> Seq<i16> {
    seq![0i16, 711i16, 1401i16, 2048i16, 2633i16, 3138i16, 3547i16, 3849i16, 4034i16, 4096i16, 4034i16, 3849i16, 3547i16, 3138i16, 2633i16, 2048i16, 1401i16, 711i16, 0i16, -711i16, -1401i16, -2048i16, -2633i16, -3138i16, -3547i16, -3849i16, -4034i16, -4096i16, -4034i16, -3849i16, -3547i16, -3138i16, -2633i16, -2048i16, -1401i16, -711i16]
}

/// The `sin_bin1` table as a runtime vector.
pub fn sin_bin1_vec() -> (r: Vec<i16>)
    ensures
        r@ == sin_bin1(),
{
    let v: Vec<i16> = vec![0, 711, 1401, 2048, 2633, 3138, 3547, 3849, 4034, 4096, 4034, 3849, 3547, 3138, 2633, 2048, 1401, 711, 0, -711, -1401, -2048, -2633, -3138, -3547, -3849, -4034, -4096, -4034, -3849, -3547, -3138, -2633, -2048, -1401, -711];
    assert(v@ =~= sin_bin1());
    v
}

/// Cosine twiddles of DFT bin 2 (nearest 2200 Hz):
/// `round(cos(4*pi*n/36) * 4096)` for `n` in `0..36`.
pub open spec fn cos_bin2() -> Seq<i16> {
    seq![4096i16, 3849i16, 3138i16, 2048i16, 711i16, -711i16, -2048i16, -3138i16, -3849i16, -4096i16, -3849i16, -3138i16, -2048i16, -711i16, 711i16, 2048i16, 3138i16, 3849i16, 4096i16, 3849i16, 3138i16, 2048i16, 711i16, -711i16, -2048i16, -3138i16, -3849i16, -4096i16, -3849i16, -3138i16, -2048i16, -711i16, 711i16, 2048i16, 3138i16, 3849i16]
}

/// The `cos_bin2` table as a runtime vector.
pub fn cos_bin2_vec() -> (r: Vec<i16>)
    ensures
        r@ == cos_bin2(),
{
    let v: Vec<i16> = vec![4096, 3849, 3138, 2048, 711, -711, -2048, -3138, -3849, -4096, -3849, -3138, -2048, -711, 711, 2048, 3138, 3849, 4096, 3849, 3138, 2048, 711, -711, -2048, -3138, -3849, -4096, -3849, -3138, -2048, -711, 711, 2048, 3138, 3849];
    assert(v@ =~= cos_bin2());
    v
}

/// Sine twiddles of DFT bin 2: `round(sin(4*pi*n/36) * 4096)`.
pub open spec fn sin_bin2() -> Seq<i16> {
    seq![0i16, 1401i16, 2633i16, 3547i16, 4034i16, 4034i16, 3547i16, 2633i16, 1401i16, 0i16, -1401i16, -2633i16, -3547i16, -4034i16, -4034i16, -3547i16, -2633i16, -1401i16, 0i16, 1401i16, 2633i16, 3547i16, 4034i16, 4034i16, 3547i16, 2633i16, 1401i16, 0i16, -1401i16, -2633i16, -3547i16, -4034i16, -4034i16, -3547i16, -2633i16, -1401i16]
}

/// The `sin_bin2` table as a runtime vector.
pub fn sin_bin2_vec() -> (r: Vec<i16>)
    ensures
        r@ == sin_bin2(),
{
    let v: Vec<i16> = vec![0, 1401, 2633, 3547, 4034, 4034, 3547, 2633, 1401, 0, -1401, -2633, -3547, -4034, -4034, -3547, -2633, -1401, 0, 1401, 2633, 3547, 4034, 4034, 3547, 2633, 1401, 0, -1401, -2633, -3547, -4034, -4034, -3547, -2633, -1401];
    assert(v@ =~= sin_bin2());
    v
}

/// Correlation of the first `n` window samples with a twiddle table:
/// the real or imaginary part of a DFT component, as an exact integer.
pub open spec fn corr(w: Seq<i16>, t: Seq<i16>, n: int) -> int
    decreases n,
{
    if n <= 0 {
        0
    } else {
        corr(w, t, n - 1) + (w[n - 1] as int) * (t[n - 1] as int)
    }
}

/// Spectral energy of a 36-sample window at one DFT bin, given the bin's
/// cosine and sine twiddle tables: the squared magnitude of the component.
pub open spec fn bin_energy(w: Seq<i16>, tc: Seq<i16>, ts: Seq<i16>) -> int {
    corr(w, tc, 36) * corr(w, tc, 36) + corr(w, ts, 36) * corr(w, ts, 36)
}

/// The demodulator's per-symbol decision: a window carries bit 1 exactly
/// when the energy at the MARK bin exceeds the energy at the SPACE bin.
pub open spec fn is_mark_window(w: Seq<i16>) -> bool
    recommends
        w.len() == 36,
{
    bin_energy(w, cos_bin1(), sin_bin1()) > bin_energy(w, cos_bin2(), sin_bin2())
}

/// The bit stream a sample stream demodulates to: one decision per full
/// 36-sample window from offset 0, any trailing partial window dropped.
pub open spec fn spec_demod(samples: Seq<i16>) -> Seq<bool> {
    Seq::new(
        (samples.len() / 36) as nat,
        |k: int| is_mark_window(samples.subrange(36 * k, 36 * k + 36)),
    )
}

/// The symbol waveform of one bit.
pub open spec fn tone_of(bit: bool) -> Seq<i16> {
    if bit {
        mark_tone()
    } else {
        space_tone()
    }
}

/// The sample stream a bit stream modulates to: the symbol waveforms of the
/// bits, concatenated in order with nothing between them.
pub open spec fn spec_modulate(bits: Seq<bool>) -> Seq<i16>
    decreases bits.len(),
{
    if bits.len() == 0 {
        Seq::empty()
    } else {
        tone_of(bits[0]) + spec_modulate(bits.drop_first())
    }
}

/// The bits of one byte, most significant first.
pub open spec fn bits_of_byte(x: u8) -> Seq<bool> {
    Seq::new(8, |i: int| ((x >> ((7 - i) as u8)) & 1) == 1)
}

/// The bit stream of a byte stream: each byte's bits, most significant
/// first, concatenated in order.
pub open spec fn bits_of_bytes(bytes: Seq<u8>) -> Seq<bool>
    decreases bytes.len(),
{
    if bytes.len() == 0 {
        Seq::empty()
    } else {
        bits_of_byte(bytes[0]) + bits_of_bytes(bytes.drop_first())
    }
}

/// The number a bit string denotes, most significant bit first.
pub open spec fn pack_val(bits: Seq<bool>) -> int
    decreases bits.len(),
{
    if bits.len() == 0 {
        0
    } else {
        2 * pack_val(bits.drop_last()) + if bits.last() {
            1int
        } else {
            0int
        }
    }
}

/// The bytes a bit stream packs into: eight bits per byte, most significant
/// first, a trailing short group packed into a final byte as it stands.
pub open spec fn spec_pack_bits(bits: Seq<bool>) -> Seq<u8> {
    Seq::new(
        ((bits.len() + 7) / 8) as nat,
        |k: int|
            pack_val(
                bits.subrange(
                    8 * k,
                    if 8 * k + 8 <= bits.len() {
                        8 * k + 8
                    } else {
                        bits.len() as int
                    },
                ),
            ) as u8,
    )
}

/// A bit string packs below two to its length; in particular eight bits
/// pack below 256.
pub proof fn lemma_pack_val_bound(bits: Seq<bool>)
    ensures
        0 <= pack_val(bits) < vstd::arithmetic::power2::pow2(bits.len()),
        bits.len() <= 8 ==> pack_val(bits) < 256,
        bits.len() <= 7 ==> pack_val(bits) < 128,
    decreases bits.len(),
{
    vstd::arithmetic::power2::lemma2_to64();
    if bits.len() < 8 {
        vstd::arithmetic::power2::lemma_pow2_strictly_increases(bits.len(), 8);
    }
    if bits.len() < 7 {
        vstd::arithmetic::power2::lemma_pow2_strictly_increases(bits.len(), 7);
    }
    if bits.len() > 0 {
        lemma_pack_val_bound(bits.drop_last());
        vstd::arithmetic::power2::lemma_pow2_unfold(bits.len());
    }
}

/// Correlates one 36-sample window, starting at `base`, with one twiddle
/// table: an exact fixed-point DFT component part.
fn corr_window(samples: &[i16], base: usize, t: &Vec<i16>) -> (r: i64)
    requires
        base + 36 <= samples@.len(),
        t@.len() == 36,
    ensures
        r == corr(samples@.subrange(base as int, base as int + 36), t@, 36),
        -0x900000000 <= r <= 0x900000000,
{
    let ghost w = samples@.subrange(base as int, base as int + 36);
    let n = samples.len();
    let mut acc: i64 = 0;
    let mut i: usize = 0;
    while i < 36
        invariant
            0 <= i <= 36,
            base + 36 <= samples@.len() <= usize::MAX,
            t@.len() == 36,
            w == samples@.subrange(base as int, base as int + 36),
            acc == corr(w, t@, i as int),
            -0x40000000 * (i as int) <= acc <= 0x40000000 * (i as int),
        decreases 36 - i,
    {
        let x = samples[base + i] as i64;
        let c = t[i] as i64;
        proof {
            assert(w[i as int] == samples@[base + i]);
            assert((-0x40000000) <= x * c <= 0x40000000) by (nonlinear_arith)
                requires
                    -32768 <= x <= 32767,
                    -32768 <= c <= 32767,
            ;
        }
        acc = acc + x * c;
        i += 1;
    }
    acc
}

/// Decides one window: MARK exactly when the bin-1 energy exceeds the
/// bin-2 energy. The four tables must be the module's twiddle tables.
fn window_is_mark(
    samples: &[i16],
    base: usize,
    c1: &Vec<i16>,
    s1: &Vec<i16>,
    c2: &Vec<i16>,
    s2: &Vec<i16>,
) -> (r: bool)
    requires
        base + 36 <= samples@.len(),
        c1@ == cos_bin1(),
        s1@ == sin_bin1(),
        c2@ == cos_bin2(),
        s2@ == sin_bin2(),
    ensures
        r == is_mark_window(samples@.subrange(base as int, base as int + 36)),
{
    let ghost w = samples@.subrange(base as int, base as int + 36);
    let re1 = corr_window(samples, base, c1);
    let im1 = corr_window(samples, base, s1);
    let re2 = corr_window(samples, base, c2);
    let im2 = corr_window(samples, base, s2);
    proof {
        lemma_square_bound(re1 as int);
        lemma_square_bound(im1 as int);
        lemma_square_bound(re2 as int);
        lemma_square_bound(im2 as int);
    }
    let e1: i128 = (re1 as i128) * (re1 as i128) + (im1 as i128) * (im1 as i128);
    let e2: i128 = (re2 as i128) * (re2 as i128) + (im2 as i128) * (im2 as i128);
    e1 > e2
}

/// The square of a correlation value stays far inside the 128-bit range.
proof fn lemma_square_bound(a: int)
    requires
        -0x900000000 <= a <= 0x900000000,
    ensures
        0 <= a * a <= 0x510000000000000000,
{
    assert(0 <= a * a <= 0x510000000000000000) by (nonlinear_arith)
        requires
            -0x900000000 <= a <= 0x900000000,
    ;
}

/// Demodulates a sample stream into its bit stream: one decision per full
/// 36-sample window from offset 0, any trailing partial window dropped.
pub fn demodulate_afsk(samples: &[i16]) -> (r: Vec<bool>)
    ensures
        r@ == spec_demod(samples@),
{
    let n = samples.len();
    let count = n / SAMPLES_PER_BIT;
    proof {
        assert(36 * (n as int / 36) <= n as int) by (nonlinear_arith);
    }
    let c1 = cos_bin1_vec();
    let s1 = sin_bin1_vec();
    let c2 = cos_bin2_vec();
    let s2 = sin_bin2_vec();
    let mut bits: Vec<bool> = Vec::new();
    let mut k: usize = 0;
    while k < count
        invariant
            0 <= k <= count,
            count == samples@.len() / 36,
            n == samples@.len(),
            36 * (count as int) <= n as int,
            c1@ == cos_bin1(),
            s1@ == sin_bin1(),
            c2@ == cos_bin2(),
            s2@ == sin_bin2(),
            bits@.len() == k,
            forall|j: int|
                0 <= j < k ==> #[trigger] bits@[j] == is_mark_window(
                    samples@.subrange(36 * j, 36 * j + 36),
                ),
        decreases count - k,
    {
        let b = window_is_mark(samples, k * SAMPLES_PER_BIT, &c1, &s1, &c2, &s2);
        bits.push(b);
        k += 1;
    }
    assert(bits@ =~= spec_demod(samples@));
    bits
}

/// Modulating a concatenation concatenates the modulations.
pub proof fn lemma_modulate_concat(a: Seq<bool>, b: Seq<bool>)
    ensures
        spec_modulate(a + b) == spec_modulate(a) + spec_modulate(b),
    decreases a.len(),
{
    if a.len() == 0 {
        assert(a + b =~= b);
        assert(spec_modulate(a) + spec_modulate(b) =~= spec_modulate(b));
    } else {
        assert((a + b).drop_first() =~= a.drop_first() + b);
        lemma_modulate_concat(a.drop_first(), b);
        assert(spec_modulate(a + b) =~= spec_modulate(a) + spec_modulate(b));
    }
}

/// One symbol of samples per bit: the modulated stream's exact length.
pub proof fn lemma_modulate_len(bits: Seq<bool>)
    ensures
        spec_modulate(bits).len() == 36 * bits.len(),
    decreases bits.len(),
{
    if bits.len() > 0 {
        lemma_modulate_len(bits.drop_first());
    }
}

/// Window `k` of a modulated stream is exactly the symbol waveform of bit
/// `k`.
pub proof fn lemma_modulate_window(bits: Seq<bool>, k: int)
    requires
        0 <= k < bits.len(),
    ensures
        spec_modulate(bits).subrange(36 * k, 36 * k + 36) == tone_of(bits[k]),
    decreases k,
{
    lemma_modulate_len(bits.drop_first());
    if k == 0 {
        assert(spec_modulate(bits).subrange(0, 36) =~= tone_of(bits[0]));
    } else {
        lemma_modulate_window(bits.drop_first(), k - 1);
        assert(spec_modulate(bits).subrange(36 * k, 36 * k + 36) =~= spec_modulate(
            bits.drop_first(),
        ).subrange(36 * (k - 1), 36 * (k - 1) + 36));
    }
}

/// The exact correlation of the mark tone with the cos bin1 twiddles.
#[verifier::spinoff_prover]
proof fn lemma_corr_mark_c1()
    ensures
        corr(mark_tone(), cos_bin1(), 36) == -144518774,
{
    let m = mark_tone();
    let t = cos_bin1();
    assert(corr(m, t, 0) == 0);
    assert(m[0] == 0i16 && t[0] == 4096i16);
    assert(corr(m, t, 1) == corr(m, t, 0) + (m[0] as int) * (t[0] as int));
    assert(corr(m, t, 1) == 0);
    assert(m[1] == 5575i16 && t[1] == 4034i16);
    assert(corr(m, t, 2) == corr(m, t, 1) + (m[1] as int) * (t[1] as int));
    assert(corr(m, t, 2) == 22489550);
    assert(m[2] == 10987i16 && t[2] == 3849i16);
    assert(corr(m, t, 3) == corr(m, t, 2) + (m[2] as int) * (t[2] as int));
    assert(corr(m, t, 3) == 64778513);
    assert(m[3] == 16079i16 && t[3] == 3547i16);
    assert(corr(m, t, 4) == corr(m, t, 3) + (m[3] as int) * (t[3] as int));
    assert(corr(m, t, 4) == 121810726);
    assert(m[4] == 20702i16 && t[4] == 3138i16);
    assert(corr(m, t, 5) == corr(m, t, 4) + (m[4] as int) * (t[4] as int));
    assert(corr(m, t, 5) == 186773602);
    assert(m[5] == 24722i16 && t[5] == 2633i16);
    assert(corr(m, t, 6) == corr(m, t, 5) + (m[5] as int) * (t[5] as int));
    assert(corr(m, t, 6) == 251866628);
    assert(m[6] == 28020i16 && t[6] == 2048i16);
    assert(corr(m, t, 7) == corr(m, t, 6) + (m[6] as int) * (t[6] as int));
    assert(corr(m, t, 7) == 309251588);
    assert(m[7] == 30502i16 && t[7] == 1401i16);
    assert(corr(m, t, 8) == corr(m, t, 7) + (m[7] as int) * (t[7] as int));
    assert(corr(m, t, 8) == 351984890);
    assert(m[8] == 32094i16 && t[8] == 711i16);
    assert(corr(m, t, 9) == corr(m, t, 8) + (m[8] as int) * (t[8] as int));
    assert(corr(m, t, 9) == 374803724);
    assert(m[9] == 32750i16 && t[9] == 0i16);
    assert(corr(m, t, 10) == corr(m, t, 9) + (m[9] as int) * (t[9] as int));
    assert(corr(m, t, 10) == 374803724);
    assert(m[10] == 32451i16 && t[10] == -711i16);
    assert(corr(m, t, 11) == corr(m, t, 10) + (m[10] as int) * (t[10] as int));
    assert(corr(m, t, 11) == 351731063);
    assert(m[11] == 31206i16 && t[11] == -1401i16);
    assert(corr(m, t, 12) == corr(m, t, 11) + (m[11] as int) * (t[11] as int));
    assert(corr(m, t, 12) == 308011457);
    assert(m[12] == 29051i16 && t[12] == -2048i16);
    assert(corr(m, t, 13) == corr(m, t, 12) + (m[12] as int) * (t[12] as int));
    assert(corr(m, t, 13) == 248515009);
    assert(m[13] == 26049i16 && t[13] == -2633i16);
    assert(corr(m, t, 14) == corr(m, t, 13) + (m[13] as int) * (t[13] as int));
    assert(corr(m, t, 14) == 179927992);
    assert(m[14] == 22287i16 && t[14] == -3138i16);
    assert(corr(m, t, 15) == corr(m, t, 14) + (m[14] as int) * (t[14] as int));
    assert(corr(m, t, 15) == 109991386);
    assert(m[15] == 17876i16 && t[15] == -3547i16);
    assert(corr(m, t, 16) == corr(m, t, 15) + (m[15] as int) * (t[15] as int));
    assert(corr(m, t, 16) == 46585214);
    assert(m[16] == 12943i16 && t[16] == -3849i16);
    assert(corr(m, t, 17) == corr(m, t, 16) + (m[16] as int) * (t[16] as int));
    assert(corr(m, t, 17) == -3232393);
    assert(m[17] == 7632i16 && t[17] == -4034i16);
    assert(corr(m, t, 18) == corr(m, t, 17) + (m[17] as int) * (t[17] as int));
    assert(corr(m, t, 18) == -34019881);
    assert(m[18] == 2099i16 && t[18] == -4096i16);
    assert(corr(m, t, 19) == corr(m, t, 18) + (m[18] as int) * (t[18] as int));
    assert(corr(m, t, 19) == -42617385);
    assert(m[19] == -3495i16 && t[19] == -4034i16);
    assert(corr(m, t, 20) == corr(m, t, 19) + (m[19] as int) * (t[19] as int));
    assert(corr(m, t, 20) == -28518555);
    assert(m[20] == -8987i16 && t[20] == -3849i16);
    assert(corr(m, t, 21) == corr(m, t, 20) + (m[20] as int) * (t[20] as int));
    assert(corr(m, t, 21) == 6072408);
    assert(m[21] == -14217i16 && t[21] == -3547i16);
    assert(corr(m, t, 22) == corr(m, t, 21) + (m[21] as int) * (t[21] as int));
    assert(corr(m, t, 22) == 56500107);
    assert(m[22] == -19033i16 && t[22] == -3138i16);
    assert(corr(m, t, 23) == corr(m, t, 22) + (m[22] as int) * (t[22] as int));
    assert(corr(m, t, 23) == 116225661);
    assert(m[23] == -23293i16 && t[23] == -2633i16);
    assert(corr(m, t, 24) == corr(m, t, 23) + (m[23] as int) * (t[23] as int));
    assert(corr(m, t, 24) == 177556130);
    assert(m[24] == -26875i16 && t[24] == -2048i16);
    assert(corr(m, t, 25) == corr(m, t, 24) + (m[24] as int) * (t[24] as int));
    assert(corr(m, t, 25) == 232596130);
    assert(m[25] == -29672i16 && t[25] == -1401i16);
    assert(corr(m, t, 26) == corr(m, t, 25) + (m[25] as int) * (t[25] as int));
    assert(corr(m, t, 26) == 274166602);
    assert(m[26] == -31605i16 && t[26] == -711i16);
    assert(corr(m, t, 27) == corr(m, t, 26) + (m[26] as int) * (t[26] as int));
    assert(corr(m, t, 27) == 296637757);
    assert(m[27] == -32616i16 && t[27] == 0i16);
    assert(corr(m, t, 28) == corr(m, t, 27) + (m[27] as int) * (t[27] as int));
    assert(corr(m, t, 28) == 296637757);
    assert(m[28] == -32675i16 && t[28] == 711i16);
    assert(corr(m, t, 29) == corr(m, t, 28) + (m[28] as int) * (t[28] as int));
    assert(corr(m, t, 29) == 273405832);
    assert(m[29] == -31782i16 && t[29] == 1401i16);
    assert(corr(m, t, 30) == corr(m, t, 29) + (m[29] as int) * (t[29] as int));
    assert(corr(m, t, 30) == 228879250);
    assert(m[30] == -29963i16 && t[30] == 2048i16);
    assert(corr(m, t, 31) == corr(m, t, 30) + (m[30] as int) * (t[30] as int));
    assert(corr(m, t, 31) == 167515026);
    assert(m[31] == -27269i16 && t[31] == 2633i16);
    assert(corr(m, t, 32) == corr(m, t, 31) + (m[31] as int) * (t[31] as int));
    assert(corr(m, t, 32) == 95715749);
    assert(m[32] == -23780i16 && t[32] == 3138i16);
    assert(corr(m, t, 33) == corr(m, t, 32) + (m[32] as int) * (t[32] as int));
    assert(corr(m, t, 33) == 21094109);
    assert(m[33] == -19598i16 && t[33] == 3547i16);
    assert(corr(m, t, 34) == corr(m, t, 33) + (m[33] as int) * (t[33] as int));
    assert(corr(m, t, 34) == -48419997);
    assert(m[34] == -14845i16 && t[34] == 3849i16);
    assert(corr(m, t, 35) == corr(m, t, 34) + (m[34] as int) * (t[34] as int));
    assert(corr(m, t, 35) == -105558402);
    assert(m[35] == -9658i16 && t[35] == 4034i16);
    assert(corr(m, t, 36) == corr(m, t, 35) + (m[35] as int) * (t[35] as int));
    assert(corr(m, t, 36) == -144518774);
}

/// The exact correlation of the mark tone with the sin bin1 twiddles.
#[verifier::spinoff_prover]
proof fn lemma_corr_mark_s1()
    ensures
        corr(mark_tone(), sin_bin1(), 36) == 2433854049,
{
    let m = mark_tone();
    let t = sin_bin1();
    assert(corr(m, t, 0) == 0);
    assert(m[0] == 0i16 && t[0] == 0i16);
    assert(corr(m, t, 1) == corr(m, t, 0) + (m[0] as int) * (t[0] as int));
    assert(corr(m, t, 1) == 0);
    assert(m[1] == 5575i16 && t[1] == 711i16);
    assert(corr(m, t, 2) == corr(m, t, 1) + (m[1] as int) * (t[1] as int));
    assert(corr(m, t, 2) == 3963825);
    assert(m[2] == 10987i16 && t[2] == 1401i16);
    assert(corr(m, t, 3) == corr(m, t, 2) + (m[2] as int) * (t[2] as int));
    assert(corr(m, t, 3) == 19356612);
    assert(m[3] == 16079i16 && t[3] == 2048i16);
    assert(corr(m, t, 4) == corr(m, t, 3) + (m[3] as int) * (t[3] as int));
    assert(corr(m, t, 4) == 52286404);
    assert(m[4] == 20702i16 && t[4] == 2633i16);
    assert(corr(m, t, 5) == corr(m, t, 4) + (m[4] as int) * (t[4] as int));
    assert(corr(m, t, 5) == 106794770);
    assert(m[5] == 24722i16 && t[5] == 3138i16);
    assert(corr(m, t, 6) == corr(m, t, 5) + (m[5] as int) * (t[5] as int));
    assert(corr(m, t, 6) == 184372406);
    assert(m[6] == 28020i16 && t[6] == 3547i16);
    assert(corr(m, t, 7) == corr(m, t, 6) + (m[6] as int) * (t[6] as int));
    assert(corr(m, t, 7) == 283759346);
    assert(m[7] == 30502i16 && t[7] == 3849i16);
    assert(corr(m, t, 8) == corr(m, t, 7) + (m[7] as int) * (t[7] as int));
    assert(corr(m, t, 8) == 401161544);
    assert(m[8] == 32094i16 && t[8] == 4034i16);
    assert(corr(m, t, 9) == corr(m, t, 8) + (m[8] as int) * (t[8] as int));
    assert(corr(m, t, 9) == 530628740);
    assert(m[9] == 32750i16 && t[9] == 4096i16);
    assert(corr(m, t, 10) == corr(m, t, 9) + (m[9] as int) * (t[9] as int));
    assert(corr(m, t, 10) == 664772740);
    assert(m[10] == 32451i16 && t[10] == 4034i16);
    assert(corr(m, t, 11) == corr(m, t, 10) + (m[10] as int) * (t[10] as int));
    assert(corr(m, t, 11) == 795680074);
    assert(m[11] == 31206i16 && t[11] == 3849i16);
    assert(corr(m, t, 12) == corr(m, t, 11) + (m[11] as int) * (t[11] as int));
    assert(corr(m, t, 12) == 915791968);
    assert(m[12] == 29051i16 && t[12] == 3547i16);
    assert(corr(m, t, 13) == corr(m, t, 12) + (m[12] as int) * (t[12] as int));
    assert(corr(m, t, 13) == 1018835865);
    assert(m[13] == 26049i16 && t[13] == 3138i16);
    assert(corr(m, t, 14) == corr(m, t, 13) + (m[13] as int) * (t[13] as int));
    assert(corr(m, t, 14) == 1100577627);
    assert(m[14] == 22287i16 && t[14] == 2633i16);
    assert(corr(m, t, 15) == corr(m, t, 14) + (m[14] as int) * (t[14] as int));
    assert(corr(m, t, 15) == 1159259298);
    assert(m[15] == 17876i16 && t[15] == 2048i16);
    assert(corr(m, t, 16) == corr(m, t, 15) + (m[15] as int) * (t[15] as int));
    assert(corr(m, t, 16) == 1195869346);
    assert(m[16] == 12943i16 && t[16] == 1401i16);
    assert(corr(m, t, 17) == corr(m, t, 16) + (m[16] as int) * (t[16] as int));
    assert(corr(m, t, 17) == 1214002489);
    assert(m[17] == 7632i16 && t[17] == 711i16);
    assert(corr(m, t, 18) == corr(m, t, 17) + (m[17] as int) * (t[17] as int));
    assert(corr(m, t, 18) == 1219428841);
    assert(m[18] == 2099i16 && t[18] == 0i16);
    assert(corr(m, t, 19) == corr(m, t, 18) + (m[18] as int) * (t[18] as int));
    assert(corr(m, t, 19) == 1219428841);
    assert(m[19] == -3495i16 && t[19] == -711i16);
    assert(corr(m, t, 20) == corr(m, t, 19) + (m[19] as int) * (t[19] as int));
    assert(corr(m, t, 20) == 1221913786);
    assert(m[20] == -8987i16 && t[20] == -1401i16);
    assert(corr(m, t, 21) == corr(m, t, 20) + (m[20] as int) * (t[20] as int));
    assert(corr(m, t, 21) == 1234504573);
    assert(m[21] == -14217i16 && t[21] == -2048i16);
    assert(corr(m, t, 22) == corr(m, t, 21) + (m[21] as int) * (t[21] as int));
    assert(corr(m, t, 22) == 1263620989);
    assert(m[22] == -19033i16 && t[22] == -2633i16);
    assert(corr(m, t, 23) == corr(m, t, 22) + (m[22] as int) * (t[22] as int));
    assert(corr(m, t, 23) == 1313734878);
    assert(m[23] == -23293i16 && t[23] == -3138i16);
    assert(corr(m, t, 24) == corr(m, t, 23) + (m[23] as int) * (t[23] as int));
    assert(corr(m, t, 24) == 1386828312);
    assert(m[24] == -26875i16 && t[24] == -3547i16);
    assert(corr(m, t, 25) == corr(m, t, 24) + (m[24] as int) * (t[24] as int));
    assert(corr(m, t, 25) == 1482153937);
    assert(m[25] == -29672i16 && t[25] == -3849i16);
    assert(corr(m, t, 26) == corr(m, t, 25) + (m[25] as int) * (t[25] as int));
    assert(corr(m, t, 26) == 1596361465);
    assert(m[26] == -31605i16 && t[26] == -4034i16);
    assert(corr(m, t, 27) == corr(m, t, 26) + (m[26] as int) * (t[26] as int));
    assert(corr(m, t, 27) == 1723856035);
    assert(m[27] == -32616i16 && t[27] == -4096i16);
    assert(corr(m, t, 28) == corr(m, t, 27) + (m[27] as int) * (t[27] as int));
    assert(corr(m, t, 28) == 1857451171);
    assert(m[28] == -32675i16 && t[28] == -4034i16);
    assert(corr(m, t, 29) == corr(m, t, 28) + (m[28] as int) * (t[28] as int));
    assert(corr(m, t, 29) == 1989262121);
    assert(m[29] == -31782i16 && t[29] == -3849i16);
    assert(corr(m, t, 30) == corr(m, t, 29) + (m[29] as int) * (t[29] as int));
    assert(corr(m, t, 30) == 2111591039);
    assert(m[30] == -29963i16 && t[30] == -3547i16);
    assert(corr(m, t, 31) == corr(m, t, 30) + (m[30] as int) * (t[30] as int));
    assert(corr(m, t, 31) == 2217869800);
    assert(m[31] == -27269i16 && t[31] == -3138i16);
    assert(corr(m, t, 32) == corr(m, t, 31) + (m[31] as int) * (t[31] as int));
    assert(corr(m, t, 32) == 2303439922);
    assert(m[32] == -23780i16 && t[32] == -2633i16);
    assert(corr(m, t, 33) == corr(m, t, 32) + (m[32] as int) * (t[32] as int));
    assert(corr(m, t, 33) == 2366052662);
    assert(m[33] == -19598i16 && t[33] == -2048i16);
    assert(corr(m, t, 34) == corr(m, t, 33) + (m[33] as int) * (t[33] as int));
    assert(corr(m, t, 34) == 2406189366);
    assert(m[34] == -14845i16 && t[34] == -1401i16);
    assert(corr(m, t, 35) == corr(m, t, 34) + (m[34] as int) * (t[34] as int));
    assert(corr(m, t, 35) == 2426987211);
    assert(m[35] == -9658i16 && t[35] == -711i16);
    assert(corr(m, t, 36) == corr(m, t, 35) + (m[35] as int) * (t[35] as int));
    assert(corr(m, t, 36) == 2433854049);
}

/// The exact correlation of the mark tone with the cos bin2 twiddles.
#[verifier::spinoff_prover]
proof fn lemma_corr_mark_c2()
    ensures
        corr(mark_tone(), cos_bin2(), 36) == 6533046,
{
    let m = mark_tone();
    let t = cos_bin2();
    assert(corr(m, t, 0) == 0);
    assert(m[0] == 0i16 && t[0] == 4096i16);
    assert(corr(m, t, 1) == corr(m, t, 0) + (m[0] as int) * (t[0] as int));
    assert(corr(m, t, 1) == 0);
    assert(m[1] == 5575i16 && t[1] == 3849i16);
    assert(corr(m, t, 2) == corr(m, t, 1) + (m[1] as int) * (t[1] as int));
    assert(corr(m, t, 2) == 21458175);
    assert(m[2] == 10987i16 && t[2] == 3138i16);
    assert(corr(m, t, 3) == corr(m, t, 2) + (m[2] as int) * (t[2] as int));
    assert(corr(m, t, 3) == 55935381);
    assert(m[3] == 16079i16 && t[3] == 2048i16);
    assert(corr(m, t, 4) == corr(m, t, 3) + (m[3] as int) * (t[3] as int));
    assert(corr(m, t, 4) == 88865173);
    assert(m[4] == 20702i16 && t[4] == 711i16);
    assert(corr(m, t, 5) == corr(m, t, 4) + (m[4] as int) * (t[4] as int));
    assert(corr(m, t, 5) == 103584295);
    assert(m[5] == 24722i16 && t[5] == -711i16);
    assert(corr(m, t, 6) == corr(m, t, 5) + (m[5] as int) * (t[5] as int));
    assert(corr(m, t, 6) == 86006953);
    assert(m[6] == 28020i16 && t[6] == -2048i16);
    assert(corr(m, t, 7) == corr(m, t, 6) + (m[6] as int) * (t[6] as int));
    assert(corr(m, t, 7) == 28621993);
    assert(m[7] == 30502i16 && t[7] == -3138i16);
    assert(corr(m, t, 8) == corr(m, t, 7) + (m[7] as int) * (t[7] as int));
    assert(corr(m, t, 8) == -67093283);
    assert(m[8] == 32094i16 && t[8] == -3849i16);
    assert(corr(m, t, 9) == corr(m, t, 8) + (m[8] as int) * (t[8] as int));
    assert(corr(m, t, 9) == -190623089);
    assert(m[9] == 32750i16 && t[9] == -4096i16);
    assert(corr(m, t, 10) == corr(m, t, 9) + (m[9] as int) * (t[9] as int));
    assert(corr(m, t, 10) == -324767089);
    assert(m[10] == 32451i16 && t[10] == -3849i16);
    assert(corr(m, t, 11) == corr(m, t, 10) + (m[10] as int) * (t[10] as int));
    assert(corr(m, t, 11) == -449670988);
    assert(m[11] == 31206i16 && t[11] == -3138i16);
    assert(corr(m, t, 12) == corr(m, t, 11) + (m[11] as int) * (t[11] as int));
    assert(corr(m, t, 12) == -547595416);
    assert(m[12] == 29051i16 && t[12] == -2048i16);
    assert(corr(m, t, 13) == corr(m, t, 12) + (m[12] as int) * (t[12] as int));
    assert(corr(m, t, 13) == -607091864);
    assert(m[13] == 26049i16 && t[13] == -711i16);
    assert(corr(m, t, 14) == corr(m, t, 13) + (m[13] as int) * (t[13] as int));
    assert(corr(m, t, 14) == -625612703);
    assert(m[14] == 22287i16 && t[14] == 711i16);
    assert(corr(m, t, 15) == corr(m, t, 14) + (m[14] as int) * (t[14] as int));
    assert(corr(m, t, 15) == -609766646);
    assert(m[15] == 17876i16 && t[15] == 2048i16);
    assert(corr(m, t, 16) == corr(m, t, 15) + (m[15] as int) * (t[15] as int));
    assert(corr(m, t, 16) == -573156598);
    assert(m[16] == 12943i16 && t[16] == 3138i16);
    assert(corr(m, t, 17) == corr(m, t, 16) + (m[16] as int) * (t[16] as int));
    assert(corr(m, t, 17) == -532541464);
    assert(m[17] == 7632i16 && t[17] == 3849i16);
    assert(corr(m, t, 18) == corr(m, t, 17) + (m[17] as int) * (t[17] as int));
    assert(corr(m, t, 18) == -503165896);
    assert(m[18] == 2099i16 && t[18] == 4096i16);
    assert(corr(m, t, 19) == corr(m, t, 18) + (m[18] as int) * (t[18] as int));
    assert(corr(m, t, 19) == -494568392);
    assert(m[19] == -3495i16 && t[19] == 3849i16);
    assert(corr(m, t, 20) == corr(m, t, 19) + (m[19] as int) * (t[19] as int));
    assert(corr(m, t, 20) == -508020647);
    assert(m[20] == -8987i16 && t[20] == 3138i16);
    assert(corr(m, t, 21) == corr(m, t, 20) + (m[20] as int) * (t[20] as int));
    assert(corr(m, t, 21) == -536221853);
    assert(m[21] == -14217i16 && t[21] == 2048i16);
    assert(corr(m, t, 22) == corr(m, t, 21) + (m[21] as int) * (t[21] as int));
    assert(corr(m, t, 22) == -565338269);
    assert(m[22] == -19033i16 && t[22] == 711i16);
    assert(corr(m, t, 23) == corr(m, t, 22) + (m[22] as int) * (t[22] as int));
    assert(corr(m, t, 23) == -578870732);
    assert(m[23] == -23293i16 && t[23] == -711i16);
    assert(corr(m, t, 24) == corr(m, t, 23) + (m[23] as int) * (t[23] as int));
    assert(corr(m, t, 24) == -562309409);
    assert(m[24] == -26875i16 && t[24] == -2048i16);
    assert(corr(m, t, 25) == corr(m, t, 24) + (m[24] as int) * (t[24] as int));
    assert(corr(m, t, 25) == -507269409);
    assert(m[25] == -29672i16 && t[25] == -3138i16);
    assert(corr(m, t, 26) == corr(m, t, 25) + (m[25] as int) * (t[25] as int));
    assert(corr(m, t, 26) == -414158673);
    assert(m[26] == -31605i16 && t[26] == -3849i16);
    assert(corr(m, t, 27) == corr(m, t, 26) + (m[26] as int) * (t[26] as int));
    assert(corr(m, t, 27) == -292511028);
    assert(m[27] == -32616i16 && t[27] == -4096i16);
    assert(corr(m, t, 28) == corr(m, t, 27) + (m[27] as int) * (t[27] as int));
    assert(corr(m, t, 28) == -158915892);
    assert(m[28] == -32675i16 && t[28] == -3849i16);
    assert(corr(m, t, 29) == corr(m, t, 28) + (m[28] as int) * (t[28] as int));
    assert(corr(m, t, 29) == -33149817);
    assert(m[29] == -31782i16 && t[29] == -3138i16);
    assert(corr(m, t, 30) == corr(m, t, 29) + (m[29] as int) * (t[29] as int));
    assert(corr(m, t, 30) == 66582099);
    assert(m[30] == -29963i16 && t[30] == -2048i16);
    assert(corr(m, t, 31) == corr(m, t, 30) + (m[30] as int) * (t[30] as int));
    assert(corr(m, t, 31) == 127946323);
    assert(m[31] == -27269i16 && t[31] == -711i16);
    assert(corr(m, t, 32) == corr(m, t, 31) + (m[31] as int) * (t[31] as int));
    assert(corr(m, t, 32) == 147334582);
    assert(m[32] == -23780i16 && t[32] == 711i16);
    assert(corr(m, t, 33) == corr(m, t, 32) + (m[32] as int) * (t[32] as int));
    assert(corr(m, t, 33) == 130427002);
    assert(m[33] == -19598i16 && t[33] == 2048i16);
    assert(corr(m, t, 34) == corr(m, t, 33) + (m[33] as int) * (t[33] as int));
    assert(corr(m, t, 34) == 90290298);
    assert(m[34] == -14845i16 && t[34] == 3138i16);
    assert(corr(m, t, 35) == corr(m, t, 34) + (m[34] as int) * (t[34] as int));
    assert(corr(m, t, 35) == 43706688);
    assert(m[35] == -9658i16 && t[35] == 3849i16);
    assert(corr(m, t, 36) == corr(m, t, 35) + (m[35] as int) * (t[35] as int));
    assert(corr(m, t, 36) == 6533046);
}

/// The exact correlation of the mark tone with the sin bin2 twiddles.
#[verifier::spinoff_prover]
proof fn lemma_corr_mark_s2()
    ensures
        corr(mark_tone(), sin_bin2(), 36) == 64177584,
{
    let m = mark_tone();
    let t = sin_bin2();
    assert(corr(m, t, 0) == 0);
    assert(m[0] == 0i16 && t[0] == 0i16);
    assert(corr(m, t, 1) == corr(m, t, 0) + (m[0] as int) * (t[0] as int));
    assert(corr(m, t, 1) == 0);
    assert(m[1] == 5575i16 && t[1] == 1401i16);
    assert(corr(m, t, 2) == corr(m, t, 1) + (m[1] as int) * (t[1] as int));
    assert(corr(m, t, 2) == 7810575);
    assert(m[2] == 10987i16 && t[2] == 2633i16);
    assert(corr(m, t, 3) == corr(m, t, 2) + (m[2] as int) * (t[2] as int));
    assert(corr(m, t, 3) == 36739346);
    assert(m[3] == 16079i16 && t[3] == 3547i16);
    assert(corr(m, t, 4) == corr(m, t, 3) + (m[3] as int) * (t[3] as int));
    assert(corr(m, t, 4) == 93771559);
    assert(m[4] == 20702i16 && t[4] == 4034i16);
    assert(corr(m, t, 5) == corr(m, t, 4) + (m[4] as int) * (t[4] as int));
    assert(corr(m, t, 5) == 177283427);
    assert(m[5] == 24722i16 && t[5] == 4034i16);
    assert(corr(m, t, 6) == corr(m, t, 5) + (m[5] as int) * (t[5] as int));
    assert(corr(m, t, 6) == 277011975);
    assert(m[6] == 28020i16 && t[6] == 3547i16);
    assert(corr(m, t, 7) == corr(m, t, 6) + (m[6] as int) * (t[6] as int));
    assert(corr(m, t, 7) == 376398915);
    assert(m[7] == 30502i16 && t[7] == 2633i16);
    assert(corr(m, t, 8) == corr(m, t, 7) + (m[7] as int) * (t[7] as int));
    assert(corr(m, t, 8) == 456710681);
    assert(m[8] == 32094i16 && t[8] == 1401i16);
    assert(corr(m, t, 9) == corr(m, t, 8) + (m[8] as int) * (t[8] as int));
    assert(corr(m, t, 9) == 501674375);
    assert(m[9] == 32750i16 && t[9] == 0i16);
    assert(corr(m, t, 10) == corr(m, t, 9) + (m[9] as int) * (t[9] as int));
    assert(corr(m, t, 10) == 501674375);
    assert(m[10] == 32451i16 && t[10] == -1401i16);
    assert(corr(m, t, 11) == corr(m, t, 10) + (m[10] as int) * (t[10] as int));
    assert(corr(m, t, 11) == 456210524);
    assert(m[11] == 31206i16 && t[11] == -2633i16);
    assert(corr(m, t, 12) == corr(m, t, 11) + (m[11] as int) * (t[11] as int));
    assert(corr(m, t, 12) == 374045126);
    assert(m[12] == 29051i16 && t[12] == -3547i16);
    assert(corr(m, t, 13) == corr(m, t, 12) + (m[12] as int) * (t[12] as int));
    assert(corr(m, t, 13) == 271001229);
    assert(m[13] == 26049i16 && t[13] == -4034i16);
    assert(corr(m, t, 14) == corr(m, t, 13) + (m[13] as int) * (t[13] as int));
    assert(corr(m, t, 14) == 165919563);
    assert(m[14] == 22287i16 && t[14] == -4034i16);
    assert(corr(m, t, 15) == corr(m, t, 14) + (m[14] as int) * (t[14] as int));
    assert(corr(m, t, 15) == 76013805);
    assert(m[15] == 17876i16 && t[15] == -3547i16);
    assert(corr(m, t, 16) == corr(m, t, 15) + (m[15] as int) * (t[15] as int));
    assert(corr(m, t, 16) == 12607633);
    assert(m[16] == 12943i16 && t[16] == -2633i16);
    assert(corr(m, t, 17) == corr(m, t, 16) + (m[16] as int) * (t[16] as int));
    assert(corr(m, t, 17) == -21471286);
    assert(m[17] == 7632i16 && t[17] == -1401i16);
    assert(corr(m, t, 18) == corr(m, t, 17) + (m[17] as int) * (t[17] as int));
    assert(corr(m, t, 18) == -32163718);
    assert(m[18] == 2099i16 && t[18] == 0i16);
    assert(corr(m, t, 19) == corr(m, t, 18) + (m[18] as int) * (t[18] as int));
    assert(corr(m, t, 19) == -32163718);
    assert(m[19] == -3495i16 && t[19] == 1401i16);
    assert(corr(m, t, 20) == corr(m, t, 19) + (m[19] as int) * (t[19] as int));
    assert(corr(m, t, 20) == -37060213);
    assert(m[20] == -8987i16 && t[20] == 2633i16);
    assert(corr(m, t, 21) == corr(m, t, 20) + (m[20] as int) * (t[20] as int));
    assert(corr(m, t, 21) == -60722984);
    assert(m[21] == -14217i16 && t[21] == 3547i16);
    assert(corr(m, t, 22) == corr(m, t, 21) + (m[21] as int) * (t[21] as int));
    assert(corr(m, t, 22) == -111150683);
    assert(m[22] == -19033i16 && t[22] == 4034i16);
    assert(corr(m, t, 23) == corr(m, t, 22) + (m[22] as int) * (t[22] as int));
    assert(corr(m, t, 23) == -187929805);
    assert(m[23] == -23293i16 && t[23] == 4034i16);
    assert(corr(m, t, 24) == corr(m, t, 23) + (m[23] as int) * (t[23] as int));
    assert(corr(m, t, 24) == -281893767);
    assert(m[24] == -26875i16 && t[24] == 3547i16);
    assert(corr(m, t, 25) == corr(m, t, 24) + (m[24] as int) * (t[24] as int));
    assert(corr(m, t, 25) == -377219392);
    assert(m[25] == -29672i16 && t[25] == 2633i16);
    assert(corr(m, t, 26) == corr(m, t, 25) + (m[25] as int) * (t[25] as int));
    assert(corr(m, t, 26) == -455345768);
    assert(m[26] == -31605i16 && t[26] == 1401i16);
    assert(corr(m, t, 27) == corr(m, t, 26) + (m[26] as int) * (t[26] as int));
    assert(corr(m, t, 27) == -499624373);
    assert(m[27] == -32616i16 && t[27] == 0i16);
    assert(corr(m, t, 28) == corr(m, t, 27) + (m[27] as int) * (t[27] as int));
    assert(corr(m, t, 28) == -499624373);
    assert(m[28] == -32675i16 && t[28] == -1401i16);
    assert(corr(m, t, 29) == corr(m, t, 28) + (m[28] as int) * (t[28] as int));
    assert(corr(m, t, 29) == -453846698);
    assert(m[29] == -31782i16 && t[29] == -2633i16);
    assert(corr(m, t, 30) == corr(m, t, 29) + (m[29] as int) * (t[29] as int));
    assert(corr(m, t, 30) == -370164692);
    assert(m[30] == -29963i16 && t[30] == -3547i16);
    assert(corr(m, t, 31) == corr(m, t, 30) + (m[30] as int) * (t[30] as int));
    assert(corr(m, t, 31) == -263885931);
    assert(m[31] == -27269i16 && t[31] == -4034i16);
    assert(corr(m, t, 32) == corr(m, t, 31) + (m[31] as int) * (t[31] as int));
    assert(corr(m, t, 32) == -153882785);
    assert(m[32] == -23780i16 && t[32] == -4034i16);
    assert(corr(m, t, 33) == corr(m, t, 32) + (m[32] as int) * (t[32] as int));
    assert(corr(m, t, 33) == -57954265);
    assert(m[33] == -19598i16 && t[33] == -3547i16);
    assert(corr(m, t, 34) == corr(m, t, 33) + (m[33] as int) * (t[33] as int));
    assert(corr(m, t, 34) == 11559841);
    assert(m[34] == -14845i16 && t[34] == -2633i16);
    assert(corr(m, t, 35) == corr(m, t, 34) + (m[34] as int) * (t[34] as int));
    assert(corr(m, t, 35) == 50646726);
    assert(m[35] == -9658i16 && t[35] == -1401i16);
    assert(corr(m, t, 36) == corr(m, t, 35) + (m[35] as int) * (t[35] as int));
    assert(corr(m, t, 36) == 64177584);
}

/// The exact correlation of the space tone with the cos bin1 twiddles.
#[verifier::spinoff_prover]
proof fn lemma_corr_space_c1()
    ensures
        corr(space_tone(), cos_bin1(), 36) == 505843696,
{
    let m = space_tone();
    let t = cos_bin1();
    assert(corr(m, t, 0) == 0);
    assert(m[0] == 0i16 && t[0] == 4096i16);
    assert(corr(m, t, 1) == corr(m, t, 0) + (m[0] as int) * (t[0] as int));
    assert(corr(m, t, 1) == 0);
    assert(m[1] == 10103i16 && t[1] == 4034i16);
    assert(corr(m, t, 2) == corr(m, t, 1) + (m[1] as int) * (t[1] as int));
    assert(corr(m, t, 2) == 40755502);
    assert(m[2] == 19222i16 && t[2] == 3849i16);
    assert(corr(m, t, 3) == corr(m, t, 2) + (m[2] as int) * (t[2] as int));
    assert(corr(m, t, 3) == 114740980);
    assert(m[3] == 26468i16 && t[3] == 3547i16);
    assert(corr(m, t, 4) == corr(m, t, 3) + (m[3] as int) * (t[3] as int));
    assert(corr(m, t, 4) == 208622976);
    assert(m[4] == 31134i16 && t[4] == 3138i16);
    assert(corr(m, t, 5) == corr(m, t, 4) + (m[4] as int) * (t[4] as int));
    assert(corr(m, t, 5) == 306321468);
    assert(m[5] == 32767i16 && t[5] == 2633i16);
    assert(corr(m, t, 6) == corr(m, t, 5) + (m[5] as int) * (t[5] as int));
    assert(corr(m, t, 6) == 392596979);
    assert(m[6] == 31206i16 && t[6] == 2048i16);
    assert(corr(m, t, 7) == corr(m, t, 6) + (m[6] as int) * (t[6] as int));
    assert(corr(m, t, 7) == 456506867);
    assert(m[7] == 26605i16 && t[7] == 1401i16);
    assert(corr(m, t, 8) == corr(m, t, 7) + (m[7] as int) * (t[7] as int));
    assert(corr(m, t, 8) == 493780472);
    assert(m[8] == 19411i16 && t[8] == 711i16);
    assert(corr(m, t, 9) == corr(m, t, 8) + (m[8] as int) * (t[8] as int));
    assert(corr(m, t, 9) == 507581693);
    assert(m[9] == 10325i16 && t[9] == 0i16);
    assert(corr(m, t, 10) == corr(m, t, 9) + (m[9] as int) * (t[9] as int));
    assert(corr(m, t, 10) == 507581693);
    assert(m[10] == 233i16 && t[10] == -711i16);
    assert(corr(m, t, 11) == corr(m, t, 10) + (m[10] as int) * (t[10] as int));
    assert(corr(m, t, 11) == 507416030);
    assert(m[11] == -9881i16 && t[11] == -1401i16);
    assert(corr(m, t, 12) == corr(m, t, 11) + (m[11] as int) * (t[11] as int));
    assert(corr(m, t, 12) == 521259311);
    assert(m[12] == -19033i16 && t[12] == -2048i16);
    assert(corr(m, t, 13) == corr(m, t, 12) + (m[12] as int) * (t[12] as int));
    assert(corr(m, t, 13) == 560238895);
    assert(m[13] == -26330i16 && t[13] == -2633i16);
    assert(corr(m, t, 14) == corr(m, t, 13) + (m[13] as int) * (t[13] as int));
    assert(corr(m, t, 14) == 629565785);
    assert(m[14] == -31061i16 && t[14] == -3138i16);
    assert(corr(m, t, 15) == corr(m, t, 14) + (m[14] as int) * (t[14] as int));
    assert(corr(m, t, 15) == 727035203);
    assert(m[15] == -32765i16 && t[15] == -3547i16);
    assert(corr(m, t, 16) == corr(m, t, 15) + (m[15] as int) * (t[15] as int));
    assert(corr(m, t, 16) == 843252658);
    assert(m[16] == -31277i16 && t[16] == -3849i16);
    assert(corr(m, t, 17) == corr(m, t, 16) + (m[16] as int) * (t[16] as int));
    assert(corr(m, t, 17) == 963637831);
    assert(m[17] == -26740i16 && t[17] == -4034i16);
    assert(corr(m, t, 18) == corr(m, t, 17) + (m[17] as int) * (t[17] as int));
    assert(corr(m, t, 18) == 1071506991);
    assert(m[18] == -19598i16 && t[18] == -4096i16);
    assert(corr(m, t, 19) == corr(m, t, 18) + (m[18] as int) * (t[18] as int));
    assert(corr(m, t, 19) == 1151780399);
    assert(m[19] == -10546i16 && t[19] == -4034i16);
    assert(corr(m, t, 20) == corr(m, t, 19) + (m[19] as int) * (t[19] as int));
    assert(corr(m, t, 20) == 1194322963);
    assert(m[20] == -467i16 && t[20] == -3849i16);
    assert(corr(m, t, 21) == corr(m, t, 20) + (m[20] as int) * (t[20] as int));
    assert(corr(m, t, 21) == 1196120446);
    assert(m[21] == 9658i16 && t[21] == -3547i16);
    assert(corr(m, t, 22) == corr(m, t, 21) + (m[21] as int) * (t[21] as int));
    assert(corr(m, t, 22) == 1161863520);
    assert(m[22] == 18842i16 && t[22] == -3138i16);
    assert(corr(m, t, 23) == corr(m, t, 22) + (m[22] as int) * (t[22] as int));
    assert(corr(m, t, 23) == 1102737324);
    assert(m[23] == 26190i16 && t[23] == -2633i16);
    assert(corr(m, t, 24) == corr(m, t, 23) + (m[23] as int) * (t[23] as int));
    assert(corr(m, t, 24) == 1033779054);
    assert(m[24] == 30986i16 && t[24] == -2048i16);
    assert(corr(m, t, 25) == corr(m, t, 24) + (m[24] as int) * (t[24] as int));
    assert(corr(m, t, 25) == 970319726);
    assert(m[25] == 32762i16 && t[25] == -1401i16);
    assert(corr(m, t, 26) == corr(m, t, 25) + (m[25] as int) * (t[25] as int));
    assert(corr(m, t, 26) == 924420164);
    assert(m[26] == 31345i16 && t[26] == -711i16);
    assert(corr(m, t, 27) == corr(m, t, 26) + (m[26] as int) * (t[26] as int));
    assert(corr(m, t, 27) == 902133869);
    assert(m[27] == 26875i16 && t[27] == 0i16);
    assert(corr(m, t, 28) == corr(m, t, 27) + (m[27] as int) * (t[27] as int));
    assert(corr(m, t, 28) == 902133869);
    assert(m[28] == 19785i16 && t[28] == 711i16);
    assert(corr(m, t, 29) == corr(m, t, 28) + (m[28] as int) * (t[28] as int));
    assert(corr(m, t, 29) == 916201004);
    assert(m[29] == 10767i16 && t[29] == 1401i16);
    assert(corr(m, t, 30) == corr(m, t, 29) + (m[29] as int) * (t[29] as int));
    assert(corr(m, t, 30) == 931285571);
    assert(m[30] == 700i16 && t[30] == 2048i16);
    assert(corr(m, t, 31) == corr(m, t, 30) + (m[30] as int) * (t[30] as int));
    assert(corr(m, t, 31) == 932719171);
    assert(m[31] == -9435i16 && t[31] == 2633i16);
    assert(corr(m, t, 32) == corr(m, t, 31) + (m[31] as int) * (t[31] as int));
    assert(corr(m, t, 32) == 907876816);
    assert(m[32] == -18651i16 && t[32] == 3138i16);
    assert(corr(m, t, 33) == corr(m, t, 32) + (m[32] as int) * (t[32] as int));
    assert(corr(m, t, 33) == 849349978);
    assert(m[33] == -26049i16 && t[33] == 3547i16);
    assert(corr(m, t, 34) == corr(m, t, 33) + (m[33] as int) * (t[33] as int));
    assert(corr(m, t, 34) == 756954175);
    assert(m[34] == -30909i16 && t[34] == 3849i16);
    assert(corr(m, t, 35) == corr(m, t, 34) + (m[34] as int) * (t[34] as int));
    assert(corr(m, t, 35) == 637985434);
    assert(m[35] == -32757i16 && t[35] == 4034i16);
    assert(corr(m, t, 36) == corr(m, t, 35) + (m[35] as int) * (t[35] as int));
    assert(corr(m, t, 36) == 505843696);
}

/// The exact correlation of the space tone with the sin bin1 twiddles.
#[verifier::spinoff_prover]
proof fn lemma_corr_space_s1()
    ensures
        corr(space_tone(), sin_bin1(), 36) == -333176199,
{
    let m = space_tone();
    let t = sin_bin1();
    assert(corr(m, t, 0) == 0);
    assert(m[0] == 0i16 && t[0] == 0i16);
    assert(corr(m, t, 1) == corr(m, t, 0) + (m[0] as int) * (t[0] as int));
    assert(corr(m, t, 1) == 0);
    assert(m[1] == 10103i16 && t[1] == 711i16);
    assert(corr(m, t, 2) == corr(m, t, 1) + (m[1] as int) * (t[1] as int));
    assert(corr(m, t, 2) == 7183233);
    assert(m[2] == 19222i16 && t[2] == 1401i16);
    assert(corr(m, t, 3) == corr(m, t, 2) + (m[2] as int) * (t[2] as int));
    assert(corr(m, t, 3) == 34113255);
    assert(m[3] == 26468i16 && t[3] == 2048i16);
    assert(corr(m, t, 4) == corr(m, t, 3) + (m[3] as int) * (t[3] as int));
    assert(corr(m, t, 4) == 88319719);
    assert(m[4] == 31134i16 && t[4] == 2633i16);
    assert(corr(m, t, 5) == corr(m, t, 4) + (m[4] as int) * (t[4] as int));
    assert(corr(m, t, 5) == 170295541);
    assert(m[5] == 32767i16 && t[5] == 3138i16);
    assert(corr(m, t, 6) == corr(m, t, 5) + (m[5] as int) * (t[5] as int));
    assert(corr(m, t, 6) == 273118387);
    assert(m[6] == 31206i16 && t[6] == 3547i16);
    assert(corr(m, t, 7) == corr(m, t, 6) + (m[6] as int) * (t[6] as int));
    assert(corr(m, t, 7) == 383806069);
    assert(m[7] == 26605i16 && t[7] == 3849i16);
    assert(corr(m, t, 8) == corr(m, t, 7) + (m[7] as int) * (t[7] as int));
    assert(corr(m, t, 8) == 486208714);
    assert(m[8] == 19411i16 && t[8] == 4034i16);
    assert(corr(m, t, 9) == corr(m, t, 8) + (m[8] as int) * (t[8] as int));
    assert(corr(m, t, 9) == 564512688);
    assert(m[9] == 10325i16 && t[9] == 4096i16);
    assert(corr(m, t, 10) == corr(m, t, 9) + (m[9] as int) * (t[9] as int));
    assert(corr(m, t, 10) == 606803888);
    assert(m[10] == 233i16 && t[10] == 4034i16);
    assert(corr(m, t, 11) == corr(m, t, 10) + (m[10] as int) * (t[10] as int));
    assert(corr(m, t, 11) == 607743810);
    assert(m[11] == -9881i16 && t[11] == 3849i16);
    assert(corr(m, t, 12) == corr(m, t, 11) + (m[11] as int) * (t[11] as int));
    assert(corr(m, t, 12) == 569711841);
    assert(m[12] == -19033i16 && t[12] == 3547i16);
    assert(corr(m, t, 13) == corr(m, t, 12) + (m[12] as int) * (t[12] as int));
    assert(corr(m, t, 13) == 502201790);
    assert(m[13] == -26330i16 && t[13] == 3138i16);
    assert(corr(m, t, 14) == corr(m, t, 13) + (m[13] as int) * (t[13] as int));
    assert(corr(m, t, 14) == 419578250);
    assert(m[14] == -31061i16 && t[14] == 2633i16);
    assert(corr(m, t, 15) == corr(m, t, 14) + (m[14] as int) * (t[14] as int));
    assert(corr(m, t, 15) == 337794637);
    assert(m[15] == -32765i16 && t[15] == 2048i16);
    assert(corr(m, t, 16) == corr(m, t, 15) + (m[15] as int) * (t[15] as int));
    assert(corr(m, t, 16) == 270691917);
    assert(m[16] == -31277i16 && t[16] == 1401i16);
    assert(corr(m, t, 17) == corr(m, t, 16) + (m[16] as int) * (t[16] as int));
    assert(corr(m, t, 17) == 226872840);
    assert(m[17] == -26740i16 && t[17] == 711i16);
    assert(corr(m, t, 18) == corr(m, t, 17) + (m[17] as int) * (t[17] as int));
    assert(corr(m, t, 18) == 207860700);
    assert(m[18] == -19598i16 && t[18] == 0i16);
    assert(corr(m, t, 19) == corr(m, t, 18) + (m[18] as int) * (t[18] as int));
    assert(corr(m, t, 19) == 207860700);
    assert(m[19] == -10546i16 && t[19] == -711i16);
    assert(corr(m, t, 20) == corr(m, t, 19) + (m[19] as int) * (t[19] as int));
    assert(corr(m, t, 20) == 215358906);
    assert(m[20] == -467i16 && t[20] == -1401i16);
    assert(corr(m, t, 21) == corr(m, t, 20) + (m[20] as int) * (t[20] as int));
    assert(corr(m, t, 21) == 216013173);
    assert(m[21] == 9658i16 && t[21] == -2048i16);
    assert(corr(m, t, 22) == corr(m, t, 21) + (m[21] as int) * (t[21] as int));
    assert(corr(m, t, 22) == 196233589);
    assert(m[22] == 18842i16 && t[22] == -2633i16);
    assert(corr(m, t, 23) == corr(m, t, 22) + (m[22] as int) * (t[22] as int));
    assert(corr(m, t, 23) == 146622603);
    assert(m[23] == 26190i16 && t[23] == -3138i16);
    assert(corr(m, t, 24) == corr(m, t, 23) + (m[23] as int) * (t[23] as int));
    assert(corr(m, t, 24) == 64438383);
    assert(m[24] == 30986i16 && t[24] == -3547i16);
    assert(corr(m, t, 25) == corr(m, t, 24) + (m[24] as int) * (t[24] as int));
    assert(corr(m, t, 25) == -45468959);
    assert(m[25] == 32762i16 && t[25] == -3849i16);
    assert(corr(m, t, 26) == corr(m, t, 25) + (m[25] as int) * (t[25] as int));
    assert(corr(m, t, 26) == -171569897);
    assert(m[26] == 31345i16 && t[26] == -4034i16);
    assert(corr(m, t, 27) == corr(m, t, 26) + (m[26] as int) * (t[26] as int));
    assert(corr(m, t, 27) == -298015627);
    assert(m[27] == 26875i16 && t[27] == -4096i16);
    assert(corr(m, t, 28) == corr(m, t, 27) + (m[27] as int) * (t[27] as int));
    assert(corr(m, t, 28) == -408095627);
    assert(m[28] == 19785i16 && t[28] == -4034i16);
    assert(corr(m, t, 29) == corr(m, t, 28) + (m[28] as int) * (t[28] as int));
    assert(corr(m, t, 29) == -487908317);
    assert(m[29] == 10767i16 && t[29] == -3849i16);
    assert(corr(m, t, 30) == corr(m, t, 29) + (m[29] as int) * (t[29] as int));
    assert(corr(m, t, 30) == -529350500);
    assert(m[30] == 700i16 && t[30] == -3547i16);
    assert(corr(m, t, 31) == corr(m, t, 30) + (m[30] as int) * (t[30] as int));
    assert(corr(m, t, 31) == -531833400);
    assert(m[31] == -9435i16 && t[31] == -3138i16);
    assert(corr(m, t, 32) == corr(m, t, 31) + (m[31] as int) * (t[31] as int));
    assert(corr(m, t, 32) == -502226370);
    assert(m[32] == -18651i16 && t[32] == -2633i16);
    assert(corr(m, t, 33) == corr(m, t, 32) + (m[32] as int) * (t[32] as int));
    assert(corr(m, t, 33) == -453118287);
    assert(m[33] == -26049i16 && t[33] == -2048i16);
    assert(corr(m, t, 34) == corr(m, t, 33) + (m[33] as int) * (t[33] as int));
    assert(corr(m, t, 34) == -399769935);
    assert(m[34] == -30909i16 && t[34] == -1401i16);
    assert(corr(m, t, 35) == corr(m, t, 34) + (m[34] as int) * (t[34] as int));
    assert(corr(m, t, 35) == -356466426);
    assert(m[35] == -32757i16 && t[35] == -711i16);
    assert(corr(m, t, 36) == corr(m, t, 35) + (m[35] as int) * (t[35] as int));
    assert(corr(m, t, 36) == -333176199);
}

/// The exact correlation of the space tone with the cos bin2 twiddles.
#[verifier::spinoff_prover]
proof fn lemma_corr_space_c2()
    ensures
        corr(space_tone(), cos_bin2(), 36) == -1213713250,
{
    let m = space_tone();
    let t = cos_bin2();
    assert(corr(m, t, 0) == 0);
    assert(m[0] == 0i16 && t[0] == 4096i16);
    assert(corr(m, t, 1) == corr(m, t, 0) + (m[0] as int) * (t[0] as int));
    assert(corr(m, t, 1) == 0);
    assert(m[1] == 10103i16 && t[1] == 3849i16);
    assert(corr(m, t, 2) == corr(m, t, 1) + (m[1] as int) * (t[1] as int));
    assert(corr(m, t, 2) == 38886447);
    assert(m[2] == 19222i16 && t[2] == 3138i16);
    assert(corr(m, t, 3) == corr(m, t, 2) + (m[2] as int) * (t[2] as int));
    assert(corr(m, t, 3) == 99205083);
    assert(m[3] == 26468i16 && t[3] == 2048i16);
    assert(corr(m, t, 4) == corr(m, t, 3) + (m[3] as int) * (t[3] as int));
    assert(corr(m, t, 4) == 153411547);
    assert(m[4] == 31134i16 && t[4] == 711i16);
    assert(corr(m, t, 5) == corr(m, t, 4) + (m[4] as int) * (t[4] as int));
    assert(corr(m, t, 5) == 175547821);
    assert(m[5] == 32767i16 && t[5] == -711i16);
    assert(corr(m, t, 6) == corr(m, t, 5) + (m[5] as int) * (t[5] as int));
    assert(corr(m, t, 6) == 152250484);
    assert(m[6] == 31206i16 && t[6] == -2048i16);
    assert(corr(m, t, 7) == corr(m, t, 6) + (m[6] as int) * (t[6] as int));
    assert(corr(m, t, 7) == 88340596);
    assert(m[7] == 26605i16 && t[7] == -3138i16);
    assert(corr(m, t, 8) == corr(m, t, 7) + (m[7] as int) * (t[7] as int));
    assert(corr(m, t, 8) == 4854106);
    assert(m[8] == 19411i16 && t[8] == -3849i16);
    assert(corr(m, t, 9) == corr(m, t, 8) + (m[8] as int) * (t[8] as int));
    assert(corr(m, t, 9) == -69858833);
    assert(m[9] == 10325i16 && t[9] == -4096i16);
    assert(corr(m, t, 10) == corr(m, t, 9) + (m[9] as int) * (t[9] as int));
    assert(corr(m, t, 10) == -112150033);
    assert(m[10] == 233i16 && t[10] == -3849i16);
    assert(corr(m, t, 11) == corr(m, t, 10) + (m[10] as int) * (t[10] as int));
    assert(corr(m, t, 11) == -113046850);
    assert(m[11] == -9881i16 && t[11] == -3138i16);
    assert(corr(m, t, 12) == corr(m, t, 11) + (m[11] as int) * (t[11] as int));
    assert(corr(m, t, 12) == -82040272);
    assert(m[12] == -19033i16 && t[12] == -2048i16);
    assert(corr(m, t, 13) == corr(m, t, 12) + (m[12] as int) * (t[12] as int));
    assert(corr(m, t, 13) == -43060688);
    assert(m[13] == -26330i16 && t[13] == -711i16);
    assert(corr(m, t, 14) == corr(m, t, 13) + (m[13] as int) * (t[13] as int));
    assert(corr(m, t, 14) == -24340058);
    assert(m[14] == -31061i16 && t[14] == 711i16);
    assert(corr(m, t, 15) == corr(m, t, 14) + (m[14] as int) * (t[14] as int));
    assert(corr(m, t, 15) == -46424429);
    assert(m[15] == -32765i16 && t[15] == 2048i16);
    assert(corr(m, t, 16) == corr(m, t, 15) + (m[15] as int) * (t[15] as int));
    assert(corr(m, t, 16) == -113527149);
    assert(m[16] == -31277i16 && t[16] == 3138i16);
    assert(corr(m, t, 17) == corr(m, t, 16) + (m[16] as int) * (t[16] as int));
    assert(corr(m, t, 17) == -211674375);
    assert(m[17] == -26740i16 && t[17] == 3849i16);
    assert(corr(m, t, 18) == corr(m, t, 17) + (m[17] as int) * (t[17] as int));
    assert(corr(m, t, 18) == -314596635);
    assert(m[18] == -19598i16 && t[18] == 4096i16);
    assert(corr(m, t, 19) == corr(m, t, 18) + (m[18] as int) * (t[18] as int));
    assert(corr(m, t, 19) == -394870043);
    assert(m[19] == -10546i16 && t[19] == 3849i16);
    assert(corr(m, t, 20) == corr(m, t, 19) + (m[19] as int) * (t[19] as int));
    assert(corr(m, t, 20) == -435461597);
    assert(m[20] == -467i16 && t[20] == 3138i16);
    assert(corr(m, t, 21) == corr(m, t, 20) + (m[20] as int) * (t[20] as int));
    assert(corr(m, t, 21) == -436927043);
    assert(m[21] == 9658i16 && t[21] == 2048i16);
    assert(corr(m, t, 22) == corr(m, t, 21) + (m[21] as int) * (t[21] as int));
    assert(corr(m, t, 22) == -417147459);
    assert(m[22] == 18842i16 && t[22] == 711i16);
    assert(corr(m, t, 23) == corr(m, t, 22) + (m[22] as int) * (t[22] as int));
    assert(corr(m, t, 23) == -403750797);
    assert(m[23] == 26190i16 && t[23] == -711i16);
    assert(corr(m, t, 24) == corr(m, t, 23) + (m[23] as int) * (t[23] as int));
    assert(corr(m, t, 24) == -422371887);
    assert(m[24] == 30986i16 && t[24] == -2048i16);
    assert(corr(m, t, 25) == corr(m, t, 24) + (m[24] as int) * (t[24] as int));
    assert(corr(m, t, 25) == -485831215);
    assert(m[25] == 32762i16 && t[25] == -3138i16);
    assert(corr(m, t, 26) == corr(m, t, 25) + (m[25] as int) * (t[25] as int));
    assert(corr(m, t, 26) == -588638371);
    assert(m[26] == 31345i16 && t[26] == -3849i16);
    assert(corr(m, t, 27) == corr(m, t, 26) + (m[26] as int) * (t[26] as int));
    assert(corr(m, t, 27) == -709285276);
    assert(m[27] == 26875i16 && t[27] == -4096i16);
    assert(corr(m, t, 28) == corr(m, t, 27) + (m[27] as int) * (t[27] as int));
    assert(corr(m, t, 28) == -819365276);
    assert(m[28] == 19785i16 && t[28] == -3849i16);
    assert(corr(m, t, 29) == corr(m, t, 28) + (m[28] as int) * (t[28] as int));
    assert(corr(m, t, 29) == -895517741);
    assert(m[29] == 10767i16 && t[29] == -3138i16);
    assert(corr(m, t, 30) == corr(m, t, 29) + (m[29] as int) * (t[29] as int));
    assert(corr(m, t, 30) == -929304587);
    assert(m[30] == 700i16 && t[30] == -2048i16);
    assert(corr(m, t, 31) == corr(m, t, 30) + (m[30] as int) * (t[30] as int));
    assert(corr(m, t, 31) == -930738187);
    assert(m[31] == -9435i16 && t[31] == -711i16);
    assert(corr(m, t, 32) == corr(m, t, 31) + (m[31] as int) * (t[31] as int));
    assert(corr(m, t, 32) == -924029902);
    assert(m[32] == -18651i16 && t[32] == 711i16);
    assert(corr(m, t, 33) == corr(m, t, 32) + (m[32] as int) * (t[32] as int));
    assert(corr(m, t, 33) == -937290763);
    assert(m[33] == -26049i16 && t[33] == 2048i16);
    assert(corr(m, t, 34) == corr(m, t, 33) + (m[33] as int) * (t[33] as int));
    assert(corr(m, t, 34) == -990639115);
    assert(m[34] == -30909i16 && t[34] == 3138i16);
    assert(corr(m, t, 35) == corr(m, t, 34) + (m[34] as int) * (t[34] as int));
    assert(corr(m, t, 35) == -1087631557);
    assert(m[35] == -32757i16 && t[35] == 3849i16);
    assert(corr(m, t, 36) == corr(m, t, 35) + (m[35] as int) * (t[35] as int));
    assert(corr(m, t, 36) == -1213713250);
}

/// The exact correlation of the space tone with the sin bin2 twiddles.
#[verifier::spinoff_prover]
proof fn lemma_corr_space_s2()
    ensures
        corr(space_tone(), sin_bin2(), 36) == 1899521013,
{
    let m = space_tone();
    let t = sin_bin2();
    assert(corr(m, t, 0) == 0);
    assert(m[0] == 0i16 && t[0] == 0i16);
    assert(corr(m, t, 1) == corr(m, t, 0) + (m[0] as int) * (t[0] as int));
    assert(corr(m, t, 1) == 0);
    assert(m[1] == 10103i16 && t[1] == 1401i16);
    assert(corr(m, t, 2) == corr(m, t, 1) + (m[1] as int) * (t[1] as int));
    assert(corr(m, t, 2) == 14154303);
    assert(m[2] == 19222i16 && t[2] == 2633i16);
    assert(corr(m, t, 3) == corr(m, t, 2) + (m[2] as int) * (t[2] as int));
    assert(corr(m, t, 3) == 64765829);
    assert(m[3] == 26468i16 && t[3] == 3547i16);
    assert(corr(m, t, 4) == corr(m, t, 3) + (m[3] as int) * (t[3] as int));
    assert(corr(m, t, 4) == 158647825);
    assert(m[4] == 31134i16 && t[4] == 4034i16);
    assert(corr(m, t, 5) == corr(m, t, 4) + (m[4] as int) * (t[4] as int));
    assert(corr(m, t, 5) == 284242381);
    assert(m[5] == 32767i16 && t[5] == 4034i16);
    assert(corr(m, t, 6) == corr(m, t, 5) + (m[5] as int) * (t[5] as int));
    assert(corr(m, t, 6) == 416424459);
    assert(m[6] == 31206i16 && t[6] == 3547i16);
    assert(corr(m, t, 7) == corr(m, t, 6) + (m[6] as int) * (t[6] as int));
    assert(corr(m, t, 7) == 527112141);
    assert(m[7] == 26605i16 && t[7] == 2633i16);
    assert(corr(m, t, 8) == corr(m, t, 7) + (m[7] as int) * (t[7] as int));
    assert(corr(m, t, 8) == 597163106);
    assert(m[8] == 19411i16 && t[8] == 1401i16);
    assert(corr(m, t, 9) == corr(m, t, 8) + (m[8] as int) * (t[8] as int));
    assert(corr(m, t, 9) == 624357917);
    assert(m[9] == 10325i16 && t[9] == 0i16);
    assert(corr(m, t, 10) == corr(m, t, 9) + (m[9] as int) * (t[9] as int));
    assert(corr(m, t, 10) == 624357917);
    assert(m[10] == 233i16 && t[10] == -1401i16);
    assert(corr(m, t, 11) == corr(m, t, 10) + (m[10] as int) * (t[10] as int));
    assert(corr(m, t, 11) == 624031484);
    assert(m[11] == -9881i16 && t[11] == -2633i16);
    assert(corr(m, t, 12) == corr(m, t, 11) + (m[11] as int) * (t[11] as int));
    assert(corr(m, t, 12) == 650048157);
    assert(m[12] == -19033i16 && t[12] == -3547i16);
    assert(corr(m, t, 13) == corr(m, t, 12) + (m[12] as int) * (t[12] as int));
    assert(corr(m, t, 13) == 717558208);
    assert(m[13] == -26330i16 && t[13] == -4034i16);
    assert(corr(m, t, 14) == corr(m, t, 13) + (m[13] as int) * (t[13] as int));
    assert(corr(m, t, 14) == 823773428);
    assert(m[14] == -31061i16 && t[14] == -4034i16);
    assert(corr(m, t, 15) == corr(m, t, 14) + (m[14] as int) * (t[14] as int));
    assert(corr(m, t, 15) == 949073502);
    assert(m[15] == -32765i16 && t[15] == -3547i16);
    assert(corr(m, t, 16) == corr(m, t, 15) + (m[15] as int) * (t[15] as int));
    assert(corr(m, t, 16) == 1065290957);
    assert(m[16] == -31277i16 && t[16] == -2633i16);
    assert(corr(m, t, 17) == corr(m, t, 16) + (m[16] as int) * (t[16] as int));
    assert(corr(m, t, 17) == 1147643298);
    assert(m[17] == -26740i16 && t[17] == -1401i16);
    assert(corr(m, t, 18) == corr(m, t, 17) + (m[17] as int) * (t[17] as int));
    assert(corr(m, t, 18) == 1185106038);
    assert(m[18] == -19598i16 && t[18] == 0i16);
    assert(corr(m, t, 19) == corr(m, t, 18) + (m[18] as int) * (t[18] as int));
    assert(corr(m, t, 19) == 1185106038);
    assert(m[19] == -10546i16 && t[19] == 1401i16);
    assert(corr(m, t, 20) == corr(m, t, 19) + (m[19] as int) * (t[19] as int));
    assert(corr(m, t, 20) == 1170331092);
    assert(m[20] == -467i16 && t[20] == 2633i16);
    assert(corr(m, t, 21) == corr(m, t, 20) + (m[20] as int) * (t[20] as int));
    assert(corr(m, t, 21) == 1169101481);
    assert(m[21] == 9658i16 && t[21] == 3547i16);
    assert(corr(m, t, 22) == corr(m, t, 21) + (m[21] as int) * (t[21] as int));
    assert(corr(m, t, 22) == 1203358407);
    assert(m[22] == 18842i16 && t[22] == 4034i16);
    assert(corr(m, t, 23) == corr(m, t, 22) + (m[22] as int) * (t[22] as int));
    assert(corr(m, t, 23) == 1279367035);
    assert(m[23] == 26190i16 && t[23] == 4034i16);
    assert(corr(m, t, 24) == corr(m, t, 23) + (m[23] as int) * (t[23] as int));
    assert(corr(m, t, 24) == 1385017495);
    assert(m[24] == 30986i16 && t[24] == 3547i16);
    assert(corr(m, t, 25) == corr(m, t, 24) + (m[24] as int) * (t[24] as int));
    assert(corr(m, t, 25) == 1494924837);
    assert(m[25] == 32762i16 && t[25] == 2633i16);
    assert(corr(m, t, 26) == corr(m, t, 25) + (m[25] as int) * (t[25] as int));
    assert(corr(m, t, 26) == 1581187183);
    assert(m[26] == 31345i16 && t[26] == 1401i16);
    assert(corr(m, t, 27) == corr(m, t, 26) + (m[26] as int) * (t[26] as int));
    assert(corr(m, t, 27) == 1625101528);
    assert(m[27] == 26875i16 && t[27] == 0i16);
    assert(corr(m, t, 28) == corr(m, t, 27) + (m[27] as int) * (t[27] as int));
    assert(corr(m, t, 28) == 1625101528);
    assert(m[28] == 19785i16 && t[28] == -1401i16);
    assert(corr(m, t, 29) == corr(m, t, 28) + (m[28] as int) * (t[28] as int));
    assert(corr(m, t, 29) == 1597382743);
    assert(m[29] == 10767i16 && t[29] == -2633i16);
    assert(corr(m, t, 30) == corr(m, t, 29) + (m[29] as int) * (t[29] as int));
    assert(corr(m, t, 30) == 1569033232);
    assert(m[30] == 700i16 && t[30] == -3547i16);
    assert(corr(m, t, 31) == corr(m, t, 30) + (m[30] as int) * (t[30] as int));
    assert(corr(m, t, 31) == 1566550332);
    assert(m[31] == -9435i16 && t[31] == -4034i16);
    assert(corr(m, t, 32) == corr(m, t, 31) + (m[31] as int) * (t[31] as int));
    assert(corr(m, t, 32) == 1604611122);
    assert(m[32] == -18651i16 && t[32] == -4034i16);
    assert(corr(m, t, 33) == corr(m, t, 32) + (m[32] as int) * (t[32] as int));
    assert(corr(m, t, 33) == 1679849256);
    assert(m[33] == -26049i16 && t[33] == -3547i16);
    assert(corr(m, t, 34) == corr(m, t, 33) + (m[33] as int) * (t[33] as int));
    assert(corr(m, t, 34) == 1772245059);
    assert(m[34] == -30909i16 && t[34] == -2633i16);
    assert(corr(m, t, 35) == corr(m, t, 34) + (m[34] as int) * (t[34] as int));
    assert(corr(m, t, 35) == 1853628456);
    assert(m[35] == -32757i16 && t[35] == -1401i16);
    assert(corr(m, t, 36) == corr(m, t, 35) + (m[35] as int) * (t[35] as int));
    assert(corr(m, t, 36) == 1899521013);
}

/// The demodulator recognises the two symbol waveforms: a MARK symbol
/// decides as bit 1 and a SPACE symbol as bit 0.
pub proof fn lemma_tone_decisions()
    ensures
        is_mark_window(mark_tone()),
        !is_mark_window(space_tone()),
{
    lemma_corr_mark_c1();
    lemma_corr_mark_s1();
    lemma_corr_mark_c2();
    lemma_corr_mark_s2();
    lemma_corr_space_c1();
    lemma_corr_space_s1();
    lemma_corr_space_c2();
    lemma_corr_space_s2();
    assert(-144518774int * -144518774int + 2433854049int * 2433854049int == 5944531207872157477int) by (nonlinear_arith);
    assert(6533046int * 6533046int + 64177584int * 64177584int == 4161442978115172int) by (nonlinear_arith);
    assert(505843696int * 505843696int + -333176199int * -333176199int == 366884224363028017int) by (nonlinear_arith);
    assert(-1213713250int * -1213713250int + 1899521013int * 1899521013int == 5081279932054108669int) by (nonlinear_arith);
    assert(bin_energy(mark_tone(), cos_bin1(), sin_bin1()) == 5944531207872157477);
    assert(bin_energy(mark_tone(), cos_bin2(), sin_bin2()) == 4161442978115172);
    assert(bin_energy(space_tone(), cos_bin1(), sin_bin1()) == 366884224363028017);
    assert(bin_energy(space_tone(), cos_bin2(), sin_bin2()) == 5081279932054108669);
}

/// Demodulating a modulated bit stream returns it exactly.
pub proof fn lemma_demod_modulate(bits: Seq<bool>)
    ensures
        spec_demod(spec_modulate(bits)) == bits,
{
    lemma_modulate_len(bits);
    let s = spec_modulate(bits);
    assert((36 * bits.len()) as int / 36 == bits.len()) by (nonlinear_arith);
    assert forall|k: int| 0 <= k < bits.len() implies spec_demod(s)[k] == bits[k] by {
        lemma_modulate_window(bits, k);
        lemma_tone_decisions();
    }
    assert(spec_demod(s) =~= bits);
}

/// Packing the bits of a byte gives back the byte.
proof fn lemma_pack_byte_roundtrip(x: u8)
    ensures
        pack_val(bits_of_byte(x)) == x,
{
    let s = bits_of_byte(x);
    assert(((x >> 0u8) & 1) == 0 || ((x >> 0u8) & 1) == 1) by (bit_vector);
    assert(((x >> 1u8) & 1) == 0 || ((x >> 1u8) & 1) == 1) by (bit_vector);
    assert(((x >> 2u8) & 1) == 0 || ((x >> 2u8) & 1) == 1) by (bit_vector);
    assert(((x >> 3u8) & 1) == 0 || ((x >> 3u8) & 1) == 1) by (bit_vector);
    assert(((x >> 4u8) & 1) == 0 || ((x >> 4u8) & 1) == 1) by (bit_vector);
    assert(((x >> 5u8) & 1) == 0 || ((x >> 5u8) & 1) == 1) by (bit_vector);
    assert(((x >> 6u8) & 1) == 0 || ((x >> 6u8) & 1) == 1) by (bit_vector);
    assert(((x >> 7u8) & 1) == 0 || ((x >> 7u8) & 1) == 1) by (bit_vector);
    assert(((x >> 7u8) & 1) * 128 + ((x >> 6u8) & 1) * 64 + ((x >> 5u8) & 1) * 32 + ((x >> 4u8) & 1) * 16 + ((x >> 3u8) & 1) * 8 + ((x >> 2u8) & 1) * 4 + ((x >> 1u8) & 1) * 2 + ((x >> 0u8) & 1) == x) by (bit_vector);
    assert(pack_val(s.take(0)) == 0);
    assert(s.take(1).drop_last() =~= s.take(0));
    assert(s.take(1).last() == s[0]);
    assert(s[0] == (((x >> ((7int) as u8)) & 1) == 1));
    assert(((7int) as u8) == 7u8);
    assert((if s[0] { 1int } else { 0int }) == (((x >> 7u8) & 1) as int));
    assert(pack_val(s.take(1)) == 2 * pack_val(s.take(0)) + (if s[0] { 1int } else { 0int }));
    assert(s.take(2).drop_last() =~= s.take(1));
    assert(s.take(2).last() == s[1]);
    assert(s[1] == (((x >> ((6int) as u8)) & 1) == 1));
    assert(((6int) as u8) == 6u8);
    assert((if s[1] { 1int } else { 0int }) == (((x >> 6u8) & 1) as int));
    assert(pack_val(s.take(2)) == 2 * pack_val(s.take(1)) + (if s[1] { 1int } else { 0int }));
    assert(s.take(3).drop_last() =~= s.take(2));
    assert(s.take(3).last() == s[2]);
    assert(s[2] == (((x >> ((5int) as u8)) & 1) == 1));
    assert(((5int) as u8) == 5u8);
    assert((if s[2] { 1int } else { 0int }) == (((x >> 5u8) & 1) as int));
    assert(pack_val(s.take(3)) == 2 * pack_val(s.take(2)) + (if s[2] { 1int } else { 0int }));
    assert(s.take(4).drop_last() =~= s.take(3));
    assert(s.take(4).last() == s[3]);
    assert(s[3] == (((x >> ((4int) as u8)) & 1) == 1));
    assert(((4int) as u8) == 4u8);
    assert((if s[3] { 1int } else { 0int }) == (((x >> 4u8) & 1) as int));
    assert(pack_val(s.take(4)) == 2 * pack_val(s.take(3)) + (if s[3] { 1int } else { 0int }));
    assert(s.take(5).drop_last() =~= s.take(4));
    assert(s.take(5).last() == s[4]);
    assert(s[4] == (((x >> ((3int) as u8)) & 1) == 1));
    assert(((3int) as u8) == 3u8);
    assert((if s[4] { 1int } else { 0int }) == (((x >> 3u8) & 1) as int));
    assert(pack_val(s.take(5)) == 2 * pack_val(s.take(4)) + (if s[4] { 1int } else { 0int }));
    assert(s.take(6).drop_last() =~= s.take(5));
    assert(s.take(6).last() == s[5]);
    assert(s[5] == (((x >> ((2int) as u8)) & 1) == 1));
    assert(((2int) as u8) == 2u8);
    assert((if s[5] { 1int } else { 0int }) == (((x >> 2u8) & 1) as int));
    assert(pack_val(s.take(6)) == 2 * pack_val(s.take(5)) + (if s[5] { 1int } else { 0int }));
    assert(s.take(7).drop_last() =~= s.take(6));
    assert(s.take(7).last() == s[6]);
    assert(s[6] == (((x >> ((1int) as u8)) & 1) == 1));
    assert(((1int) as u8) == 1u8);
    assert((if s[6] { 1int } else { 0int }) == (((x >> 1u8) & 1) as int));
    assert(pack_val(s.take(7)) == 2 * pack_val(s.take(6)) + (if s[6] { 1int } else { 0int }));
    assert(s.take(8).drop_last() =~= s.take(7));
    assert(s.take(8).last() == s[7]);
    assert(s[7] == (((x >> ((0int) as u8)) & 1) == 1));
    assert(((0int) as u8) == 0u8);
    assert((if s[7] { 1int } else { 0int }) == (((x >> 0u8) & 1) as int));
    assert(pack_val(s.take(8)) == 2 * pack_val(s.take(7)) + (if s[7] { 1int } else { 0int }));
    assert(s.take(8) =~= s);
    assert(pack_val(s) == (((x >> 7u8) & 1) as int) * 128 + (((x >> 6u8) & 1) as int) * 64 + (((x >> 5u8) & 1) as int) * 32 + (((x >> 4u8) & 1) as int) * 16 + (((x >> 3u8) & 1) as int) * 8 + (((x >> 2u8) & 1) as int) * 4 + (((x >> 1u8) & 1) as int) * 2 + (((x >> 0u8) & 1) as int));
}

/// Eight bits per byte: the unpacked stream's exact length.
pub proof fn lemma_bits_of_bytes_len(bytes: Seq<u8>)
    ensures
        bits_of_bytes(bytes).len() == 8 * bytes.len(),
    decreases bytes.len(),
{
    if bytes.len() > 0 {
        lemma_bits_of_bytes_len(bytes.drop_first());
    }
}

/// Bit group `k` of an unpacked stream is exactly the bits of byte `k`.
pub proof fn lemma_bits_of_bytes_chunk(bytes: Seq<u8>, k: int)
    requires
        0 <= k < bytes.len(),
    ensures
        bits_of_bytes(bytes).subrange(8 * k, 8 * k + 8) == bits_of_byte(bytes[k]),
    decreases k,
{
    lemma_bits_of_bytes_len(bytes.drop_first());
    if k == 0 {
        assert(bits_of_bytes(bytes).subrange(0, 8) =~= bits_of_byte(bytes[0]));
    } else {
        lemma_bits_of_bytes_chunk(bytes.drop_first(), k - 1);
        assert(bits_of_bytes(bytes).subrange(8 * k, 8 * k + 8) =~= bits_of_bytes(
            bytes.drop_first(),
        ).subrange(8 * (k - 1), 8 * (k - 1) + 8));
    }
}

/// Packing an unpacked byte stream returns it exactly.
pub proof fn lemma_pack_unpack(bytes: Seq<u8>)
    ensures
        spec_pack_bits(bits_of_bytes(bytes)) == bytes,
{
    lemma_bits_of_bytes_len(bytes);
    let bits = bits_of_bytes(bytes);
    assert((8 * bytes.len() + 7) as int / 8 == bytes.len()) by (nonlinear_arith);
    assert forall|k: int| 0 <= k < bytes.len() implies spec_pack_bits(bits)[k] == bytes[k] by {
        lemma_bits_of_bytes_chunk(bytes, k);
        lemma_pack_byte_roundtrip(bytes[k]);
    }
    assert(spec_pack_bits(bits) =~= bytes);
}

/// Unpacking a concatenation concatenates the unpackings.
pub proof fn lemma_bits_of_bytes_concat(a: Seq<u8>, b: Seq<u8>)
    ensures
        bits_of_bytes(a + b) == bits_of_bytes(a) + bits_of_bytes(b),
    decreases a.len(),
{
    if a.len() == 0 {
        assert(a + b =~= b);
        assert(bits_of_bytes(a) + bits_of_bytes(b) =~= bits_of_bytes(b));
    } else {
        assert((a + b).drop_first() =~= a.drop_first() + b);
        lemma_bits_of_bytes_concat(a.drop_first(), b);
        assert(bits_of_bytes(a + b) =~= bits_of_bytes(a) + bits_of_bytes(b));
    }
}

/// Modulates a byte stream into AFSK samples: one 36-sample symbol per bit,
/// most significant bit of each byte first. The output length is exactly
/// `8 * 36` samples per input byte.
pub fn afsk_modulate(data: &[u8]) -> (r: Vec<i16>)
    ensures
        r@ == spec_modulate(bits_of_bytes(data@)),
        r@.len() == data@.len() * 8 * 36,
{
    let mark = mark_tone_vec();
    let space = space_tone_vec();
    let mut out: Vec<i16> = Vec::new();
    let n = data.len();
    let mut i: usize = 0;
    while i < n
        invariant
            0 <= i <= n,
            n == data@.len(),
            mark@ == mark_tone(),
            space@ == space_tone(),
            out@ == spec_modulate(bits_of_bytes(data@.take(i as int))),
        decreases n - i,
    {
        let x = data[i];
        let ghost done = bits_of_bytes(data@.take(i as int));
        let mut bit: usize = 0;
        while bit < 8
            invariant
                0 <= bit <= 8,
                0 <= i < n,
                n == data@.len(),
                x == data@[i as int],
                mark@ == mark_tone(),
                space@ == space_tone(),
                done == bits_of_bytes(data@.take(i as int)),
                out@ == spec_modulate(done + bits_of_byte(x).take(bit as int)),
            decreases 8 - bit,
        {
            let one = (x >> (7 - bit as u32)) & 1 == 1;
            proof {
                assert(bits_of_byte(x)[bit as int] == (((x >> ((7 - bit) as u8)) & 1) == 1));
                assert((x >> ((7 - bit) as u8)) == (x >> ((7 - bit) as u32))) by (bit_vector)
                    requires
                        bit < 8,
                ;
            }
            let tone = if one {
                &mark
            } else {
                &space
            };
            let ghost prev = out@;
            let mut t: usize = 0;
            while t < 36
                invariant
                    0 <= t <= 36,
                    tone@ == tone_of(one),
                    out@ == prev + tone@.take(t as int),
                decreases 36 - t,
            {
                out.push(tone[t]);
                proof {
                    assert(out@ =~= prev + tone@.take(t + 1));
                }
                t += 1;
            }
            proof {
                assert(out@ =~= prev + tone_of(one));
                let partial = done + bits_of_byte(x).take(bit as int);
                let partial2 = done + bits_of_byte(x).take(bit + 1);
                assert(partial2 =~= partial + seq![one]);
                lemma_modulate_concat(partial, seq![one]);
                assert(seq![one].drop_first() =~= Seq::<bool>::empty());
                assert(spec_modulate(Seq::<bool>::empty()) =~= Seq::<i16>::empty());
                assert(spec_modulate(seq![one]) =~= tone_of(one));
                assert(out@ =~= spec_modulate(partial2));
            }
            bit += 1;
        }
        proof {
            assert(bits_of_byte(x).take(8) =~= bits_of_byte(x));
            assert(data@.take(i + 1) =~= data@.take(i as int) + seq![x]);
            lemma_bits_of_bytes_concat(data@.take(i as int), seq![x]);
            assert(seq![x].drop_first() =~= Seq::<u8>::empty());
            assert(bits_of_bytes(Seq::<u8>::empty()) =~= Seq::<bool>::empty());
            assert(bits_of_bytes(seq![x]) =~= bits_of_byte(x));
            assert(bits_of_bytes(data@.take(i + 1)) =~= done + bits_of_byte(x));
        }
        i += 1;
    }
    proof {
        assert(data@.take(n as int) =~= data@);
        lemma_bits_of_bytes_len(data@);
        lemma_modulate_len(bits_of_bytes(data@));
    }
    out
}

/// Packs a bit stream into bytes, most significant bit first: eight bits
/// per byte, with a trailing short group packed into a final byte.
pub fn bits_to_bytes(bits: &[bool]) -> (r: Vec<u8>)
    ensures
        r@ == spec_pack_bits(bits@),
{
    let n = bits.len();
    let mut out: Vec<u8> = Vec::new();
    let mut start: usize = 0;
    while start < n
        invariant
            0 <= start <= n,
            n == bits@.len(),
            start % 8 == 0 || start == n,
            out@.len() == (start + 7) / 8,
            forall|j: int| 0 <= j < out@.len() ==> out@[j] == spec_pack_bits(bits@)[j],
        decreases n - start,
    {
        assert(start % 8 == 0);
        let end = if n - start >= 8 {
            start + 8
        } else {
            n
        };
        let ghost chunk = bits@.subrange(start as int, end as int);
        let mut acc: u8 = 0;
        let mut j = start;
        while j < end
            invariant
                start <= j <= end <= n,
                end - start <= 8,
                n == bits@.len(),
                chunk == bits@.subrange(start as int, end as int),
                acc == pack_val(chunk.take(j - start)),
            decreases end - j,
        {
            proof {
                lemma_pack_val_bound(chunk.take(j - start));
                assert(chunk.take(j + 1 - start).drop_last() =~= chunk.take(j - start));
                assert(chunk.take(j + 1 - start).last() == bits@[j as int]);
            }
            acc = acc * 2 + if bits[j] {
                1
            } else {
                0
            };
            j += 1;
        }
        proof {
            assert(chunk.take(end - start) =~= chunk);
            let k = out@.len() as int;
            assert(8 * k == start);
            assert(spec_pack_bits(bits@)[k] == acc);
        }
        out.push(acc);
        proof {
            assert((end + 7) as int / 8 == (start + 7) as int / 8 + 1) by (nonlinear_arith)
                requires
                    start % 8 == 0,
                    start < end <= start + 8,
                    end == n || end == start + 8,
            ;
        }
        start = end;
    }
    assert(out@ =~= spec_pack_bits(bits@));
    out
}

/// Correlation is linear in the window: scaling every sample scales the
/// correlation by the same factor.
proof fn lemma_corr_linear(w: Seq<i16>, w2: Seq<i16>, c: int, t: Seq<i16>, n: int)
    requires
        w.len() == 36,
        w2.len() == 36,
        forall|i: int| 0 <= i < 36 ==> (#[trigger] w2[i] as int) == c * (w[i] as int),
        0 <= n <= 36,
    ensures
        corr(w2, t, n) == c * corr(w, t, n),
    decreases n,
{
    if n == 0 {
    } else {
        lemma_corr_linear(w, w2, c, t, n - 1);
        let a = corr(w, t, n - 1);
        let x = w[n - 1] as int;
        let y = t[n - 1] as int;
        assert((c * x) * y == c * (x * y) && c * (a + x * y) == c * a + c * (x * y))
            by (nonlinear_arith);
    }
}

/// Amplitude does not change the demodulator's decision: a window scaled
/// sample-for-sample by any positive factor decides the same bit.
pub proof fn lemma_amplitude_invariance(w: Seq<i16>, w2: Seq<i16>, c: int)
    requires
        w.len() == 36,
        w2.len() == 36,
        c > 0,
        forall|i: int| 0 <= i < 36 ==> (#[trigger] w2[i] as int) == c * (w[i] as int),
    ensures
        is_mark_window(w2) == is_mark_window(w),
{
    lemma_corr_linear(w, w2, c, cos_bin1(), 36);
    lemma_corr_linear(w, w2, c, sin_bin1(), 36);
    lemma_corr_linear(w, w2, c, cos_bin2(), 36);
    lemma_corr_linear(w, w2, c, sin_bin2(), 36);
    let re1 = corr(w, cos_bin1(), 36);
    let im1 = corr(w, sin_bin1(), 36);
    let re2 = corr(w, cos_bin2(), 36);
    let im2 = corr(w, sin_bin2(), 36);
    assert(bin_energy(w2, cos_bin1(), sin_bin1()) == c * c * bin_energy(w, cos_bin1(), sin_bin1()))
        by (nonlinear_arith)
        requires
            corr(w2, cos_bin1(), 36) == c * re1,
            corr(w2, sin_bin1(), 36) == c * im1,
            bin_energy(w2, cos_bin1(), sin_bin1()) == corr(w2, cos_bin1(), 36) * corr(
                w2,
                cos_bin1(),
                36,
            ) + corr(w2, sin_bin1(), 36) * corr(w2, sin_bin1(), 36),
            bin_energy(w, cos_bin1(), sin_bin1()) == re1 * re1 + im1 * im1,
    ;
    assert(bin_energy(w2, cos_bin2(), sin_bin2()) == c * c * bin_energy(w, cos_bin2(), sin_bin2()))
        by (nonlinear_arith)
        requires
            corr(w2, cos_bin2(), 36) == c * re2,
            corr(w2, sin_bin2(), 36) == c * im2,
            bin_energy(w2, cos_bin2(), sin_bin2()) == corr(w2, cos_bin2(), 36) * corr(
                w2,
                cos_bin2(),
                36,
            ) + corr(w2, sin_bin2(), 36) * corr(w2, sin_bin2(), 36),
            bin_energy(w, cos_bin2(), sin_bin2()) == re2 * re2 + im2 * im2,
    ;
    let e1 = bin_energy(w, cos_bin1(), sin_bin1());
    let e2 = bin_energy(w, cos_bin2(), sin_bin2());
    assert((c * c * e1 > c * c * e2) == (e1 > e2)) by (nonlinear_arith)
        requires
            c > 0,
    ;
}

} // verus!
