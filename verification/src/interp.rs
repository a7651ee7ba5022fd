//! Mip-pyramid construction and cubic-coefficient precomputation.
//!
//! Every buffer holds Q24 amplitudes saturated to `SAMPLE_BOUND`. Each mip
//! level is built from the one before by decimating every second sample and
//! low-pass filtering the result with a fixed FIR applied as a circular
//! convolution, the buffer being treated as one periodic cycle.
use vstd::prelude::*;
use vstd::arithmetic::div_mod::{lemma_mod_multiples_vanish, lemma_div_is_ordered};
use crate::fixed::{fdiv_i64, q30};

verus! {

/// Saturation bound of every stored sample: four times Q24 full scale.
pub const SAMPLE_BOUND: i64 = 0x400_0000;

/// Bound on a freshly filtered, not yet saturated sample.
pub const FILTERED_BOUND: i64 = 0x800_0000;

/// Bound on a cubic-interpolation coefficient.
pub const COEF_BOUND: i64 = 0x800_0000;

/// Every element of `s` lies in `[-b, b]`.
pub open spec fn bounded(s: Seq<i64>, b: int) -> bool {
    forall|i: int| 0 <= i < s.len() ==> -b <= #[trigger] s[i] as int <= b
}

/// `|x|` of a signed sample.
pub open spec fn iabs(x: int) -> int {
    if x < 0 { -x } else { x }
}

/// Sum of `|h[0]| + ... + |h[k-1]|`.
pub open spec fn abs_sum(h: Seq<i64>, k: nat) -> int
    decreases k,
{
    if k == 0 {
        0
    } else {
        abs_sum(h, (k - 1) as nat) + iabs(h[k - 1] as int)
    }
}

/// The circular dot product `sum of h[m] * x[(n - m) mod |x|]` over `m < k`.
pub open spec fn conv_at(h: Seq<i64>, x: Seq<i64>, n: int, k: nat) -> int
    decreases k,
{
    if k == 0 {
        0
    } else {
        conv_at(h, x, n, (k - 1) as nat) + (h[k - 1] as int) * (x[(n - (k - 1)) % (
        x.len() as int)] as int)
    }
}

/// The fixed Q30 low-pass used when halving a mip level: a 15-tap
/// windowed-sinc half-band filter with unit gain at zero frequency.
pub open spec fn fir_taps() -> Seq<i64> {
    seq![
        -3920719i64,
        0i64,
        17372341i64,
        0i64,
        -73456586i64,
        0i64,
        327434903i64,
        538881945i64,
        327434903i64,
        0i64,
        -73456586i64,
        0i64,
        17372341i64,
        0i64,
        -3920719i64,
    ]
}

/// The filter's tap count, tap bound and absolute-sum bound.
pub proof fn lemma_fir_props()
    ensures
        fir_taps().len() == 15,
        bounded(fir_taps(), 0x2400_0000),
        abs_sum(fir_taps(), 15) == 1383251043,
{
    reveal_with_fuel(abs_sum, 16);
    assert forall|i: int| 0 <= i < fir_taps().len() implies -0x2400_0000 <= #[trigger] fir_taps()[i]
        as int <= 0x2400_0000 by {
        if i == 6 || i == 8 {
            assert(fir_taps()[i] == 327434903i64);
        }
    }
}

/// The executable copy of [`fir_taps`].
pub fn downsample_fir() -> (r: Vec<i64>)
    ensures
        r@ == fir_taps(),
{
    let r: Vec<i64> = vec![
        -3920719i64,
        0i64,
        17372341i64,
        0i64,
        -73456586i64,
        0i64,
        327434903i64,
        538881945i64,
        327434903i64,
        0i64,
        -73456586i64,
        0i64,
        17372341i64,
        0i64,
        -3920719i64,
    ];
    proof {
        assert(r@ =~= fir_taps());
    }
    r
}

/// A partial absolute sum never exceeds the full one.
proof fn lemma_abs_sum_mono(h: Seq<i64>, j: nat, k: nat)
    requires
        j <= k <= h.len(),
    ensures
        abs_sum(h, j) <= abs_sum(h, k),
    decreases k,
{
    if j < k {
        lemma_abs_sum_mono(h, j, (k - 1) as nat);
    }
}

/// A partial absolute sum of in-range taps is non-negative.
proof fn lemma_abs_sum_nonneg(h: Seq<i64>, k: nat)
    requires
        k <= h.len(),
    ensures
        abs_sum(h, k) >= 0,
    decreases k,
{
    if k > 0 {
        lemma_abs_sum_nonneg(h, (k - 1) as nat);
    }
}

/// The circular dot product of a `b`-bounded signal is bounded by the
/// filter's absolute sum times `b`.
proof fn lemma_conv_bound(h: Seq<i64>, x: Seq<i64>, n: int, k: nat, b: int)
    requires
        k <= h.len(),
        x.len() >= 1,
        b >= 0,
        bounded(x, b),
    ensures
        -abs_sum(h, k) * b <= conv_at(h, x, n, k) <= abs_sum(h, k) * b,
    decreases k,
{
    if k > 0 {
        lemma_conv_bound(h, x, n, (k - 1) as nat, b);
        let m = (k - 1) as nat;
        let hv = h[k - 1] as int;
        let xv = x[(n - m) % (x.len() as int)] as int;
        let a = iabs(hv);
        assert(-a * b <= hv * xv <= a * b) by (nonlinear_arith)
            requires
                a == hv || a == -hv,
                a >= 0,
                -b <= xv <= b,
                b >= 0,
        ;
        assert((abs_sum(h, m) + a) * b == abs_sum(h, m) * b + a * b) by (nonlinear_arith);
        assert(abs_sum(h, k) == abs_sum(h, m) + a);
        assert((-abs_sum(h, m)) * b == -(abs_sum(h, m) * b)) by (nonlinear_arith);
        assert((-a) * b == -(a * b)) by (nonlinear_arith);
        assert((-abs_sum(h, k)) * b == -(abs_sum(h, k) * b)) by (nonlinear_arith);
        assert(conv_at(h, x, n, k) == conv_at(h, x, n, m) + hv * xv);
    }
}

/// Saturate a filtered value to the sample bound.
pub open spec fn sat(x: int) -> int {
    if x > SAMPLE_BOUND as int {
        SAMPLE_BOUND as int
    } else if x < -(SAMPLE_BOUND as int) {
        -(SAMPLE_BOUND as int)
    } else {
        x
    }
}

/// Every second sample of one periodic cycle, `out_len` of them, indices
/// wrapped around the cycle.
pub open spec fn decimated(prev: Seq<i64>, out_len: nat) -> Seq<i64> {
    Seq::new(out_len, |j: int| prev[(2 * j) % (prev.len() as int)])
}

/// One sample of a halved mip level: the decimated cycle low-pass
/// filtered at `i` and saturated.
pub open spec fn downsampled_at(d: Seq<i64>, i: int) -> int {
    sat(q30(conv_at(fir_taps(), d, i + 7, 15)))
}

/// The halved mip level of length `out_len` made from the cycle `prev`.
/// An empty cycle yields silence.
pub open spec fn level_step(prev: Seq<i64>, out_len: nat) -> Seq<i64> {
    if prev.len() == 0 {
        Seq::new(out_len, |j: int| 0i64)
    } else {
        Seq::new(out_len, |i: int| downsampled_at(decimated(prev, out_len), i) as i64)
    }
}

/// Mip level `k` of a source cycle: the source itself at level zero, and
/// each further level the halved copy of the one before, its length taken
/// from the offset table.
pub open spec fn level_seq(src: Seq<i64>, k: nat) -> Seq<i64>
    decreases k,
{
    if k == 0 {
        src
    } else {
        level_step(
            level_seq(src, (k - 1) as nat),
            crate::sampler::span_spec(k as int, src.len() as int) as nat,
        )
    }
}

/// Levels `0 ..= k` of the pyramid, concatenated.
pub open spec fn mip_concat(src: Seq<i64>, k: nat) -> Seq<i64>
    decreases k,
{
    if k == 0 {
        src
    } else {
        mip_concat(src, (k - 1) as nat) + level_seq(src, k)
    }
}

/// Circular convolution of one periodic cycle `p_in` with the kernel
/// `p_coeffs`, group delay removed: the result has the cycle's length and
/// its `i`-th value is the Q30-scaled circular dot product centred on `i`.
#[verifier::rlimit(50)]
pub fn convolve_circular(p_coeffs: &Vec<i64>, p_in: &Vec<i64>) -> (r: Vec<i64>)
    requires
        1 <= p_coeffs.len() <= 63,
        1 <= p_in.len() <= 0x100_0000,
        bounded(p_coeffs@, 0x2400_0000),
        abs_sum(p_coeffs@, p_coeffs@.len()) <= 0x8000_0000,
        bounded(p_in@, SAMPLE_BOUND as int),
    ensures
        r@.len() == p_in@.len(),
        forall|i: int|
            0 <= i < r@.len() ==> #[trigger] r@[i] as int == q30(
                conv_at(p_coeffs@, p_in@, i + (p_coeffs@.len() - 1) / 2, p_coeffs@.len()),
            ),
        bounded(r@, FILTERED_BOUND as int),
{
    let klen: usize = p_coeffs.len();
    let ilen: usize = p_in.len();
    let delay: usize = (klen - 1) / 2;
    let mut r: Vec<i64> = Vec::new();
    let mut i: usize = 0;
    proof {
        lemma_abs_sum_nonneg(p_coeffs@, klen as nat);
    }
    while i < ilen
        invariant
            1 <= klen <= 63,
            1 <= ilen <= 0x100_0000,
            klen == p_coeffs@.len(),
            ilen == p_in@.len(),
            delay == (klen - 1) / 2,
            bounded(p_coeffs@, 0x2400_0000),
            0 <= abs_sum(p_coeffs@, klen as nat) <= 0x8000_0000,
            bounded(p_in@, SAMPLE_BOUND as int),
            i <= ilen,
            r@.len() == i,
            forall|j: int|
                0 <= j < i ==> #[trigger] r@[j] as int == q30(
                    conv_at(p_coeffs@, p_in@, j + (klen - 1) / 2, klen as nat),
                ),
            bounded(r@, FILTERED_BOUND as int),
        decreases ilen - i,
    {
        let n: usize = i + delay;
        let mut acc: i64 = 0;
        let mut m: usize = 0;
        while m < klen
            invariant
                1 <= klen <= 63,
                1 <= ilen <= 0x100_0000,
                klen == p_coeffs@.len(),
                ilen == p_in@.len(),
                n == i + delay,
                i < ilen,
                delay == (klen - 1) / 2,
                bounded(p_coeffs@, 0x2400_0000),
                0 <= abs_sum(p_coeffs@, klen as nat) <= 0x8000_0000,
                bounded(p_in@, SAMPLE_BOUND as int),
                m <= klen,
                acc as int == conv_at(p_coeffs@, p_in@, n as int, m as nat),
                -abs_sum(p_coeffs@, m as nat) * (SAMPLE_BOUND as int) <= acc as int <= abs_sum(
                    p_coeffs@,
                    m as nat,
                ) * (SAMPLE_BOUND as int),
            decreases klen - m,
        {
            let idx: usize = (n + 64 * ilen - m) % ilen;
            proof {
                lemma_mod_multiples_vanish(64, n as int - m as int, ilen as int);
                assert((n + 64 * ilen - m) as int == (ilen as int) * 64 + (n as int - m as int));
                let hv = p_coeffs@[m as int] as int;
                let xv = p_in@[idx as int] as int;
                assert(-iabs(hv) * (SAMPLE_BOUND as int) <= hv * xv <= iabs(hv) * (
                SAMPLE_BOUND as int)) by (nonlinear_arith)
                    requires
                        -(SAMPLE_BOUND as int) <= xv <= SAMPLE_BOUND as int,
                        -0x2400_0000 <= hv <= 0x2400_0000,
                ;
                lemma_abs_sum_mono(p_coeffs@, (m + 1) as nat, klen as nat);
                lemma_abs_sum_nonneg(p_coeffs@, m as nat);
                assert((abs_sum(p_coeffs@, m as nat) + iabs(hv)) * (SAMPLE_BOUND as int)
                    == abs_sum(p_coeffs@, m as nat) * (SAMPLE_BOUND as int) + iabs(hv) * (
                SAMPLE_BOUND as int)) by (nonlinear_arith);
                assert(abs_sum(p_coeffs@, (m + 1) as nat) * (SAMPLE_BOUND as int) <= 0x8000_0000
                    * (SAMPLE_BOUND as int)) by (nonlinear_arith)
                    requires
                        abs_sum(p_coeffs@, (m + 1) as nat) <= 0x8000_0000,
                ;
                assert((-0x8000_0000) * (SAMPLE_BOUND as int) <= -abs_sum(
                    p_coeffs@,
                    (m + 1) as nat,
                ) * (SAMPLE_BOUND as int)) by (nonlinear_arith)
                    requires
                        abs_sum(p_coeffs@, (m + 1) as nat) <= 0x8000_0000,
                ;
            }
            acc = acc + p_coeffs[m] * p_in[idx];
            m = m + 1;
        }
        proof {
            assert(0x8000_0000 * (SAMPLE_BOUND as int) == 0x200_0000_0000_0000);
            lemma_div_is_ordered(acc as int, 0x200_0000_0000_0000, 0x4000_0000);
            lemma_div_is_ordered(-0x200_0000_0000_0000, acc as int, 0x4000_0000);
        }
        let v: i64 = fdiv_i64(acc, 0x4000_0000);
        r.push(v);
        i = i + 1;
    }
    r
}

/// The concatenated pyramid up to level `k` is exactly as long as the
/// offset table says level `k + 1` would begin.
pub proof fn lemma_mip_concat_len(src: Seq<i64>, k: nat)
    requires
        k <= 9,
        src.len() <= 0x100_0000,
    ensures
        mip_concat(src, k).len() == crate::sampler::mip_offset_spec(
            k as int + 1,
            src.len() as int,
        ),
        level_seq(src, k).len() == crate::sampler::span_spec(k as int, src.len() as int),
    decreases k,
{
    crate::sampler::lemma_span_basics(k as int, src.len() as int);
    if k == 0 {
    } else {
        lemma_mip_concat_len(src, (k - 1) as nat);
    }
}

/// Inside the concatenated pyramid, the slice starting at level `n`'s
/// offset and as long as its span is exactly level `n`.
pub proof fn lemma_mip_concat_level(src: Seq<i64>, k: nat, n: nat)
    requires
        n <= k <= 9,
        src.len() <= 0x100_0000,
    ensures
        mip_concat(src, k).subrange(
            crate::sampler::mip_offset_spec(n as int, src.len() as int),
            crate::sampler::mip_offset_spec(n as int, src.len() as int)
                + crate::sampler::span_spec(n as int, src.len() as int),
        ) == level_seq(src, n),
    decreases k,
{
    let len = src.len() as int;
    lemma_mip_concat_len(src, k);
    lemma_mip_concat_len(src, n);
    crate::sampler::lemma_span_basics(n as int, len);
    let off = crate::sampler::mip_offset_spec(n as int, len);
    let sp = crate::sampler::span_spec(n as int, len);
    if n == k {
        if k == 0 {
            assert(mip_concat(src, 0).subrange(off, off + sp) =~= src);
        } else {
            lemma_mip_concat_len(src, (k - 1) as nat);
            crate::sampler::lemma_span_basics(k as int - 1, len);
            assert(mip_concat(src, k).subrange(off, off + sp) =~= level_seq(src, k));
        }
    } else {
        lemma_mip_concat_level(src, (k - 1) as nat, n);
        lemma_mip_concat_len(src, (k - 1) as nat);
        crate::sampler::lemma_offset_mono(n as int + 1, k as int, len);
        assert(mip_concat(src, k).subrange(off, off + sp) =~= mip_concat(
            src,
            (k - 1) as nat,
        ).subrange(off, off + sp));
    }
}

/// An element-for-element copy of a sample buffer.
pub fn copy_vec(v: &Vec<i64>) -> (r: Vec<i64>)
    ensures
        r@ == v@,
{
    let mut r: Vec<i64> = Vec::new();
    let mut i: usize = 0;
    while i < v.len()
        invariant
            i <= v@.len(),
            r@ == v@.subrange(0, i as int),
        decreases v@.len() - i,
    {
        r.push(v[i]);
        proof {
            assert(r@ =~= v@.subrange(0, i + 1));
        }
        i = i + 1;
    }
    proof {
        assert(r@ =~= v@);
    }
    r
}

/// Halve one periodic cycle: keep every second sample, low-pass the kept
/// ones circularly, and saturate. The result has exactly `out_len`
/// samples, wrapping around the cycle if more are asked for than half its
/// length.
#[verifier::rlimit(50)]
pub fn downsample_2x(fir: &Vec<i64>, signal: &Vec<i64>, out_len: usize) -> (r: Vec<i64>)
    requires
        fir@ == fir_taps(),
        signal@.len() <= 0x100_0000,
        out_len <= 0x100_0000,
        bounded(signal@, SAMPLE_BOUND as int),
    ensures
        r@ == level_step(signal@, out_len as nat),
        r@.len() == out_len,
        bounded(r@, SAMPLE_BOUND as int),
{
    if signal.len() == 0 || out_len == 0 {
        let mut r: Vec<i64> = Vec::new();
        while r.len() < out_len
            invariant
                r@.len() <= out_len,
                forall|j: int| 0 <= j < r@.len() ==> r@[j] == 0i64,
            decreases out_len - r@.len(),
        {
            r.push(0i64);
        }
        proof {
            assert(r@ =~= level_step(signal@, out_len as nat));
        }
        return r;
    }
    let slen: usize = signal.len();
    let mut temp: Vec<i64> = Vec::new();
    let mut j: usize = 0;
    while j < out_len
        invariant
            1 <= slen == signal@.len() <= 0x100_0000,
            out_len <= 0x100_0000,
            j <= out_len,
            temp@ == decimated(signal@, j as nat),
            bounded(signal@, SAMPLE_BOUND as int),
        decreases out_len - j,
    {
        temp.push(signal[(2 * j) % slen]);
        proof {
            assert(temp@ =~= decimated(signal@, (j + 1) as nat));
        }
        j = j + 1;
    }
    proof {
        lemma_fir_props();
        assert(bounded(temp@, SAMPLE_BOUND as int));
    }
    let conv: Vec<i64> = convolve_circular(fir, &temp);
    let mut r: Vec<i64> = Vec::new();
    let mut i: usize = 0;
    while i < out_len
        invariant
            out_len == conv@.len() == temp@.len(),
            temp@ == decimated(signal@, out_len as nat),
            signal@.len() >= 1,
            i <= out_len,
            r@.len() == i,
            forall|m: int|
                0 <= m < conv@.len() ==> #[trigger] conv@[m] as int == q30(
                    conv_at(fir_taps(), temp@, m + 7, 15),
                ),
            forall|m: int|
                0 <= m < i ==> #[trigger] r@[m] as int == downsampled_at(
                    decimated(signal@, out_len as nat),
                    m,
                ),
            bounded(r@, SAMPLE_BOUND as int),
        decreases out_len - i,
    {
        let v: i64 = conv[i];
        let c: i64 = if v > SAMPLE_BOUND {
            SAMPLE_BOUND
        } else if v < -SAMPLE_BOUND {
            -SAMPLE_BOUND
        } else {
            v
        };
        r.push(c);
        i = i + 1;
    }
    proof {
        assert(r@ =~= level_step(signal@, out_len as nat));
    }
    r
}

/// Build the whole mip pyramid of one channel: the source itself, then
/// each level halved from the one before, all concatenated per the offset
/// table.
#[verifier::rlimit(50)]
pub fn mip_map(fir: &Vec<i64>, source: Vec<i64>) -> (r: Vec<i64>)
    requires
        fir@ == fir_taps(),
        source@.len() <= 0x100_0000,
        bounded(source@, SAMPLE_BOUND as int),
    ensures
        r@ == mip_concat(source@, crate::sampler::MIP_LEVELS as nat),
        r@.len() == crate::sampler::mip_offset_spec(10, source@.len() as int),
        bounded(r@, SAMPLE_BOUND as int),
{
    let ghost src: Seq<i64> = source@;
    let len: usize = source.len();
    let mut prev: Vec<i64> = copy_vec(&source);
    let mut out: Vec<i64> = source;
    let mut k: usize = 1;
    proof {
        lemma_mip_concat_len(src, 0);
    }
    while k <= crate::sampler::MIP_LEVELS
        invariant
            1 <= k <= 10,
            fir@ == fir_taps(),
            len == src.len() <= 0x100_0000,
            out@ == mip_concat(src, (k - 1) as nat),
            prev@ == level_seq(src, (k - 1) as nat),
            bounded(out@, SAMPLE_BOUND as int),
            bounded(prev@, SAMPLE_BOUND as int),
        decreases 10 - k,
    {
        proof {
            crate::sampler::lemma_span_basics(k as int, len as int);
            crate::sampler::lemma_offset_mono(0, k as int, len as int);
            lemma_mip_concat_len(src, (k - 1) as nat);
            crate::sampler::lemma_span_basics(k as int - 1, len as int);
        }
        proof {
            crate::sampler::lemma_span_le_len(k as int, len as int);
        }
        let off_k: usize = crate::sampler::mip_offset(k, len);
        let off_k1: usize = crate::sampler::mip_offset(k + 1, len);
        let span: usize = off_k1 - off_k;
        proof {
            assert(prev@.len() <= 0x100_0000) by {
                lemma_level_len_bound(src, (k - 1) as nat);
            }
        }
        let next: Vec<i64> = downsample_2x(fir, &prev, span);
        let mut tail: Vec<i64> = copy_vec(&next);
        out.append(&mut tail);
        proof {
            assert(out@ =~= mip_concat(src, k as nat));
        }
        prev = next;
        k = k + 1;
    }
    proof {
        lemma_mip_concat_len(src, 9);
    }
    out
}

/// Every level is at most as long as the source itself.
proof fn lemma_level_len_bound(src: Seq<i64>, k: nat)
    requires
        k <= 9,
        src.len() <= 0x100_0000,
    ensures
        level_seq(src, k).len() <= src.len(),
{
    lemma_mip_concat_len(src, k);
    crate::sampler::lemma_span_le_len(k as int, src.len() as int);
}

/// Q30 blend constants of the cubic-interpolation scheme: each coefficient
/// mixes the even and odd sums of the four samples around a position.
pub const BLEND_C0_EVEN1: i64 = 492514324;

pub const BLEND_C0_EVEN2: i64 = 44360590;

pub const BLEND_C1_ODD1: i64 = 516126485;

pub const BLEND_C1_ODD2: i64 = 188741538;

pub const BLEND_C2_EVEN1: i64 = -264339138;

pub const BLEND_C2_EVEN2: i64 = 264291103;

pub const BLEND_C3_ODD1: i64 = -386879114;

pub const BLEND_C3_ODD2: i64 = 109253077;

/// Sum of the two samples right of position `j` and at it, cyclically.
pub open spec fn even1(x: Seq<i64>, j: int) -> int {
    let s = x.len() as int;
    x[(j + 1) % s] as int + x[j] as int
}

/// Their difference.
pub open spec fn odd1(x: Seq<i64>, j: int) -> int {
    let s = x.len() as int;
    x[(j + 1) % s] as int - x[j] as int
}

/// Sum of the outer neighbour pair around position `j`, cyclically.
pub open spec fn even2(x: Seq<i64>, j: int) -> int {
    let s = x.len() as int;
    x[(j + 2) % s] as int + x[(j - 1) % s] as int
}

/// Their difference.
pub open spec fn odd2(x: Seq<i64>, j: int) -> int {
    let s = x.len() as int;
    x[(j + 2) % s] as int - x[(j - 1) % s] as int
}

/// The four cubic coefficients at position `j` of one mip cycle `x`.
pub open spec fn blend_c0(x: Seq<i64>, j: int) -> int {
    q30(even1(x, j) * BLEND_C0_EVEN1 + even2(x, j) * BLEND_C0_EVEN2)
}

pub open spec fn blend_c1(x: Seq<i64>, j: int) -> int {
    q30(odd1(x, j) * BLEND_C1_ODD1 + odd2(x, j) * BLEND_C1_ODD2)
}

pub open spec fn blend_c2(x: Seq<i64>, j: int) -> int {
    q30(even1(x, j) * BLEND_C2_EVEN1 + even2(x, j) * BLEND_C2_EVEN2)
}

pub open spec fn blend_c3(x: Seq<i64>, j: int) -> int {
    q30(odd1(x, j) * BLEND_C3_ODD1 + odd2(x, j) * BLEND_C3_ODD2)
}

/// The mip level whose region of the concatenated buffer holds position
/// `p`, searching upward from level `n`; positions at or past the start of
/// the last level belong to it.
pub open spec fn level_of_from(p: int, len: int, n: int) -> int
    decreases 9 - n,
{
    if n >= 9 {
        9
    } else if p < crate::sampler::mip_offset_spec(n + 1, len) {
        n
    } else {
        level_of_from(p, len, n + 1)
    }
}

/// The slice of the concatenated buffer that holds mip level `n`.
pub open spec fn level_slice(mips: Seq<i64>, len: int, n: int) -> Seq<i64> {
    mips.subrange(
        crate::sampler::mip_offset_spec(n, len),
        crate::sampler::mip_offset_spec(n, len) + crate::sampler::span_spec(n, len),
    )
}

/// Whether coefficients are precomputed for position `p`: only levels
/// `0..9` get them, and only when the level holds at least four samples.
pub open spec fn coeff_covered(len: int, p: int) -> bool {
    let n = level_of_from(p, len, 0);
    n < 9 && crate::sampler::span_spec(n, len) >= 4
}

/// The value the `c0` table holds at absolute position `p`.
pub open spec fn expected_c0(mips: Seq<i64>, len: int, p: int) -> int {
    let n = level_of_from(p, len, 0);
    if coeff_covered(len, p) {
        blend_c0(level_slice(mips, len, n), p - crate::sampler::mip_offset_spec(n, len))
    } else {
        0
    }
}

pub open spec fn expected_c1(mips: Seq<i64>, len: int, p: int) -> int {
    let n = level_of_from(p, len, 0);
    if coeff_covered(len, p) {
        blend_c1(level_slice(mips, len, n), p - crate::sampler::mip_offset_spec(n, len))
    } else {
        0
    }
}

pub open spec fn expected_c2(mips: Seq<i64>, len: int, p: int) -> int {
    let n = level_of_from(p, len, 0);
    if coeff_covered(len, p) {
        blend_c2(level_slice(mips, len, n), p - crate::sampler::mip_offset_spec(n, len))
    } else {
        0
    }
}

pub open spec fn expected_c3(mips: Seq<i64>, len: int, p: int) -> int {
    let n = level_of_from(p, len, 0);
    if coeff_covered(len, p) {
        blend_c3(level_slice(mips, len, n), p - crate::sampler::mip_offset_spec(n, len))
    } else {
        0
    }
}

/// One channel's four coefficient arrays, each `2 * len` long and aligned
/// with the concatenated mip buffer.
pub struct CoeffTable {
    pub c0: Vec<i64>,
    pub c1: Vec<i64>,
    pub c2: Vec<i64>,
    pub c3: Vec<i64>,
}

/// The full correctness statement of one channel's coefficient rows.
pub open spec fn coeff_seqs_ok(
    c0: Seq<i64>,
    c1: Seq<i64>,
    c2: Seq<i64>,
    c3: Seq<i64>,
    mips: Seq<i64>,
    len: int,
) -> bool {
    &&& c0.len() == 2 * len
    &&& c1.len() == 2 * len
    &&& c2.len() == 2 * len
    &&& c3.len() == 2 * len
    &&& forall|p: int| 0 <= p < 2 * len ==> #[trigger] c0[p] as int == expected_c0(mips, len, p)
    &&& forall|p: int| 0 <= p < 2 * len ==> #[trigger] c1[p] as int == expected_c1(mips, len, p)
    &&& forall|p: int| 0 <= p < 2 * len ==> #[trigger] c2[p] as int == expected_c2(mips, len, p)
    &&& forall|p: int| 0 <= p < 2 * len ==> #[trigger] c3[p] as int == expected_c3(mips, len, p)
    &&& bounded(c0, COEF_BOUND as int)
    &&& bounded(c1, COEF_BOUND as int)
    &&& bounded(c2, COEF_BOUND as int)
    &&& bounded(c3, COEF_BOUND as int)
}

/// The full correctness statement of a coefficient table.
pub open spec fn coeff_table_ok(t: CoeffTable, mips: Seq<i64>, len: int) -> bool {
    coeff_seqs_ok(t.c0@, t.c1@, t.c2@, t.c3@, mips, len)
}

/// Positions inside a level's region belong to that level.
proof fn lemma_level_of_locate(p: int, len: int, n: int)
    requires
        0 <= len <= 0x100_0000,
        0 <= n <= 9,
        crate::sampler::mip_offset_spec(n, len) <= p,
        n < 9 ==> p < crate::sampler::mip_offset_spec(n + 1, len),
    ensures
        level_of_from(p, len, 0) == n,
{
    lemma_level_of_step(p, len, 0, n);
}

proof fn lemma_level_of_step(p: int, len: int, m: int, n: int)
    requires
        0 <= len <= 0x100_0000,
        0 <= m <= n <= 9,
        crate::sampler::mip_offset_spec(n, len) <= p,
        n < 9 ==> p < crate::sampler::mip_offset_spec(n + 1, len),
    ensures
        level_of_from(p, len, m) == n,
    decreases 9 - m,
{
    if m < n {
        crate::sampler::lemma_offset_mono(m + 1, n, len);
        lemma_level_of_step(p, len, m + 1, n);
    }
}

/// The cyclic neighbour index `(j + d) % span` equals the branchy form the
/// code computes.
proof fn lemma_cyc_index(j: int, d: int, span: int, r: int)
    requires
        span >= 1,
        0 <= r < span,
        j + d == r || j + d == r + span || j + d == r - span,
    ensures
        (j + d) % span == r,
{
    if j + d == r {
        vstd::arithmetic::div_mod::lemma_small_mod(r as nat, span as nat);
    } else if j + d == r + span {
        vstd::arithmetic::div_mod::lemma_fundamental_div_mod_converse(j + d, span, 1, r);
    } else {
        vstd::arithmetic::div_mod::lemma_fundamental_div_mod_converse(j + d, span, -1, r);
    }
}

/// The four coefficient rows of one mip level: position `j` blends the
/// samples at `j - 1`, `j`, `j + 1` and `j + 2` of the cycle
/// `mips[off .. off + span]`, indices wrapped at the cycle's ends.
#[verifier::rlimit(50)]
fn level_coeffs(mips: &Vec<i64>, off: usize, span: usize) -> (r: (Vec<i64>, Vec<i64>, Vec<i64>, Vec<
    i64,
>))
    requires
        4 <= span,
        off + span <= mips@.len(),
        mips@.len() <= 0x200_0000,
        bounded(mips@, SAMPLE_BOUND as int),
    ensures
        ({
            let x = mips@.subrange(off as int, off as int + span as int);
            &&& r.0@.len() == span
            &&& r.1@.len() == span
            &&& r.2@.len() == span
            &&& r.3@.len() == span
            &&& forall|j: int| 0 <= j < span ==> #[trigger] r.0@[j] as int == blend_c0(x, j)
            &&& forall|j: int| 0 <= j < span ==> #[trigger] r.1@[j] as int == blend_c1(x, j)
            &&& forall|j: int| 0 <= j < span ==> #[trigger] r.2@[j] as int == blend_c2(x, j)
            &&& forall|j: int| 0 <= j < span ==> #[trigger] r.3@[j] as int == blend_c3(x, j)
            &&& bounded(r.0@, COEF_BOUND as int)
            &&& bounded(r.1@, COEF_BOUND as int)
            &&& bounded(r.2@, COEF_BOUND as int)
            &&& bounded(r.3@, COEF_BOUND as int)
        }),
{
    let ghost x: Seq<i64> = mips@.subrange(off as int, off as int + span as int);
    let mut r0: Vec<i64> = Vec::new();
    let mut r1: Vec<i64> = Vec::new();
    let mut r2: Vec<i64> = Vec::new();
    let mut r3: Vec<i64> = Vec::new();
    let mut j: usize = 0;
    while j < span
        invariant
            4 <= span,
            off + span <= mips@.len(),
            mips@.len() <= 0x200_0000,
            bounded(mips@, SAMPLE_BOUND as int),
            x == mips@.subrange(off as int, off as int + span as int),
            x.len() == span,
            j <= span,
            r0@.len() == j && r1@.len() == j && r2@.len() == j && r3@.len() == j,
            forall|q: int| 0 <= q < j ==> #[trigger] r0@[q] as int == blend_c0(x, q),
            forall|q: int| 0 <= q < j ==> #[trigger] r1@[q] as int == blend_c1(x, q),
            forall|q: int| 0 <= q < j ==> #[trigger] r2@[q] as int == blend_c2(x, q),
            forall|q: int| 0 <= q < j ==> #[trigger] r3@[q] as int == blend_c3(x, q),
            bounded(r0@, COEF_BOUND as int),
            bounded(r1@, COEF_BOUND as int),
            bounded(r2@, COEF_BOUND as int),
            bounded(r3@, COEF_BOUND as int),
        decreases span - j,
    {
        let jp1: usize = if j + 1 == span {
            0
        } else {
            j + 1
        };
        let jp2: usize = if j + 2 >= span {
            j + 2 - span
        } else {
            j + 2
        };
        let jm1: usize = if j == 0 {
            span - 1
        } else {
            j - 1
        };
        proof {
            lemma_cyc_index(j as int, 1, span as int, jp1 as int);
            lemma_cyc_index(j as int, 2, span as int, jp2 as int);
            lemma_cyc_index(j as int, -1, span as int, jm1 as int);
            assert(x[(j + 1) as int % (span as int)] == mips@[off as int + jp1 as int]);
            assert(x[(j + 2) as int % (span as int)] == mips@[off as int + jp2 as int]);
            assert(x[(j as int - 1) % (span as int)] == mips@[off as int + jm1 as int]);
            assert(x[j as int] == mips@[off as int + j as int]);
        }
        let e1: i64 = mips[off + jp1] + mips[off + j];
        let o1: i64 = mips[off + jp1] - mips[off + j];
        let e2: i64 = mips[off + jp2] + mips[off + jm1];
        let o2: i64 = mips[off + jp2] - mips[off + jm1];
        proof {
            lemma_blend_bound(e1 as int, e2 as int);
            lemma_blend_bound(o1 as int, o2 as int);
        }
        let v0: i64 = fdiv_i64(e1 * BLEND_C0_EVEN1 + e2 * BLEND_C0_EVEN2, 0x4000_0000);
        let v1: i64 = fdiv_i64(o1 * BLEND_C1_ODD1 + o2 * BLEND_C1_ODD2, 0x4000_0000);
        let v2: i64 = fdiv_i64(e1 * BLEND_C2_EVEN1 + e2 * BLEND_C2_EVEN2, 0x4000_0000);
        let v3: i64 = fdiv_i64(o1 * BLEND_C3_ODD1 + o2 * BLEND_C3_ODD2, 0x4000_0000);
        r0.push(v0);
        r1.push(v1);
        r2.push(v2);
        r3.push(v3);
        j = j + 1;
    }
    (r0, r1, r2, r3)
}

/// Append `n` zeros to a coefficient row.
fn push_zeros(v: &mut Vec<i64>, n: usize)
    requires
        old(v)@.len() + n <= 0x4000_0000,
    ensures
        final(v)@.len() == old(v)@.len() + n,
        forall|p: int| 0 <= p < old(v)@.len() ==> #[trigger] final(v)@[p] == old(v)@[p],
        forall|p: int|
            old(v)@.len() <= p < final(v)@.len() ==> #[trigger] final(v)@[p] == 0i64,
{
    let start: usize = v.len();
    let mut i: usize = 0;
    while i < n
        invariant
            start == old(v)@.len(),
            i <= n,
            v@.len() == start + i,
            forall|p: int| 0 <= p < start ==> #[trigger] v@[p] == old(v)@[p],
            forall|p: int| start <= p < v@.len() ==> #[trigger] v@[p] == 0i64,
        decreases n - i,
    {
        v.push(0i64);
        i = i + 1;
    }
}

/// Precompute the four cubic-coefficient arrays of one channel from its
/// concatenated mip buffer. Each position of a level at least four samples
/// long gets the blend of its four cyclic neighbours; shorter levels and
/// the final level's region are left silent.
#[verifier::rlimit(50)]
pub fn compute_coeffs(mips: &Vec<i64>, len: usize) -> (t: CoeffTable)
    requires
        len <= 0x100_0000,
        mips@.len() == crate::sampler::mip_offset_spec(10, len as int),
        bounded(mips@, SAMPLE_BOUND as int),
    ensures
        coeff_table_ok(t, mips@, len as int),
{
    let mut c0: Vec<i64> = Vec::new();
    let mut c1: Vec<i64> = Vec::new();
    let mut c2: Vec<i64> = Vec::new();
    let mut c3: Vec<i64> = Vec::new();
    proof {
        crate::sampler::lemma_span_basics(0, len as int);
        crate::sampler::lemma_span_le_len(9, len as int);
    }
    let mut n: usize = 0;
    while n < crate::sampler::MIP_LEVELS
        invariant
            len <= 0x100_0000,
            mips@.len() == crate::sampler::mip_offset_spec(10, len as int),
            mips@.len() <= 2 * len,
            bounded(mips@, SAMPLE_BOUND as int),
            n <= 9,
            c0@.len() as int == crate::sampler::mip_offset_spec(n as int, len as int),
            c1@.len() == c0@.len() && c2@.len() == c0@.len() && c3@.len() == c0@.len(),
            forall|p: int|
                0 <= p < c0@.len() ==> #[trigger] c0@[p] as int == expected_c0(
                    mips@,
                    len as int,
                    p,
                ),
            forall|p: int|
                0 <= p < c1@.len() ==> #[trigger] c1@[p] as int == expected_c1(
                    mips@,
                    len as int,
                    p,
                ),
            forall|p: int|
                0 <= p < c2@.len() ==> #[trigger] c2@[p] as int == expected_c2(
                    mips@,
                    len as int,
                    p,
                ),
            forall|p: int|
                0 <= p < c3@.len() ==> #[trigger] c3@[p] as int == expected_c3(
                    mips@,
                    len as int,
                    p,
                ),
            bounded(c0@, COEF_BOUND as int),
            bounded(c1@, COEF_BOUND as int),
            bounded(c2@, COEF_BOUND as int),
            bounded(c3@, COEF_BOUND as int),
        decreases 9 - n,
    {
        proof {
            crate::sampler::lemma_span_basics(n as int, len as int);
            crate::sampler::lemma_span_le_len(n as int, len as int);
            crate::sampler::lemma_offset_mono(n as int + 1, 10, len as int);
            crate::sampler::lemma_offset_mono(0, n as int, len as int);
        }
        let off: usize = crate::sampler::mip_offset(n, len);
        let off1: usize = crate::sampler::mip_offset(n + 1, len);
        let span: usize = off1 - off;
        let ghost pre0: Seq<i64> = c0@;
        let ghost pre1: Seq<i64> = c1@;
        let ghost pre2: Seq<i64> = c2@;
        let ghost pre3: Seq<i64> = c3@;
        if span >= 4 {
            let parts: (Vec<i64>, Vec<i64>, Vec<i64>, Vec<i64>) = level_coeffs(mips, off, span);
            let (mut p0, mut p1, mut p2, mut p3) = parts;
            let ghost x: Seq<i64> = mips@.subrange(off as int, off as int + span as int);
            let ghost g0: Seq<i64> = p0@;
            let ghost g1: Seq<i64> = p1@;
            let ghost g2: Seq<i64> = p2@;
            let ghost g3: Seq<i64> = p3@;
            c0.append(&mut p0);
            c1.append(&mut p1);
            c2.append(&mut p2);
            c3.append(&mut p3);
            proof {
                assert(x == level_slice(mips@, len as int, n as int));
                assert(c0@ == pre0 + g0);
                assert(c1@ == pre1 + g1);
                assert(c2@ == pre2 + g2);
                assert(c3@ == pre3 + g3);
                assert forall|p: int| 0 <= p < off as int implies #[trigger] c0@[p] == pre0[p] by {
                    assert(c0@[p] == (pre0 + g0)[p]);
                }
                assert forall|p: int| 0 <= p < off as int implies #[trigger] c1@[p] == pre1[p] by {
                    assert(c1@[p] == (pre1 + g1)[p]);
                }
                assert forall|p: int| 0 <= p < off as int implies #[trigger] c2@[p] == pre2[p] by {
                    assert(c2@[p] == (pre2 + g2)[p]);
                }
                assert forall|p: int| 0 <= p < off as int implies #[trigger] c3@[p] == pre3[p] by {
                    assert(c3@[p] == (pre3 + g3)[p]);
                }
                assert forall|p: int| off as int <= p < off1 as int implies #[trigger] c0@[p]
                    as int == expected_c0(mips@, len as int, p) by {
                    lemma_level_of_locate(p, len as int, n as int);
                    assert(c0@[p] == g0[p - off as int]);
                    assert(g0[p - off as int] as int == blend_c0(x, p - off as int));
                }
                assert forall|p: int| off as int <= p < off1 as int implies #[trigger] c1@[p]
                    as int == expected_c1(mips@, len as int, p) by {
                    lemma_level_of_locate(p, len as int, n as int);
                    assert(c1@[p] == g1[p - off as int]);
                    assert(g1[p - off as int] as int == blend_c1(x, p - off as int));
                }
                assert forall|p: int| off as int <= p < off1 as int implies #[trigger] c2@[p]
                    as int == expected_c2(mips@, len as int, p) by {
                    lemma_level_of_locate(p, len as int, n as int);
                    assert(c2@[p] == g2[p - off as int]);
                    assert(g2[p - off as int] as int == blend_c2(x, p - off as int));
                }
                assert forall|p: int| off as int <= p < off1 as int implies #[trigger] c3@[p]
                    as int == expected_c3(mips@, len as int, p) by {
                    lemma_level_of_locate(p, len as int, n as int);
                    assert(c3@[p] == g3[p - off as int]);
                    assert(g3[p - off as int] as int == blend_c3(x, p - off as int));
                }
            }
        } else {
            push_zeros(&mut c0, span);
            push_zeros(&mut c1, span);
            push_zeros(&mut c2, span);
            push_zeros(&mut c3, span);
            proof {
                assert forall|p: int| off as int <= p < off1 as int implies #[trigger] c0@[p]
                    as int == expected_c0(mips@, len as int, p) by {
                    lemma_level_of_locate(p, len as int, n as int);
                }
                assert forall|p: int| off as int <= p < off1 as int implies #[trigger] c1@[p]
                    as int == expected_c1(mips@, len as int, p) by {
                    lemma_level_of_locate(p, len as int, n as int);
                }
                assert forall|p: int| off as int <= p < off1 as int implies #[trigger] c2@[p]
                    as int == expected_c2(mips@, len as int, p) by {
                    lemma_level_of_locate(p, len as int, n as int);
                }
                assert forall|p: int| off as int <= p < off1 as int implies #[trigger] c3@[p]
                    as int == expected_c3(mips@, len as int, p) by {
                    lemma_level_of_locate(p, len as int, n as int);
                }
            }
        }
        n = n + 1;
    }
    proof {
        crate::sampler::lemma_offset_mono(9, 10, len as int);
        crate::sampler::lemma_span_le_len(9, len as int);
    }
    let tail: usize = 2 * len - c0.len();
    push_zeros(&mut c0, tail);
    push_zeros(&mut c1, tail);
    push_zeros(&mut c2, tail);
    push_zeros(&mut c3, tail);
    proof {
        assert forall|p: int|
            crate::sampler::mip_offset_spec(9, len as int) <= p < 2 * len implies #[trigger] c0@[p]
            as int == expected_c0(mips@, len as int, p) by {
            lemma_level_of_locate(p, len as int, 9);
        }
        assert forall|p: int|
            crate::sampler::mip_offset_spec(9, len as int) <= p < 2 * len implies #[trigger] c1@[p]
            as int == expected_c1(mips@, len as int, p) by {
            lemma_level_of_locate(p, len as int, 9);
        }
        assert forall|p: int|
            crate::sampler::mip_offset_spec(9, len as int) <= p < 2 * len implies #[trigger] c2@[p]
            as int == expected_c2(mips@, len as int, p) by {
            lemma_level_of_locate(p, len as int, 9);
        }
        assert forall|p: int|
            crate::sampler::mip_offset_spec(9, len as int) <= p < 2 * len implies #[trigger] c3@[p]
            as int == expected_c3(mips@, len as int, p) by {
            lemma_level_of_locate(p, len as int, 9);
        }
    }
    CoeffTable { c0, c1, c2, c3 }
}

/// A Q30 blend of two inputs bounded by twice the sample bound stays
/// within the coefficient bound, for any pair of the table's constants.
proof fn lemma_blend_bound(a: int, b: int)
    requires
        -0x800_0000 <= a <= 0x800_0000,
        -0x800_0000 <= b <= 0x800_0000,
    ensures
        forall|ca: int, cb: int|
            -0x2000_0000 <= ca <= 0x2000_0000 && -0x2000_0000 <= cb <= 0x2000_0000 ==> -(
            COEF_BOUND as int) <= #[trigger] q30(a * ca + b * cb) <= COEF_BOUND as int,
{
    assert forall|ca: int, cb: int|
        -0x2000_0000 <= ca <= 0x2000_0000 && -0x2000_0000 <= cb <= 0x2000_0000 implies -(
    COEF_BOUND as int) <= #[trigger] q30(a * ca + b * cb) <= COEF_BOUND as int by {
        assert(-0x100_0000_0000_0000 <= a * ca <= 0x100_0000_0000_0000) by (nonlinear_arith)
            requires
                -0x800_0000 <= a <= 0x800_0000,
                -0x2000_0000 <= ca <= 0x2000_0000,
        ;
        assert(-0x100_0000_0000_0000 <= b * cb <= 0x100_0000_0000_0000) by (nonlinear_arith)
            requires
                -0x800_0000 <= b <= 0x800_0000,
                -0x2000_0000 <= cb <= 0x2000_0000,
        ;
        vstd::arithmetic::div_mod::lemma_div_is_ordered(
            a * ca + b * cb,
            0x200_0000_0000_0000,
            0x4000_0000,
        );
        vstd::arithmetic::div_mod::lemma_div_is_ordered(
            -0x200_0000_0000_0000,
            a * ca + b * cb,
            0x4000_0000,
        );
    }
}

/// A vector of `n` zeros.
fn zero_vec(n: usize) -> (r: Vec<i64>)
    ensures
        r@.len() == n,
        forall|j: int| 0 <= j < n ==> r@[j] == 0i64,
{
    let mut r: Vec<i64> = Vec::new();
    while r.len() < n
        invariant
            r@.len() <= n,
            forall|j: int| 0 <= j < r@.len() ==> r@[j] == 0i64,
        decreases n - r@.len(),
    {
        r.push(0i64);
    }
    r
}

/// The wavetable of a loaded source: one or two channel buffers and, per
/// channel, the cubic-coefficient rows of its concatenated mip pyramid.
pub struct SampleInterp {
    pub source_l: Vec<i64>,
    pub source_r: Vec<i64>,
    /// length of one channel's cycle
    pub len: usize,
    pub c0_l: Vec<i64>,
    pub c1_l: Vec<i64>,
    pub c2_l: Vec<i64>,
    pub c3_l: Vec<i64>,
    pub c0_r: Vec<i64>,
    pub c1_r: Vec<i64>,
    pub c2_r: Vec<i64>,
    pub c3_r: Vec<i64>,
    pub downsample_fir: Vec<i64>,
    pub mip_levels: usize,
}

impl SampleInterp {
    /// What rendering needs to be safe: the left rows always match the
    /// cycle length, the right rows agree among themselves, and every
    /// stored coefficient is bounded.
    pub open spec fn wf(&self) -> bool {
        &&& self.downsample_fir@ == fir_taps()
        &&& self.mip_levels == crate::sampler::MIP_LEVELS
        &&& self.len <= 0x100_0000
        &&& self.c0_l@.len() == 2 * self.len
        &&& self.c1_l@.len() == 2 * self.len
        &&& self.c2_l@.len() == 2 * self.len
        &&& self.c3_l@.len() == 2 * self.len
        &&& self.c1_r@.len() == self.c0_r@.len()
        &&& self.c2_r@.len() == self.c0_r@.len()
        &&& self.c3_r@.len() == self.c0_r@.len()
        &&& bounded(self.c0_l@, COEF_BOUND as int)
        &&& bounded(self.c1_l@, COEF_BOUND as int)
        &&& bounded(self.c2_l@, COEF_BOUND as int)
        &&& bounded(self.c3_l@, COEF_BOUND as int)
        &&& bounded(self.c0_r@, COEF_BOUND as int)
        &&& bounded(self.c1_r@, COEF_BOUND as int)
        &&& bounded(self.c2_r@, COEF_BOUND as int)
        &&& bounded(self.c3_r@, COEF_BOUND as int)
    }

    /// The left channel's rows are the coefficients of its pyramid.
    pub open spec fn left_ready(&self) -> bool {
        &&& self.len == self.source_l@.len()
        &&& coeff_seqs_ok(
            self.c0_l@,
            self.c1_l@,
            self.c2_l@,
            self.c3_l@,
            mip_concat(self.source_l@, crate::sampler::MIP_LEVELS as nat),
            self.len as int,
        )
    }

    /// The right channel's rows are the coefficients of its pyramid.
    pub open spec fn right_ready(&self) -> bool {
        &&& self.source_r@.len() == self.len
        &&& coeff_seqs_ok(
            self.c0_r@,
            self.c1_r@,
            self.c2_r@,
            self.c3_r@,
            mip_concat(self.source_r@, crate::sampler::MIP_LEVELS as nat),
            self.len as int,
        )
    }

    /// Rebuild the table from the left channel alone: take its length as
    /// the cycle length, derive the pyramid and precompute the
    /// coefficients. The right channel's rows are dropped.
    pub fn setup_mono(&mut self)
        requires
            old(self).downsample_fir@ == fir_taps(),
            old(self).mip_levels == crate::sampler::MIP_LEVELS,
            old(self).source_l@.len() <= 0x100_0000,
            bounded(old(self).source_l@, SAMPLE_BOUND as int),
        ensures
            final(self).wf(),
            final(self).left_ready(),
            final(self).len == old(self).source_l@.len(),
            final(self).source_l@ == old(self).source_l@,
            final(self).c0_r@.len() == 0,
            final(self).downsample_fir@ == old(self).downsample_fir@,
            final(self).mip_levels == old(self).mip_levels,
    {
        self.len = self.source_l.len();
        let mips: Vec<i64> = mip_map(&self.downsample_fir, copy_vec(&self.source_l));
        let t: CoeffTable = compute_coeffs(&mips, self.len);
        self.c0_l = t.c0;
        self.c1_l = t.c1;
        self.c2_l = t.c2;
        self.c3_l = t.c3;
        self.c0_r = Vec::new();
        self.c1_r = Vec::new();
        self.c2_r = Vec::new();
        self.c3_r = Vec::new();
    }

    /// Rebuild the table from both channels, which must be equally long.
    pub fn setup_stereo(&mut self)
        requires
            old(self).downsample_fir@ == fir_taps(),
            old(self).mip_levels == crate::sampler::MIP_LEVELS,
            old(self).source_l@.len() <= 0x100_0000,
            old(self).source_r@.len() == old(self).source_l@.len(),
            bounded(old(self).source_l@, SAMPLE_BOUND as int),
            bounded(old(self).source_r@, SAMPLE_BOUND as int),
        ensures
            final(self).wf(),
            final(self).left_ready(),
            final(self).right_ready(),
            final(self).len == old(self).source_l@.len(),
            final(self).source_l@ == old(self).source_l@,
            final(self).source_r@ == old(self).source_r@,
            final(self).downsample_fir@ == old(self).downsample_fir@,
            final(self).mip_levels == old(self).mip_levels,
    {
        self.len = self.source_l.len();
        let mips_l: Vec<i64> = mip_map(&self.downsample_fir, copy_vec(&self.source_l));
        let mips_r: Vec<i64> = mip_map(&self.downsample_fir, copy_vec(&self.source_r));
        let tl: CoeffTable = compute_coeffs(&mips_l, self.len);
        let tr: CoeffTable = compute_coeffs(&mips_r, self.len);
        self.c0_l = tl.c0;
        self.c1_l = tl.c1;
        self.c2_l = tl.c2;
        self.c3_l = tl.c3;
        self.c0_r = tr.c0;
        self.c1_r = tr.c1;
        self.c2_r = tr.c2;
        self.c3_r = tr.c3;
    }
}

impl Default for SampleInterp {
    /// An empty table: no source, cycle length zero, the fixed filter in
    /// place.
    fn default() -> (s: SampleInterp)
        ensures
            s.wf(),
            s.len == 0,
            s.source_l@.len() == 0,
            s.source_r@.len() == 0,
            s.c0_r@.len() == 0,
    {
        SampleInterp {
            source_l: Vec::new(),
            source_r: Vec::new(),
            len: 0,
            c0_l: Vec::new(),
            c1_l: Vec::new(),
            c2_l: Vec::new(),
            c3_l: Vec::new(),
            c0_r: Vec::new(),
            c1_r: Vec::new(),
            c2_r: Vec::new(),
            c3_r: Vec::new(),
            downsample_fir: downsample_fir(),
            mip_levels: crate::sampler::MIP_LEVELS,
        }
    }
}

} // verus!
