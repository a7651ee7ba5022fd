//! Mip-table layout and per-voice pitch tracking.
//!
//! A source buffer of `len` samples is stored together with its
//! progressively halved mip levels in one contiguous buffer per channel.
//! Level `k` begins at `mip_offset(k, len)` and the whole pyramid fits in
//! `2 * len` positions.
use vstd::prelude::*;
use vstd::arithmetic::power2::{
    pow2, lemma_pow2_adds, lemma_pow2_pos, lemma_pow2_strictly_increases, lemma2_to64,
};
use vstd::arithmetic::div_mod::{
    lemma_div_multiples_vanish_fancy, lemma_div_multiples_vanish,
};
use crate::fixed::{exp2_q32, fdiv_i64, mul_shift32_u64, pow2_u64, pow2_usize, q30, spec_exp2_q32};
use crate::interp::{SampleInterp, COEF_BOUND};
use crate::params::{OnOff, SamplerParams};
use crate::voice::Voice;
use crate::RATIO_ONE;

verus! {

/// Number of voice slots in the pool.
pub const N_VOICES: usize = 8;

/// Number of halved copies derived from the source; the pyramid holds
/// levels `0 ..= MIP_LEVELS`, level `0` being the source itself.
pub const MIP_LEVELS: usize = 9;

/// Where mip level `mip` begins in the concatenated per-channel buffer of a
/// source with `len` samples: `2*len - ceil(2*len / 2^mip)`, which is the
/// closed form of "each level is half as long as the one before".
/// Levels past the last one that is ever built sit at the buffer start.
pub open spec fn mip_offset_spec(mip: int, len: int) -> int {
    if mip > 10 {
        0
    } else {
        2 * len - (2 * len + pow2(mip as nat) - 1) / (pow2(mip as nat) as int)
    }
}

/// Start of mip level `mip` inside the concatenated mip buffer.
pub fn mip_offset(mip: usize, len: usize) -> (r: usize)
    requires
        len <= 0x100_0000,
    ensures
        r as int == mip_offset_spec(mip as int, len as int),
        r <= 2 * len,
        len >= 1 ==> r < 2 * len,
{
    if mip > 10 {
        0
    } else {
        let p: usize = pow2_usize(mip);
        let t: usize = 2 * len;
        proof {
            lemma_pow2_le_1024(mip as nat);
            let pi = p as int;
            let ti = t as int;
            assert(ti >= 1 ==> (ti + pi - 1) / pi <= ti) by (nonlinear_arith)
                requires
                    pi >= 1,
                    ti >= 0,
            ;
            assert(ti >= 1 ==> (ti + pi - 1) / pi >= 1) by (nonlinear_arith)
                requires
                    pi >= 1,
                    ti >= 0,
            ;
            assert(ti == 0 ==> (ti + pi - 1) / pi == 0) by (nonlinear_arith)
                requires
                    pi >= 1,
            ;
        }
        t - (t + p - 1) / p
    }
}

/// The branch-free variant of [`mip_offset`]; it lands one level further
/// down: its result is the start of level `mip + 1`.
pub fn _mip_offset2(mip: usize, len: usize) -> (r: usize)
    requires
        1 <= mip <= 9,
        len <= 0x100_0000,
    ensures
        r as int == mip_offset_spec(mip as int + 1, len as int),
{
    mip_offset(mip + 1, len)
}

/// Length of mip level `k`: the distance between two neighbouring offsets.
pub open spec fn span_spec(k: int, len: int) -> int {
    mip_offset_spec(k + 1, len) - mip_offset_spec(k, len)
}

/// A ceiling quotient does not grow when the divisor grows.
proof fn lemma_ceil_div_mono(t: int, p: int, q: int)
    requires
        t >= 0,
        1 <= p <= q,
    ensures
        (t + p - 1) / p >= (t + q - 1) / q,
{
    if t == 0 {
        assert((p - 1) / p == 0) by (nonlinear_arith)
            requires
                p >= 1,
        ;
        assert((q - 1) / q == 0) by (nonlinear_arith)
            requires
                q >= 1,
        ;
    } else {
        vstd::arithmetic::div_mod::lemma_div_plus_one(t - 1, p);
        vstd::arithmetic::div_mod::lemma_div_plus_one(t - 1, q);
        vstd::arithmetic::div_mod::lemma_div_is_ordered_by_denominator(t - 1, p, q);
        assert(t + p - 1 == p + (t - 1));
        assert(t + q - 1 == q + (t - 1));
    }
}

/// Spans are non-negative, level zero spans the whole source, and each
/// offset is the one before plus that level's span.
pub proof fn lemma_span_basics(k: int, len: int)
    requires
        0 <= k <= 9,
        0 <= len <= 0x100_0000,
    ensures
        span_spec(k, len) >= 0,
        span_spec(0, len) == len,
        mip_offset_spec(k + 1, len) == mip_offset_spec(k, len) + span_spec(k, len),
        mip_offset_spec(0, len) == 0,
{
    lemma2_to64();
    lemma_pow2_pos(k as nat);
    lemma_pow2_pos((k + 1) as nat);
    lemma_pow2_strictly_increases(k as nat, (k + 1) as nat);
    lemma_ceil_div_mono(2 * len, pow2(k as nat) as int, pow2((k + 1) as nat) as int);
    assert((2 * len + 1) / 2 == len);
    assert((2 * len + 1 - 1) / 1 == 2 * len) by (nonlinear_arith);
}

/// No span is longer than the source itself.
pub proof fn lemma_span_le_len(k: int, len: int)
    requires
        0 <= k <= 9,
        0 <= len <= 0x100_0000,
    ensures
        span_spec(k, len) <= len,
        mip_offset_spec(k + 1, len) <= 2 * len,
{
    lemma_span_basics(0, len);
    if k == 0 {
        lemma_offset_mono(1, k + 1, len);
        lemma_pow2_pos((k + 1) as nat);
    } else {
        lemma_offset_mono(1, k, len);
        lemma_offset_mono(k + 1, 10, len);
        lemma_pow2_pos((k + 1) as nat);
        lemma2_to64();
    }
}

/// Offsets never decrease with the level.
pub proof fn lemma_offset_mono(k: int, m: int, len: int)
    requires
        0 <= k <= m <= 10,
        0 <= len <= 0x100_0000,
    ensures
        mip_offset_spec(k, len) <= mip_offset_spec(m, len),
    decreases m - k,
{
    if k < m {
        lemma_span_basics(k, len);
        lemma_offset_mono(k + 1, m, len);
    }
}

/// The mip-offset law: level 0 starts at the buffer start; level `k >= 1`
/// starts at `len` plus the whole part of `len * (1 - 2^(1-k))`; offsets
/// grow strictly with the level; and the span of level `k` is exactly
/// `len / 2^k`. Stated for sources whose length the ten halvings divide
/// evenly, where every division is exact.
pub proof fn lemma_mip_offset_law(k: int, len: int)
    requires
        0 <= k <= 10,
        len >= 1024,
        len % 1024 == 0,
    ensures
        mip_offset_spec(0, len) == 0,
        k >= 1 ==> mip_offset_spec(k, len) == len + len * (pow2((k - 1) as nat) - 1) / (
        pow2((k - 1) as nat) as int),
        k < 10 ==> mip_offset_spec(k, len) < mip_offset_spec(k + 1, len),
        k < 10 ==> mip_offset_spec(k + 1, len) - mip_offset_spec(k, len) == len / (pow2(
            k as nat,
        ) as int),
{
    lemma_exact_offset(0, len);
    lemma_exact_offset(k, len);
    if k < 10 {
        lemma_exact_offset(k + 1, len);
        // span: 2*len/2^k - 2*len/2^(k+1) == len/2^k
        let p = pow2(k as nat) as int;
        lemma_pow2_pos(k as nat);
        lemma_pow2_pos((k + 1) as nat);
        lemma_pow2_adds(k as nat, 1);
        lemma2_to64();
        let m = len / p;
        lemma_exact_div(k as nat, len);
        lemma_exact_div((k + 1) as nat, len);
        assert(len == p * m);
        let m2 = len / (2 * p);
        assert(len == (2 * p) * m2);
        assert(p * m == (2 * p) * m2);
        assert(m == 2 * m2) by (nonlinear_arith)
            requires
                p >= 1,
                p * m == (2 * p) * m2,
        ;
        // 2*len / 2^k == 2*m and 2*len / 2^(k+1) == m
        lemma_div_multiples_vanish(2 * m, p);
        assert(p * (2 * m) == 2 * len) by (nonlinear_arith)
            requires
                len == p * m,
        ;
        lemma_div_multiples_vanish(m, 2 * p);
        assert((2 * p) * m == 2 * len) by (nonlinear_arith)
            requires
                len == p * m,
        ;
        assert((2 * len) / p == 2 * m);
        assert((2 * len) / (2 * p) == m);
        assert(m >= 1) by (nonlinear_arith)
            requires
                len >= 1024,
                p >= 1,
                p <= 1024,
                len == p * m,
        ;
        lemma_pow2_le_1024(k as nat);
    }
    if k >= 1 {
        // len + len*(2^(k-1) - 1)/2^(k-1) == 2*len - len/2^(k-1)
        let q = pow2((k - 1) as nat) as int;
        lemma_pow2_pos((k - 1) as nat);
        lemma_exact_div((k - 1) as nat, len);
        let n = len / q;
        assert(len == q * n);
        assert(len * (q - 1) == q * (len - n)) by (nonlinear_arith)
            requires
                len == q * n,
        ;
        lemma_div_multiples_vanish(len - n, q);
        // now relate to the ceiling form
        lemma_exact_offset(k, len);
        let p = pow2(k as nat) as int;
        lemma_pow2_pos(k as nat);
        lemma_pow2_adds((k - 1) as nat, 1);
        lemma2_to64();
        lemma_exact_div(k as nat, len);
        let m = len / p;
        assert(len == p * m);
        assert(p == 2 * q);
        // 2*len / 2^k == len / 2^(k-1) == n
        lemma_div_multiples_vanish(n, p);
        assert(p * n == 2 * len) by (nonlinear_arith)
            requires
                len == q * n,
                p == 2 * q,
        ;
    }
}

/// Powers of two up to the tenth are at most 1024.
proof fn lemma_pow2_le_1024(k: nat)
    requires
        k <= 10,
    ensures
        1 <= pow2(k) <= 1024,
{
    lemma_pow2_pos(k);
    if k < 10 {
        lemma_pow2_strictly_increases(k, 10);
    }
    lemma2_to64();
}

/// When `2^k` divides `len` evenly, the ceiling in `mip_offset_spec`
/// vanishes: the offset is exactly `2*len - 2*len / 2^k`.
proof fn lemma_exact_offset(k: int, len: int)
    requires
        0 <= k <= 10,
        len >= 1024,
        len % 1024 == 0,
    ensures
        mip_offset_spec(k, len) == 2 * len - (2 * len) / (pow2(k as nat) as int),
        (2 * len) % (pow2(k as nat) as int) == 0,
{
    let p = pow2(k as nat) as int;
    lemma_pow2_pos(k as nat);
    lemma_exact_div(k as nat, len);
    let m = len / p;
    assert(len == p * m);
    assert(2 * len == p * (2 * m)) by (nonlinear_arith)
        requires
            len == p * m,
    ;
    lemma_div_multiples_vanish(2 * m, p);
    vstd::arithmetic::div_mod::lemma_mod_multiples_basic(2 * m, p);
    assert((2 * m) * p == 2 * len) by (nonlinear_arith)
        requires
            2 * len == p * (2 * m),
    ;
    lemma_div_multiples_vanish_fancy(2 * m, p - 1, p);
    assert(p * (2 * m) + (p - 1) == 2 * len + p - 1);
}

/// `2^k` divides a multiple of 1024 evenly, for `k` at most ten, and the
/// quotient times `2^k` gives the length back.
proof fn lemma_exact_div(k: nat, len: int)
    requires
        k <= 10,
        len % 1024 == 0,
    ensures
        len == (pow2(k) as int) * (len / (pow2(k) as int)),
    decreases 10 - k,
{
    let p = pow2(k) as int;
    lemma_pow2_pos(k);
    lemma_pow2_le_1024(k);
    let m = len / 1024;
    assert(len == 1024 * m) by {
        vstd::arithmetic::div_mod::lemma_fundamental_div_mod(len, 1024);
    }
    // 1024 == p * (1024 / p) since p is a power of two at most 1024
    lemma_pow2_le_1024(k);
    let c = pow2((10 - k) as nat) as int;
    lemma_pow2_pos((10 - k) as nat);
    lemma_pow2_adds(k, (10 - k) as nat);
    lemma2_to64();
    assert(p * c == 1024);
    assert(len == p * (c * m)) by (nonlinear_arith)
        requires
            len == 1024 * m,
            p * c == 1024,
    ;
    lemma_div_multiples_vanish(c * m, p);
}


/// A raw Q32 pitch ratio `raw` and its mip level after reduction: the
/// level is the smallest one with `raw / 2^mip <= 2`.
pub open spec fn ratio_reduced(raw: u64, mip: u32) -> bool {
    raw as int <= 0x2_0000_0000 * (pow2(mip as nat) as int) && (mip > 0 ==> raw as int
        > 0x2_0000_0000 * (pow2((mip - 1) as nat) as int))
}

/// Halve a raw pitch ratio into `(1, 2]`, counting the halvings.
pub fn reduce_ratio(raw: u64) -> (mip: u32)
    requires
        raw <= 0x40_0000_0000_0000,
    ensures
        ratio_reduced(raw, mip),
        mip <= 21,
{
    let mut mip: u32 = 0;
    let mut limit: u64 = 0x2_0000_0000;
    proof {
        lemma2_to64();
        vstd::arithmetic::power2::lemma_pow2_unfold(1);
    }
    while raw > limit
        invariant
            raw <= 0x40_0000_0000_0000,
            mip <= 21,
            limit as int == 0x2_0000_0000 * (pow2(mip as nat) as int),
            mip > 0 ==> raw as int > 0x2_0000_0000 * (pow2((mip - 1) as nat) as int),
        decreases 22 - mip,
    {
        proof {
            lemma_pow2_adds(mip as nat, 1);
            lemma2_to64();
        }
        limit = limit * 2;
        mip = mip + 1;
    }
    mip
}

/// Largest raw Q32 pitch ratio the reducer accepts.
pub const RAW_MAX: u64 = 0x40_0000_0000_0000;

/// Cap on the oversampling correction factor, Q32: a source may run at
/// most 32 times faster than the engine.
pub const BASE_MAX: u64 = 0x20_0000_0000;

/// The Q32 ratio between a played pitch and the root pitch:
/// `2^((note - root)/12)`, both ends in Q16 MIDI notes.
pub open spec fn spec_relative_pitch(note_q16: int, root_q16: int) -> int {
    spec_exp2_q32((((note_q16 - root_q16) / 12)) as i64)
}

/// How far one output sample moves the playback position:
/// `2^((note - root)/12)` scaled by the oversampling correction.
pub fn calc_relative_pitch(note_q16: i64, root_q16: i64) -> (r: u64)
    requires
        -0xc0_0000 <= note_q16 - root_q16 <= 0xc0_0000,
    ensures
        r as int == spec_relative_pitch(note_q16 as int, root_q16 as int),
        r <= 0x2_0000_0000_0000,
        note_q16 == root_q16 ==> r == RATIO_ONE,
{
    let diff: i64 = note_q16 - root_q16;
    let oct: i64 = fdiv_i64(diff, 12);
    proof {
        assert(-0x10_0000 <= (diff as int) / 12 <= 0x10_0000);
    }
    exp2_q32(oct)
}

/// The ratio bound law: after reduction the working ratio `raw / 2^mip`
/// lies in `(1, 2]` whenever the raw ratio exceeds one; a raw ratio of at
/// most one is left alone at level zero.
pub proof fn lemma_ratio_bound(raw: u64, mip: u32)
    requires
        ratio_reduced(raw, mip),
    ensures
        raw > RATIO_ONE ==> (RATIO_ONE as int) * (pow2(mip as nat) as int) < raw as int <= 2
            * (RATIO_ONE as int) * (pow2(mip as nat) as int),
        raw <= RATIO_ONE ==> mip == 0,
{
    lemma_pow2_pos(mip as nat);
    lemma2_to64();
    if mip > 0 {
        lemma_pow2_pos((mip - 1) as nat);
        lemma_pow2_adds((mip - 1) as nat, 1);
        lemma2_to64();
        assert(0x2_0000_0000 * (pow2((mip - 1) as nat) as int) == (RATIO_ONE as int) * (pow2(
            mip as nat,
        ) as int)) by (nonlinear_arith)
            requires
                pow2(mip as nat) == 2 * pow2((mip - 1) as nat),
        ;
    }
}

/// A channel padded to even length with one trailing zero.
pub open spec fn padded(src: Seq<i64>) -> Seq<i64> {
    if src.len() % 2 == 1 {
        src.push(0i64)
    } else {
        src
    }
}

/// The even-position samples of an interleaved stereo stream.
pub open spec fn split_left(src: Seq<i64>) -> Seq<i64> {
    Seq::new((src.len() / 2) as nat, |i: int| src[2 * i])
}

/// The odd-position samples of an interleaved stereo stream.
pub open spec fn split_right(src: Seq<i64>) -> Seq<i64> {
    Seq::new((src.len() / 2) as nat, |i: int| src[2 * i + 1])
}

/// The cycle length a source of `n` interleaved samples yields.
pub open spec fn padded_len(n: int, mono: bool) -> int {
    if mono {
        if n % 2 == 1 {
            n + 1
        } else {
            n
        }
    } else {
        if (n / 2) % 2 == 1 {
            n / 2 + 1
        } else {
            n / 2
        }
    }
}

/// One Q32 multiply of the cubic evaluation: `a * z / 2^32`, floored.
pub open spec fn fmulq32(a: int, z: int) -> int {
    (a * z) / 0x1_0000_0000
}

/// The cubic interpolant `((c3 z + c2) z + c1) z + c0`, each product
/// rescaled from Q32 right away.
pub open spec fn cubic_eval(c0: int, c1: int, c2: int, c3: int, z: int) -> int {
    fmulq32(fmulq32(fmulq32(c3, z) + c2, z) + c1, z) + c0
}

/// The playback position in phase units: the voice phase plus the start
/// offset, both counting source samples in Q32.
pub open spec fn play_pos(phase: u64, pos: u64, len: int) -> int {
    phase as int + (pos as int) * len
}

/// The coefficient-table index a position selects at a mip level.
pub open spec fn sample_index(t: int, mip: nat, len: int) -> int {
    mip_offset_spec(mip as int, len) + t / (0x1_0000_0000 * (pow2(mip) as int))
}

/// The Q32 fraction between two mip samples at that position.
pub open spec fn sample_frac_q32(t: int, mip: nat) -> int {
    (t % (0x1_0000_0000 * (pow2(mip) as int))) / (pow2(mip) as int)
}

/// One channel's output: the cubic at the selected index, centred
/// (`z = frac - 1/2` in Q32), scaled by the Q30 volume.
pub open spec fn channel_value(
    c0: Seq<i64>,
    c1: Seq<i64>,
    c2: Seq<i64>,
    c3: Seq<i64>,
    idx: int,
    z: int,
    vol: int,
) -> int {
    q30(cubic_eval(c0[idx] as int, c1[idx] as int, c2[idx] as int, c3[idx] as int, z) * vol)
}

/// The per-voice playback engine: the wavetable, the oversampling
/// correction, and each voice's reduced pitch ratio and mip level.
pub struct Sampler {
    pub data: SampleInterp,
    /// Q32 oversampling correction folded into every raw ratio
    pub base_pitch: u64,
    /// Q32 ratio at which the default table plays at the engine rate
    pub standard_pitch: u64,
    pub sample_rate: u32,
    /// per-voice raw Q32 ratio; the advance per output sample
    pub ratios: Vec<u64>,
    /// per-voice mip level selected by ratio reduction
    pub current_mip: Vec<u32>,
    /// per-voice one-shot flag
    pub is_done: Vec<bool>,
}

impl Sampler {
    /// What every method preserves: per-voice state for each slot, every
    /// raw ratio reduced against its mip level, and a well-formed table.
    pub open spec fn wf(&self) -> bool {
        &&& self.ratios@.len() == N_VOICES
        &&& self.current_mip@.len() == N_VOICES
        &&& self.is_done@.len() == N_VOICES
        &&& forall|i: int| 0 <= i < N_VOICES ==> #[trigger] self.ratios@[i] <= RAW_MAX
        &&& forall|i: int|
            0 <= i < N_VOICES ==> ratio_reduced(
                #[trigger] self.ratios@[i],
                self.current_mip@[i],
            )
        &&& self.base_pitch <= BASE_MAX
        &&& 1 <= self.sample_rate <= 0x10_0000
        &&& self.data.wf()
    }

    /// A silent sampler over an empty table, every voice finished.
    pub fn new() -> (s: Sampler)
        ensures
            s.wf(),
            s.data.len == 0,
            s.base_pitch == RATIO_ONE,
            s.standard_pitch == 184968806400,
            s.sample_rate == 44100,
            forall|i: int| 0 <= i < N_VOICES ==> #[trigger] s.is_done@[i],
            forall|i: int| 0 <= i < N_VOICES ==> #[trigger] s.ratios@[i] == 0,
    {
        let mut ratios: Vec<u64> = Vec::new();
        let mut current_mip: Vec<u32> = Vec::new();
        let mut is_done: Vec<bool> = Vec::new();
        let mut i: usize = 0;
        while i < N_VOICES
            invariant
                i <= N_VOICES,
                ratios@.len() == i,
                current_mip@.len() == i,
                is_done@.len() == i,
                forall|j: int| 0 <= j < i ==> #[trigger] ratios@[j] == 0,
                forall|j: int| 0 <= j < i ==> #[trigger] current_mip@[j] == 0,
                forall|j: int| 0 <= j < i ==> #[trigger] is_done@[j],
            decreases N_VOICES - i,
        {
            ratios.push(0);
            current_mip.push(0);
            is_done.push(true);
            i = i + 1;
        }
        proof {
            assert forall|j: int| 0 <= j < N_VOICES implies ratio_reduced(
                #[trigger] ratios@[j],
                current_mip@[j],
            ) by {
                lemma_pow2_pos(0);
            }
        }
        Sampler {
            data: SampleInterp::default(),
            // 2 * 44100 / 2048 in Q32: the table ratio of the start-up
            // source at the start-up rate
            standard_pitch: 184968806400,
            base_pitch: RATIO_ONE,
            sample_rate: 44100,
            ratios,
            current_mip,
            is_done,
        }
    }

    /// The Q16 pitch a voice plays: the tracked note pitch under keytrack,
    /// the fixed root otherwise, both offset by the tuning parameters.
    pub open spec fn target_pitch_q16(params: SamplerParams, v: Voice) -> int {
        if params.keytrack == OnOff::On {
            params.coarse_tune + params.fine_tune + v.current_notepitch
        } else {
            params.coarse_tune + params.fine_tune + (params.root as int) * 0x1_0000
        }
    }

    /// The raw Q32 ratio a voice advances by before reduction: the
    /// relative pitch times the oversampling correction.
    pub open spec fn raw_ratio_spec(&self, params: SamplerParams, v: Voice) -> int {
        (spec_relative_pitch(Self::target_pitch_q16(params, v), (params.root as int) * 0x1_0000) * (
        self.base_pitch as int)) / 0x1_0000_0000
    }

    /// Recompute one voice's pitch ratio and mip level.
    pub fn voice_pitch_changed(&mut self, params: &SamplerParams, voices: &Vec<Voice>, idx: usize)
        requires
            old(self).wf(),
            params.wf(),
            voices@.len() == N_VOICES,
            idx < N_VOICES,
            voices@[idx as int].pitch_wf(),
        ensures
            final(self).wf(),
            final(self).ratios@[idx as int] as int == old(self).raw_ratio_spec(
                *params,
                voices@[idx as int],
            ),
            forall|k: int|
                0 <= k < N_VOICES && k != idx ==> #[trigger] final(self).ratios@[k] == old(
                    self,
                ).ratios@[k],
            final(self).ratios@.len() == N_VOICES,
            ratio_reduced(final(self).ratios@[idx as int], final(self).current_mip@[idx as int]),
            final(self).data == old(self).data,
            final(self).base_pitch == old(self).base_pitch,
            final(self).standard_pitch == old(self).standard_pitch,
            final(self).sample_rate == old(self).sample_rate,
            final(self).is_done@ == old(self).is_done@,
    {
        let pitch: u64 = if params.keytrack == OnOff::On {
            calc_relative_pitch(
                params.coarse_tune + params.fine_tune + voices[idx].current_notepitch,
                (params.root as i64) * 0x1_0000,
            )
        } else {
            calc_relative_pitch(
                params.coarse_tune + params.fine_tune + (params.root as i64) * 0x1_0000,
                (params.root as i64) * 0x1_0000,
            )
        };
        proof {
            let bp: int = self.base_pitch as int;
            assert((pitch as int) * bp < 0x1_0000_0000_0000_0000_0000_0000 && (pitch as int) * bp
                / 0x1_0000_0000 <= RAW_MAX as int) by (nonlinear_arith)
                requires
                    pitch <= 0x2_0000_0000_0000,
                    0 <= bp <= BASE_MAX as int,
            ;
        }
        let raw: u64 = mul_shift32_u64(pitch, self.base_pitch);
        let mip: u32 = reduce_ratio(raw);
        self.ratios[idx] = raw;
        self.current_mip[idx] = mip;
    }

    /// Recompute every voice's pitch ratio and mip level.
    pub fn pitch_params_changed(&mut self, params: &SamplerParams, voices: &Vec<Voice>)
        requires
            old(self).wf(),
            params.wf(),
            voices@.len() == N_VOICES,
            forall|i: int| 0 <= i < N_VOICES ==> (#[trigger] voices@[i]).pitch_wf(),
        ensures
            final(self).wf(),
            final(self).ratios@.len() == N_VOICES,
            forall|i: int|
                0 <= i < N_VOICES ==> #[trigger] final(self).ratios@[i] as int == old(
                    self,
                ).raw_ratio_spec(*params, voices@[i]),
            final(self).data == old(self).data,
            final(self).base_pitch == old(self).base_pitch,
            final(self).standard_pitch == old(self).standard_pitch,
            final(self).sample_rate == old(self).sample_rate,
            final(self).is_done@ == old(self).is_done@,
    {
        let mut i: usize = 0;
        while i < N_VOICES
            invariant
                self.wf(),
                params.wf(),
                voices@.len() == N_VOICES,
                forall|k: int| 0 <= k < N_VOICES ==> (#[trigger] voices@[k]).pitch_wf(),
                i <= N_VOICES,
                self.base_pitch == old(self).base_pitch,
                self.data == old(self).data,
                self.standard_pitch == old(self).standard_pitch,
                self.sample_rate == old(self).sample_rate,
                self.is_done@ == old(self).is_done@,
                forall|k: int|
                    0 <= k < i ==> #[trigger] self.ratios@[k] as int == old(self).raw_ratio_spec(
                        *params,
                        voices@[k],
                    ),
            decreases N_VOICES - i,
        {
            self.voice_pitch_changed(params, voices, i);
            i = i + 1;
        }
    }

    /// Set the oversampling correction from the source's own rate:
    /// `source_rate / (2 * engine_rate)` in Q32, saturated at the cap.
    pub fn set_base_pitch(&mut self, params: &SamplerParams)
        requires
            old(self).wf(),
            params.wf(),
        ensures
            final(self).wf(),
            final(self).base_pitch as int == if (params.sample_sample_rate as int) * 0x1_0000_0000
                / (2 * old(self).sample_rate as int) > BASE_MAX as int {
                BASE_MAX as int
            } else {
                (params.sample_sample_rate as int) * 0x1_0000_0000 / (2 * old(
                    self,
                ).sample_rate as int)
            },
            *final(self) == (Sampler { base_pitch: final(self).base_pitch, ..*old(self) }),
    {
        let rate_of_sample: u64 = params.sample_sample_rate as u64;
        let b: u64 = (rate_of_sample * 0x1_0000_0000) / (2 * (self.sample_rate as u64));
        self.base_pitch = if b > BASE_MAX {
            BASE_MAX
        } else {
            b
        };
    }

    /// Remember the engine rate and derive the ratio at which the whole
    /// table spans one engine period: `2 * rate / len` in Q32, zero for an
    /// empty table.
    pub fn set_standard_pitch(&mut self, rate: u32)
        requires
            old(self).wf(),
            1 <= rate <= 0x10_0000,
        ensures
            final(self).wf(),
            final(self).sample_rate == rate,
            final(self).standard_pitch as int == if old(self).data.len > 0 {
                (rate as int) * 2 * 0x1_0000_0000 / (old(self).data.len as int)
            } else {
                0
            },
            *final(self) == (Sampler {
                sample_rate: rate,
                standard_pitch: final(self).standard_pitch,
                ..*old(self)
            }),
    {
        self.sample_rate = rate;
        self.standard_pitch = if self.data.len > 0 {
            ((rate as u64) * 2 * 0x1_0000_0000) / (self.data.len as u64)
        } else {
            0
        };
    }
}

/// Rendering advances the phase congruently modulo the window: a run of
/// phases in which each is the wrapped advance of the one before lands,
/// after `n` steps, on the start phase plus `n` ratios, modulo the
/// window. This is the chained form of the phase clause of `render_rel`.
pub proof fn lemma_phase_chain(ps: Seq<u64>, ratio: int, w: int, n: int)
    requires
        w >= 1,
        0 <= n < ps.len(),
        forall|i: int|
            0 <= i < ps.len() - 1 ==> ((#[trigger] ps[i]) as int + ratio) % w == (ps[i + 1] as int)
                % w,
    ensures
        (ps[n] as int) % w == (ps[0] as int + n * ratio) % w,
    decreases n,
{
    if n == 0 {
        assert(n * ratio == 0) by (nonlinear_arith)
            requires
                n == 0,
        ;
    } else {
        lemma_phase_chain(ps, ratio, w, n - 1);
        let a = ps[n - 1] as int;
        let b = ps[0] as int + (n - 1) * ratio;
        vstd::arithmetic::div_mod::lemma_add_mod_noop(a, ratio, w);
        vstd::arithmetic::div_mod::lemma_add_mod_noop(b, ratio, w);
        vstd::arithmetic::div_mod::lemma_mod_twice(a, w);
        vstd::arithmetic::div_mod::lemma_mod_twice(b, w);
        let s = ps[0] as int;
        assert((s + (n - 1) * ratio) + ratio == s + n * ratio) by (nonlinear_arith);
        assert(a % w == b % w);
        assert((a + ratio) % w == (ps[n] as int) % w);
        assert((a + ratio) % w == (b + ratio) % w);
        assert(b + ratio == s + n * ratio);
    }
}

/// The phase round-trip law: with looping enabled and a fixed ratio,
/// once the total advance is a whole number of window lengths, the phase
/// is back where it started — two phases inside the window that agree
/// modulo the window are the same phase.
pub proof fn lemma_phase_round_trip(p0: u64, p1: u64, w: int, total: int)
    requires
        w >= 1,
        0 < p0 <= w,
        0 < p1 <= w,
        (p1 as int) % w == ((p0 as int) + total) % w,
        total % w == 0,
    ensures
        p1 == p0,
{
    vstd::arithmetic::div_mod::lemma_fundamental_div_mod(total, w);
    vstd::arithmetic::div_mod::lemma_mod_multiples_vanish(total / w, p0 as int, w);
    if p0 as int == w {
        vstd::arithmetic::div_mod::lemma_mod_self_0(w);
    } else {
        vstd::arithmetic::div_mod::lemma_small_mod(p0 as nat, w as nat);
    }
    if p1 as int == w {
        vstd::arithmetic::div_mod::lemma_mod_self_0(w);
    } else {
        vstd::arithmetic::div_mod::lemma_small_mod(p1 as nat, w as nat);
    }
}

/// The one-shot law, first half: with looping disabled, a render call
/// finishes the voice exactly when the advanced phase leaves the playback
/// window; a finished voice stays finished.
pub proof fn lemma_one_shot_done(
    s0: Sampler,
    s1: Sampler,
    p0: u64,
    p1: u64,
    params: SamplerParams,
    v: int,
    o0: i64,
    o1: i64,
)
    requires
        render_rel(s0, s1, p0, p1, params, v, o0, o1),
        s0.wf(),
        0 <= v < N_VOICES,
        s0.data.len > 0,
        params.is_looping == OnOff::Off,
    ensures
        s1.is_done@[v] == (s0.is_done@[v] || p0 as int + s0.ratios@[v] + (params.pos as int) * (
        s0.data.len as int) > (s0.data.len as int) * 0x1_0000_0000),
{
}

/// The one-shot law, second half: rendering never un-finishes a voice —
/// once a slot's flag is set, every later render leaves it set, and the
/// silence of a finished voice is the `process` contract's own promise.
pub proof fn lemma_one_shot_monotone(
    s0: Sampler,
    s1: Sampler,
    p0: u64,
    p1: u64,
    params: SamplerParams,
    v: int,
    o0: i64,
    o1: i64,
)
    requires
        render_rel(s0, s1, p0, p1, params, v, o0, o1),
        s0.is_done@.len() == N_VOICES,
        0 <= v < N_VOICES,
    ensures
        forall|i: int| 0 <= i < N_VOICES && s0.is_done@[i] ==> #[trigger] s1.is_done@[i],
{
}

/// The whole chain from a built table to a rendered frame: when the left
/// channel's coefficient rows are ready and the voice reads a position
/// whose mip level holds at least four samples, the rendered left output
/// is the volume-scaled cubic whose four coefficients blend the level's
/// own samples cyclically around the selected position. The right channel
/// follows the same chain through its own rows.
pub proof fn lemma_render_uses_blended_coeffs(
    s0: Sampler,
    s1: Sampler,
    p0: u64,
    p1: u64,
    params: SamplerParams,
    v: int,
    o0: i64,
    o1: i64,
)
    requires
        render_rel(s0, s1, p0, p1, params, v, o0, o1),
        s0.wf(),
        params.wf(),
        s0.data.left_ready(),
        0 <= v < N_VOICES,
        s0.data.len > 0,
        p0 as int <= (s0.data.len as int) * 0x1_0000_0000,
        crate::interp::coeff_covered(
            s0.data.len as int,
            sample_index(
                play_pos(p0, params.pos, s0.data.len as int),
                s0.current_mip@[v] as nat,
                s0.data.len as int,
            ),
        ),
    ensures
        ({
            let len = s0.data.len as int;
            let mips = crate::interp::mip_concat(s0.data.source_l@, MIP_LEVELS as nat);
            let t = play_pos(p0, params.pos, len);
            let idx = sample_index(t, s0.current_mip@[v] as nat, len);
            let z = sample_frac_q32(t, s0.current_mip@[v] as nat) - 0x8000_0000;
            let n = crate::interp::level_of_from(idx, len, 0);
            let x = crate::interp::level_slice(mips, len, n);
            let j = idx - mip_offset_spec(n, len);
            o0 as int == q30(
                cubic_eval(
                    crate::interp::blend_c0(x, j),
                    crate::interp::blend_c1(x, j),
                    crate::interp::blend_c2(x, j),
                    crate::interp::blend_c3(x, j),
                    z,
                ) * (params.volume as int),
            )
        }),
{
    let len = s0.data.len as int;
    let mip = s0.current_mip@[v] as nat;
    let t = play_pos(p0, params.pos, len);
    let idx = sample_index(t, mip, len);
    lemma_mip_le_21(s0.ratios@[v], s0.current_mip@[v]);
    assert((params.pos as int) * len < len * 0x1_0000_0000) by (nonlinear_arith)
        requires
            0 <= (params.pos as int) < 0x1_0000_0000,
            len >= 1,
    ;
    lemma_index_bound(t, mip, len);
    assert(0 <= idx < 2 * len);
}

/// A reduced ratio within the accepted raw range sits at most 21 levels
/// down.
proof fn lemma_mip_le_21(raw: u64, mip: u32)
    requires
        ratio_reduced(raw, mip),
        raw <= RAW_MAX,
    ensures
        mip <= 21,
{
    if mip > 21 {
        lemma2_to64();
        vstd::arithmetic::power2::lemma2_to64_rest();
        lemma_pow2_strictly_increases(21, (mip - 1) as nat);
        assert(0x2_0000_0000 * (pow2((mip - 1) as nat) as int) >= 0x2_0000_0000 * (pow2(
            21,
        ) as int)) by (nonlinear_arith)
            requires
                pow2((mip - 1) as nat) >= pow2(21),
        ;
    }
}

/// The selected coefficient index stays inside the table whenever the
/// playback position stays under two cycles.
proof fn lemma_index_bound(t: int, mip: nat, len: int)
    requires
        1 <= len <= 0x100_0000,
        0 <= t < 2 * len * 0x1_0000_0000,
        mip <= 31,
    ensures
        0 <= sample_index(t, mip, len) < 2 * len,
        0 <= sample_frac_q32(t, mip) < 0x1_0000_0000,
{
    let p = pow2(mip) as int;
    let d = 0x1_0000_0000 * p;
    lemma_pow2_pos(mip);
    vstd::arithmetic::div_mod::lemma_mod_bound(t, d);
    vstd::arithmetic::div_mod::lemma_div_is_ordered_by_denominator(t % d, p, p);
    assert((t % d) / p < 0x1_0000_0000) by (nonlinear_arith)
        requires
            p >= 1,
            0 <= t % d < 0x1_0000_0000 * p,
    ;
    assert((t % d) / p >= 0) by (nonlinear_arith)
        requires
            p >= 1,
            t % d >= 0,
    ;
    assert(t / d >= 0) by (nonlinear_arith)
        requires
            d >= 1,
            t >= 0,
    ;
    if mip <= 10 {
        let c = (2 * len + p - 1) / p;
        vstd::arithmetic::div_mod::lemma_fundamental_div_mod(2 * len + p - 1, p);
        assert(c * p >= 2 * len);
        assert(c >= 1) by (nonlinear_arith)
            requires
                p >= 1,
                c * p >= 2 * len,
                len >= 1,
        ;
        assert(p * c <= 2 * len + p - 1);
        assert(c <= 2 * len) by (nonlinear_arith)
            requires
                p * c <= 2 * len + p - 1,
                p >= 1,
                len >= 1,
                c >= 0,
        ;
        assert(mip_offset_spec(mip as int, len) == 2 * len - c);
        assert(t < c * d) by (nonlinear_arith)
            requires
                t < 2 * len * 0x1_0000_0000,
                c * p >= 2 * len,
                d == 0x1_0000_0000 * p,
                p >= 1,
        ;
        assert(t / d < c) by (nonlinear_arith)
            requires
                d >= 1,
                0 <= t < c * d,
        ;
    } else {
        assert(mip_offset_spec(mip as int, len) == 0);
        assert(t / d < 2 * len) by (nonlinear_arith)
            requires
                d >= 0x1_0000_0000,
                0 <= t < 2 * len * 0x1_0000_0000,
                len >= 1,
        ;
    }
}

/// Evaluate the cubic of one channel at a position and apply the volume
/// gain.
fn eval_channel(c0: i64, c1: i64, c2: i64, c3: i64, z: i64, vol: i64) -> (r: i64)
    requires
        -COEF_BOUND <= c0 <= COEF_BOUND,
        -COEF_BOUND <= c1 <= COEF_BOUND,
        -COEF_BOUND <= c2 <= COEF_BOUND,
        -COEF_BOUND <= c3 <= COEF_BOUND,
        -0x8000_0000 <= z <= 0x8000_0000,
        0 <= vol <= 0x4000_0000,
    ensures
        r as int == q30(cubic_eval(c0 as int, c1 as int, c2 as int, c3 as int, z as int) * (
        vol as int)),
        -0x1000_0000 <= r <= 0x1000_0000,
{
    proof {
        lemma_stage_bound(c3 as int, z as int, 0x800_0000);
    }
    let s3: i64 = fdiv_i64(c3 * z, 0x1_0000_0000);
    proof {
        lemma_stage_bound(s3 as int + c2 as int, z as int, 0xc00_0001);
    }
    let s2: i64 = fdiv_i64((s3 + c2) * z, 0x1_0000_0000);
    proof {
        lemma_stage_bound(s2 as int + c1 as int, z as int, 0xe00_0002);
    }
    let s1: i64 = fdiv_i64((s2 + c1) * z, 0x1_0000_0000);
    let v: i64 = s1 + c0;
    proof {
        assert((v as int) * (vol as int) <= 0x3c0_0001_0000_0000 && (v as int) * (vol as int)
            >= -0x3c0_0001_0000_0000) by (nonlinear_arith)
            requires
                -0xf00_0004 <= v as int <= 0xf00_0004,
                0 <= vol as int <= 0x4000_0000,
        ;
        vstd::arithmetic::div_mod::lemma_div_is_ordered(
            (v as int) * (vol as int),
            0x3c0_0001_0000_0000,
            0x4000_0000,
        );
        vstd::arithmetic::div_mod::lemma_div_is_ordered(
            -0x3c0_0001_0000_0000,
            (v as int) * (vol as int),
            0x4000_0000,
        );
    }
    fdiv_i64(v * vol, 0x4000_0000)
}

/// One Horner stage: a bounded operand times a Q32 offset, rescaled, is
/// half the operand's bound.
proof fn lemma_stage_bound(a: int, z: int, amax: int)
    requires
        -amax <= a <= amax,
        0 <= amax <= 0x1000_0000,
        -0x8000_0000 <= z <= 0x8000_0000,
    ensures
        -(amax / 2) - 1 <= (a * z) / 0x1_0000_0000 <= amax / 2,
        -0x4000_0000_0000_0000 <= a * z <= 0x4000_0000_0000_0000,
{
    assert(-amax * 0x8000_0000 <= a * z <= amax * 0x8000_0000) by (nonlinear_arith)
        requires
            -amax <= a <= amax,
            amax >= 0,
            -0x8000_0000 <= z <= 0x8000_0000,
    ;
    assert(amax * 0x8000_0000 <= 0x1000_0000 * 0x8000_0000) by (nonlinear_arith)
        requires
            amax <= 0x1000_0000,
    ;
    assert((-amax) * 0x8000_0000 == -(amax * 0x8000_0000)) by (nonlinear_arith);
    vstd::arithmetic::div_mod::lemma_div_is_ordered(
        a * z,
        amax * 0x8000_0000,
        0x1_0000_0000,
    );
    vstd::arithmetic::div_mod::lemma_div_is_ordered(
        -(amax * 0x8000_0000),
        a * z,
        0x1_0000_0000,
    );
    assert((amax * 0x8000_0000) / 0x1_0000_0000 == amax / 2) by (nonlinear_arith);
    assert((-(amax * 0x8000_0000)) / 0x1_0000_0000 >= -(amax / 2) - 1) by (nonlinear_arith);
}

/// Everything one render call does: the outputs are the volume-scaled
/// cubics of both channels at the position the old phase selects; the
/// phase advances by the voice's raw ratio and wraps back into the
/// playback window, exactly as subtraction of the window length; a wrap
/// with looping disabled finishes the voice; nothing else changes.
pub open spec fn render_rel(
    s0: Sampler,
    s1: Sampler,
    p0: u64,
    p1: u64,
    params: SamplerParams,
    voice_n: int,
    o0: i64,
    o1: i64,
) -> bool {
    let len = s0.data.len as int;
    let mip = s0.current_mip@[voice_n] as nat;
    let ratio = s0.ratios@[voice_n] as int;
    let t = play_pos(p0, params.pos, len);
    let idx = sample_index(t, mip, len);
    let z = sample_frac_q32(t, mip) - 0x8000_0000;
    let cycle = len * 0x1_0000_0000;
    let pos_p = (params.pos as int) * len;
    let w = cycle - pos_p;
    let stereo = !params.sample_mono && s0.data.c0_r@.len() == 2 * len;
    let wrapped = p0 + ratio + pos_p > cycle;
    &&& s1.data == s0.data
    &&& s1.ratios@ == s0.ratios@
    &&& s1.current_mip@ == s0.current_mip@
    &&& s1.base_pitch == s0.base_pitch
    &&& s1.standard_pitch == s0.standard_pitch
    &&& s1.sample_rate == s0.sample_rate
    &&& (len == 0 ==> o0 == 0 && o1 == 0 && p1 == p0 && s1.is_done@ == s0.is_done@)
    &&& (len > 0 ==> {
        &&& o0 as int == channel_value(
            s0.data.c0_l@,
            s0.data.c1_l@,
            s0.data.c2_l@,
            s0.data.c3_l@,
            idx,
            z,
            params.volume as int,
        )
        &&& o1 as int == if stereo {
            channel_value(
                s0.data.c0_r@,
                s0.data.c1_r@,
                s0.data.c2_r@,
                s0.data.c3_r@,
                idx,
                z,
                params.volume as int,
            )
        } else {
            o0 as int
        }
        &&& p1 as int + pos_p <= cycle
        &&& (p1 as int) % w == (p0 as int + ratio) % w
        &&& (!wrapped ==> p1 as int == p0 as int + ratio)
        &&& (wrapped ==> p1 > 0)
        &&& s1.is_done@ == if wrapped && params.is_looping == OnOff::Off {
            s0.is_done@.update(voice_n, true)
        } else {
            s0.is_done@
        }
    })
}

impl Sampler {
    /// Render one stereo frame for a voice from the playback position its
    /// phase selects, then advance and wrap the phase.
    #[verifier::loop_isolation(false)]
    #[verifier::rlimit(50)]
    pub fn get_sample(&mut self, voice_n: usize, phase: &mut u64, params: &SamplerParams) -> (out:
        [i64; 2])
        requires
            old(self).wf(),
            params.wf(),
            voice_n < N_VOICES,
            *old(phase) <= (old(self).data.len as int) * 0x1_0000_0000,
        ensures
            final(self).wf(),
            render_rel(
                *old(self),
                *final(self),
                *old(phase),
                *final(phase),
                *params,
                voice_n as int,
                out[0],
                out[1],
            ),
            *final(phase) <= (old(self).data.len as int) * 0x1_0000_0000,
            -0x1000_0000 <= out[0] <= 0x1000_0000,
            -0x1000_0000 <= out[1] <= 0x1000_0000,
    {
        let len: usize = self.data.len;
        if len == 0 {
            proof {
                assert(*old(phase) == *phase);
            }
            return [0i64, 0i64];
        }
        let current_mip: u32 = self.current_mip[voice_n];
        let ratio: u64 = self.ratios[voice_n];
        let pos: u64 = params.pos;
        proof {
            lemma_mip_le_21(ratio, current_mip);
        }
        let mip_off: usize = mip_offset(current_mip as usize, len);
        let p2: u64 = pow2_u64(current_mip as u64);
        proof {
            lemma_pow2_strictly_increases(current_mip as nat, 22);
            lemma2_to64();
            vstd::arithmetic::power2::lemma2_to64_rest();
        }
        let scale: u64 = p2 * 0x1_0000_0000;
        proof {
            assert((pos as int) * (len as int) < (len as int) * 0x1_0000_0000) by (nonlinear_arith)
                requires
                    pos < 0x1_0000_0000,
                    len >= 1,
            ;
            assert((len as int) * 0x1_0000_0000 <= 0x100_0000_0000_0000);
        }
        let pos_p: u64 = pos * (len as u64);
        let t: u64 = *phase + pos_p;
        proof {
            lemma_index_bound(t as int, current_mip as nat, len as int);
        }
        let idx_local: u64 = t / scale;
        let rem: u64 = t % scale;
        let frac: u64 = rem / p2;
        let z: i64 = (frac as i64) - 0x8000_0000;
        let index: usize = mip_off + (idx_local as usize);
        let vol: i64 = params.volume as i64;
        let out_l: i64 = eval_channel(
            self.data.c0_l[index],
            self.data.c1_l[index],
            self.data.c2_l[index],
            self.data.c3_l[index],
            z,
            vol,
        );
        let stereo: bool = !params.sample_mono && self.data.c0_r.len() == 2 * len;
        let out_r: i64 = if stereo {
            eval_channel(
                self.data.c0_r[index],
                self.data.c1_r[index],
                self.data.c2_r[index],
                self.data.c3_r[index],
                z,
                vol,
            )
        } else {
            out_l
        };
        let cycle: u64 = (len as u64) * 0x1_0000_0000;
        let w: u64 = cycle - pos_p;
        let p_adv: u64 = *phase + ratio;
        let mut ph: u64 = p_adv;
        while ph + pos_p > cycle
            invariant
                self.wf(),
                len == self.data.len,
                1 <= len,
                voice_n < N_VOICES,
                cycle == (len as int) * 0x1_0000_0000,
                pos_p == (pos as int) * (len as int),
                pos_p < cycle,
                w == cycle - pos_p,
                w >= 1,
                ph <= p_adv,
                ph == p_adv || p_adv as int + pos_p as int > cycle as int,
                p_adv as int <= (len as int) * 0x1_0000_0000 + RAW_MAX as int,
                (ph as int) % (w as int) == (p_adv as int) % (w as int),
                ph == p_adv || ph > 0,
                self.data == old(self).data,
                self.ratios@ == old(self).ratios@,
                self.current_mip@ == old(self).current_mip@,
                self.base_pitch == old(self).base_pitch,
                self.standard_pitch == old(self).standard_pitch,
                self.sample_rate == old(self).sample_rate,
                self.is_done@ == if ph < p_adv && params.is_looping == OnOff::Off {
                    old(self).is_done@.update(voice_n as int, true)
                } else {
                    old(self).is_done@
                },
            decreases ph,
        {
            proof {
                vstd::arithmetic::div_mod::lemma_mod_sub_multiples_vanish(ph as int, w as int);
                assert(old(self).is_done@.update(voice_n as int, true).update(
                    voice_n as int,
                    true,
                ) =~= old(self).is_done@.update(voice_n as int, true));
            }
            ph = ph - w;
            if params.is_looping == OnOff::Off {
                self.is_done[voice_n] = true;
            }
        }
        *phase = ph;
        [out_l, out_r]
    }

    /// Take in the freshly decoded source the parameters hold and rebuild
    /// the wavetable: split an interleaved stereo stream into its two
    /// channels, pad odd channels to even length with one trailing zero,
    /// refresh the oversampling correction and the standard pitch, and
    /// precompute the mip pyramid and its coefficients.
    #[verifier::rlimit(50)]
    pub fn source_changed(&mut self, params: &SamplerParams)
        requires
            old(self).wf(),
            params.wf(),
        ensures
            final(self).wf(),
            params.sample_mono ==> final(self).data.source_l@ == padded(params.source@)
                && final(self).data.left_ready() && final(self).data.c0_r@.len() == 0,
            !params.sample_mono ==> final(self).data.source_l@ == padded(split_left(params.source@))
                && final(self).data.source_r@ == padded(split_right(params.source@))
                && final(self).data.left_ready() && final(self).data.right_ready(),
            final(self).data.len == padded_len(params.source@.len() as int, params.sample_mono),
            final(self).ratios@ == old(self).ratios@,
            final(self).current_mip@ == old(self).current_mip@,
            final(self).is_done@ == old(self).is_done@,
            final(self).sample_rate == old(self).sample_rate,
            final(self).base_pitch as int == if (params.sample_sample_rate as int) * 0x1_0000_0000
                / (2 * old(self).sample_rate as int) > BASE_MAX as int {
                BASE_MAX as int
            } else {
                (params.sample_sample_rate as int) * 0x1_0000_0000 / (2 * old(
                    self,
                ).sample_rate as int)
            },
            final(self).standard_pitch as int == if padded_len(
                params.source@.len() as int,
                params.sample_mono,
            ) > 0 {
                (old(self).sample_rate as int) * 2 * 0x1_0000_0000 / padded_len(
                    params.source@.len() as int,
                    params.sample_mono,
                )
            } else {
                0
            },
    {
        if params.sample_mono {
            let mut src: Vec<i64> = crate::interp::copy_vec(&params.source);
            if src.len() % 2 != 0 {
                src.push(0i64);
            }
            self.data.source_l = src;
            self.set_base_pitch(params);
            self.data.setup_mono();
        } else {
            let mut left: Vec<i64> = Vec::new();
            let mut right: Vec<i64> = Vec::new();
            let pairs: usize = params.source.len() / 2;
            let mut i: usize = 0;
            while i < pairs
                invariant
                    pairs == params.source@.len() as int / 2,
                    2 * pairs <= params.source@.len(),
                    i <= pairs,
                    left@.len() == i,
                    right@.len() == i,
                    params.wf(),
                    forall|j: int| 0 <= j < i ==> #[trigger] left@[j] == params.source@[2 * j],
                    forall|j: int|
                        0 <= j < i ==> #[trigger] right@[j] == params.source@[2 * j + 1],
                decreases pairs - i,
            {
                proof {
                    assert(2 * (i as int) + 1 < params.source@.len()) by (nonlinear_arith)
                        requires
                            0 <= (i as int) && (i as int) < (pairs as int),
                            (pairs as int) == (params.source@.len() as int) / 2,
                    ;
                }
                left.push(params.source[2 * i]);
                right.push(params.source[2 * i + 1]);
                i = i + 1;
            }
            if left.len() % 2 != 0 {
                left.push(0i64);
                right.push(0i64);
            }
            proof {
                assert(left@ =~= padded(split_left(params.source@)));
                assert(right@ =~= padded(split_right(params.source@)));
            }
            self.data.source_l = left;
            self.data.source_r = right;
            self.set_base_pitch(params);
            self.data.setup_stereo();
        }
        let rate: u32 = self.sample_rate;
        self.set_standard_pitch(rate);
    }

    /// One frame of a voice: silence while the sampler is switched off or
    /// the voice has finished its one-shot, a rendered frame otherwise.
    pub fn process(&mut self, voice_n: usize, phase: &mut u64, params: &SamplerParams) -> (out:
        [i64; 2])
        requires
            old(self).wf(),
            params.wf(),
            voice_n < N_VOICES,
            *old(phase) <= (old(self).data.len as int) * 0x1_0000_0000,
        ensures
            final(self).wf(),
            *final(phase) <= (old(self).data.len as int) * 0x1_0000_0000,
            (params.is_on == OnOff::Off || old(self).is_done@[voice_n as int]) ==> out[0] == 0
                && out[1] == 0 && *final(phase) == *old(phase) && *final(self) == *old(self),
            !(params.is_on == OnOff::Off || old(self).is_done@[voice_n as int]) ==> render_rel(
                *old(self),
                *final(self),
                *old(phase),
                *final(phase),
                *params,
                voice_n as int,
                out[0],
                out[1],
            ),
            -0x1000_0000 <= out[0] <= 0x1000_0000,
            -0x1000_0000 <= out[1] <= 0x1000_0000,
    {
        if params.is_on == OnOff::Off || self.is_done[voice_n] {
            [0i64, 0i64]
        } else {
            self.get_sample(voice_n, phase, params)
        }
    }
}

} // verus!
