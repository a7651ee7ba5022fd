use sampler_rs::fixed::{exp2_frac_q32, exp2_q32, fdiv_i64, mul_q30, pow2_u64};
use sampler_rs::interp::{compute_coeffs, downsample_fir, mip_map, SAMPLE_BOUND};
use sampler_rs::resources::{check_wav_spec, convert_pcm16, convert_pcm24, LoadError};
use sampler_rs::sampler::{_mip_offset2, calc_relative_pitch, mip_offset, reduce_ratio};

#[test]
fn mip_offsets_match_the_geometric_table() {
    // for a 2048-sample cycle: 0, 2048, 3072, 3584, ... toward 4096
    let len = 2048usize;
    assert_eq!(mip_offset(0, len), 0);
    assert_eq!(mip_offset(1, len), 2048);
    assert_eq!(mip_offset(2, len), 3072);
    assert_eq!(mip_offset(3, len), 3584);
    assert_eq!(mip_offset(4, len), 3840);
    assert_eq!(mip_offset(10, len), 4092);
    // strictly increasing, spans of len / 2^k
    for k in 0..10usize {
        let span = mip_offset(k + 1, len) - mip_offset(k, len);
        assert_eq!(span, len >> k);
        assert!(mip_offset(k + 1, len) > mip_offset(k, len));
    }
}

#[test]
fn mip_offset_branch_free_variant_lands_one_level_down() {
    for mip in 1..=9usize {
        assert_eq!(_mip_offset2(mip, 2048), mip_offset(mip + 1, 2048));
    }
}

#[test]
fn ratio_reduction_halves_into_range() {
    let one: u64 = 1 << 32;
    // 5.0 halves twice into (1, 2]
    assert_eq!(reduce_ratio(5 * one), 2);
    // 2.0 needs no halving
    assert_eq!(reduce_ratio(2 * one), 0);
    // anything at or below one stays at level zero
    assert_eq!(reduce_ratio(one), 0);
    assert_eq!(reduce_ratio(one / 2), 0);
    assert_eq!(reduce_ratio(0), 0);
    // a huge ratio still lands in range
    let raw = 1000 * one;
    let mip = reduce_ratio(raw);
    assert!(raw <= (2 * one) << mip);
    assert!(raw > one << mip);
}

#[test]
fn exponential_hits_exact_powers_of_two() {
    let one: u64 = 1 << 32;
    assert_eq!(exp2_q32(0), one);
    assert_eq!(exp2_q32(0x1_0000), 2 * one);
    assert_eq!(exp2_q32(2 * 0x1_0000), 4 * one);
    assert_eq!(exp2_q32(-0x1_0000), one / 2);
    // half an octave is the square root of two
    assert_eq!(exp2_frac_q32(0x8000), 6074001000);
}

#[test]
fn relative_pitch_in_octaves_and_semitones() {
    let one: u64 = 1 << 32;
    let q16 = 0x1_0000i64;
    assert_eq!(calc_relative_pitch(60 * q16, 60 * q16), one);
    assert_eq!(calc_relative_pitch(72 * q16, 60 * q16), 2 * one);
    assert_eq!(calc_relative_pitch(48 * q16, 60 * q16), one / 2);
    // one semitone up is close to 2^(1/12)
    let semi = calc_relative_pitch(61 * q16, 60 * q16) as f64 / one as f64;
    assert!((semi - 1.059_463_094).abs() < 1e-4);
}

#[test]
fn fixed_point_division_floors_toward_negative_infinity() {
    assert_eq!(fdiv_i64(7, 2), 3);
    assert_eq!(fdiv_i64(-7, 2), -4);
    assert_eq!(fdiv_i64(-8, 2), -4);
    assert_eq!(fdiv_i64(0, 5), 0);
    assert_eq!(mul_q30(1 << 30, 1 << 30), 1 << 30);
    assert_eq!(mul_q30(-(1 << 30), 1 << 29), -(1 << 29));
    assert_eq!(pow2_u64(10), 1024);
}

#[test]
fn wav_spec_gate_names_each_rejection() {
    assert_eq!(check_wav_spec(16, 44100, 1), Ok(()));
    assert_eq!(check_wav_spec(24, 48000, 2), Ok(()));
    assert_eq!(check_wav_spec(32, 96000, 2), Ok(()));
    assert_eq!(
        check_wav_spec(8, 44100, 1),
        Err(LoadError::UnsupportedBitDepth)
    );
    assert_eq!(check_wav_spec(16, 0, 1), Err(LoadError::ZeroSampleRate));
    assert_eq!(check_wav_spec(16, 44100, 3), Err(LoadError::TooManyChannels));
    assert_eq!(check_wav_spec(16, 44100, 0), Err(LoadError::TooManyChannels));
}

#[test]
fn pcm_words_normalise_to_q24_full_scale() {
    let q16 = convert_pcm16(&vec![32767i16, -32767, 0, 16384]);
    assert_eq!(q16[0], 1 << 24);
    assert_eq!(q16[1], -(1 << 24));
    assert_eq!(q16[2], 0);
    // 16384/32767 is just over one half
    assert!((q16[3] - (1 << 23)).abs() <= 512);

    let q24 = convert_pcm24(&vec![0x7f_ffffi32, -0x7f_ffff, 0]);
    assert_eq!(q24[0], 1 << 24);
    assert_eq!(q24[1], -(1 << 24));
    assert_eq!(q24[2], 0);
}

#[test]
fn mip_pyramid_keeps_a_constant_signal_constant() {
    let x: i64 = 1 << 20;
    let len = 1024usize;
    let fir = downsample_fir();
    let mips = mip_map(&fir, vec![x; len]);
    assert_eq!(mips.len(), mip_offset(10, len));
    // the low-pass has unit gain, so every level stays at the level of
    // the source up to rounding
    for level in 1..=9usize {
        let lo = mip_offset(level, len);
        let hi = mip_offset(level + 1, len);
        for p in lo..hi {
            assert!((mips[p] - x).abs() <= 16, "level {} holds {}", level, mips[p]);
        }
    }
}

#[test]
fn cubic_coefficients_follow_the_blend_formulas() {
    // an eight-sample cycle with distinct values
    let src: Vec<i64> = vec![0, 1 << 20, 1 << 21, 1 << 20, 0, -(1 << 20), -(1 << 21), -(1 << 20)];
    let len = src.len();
    let fir = downsample_fir();
    let mips = mip_map(&fir, src.clone());
    let t = compute_coeffs(&mips, len);
    assert_eq!(t.c0.len(), 2 * len);
    // check position 3 of level 0 against the published constants
    let j = 3usize;
    let e1 = (src[j + 1] + src[j]) as i128;
    let o1 = (src[j + 1] - src[j]) as i128;
    let e2 = (src[j + 2] + src[j - 1]) as i128;
    let o2 = (src[j + 2] - src[j - 1]) as i128;
    let q30 = |x: i128| -> i64 { (x >> 30) as i64 };
    assert_eq!(t.c0[j], q30(e1 * 492514324 + e2 * 44360590));
    assert_eq!(t.c1[j], q30(o1 * 516126485 + o2 * 188741538));
    assert_eq!(t.c2[j], q30(e1 * -264339138 + e2 * 264291103));
    assert_eq!(t.c3[j], q30(o1 * -386879114 + o2 * 109253077));
    // wraparound at the cycle start: the left neighbour is the last sample
    let e2w = (src[2] + src[len - 1]) as i128;
    let e1w = (src[1] + src[0]) as i128;
    assert_eq!(t.c0[0], q30(e1w * 492514324 + e2w * 44360590));
}

#[test]
fn samples_stay_within_the_saturation_bound() {
    let fir = downsample_fir();
    let loud = vec![SAMPLE_BOUND; 512];
    let mips = mip_map(&fir, loud);
    for v in &mips {
        assert!(*v <= SAMPLE_BOUND && *v >= -SAMPLE_BOUND);
    }
}
