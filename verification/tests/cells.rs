use sampler_rs::utils::{AtomicBool, AtomicF32, AtomicOps};
use sampler_rs::voice::Voice;

#[test]
fn flag_check_reset_consumes_exactly_once() {
    let flag = AtomicBool::new(false);
    assert!(!flag.check_reset());
    flag.set_release(true);
    assert!(flag.check_reset());
    assert!(!flag.check_reset());
    assert!(!flag.get());
    flag.set(true);
    assert!(flag.get());
}

#[test]
fn float_cell_round_trips_bit_patterns() {
    let cell = AtomicF32::new(1.5f32.to_bits());
    assert_eq!(f32::from_bits(cell.get()), 1.5);
    cell.set((-0.25f32).to_bits());
    assert_eq!(f32::from_bits(cell.get()), -0.25);
}

#[test]
fn glide_steps_toward_target_and_clamps() {
    let mut v = Voice::new();
    v.is_on = true;
    v.current_notepitch = 60 * 0x1_0000;
    v.target_notepitch = 62 * 0x1_0000;
    v.increment = 0x1_8000; // one and a half semitones per step
    assert!(v.update_pitch());
    assert_eq!(v.current_notepitch, 60 * 0x1_0000 + 0x1_8000);
    assert!(v.update_pitch());
    // the second step overshoots and clamps at the target
    assert_eq!(v.current_notepitch, 62 * 0x1_0000);
    assert!(!v.update_pitch());
    assert_eq!(v.current_notepitch, 62 * 0x1_0000);
}

#[test]
fn release_only_silences() {
    let mut v = Voice::new();
    v.is_on = true;
    v.current_note = 72;
    v.release();
    assert!(!v.is_on);
    assert_eq!(v.current_note, 72);
}

#[test]
fn sample_names_print_and_round_trip() {
    let n = sampler_rs::resources::SampleName(String::from("kick.wav"));
    assert_eq!(n.name(), "kick.wav");
    let list = sampler_rs::resources::samples(vec![String::from("a.wav")]);
    assert_eq!(list.len(), 1);
    assert_eq!(list[0].0, "a.wav");
}
