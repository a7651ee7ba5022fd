use sampler_rs::params::OnOff;
use sampler_rs::resources::samples;
use sampler_rs::sampler::N_VOICES;
use sampler_rs::{NoteEvent, NoteEventKind, Plug};

#[test]
fn print_samples() {
    let tables = samples(vec![
        String::from("Hard kick 1.wav"),
        String::from("snare.wav"),
    ]);
    println!("{:#?}", tables);
}

fn on(t: u32, note: u8) -> NoteEvent {
    NoteEvent {
        timing: t,
        kind: NoteEventKind::NoteOn,
        note,
    }
}

fn off(t: u32, note: u8) -> NoteEvent {
    NoteEvent {
        timing: t,
        kind: NoteEventKind::NoteOff,
        note,
    }
}

#[test]
fn poly_fills_free_slots_in_order() {
    let mut plug = Plug::default();
    for (i, note) in (60u8..68u8).enumerate() {
        plug.note_on(note);
        assert!(plug.voices[i].is_on);
        assert_eq!(plug.voices[i].current_note, note);
    }
}

#[test]
fn voice_stealing_picks_lowest_note_first_slot() {
    // eight active voices holding notes 60..=67; a ninth note steals the
    // slot with the minimum note, which is slot 0
    let mut plug = Plug::default();
    for note in 60u8..68u8 {
        plug.note_on(note);
    }
    plug.note_on(72);
    assert_eq!(plug.voices[0].current_note, 72);
    for (i, note) in (61u8..68u8).enumerate() {
        assert_eq!(plug.voices[i + 1].current_note, note);
    }
}

#[test]
fn voice_stealing_tie_breaks_on_first_slot() {
    let mut plug = Plug::default();
    // eight presses of the same note fill all eight slots with it
    for _ in 0..8 {
        plug.note_on(64);
    }
    for v in &plug.voices {
        assert!(v.is_on);
        assert_eq!(v.current_note, 64);
    }
    // the steal of an all-equal pool takes the earliest slot
    plug.note_on(65);
    assert_eq!(plug.voices[0].current_note, 65);
    assert_eq!(plug.voices[1].current_note, 64);
}

#[test]
fn keytrack_doubles_the_ratio_one_octave_up() {
    let mut plug = Plug::default();
    plug.initialize(48000);
    plug.set_source(vec![0; 64], 96000, true);
    plug.params.keytrack = OnOff::On;
    plug.note_on(60);
    assert_eq!(plug.sampler.ratios[0], 1u64 << 32);
    plug.note_on(72);
    // the second note lands on the next slot, one octave above the root
    assert_eq!(plug.sampler.ratios[1], 2u64 << 32);
    // without keytrack every note plays at the root ratio
    plug.params.keytrack = OnOff::Off;
    plug.note_on(79);
    assert_eq!(plug.sampler.ratios[2], 1u64 << 32);
}

#[test]
fn zero_volume_renders_silence() {
    let amp: i64 = 0x100_0000;
    let mut plug = Plug::default();
    plug.initialize(48000);
    plug.set_source(vec![amp, amp, amp, amp], 96000, true);
    plug.params.is_looping = OnOff::On;
    plug.params.volume = 0;
    let out = plug.process_block(&vec![on(0, 60)], 8);
    for frame in out {
        assert_eq!(frame, [0, 0]);
    }
}

#[test]
fn mono_retrigger_on_release() {
    // mono mode: press 60 then 64, release 64 -> the voice replays 60
    // with a hard retrigger, not a glide
    let mut plug = Plug::default();
    plug.params.mono = OnOff::On;
    plug.note_on(60);
    assert_eq!(plug.voices[0].current_note, 60);
    plug.note_on(64);
    assert_eq!(plug.voices[0].current_note, 64);
    plug.note_off(64);
    assert_eq!(plug.voices[0].current_note, 60);
    assert!(plug.voices[0].is_on);
    assert_eq!(plug.voices[0].increment, 0);
    assert_eq!(plug.voices[0].current_notepitch, 60 * 0x1_0000);
    assert_eq!(plug.voices[0].target_notepitch, 60 * 0x1_0000);
}

#[test]
fn mono_release_of_last_note_silences() {
    let mut plug = Plug::default();
    plug.params.mono = OnOff::On;
    plug.note_on(60);
    plug.note_off(60);
    assert!(!plug.voices[0].is_on);
}

#[test]
fn note_history_keeps_most_recent_press_last() {
    let mut plug = Plug::default();
    plug.note_on(60);
    plug.note_on(64);
    plug.note_on(60);
    assert_eq!(plug.pressed_notes, vec![64u8, 60]);
    plug.note_off(60);
    assert_eq!(plug.pressed_notes, vec![64u8]);
}

/// A four-sample cycle at ratio one: the rendered block reproduces the
/// source shape at half volume, and the phase round-trips after whole
/// cycles.
#[test]
fn end_to_end_four_sample_loop() {
    let amp: i64 = 0x100_0000;
    let mut plug = Plug::default();
    plug.initialize(48000);
    // a source rate of twice the engine rate makes the raw ratio exactly
    // one after the oversampling correction
    plug.set_source(vec![0, amp, 0, -amp], 96000, true);
    plug.params.is_looping = OnOff::On;
    let events = vec![on(0, 60)];
    let out = plug.process_block(&events, 4);
    assert_eq!(out.len(), 4);
    // default volume is one half; the cubic smooths a signal this close
    // to the band edge, so the shape is checked: zero crossings where the
    // source has them, a positive peak, and the mirrored negative one
    assert!(out[0][0].abs() <= amp / 16);
    assert!(out[2][0].abs() <= amp / 16);
    assert!(out[1][0] > amp / 8 && out[1][0] <= amp / 2 + amp / 16);
    assert!((out[1][0] + out[3][0]).abs() <= amp / 64);
    for frame in &out {
        assert_eq!(frame[0], frame[1]);
    }
    // the phase returns to the same point after each whole cycle
    let p4 = plug.voices[0].sampler_phase;
    let _ = plug.process_block(&vec![], 4);
    let p8 = plug.voices[0].sampler_phase;
    assert_eq!(p4, p8);
    let _ = plug.process_block(&vec![], 8);
    assert_eq!(plug.voices[0].sampler_phase, p8);
}

/// With looping disabled the voice finishes after one pass and renders
/// silence from then on.
#[test]
fn one_shot_terminates_and_stays_silent() {
    let amp: i64 = 0x100_0000;
    let mut plug = Plug::default();
    plug.initialize(48000);
    plug.set_source(vec![0, amp, 0, -amp], 96000, true);
    assert_eq!(plug.params.is_looping, OnOff::Off);
    let events = vec![on(0, 60)];
    let out = plug.process_block(&events, 16);
    assert!(plug.sampler.is_done[0]);
    // after the wrap every frame is silent
    let mut transitions = 0;
    let mut was_quiet = false;
    for frame in out.iter().skip(5) {
        assert_eq!(frame[0], 0);
        assert_eq!(frame[1], 0);
        if !was_quiet {
            transitions += 1;
            was_quiet = true;
        }
    }
    assert_eq!(transitions, 1);
}

#[test]
fn switched_off_engine_is_silent() {
    let amp: i64 = 0x100_0000;
    let mut plug = Plug::default();
    plug.initialize(48000);
    plug.set_source(vec![amp, amp, amp, amp], 96000, true);
    plug.params.is_on = OnOff::Off;
    let out = plug.process_block(&vec![on(0, 60)], 8);
    for frame in out {
        assert_eq!(frame, [0, 0]);
    }
}

#[test]
fn standard_pitch_tracks_rate_and_length() {
    // the default table: 2048 samples at a 44100 Hz engine
    let plug = Plug::default();
    assert_eq!(plug.sampler.standard_pitch, 2 * 44100 * (1u64 << 32) / 2048);
    assert_eq!(plug.sampler.standard_pitch, 184_968_806_400);
    // a four-sample table at a 48000 Hz engine
    let mut plug = Plug::default();
    plug.initialize(48000);
    plug.set_source(vec![0, 0, 0, 0], 96000, true);
    assert_eq!(plug.sampler.standard_pitch, 2 * 48000 * (1u64 << 32) / 4);
}

#[test]
fn note_off_order_applies_within_block() {
    let mut plug = Plug::default();
    let events = vec![on(0, 60), off(2, 60)];
    let _ = plug.process_block(&events, 4);
    assert!(!plug.voices[0].is_on);
}
