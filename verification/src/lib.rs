//! Real-time audio engine of a sample-playback synthesizer.
//!
//! The engine owns a mip-mapped wavetable of a loaded source sample and a
//! fixed pool of voices. Incoming note events are dispatched to voices, and
//! each voice resamples the wavetable at a pitch-dependent ratio.
//!
//! All signal values are held in fixed-point form: amplitudes in Q24
//! (`1 << 24` is full scale), pitch ratios in Q32, phases in sample-Q32
//! units. The thin adapter around the library converts to and from `f32`
//! at its edges.
use vstd::prelude::*;

pub mod fixed;
pub mod interp;
pub mod params;
pub mod resources;
pub mod sampler;
pub mod utils;
pub mod voice;

use crate::params::{OnOff, SamplerParams};
use crate::sampler::{Sampler, N_VOICES};
use crate::voice::Voice;

verus! {

/// Full scale of a Q24 amplitude value.
pub const AMP_ONE: i64 = 0x100_0000;

/// A Q32 fixed-point one, the unit for pitch ratios and phase fractions.
pub const RATIO_ONE: u64 = 0x1_0000_0000;

/// What a note event does.
#[derive(PartialEq, Eq, Structural, Clone, Copy, Debug)]
pub enum NoteEventKind {
    NoteOn,
    NoteOff,
}

/// A note event inside a processing block, stamped with the frame it
/// lands on.
#[derive(Clone, Copy)]
pub struct NoteEvent {
    pub timing: u32,
    pub kind: NoteEventKind,
    pub note: u8,
}

/// `s` with every occurrence of `n` removed, order kept.
pub open spec fn remove_note(s: Seq<u8>, n: u8) -> Seq<u8> {
    s.filter(|x: u8| x != n)
}

/// Slot `idx` holds the numerically lowest note, earlier slots holding
/// strictly higher ones — the strict-`<` scan's pick.
pub open spec fn is_lowest_slot(voices: Seq<Voice>, idx: int) -> bool {
    &&& 0 <= idx < voices.len()
    &&& forall|j: int|
        0 <= j < voices.len() ==> (#[trigger] voices[j]).current_note >= voices[idx].current_note
    &&& forall|j: int| 0 <= j < idx ==> (#[trigger] voices[j]).current_note > voices[
        idx].current_note
}

/// The voice slot after a hard (re)trigger: active, phase at the start
/// offset, pitch pinned to the note, no glide.
pub open spec fn hard_trigger(note: u8, phase0: u64) -> Voice {
    Voice {
        is_on: true,
        current_note: note,
        current_notepitch: (note as int * 0x1_0000) as i64,
        target_notepitch: (note as int * 0x1_0000) as i64,
        increment: 0,
        sampler_phase: phase0,
    }
}

/// The voice slot after a legato retarget: the phase and current pitch
/// run on, the target moves to the note and the glide increment points at
/// it. With the glide time fixed at zero the whole distance is covered in
/// one step.
pub open spec fn glide_trigger(v: Voice, note: u8) -> Voice {
    Voice {
        current_note: note,
        target_notepitch: (note as int * 0x1_0000) as i64,
        increment: (note as int * 0x1_0000 - v.current_notepitch) as i64,
        ..v
    }
}

/// Where a polyphonic note-on lands: some slot was triggered with the
/// note; an idle slot only when every earlier slot was sounding; a
/// sounding slot only when none was idle, and then the one holding the
/// lowest note, earliest first.
pub open spec fn noteon_poly_post(s0: Plug, s1: Plug, note: u8) -> bool {
    exists|slot: int|
        {
            &&& 0 <= slot < N_VOICES
            &&& #[trigger] trigger_rel(s0, s1, slot, note, false)
            &&& (s0.voices@[slot].is_on && !s0.sampler.is_done@[slot]) ==> is_lowest_slot(
                s0.voices@,
                slot,
            ) && (forall|j: int|
                0 <= j < N_VOICES ==> (#[trigger] s0.voices@[j]).is_on
                    && !s0.sampler.is_done@[j])
            &&& (!(s0.voices@[slot].is_on && !s0.sampler.is_done@[slot])) ==> (forall|j: int|
                0 <= j < slot ==> (#[trigger] s0.voices@[j]).is_on && !s0.sampler.is_done@[j])
        }
}

/// Slot `i` is sounding `note`.
pub open spec fn sounds_note(voices: Seq<Voice>, i: int, note: u8) -> bool {
    voices[i].current_note == note && voices[i].is_on
}

/// The voice slot after a release: silent, everything else kept.
pub open spec fn released(v: Voice) -> Voice {
    Voice { is_on: false, ..v }
}

/// What a note-off does once it finds the earliest slot sounding the
/// note: in mono mode with notes still pressed, that slot is hard
/// retriggered onto the most recently pressed remaining note — no legato
/// glide; otherwise the slot is released and nothing else moves.
pub open spec fn noteoff_found_post(s0: Plug, s1: Plug, note: u8) -> bool {
    exists|i: int|
        {
            &&& 0 <= i < N_VOICES
            &&& #[trigger] sounds_note(s0.voices@, i, note)
            &&& forall|j: int| 0 <= j < i ==> !sounds_note(s0.voices@, j, note)
            &&& if s0.params.mono == OnOff::On && remove_note(s0.pressed_notes@, note).len() > 0 {
                trigger_rel(s0, s1, i, remove_note(s0.pressed_notes@, note).last(), false)
            } else {
                s1.voices@ == s0.voices@.update(i, released(s0.voices@[i]))
                    && s1.sampler == s0.sampler && s1.params == s0.params && s1.sample_rate
                    == s0.sample_rate
            }
        }
}

/// The pressed-note history after the first `k` events of a block have
/// been dispatched: a note-on removes the note and appends it as most
/// recent, a note-off removes it.
pub open spec fn history_after(h: Seq<u8>, events: Seq<NoteEvent>, k: nat) -> Seq<u8>
    decreases k,
{
    if k == 0 {
        h
    } else {
        let prev = history_after(h, events, (k - 1) as nat);
        let e = events[k - 1 as int];
        if e.kind == NoteEventKind::NoteOn {
            remove_note(prev, e.note).push(e.note)
        } else {
            remove_note(prev, e.note)
        }
    }
}

/// A block applied its events to the note history: some prefix of the
/// (time-ordered) event list was dispatched — exactly the events stamped
/// inside the block — and the history is the fold of that prefix.
pub open spec fn events_applied(
    h0: Seq<u8>,
    h1: Seq<u8>,
    events: Seq<NoteEvent>,
    n_frames: int,
) -> bool {
    exists|k: int|
        {
            &&& 0 <= k <= events.len()
            &&& h1 == #[trigger] history_after(h0, events, k as nat)
            &&& forall|j: int| 0 <= j < k ==> (#[trigger] events[j]).timing < n_frames
            &&& (k == events.len() || events[k].timing >= n_frames)
        }
}

/// One dispatched event: the note-on contract or the note-off contract,
/// acting on the whole engine state.
pub open spec fn event_rel(s0: Plug, s1: Plug, e: NoteEvent) -> bool {
    &&& s1.params == s0.params
    &&& s1.sample_rate == s0.sample_rate
    &&& (if e.kind == NoteEventKind::NoteOn {
        &&& s1.pressed_notes@ == remove_note(s0.pressed_notes@, e.note).push(e.note)
        &&& (s0.params.mono == OnOff::On ==> trigger_rel(s0, s1, 0, e.note, false))
        &&& (s0.params.mono == OnOff::Off ==> noteon_poly_post(s0, s1, e.note))
    } else {
        &&& s1.pressed_notes@ == remove_note(s0.pressed_notes@, e.note)
        &&& ((exists|i: int|
            0 <= i < N_VOICES && #[trigger] sounds_note(s0.voices@, i, e.note))
            ==> noteoff_found_post(s0, s1, e.note))
        &&& ((forall|i: int|
            0 <= i < N_VOICES ==> !(#[trigger] sounds_note(s0.voices@, i, e.note)))
            ==> s1.voices@ == s0.voices@ && s1.sampler == s0.sampler)
    })
}

/// One voice slot's share of a frame: a silent slot contributes nothing
/// and nothing changes; a finished or switched-off one contributes
/// nothing; a sounding one renders through the per-voice render relation,
/// the voice keeping the advanced phase.
pub open spec fn voice_step_rel(s0: Plug, s1: Plug, v: int, ol: i64, orr: i64) -> bool {
    if !s0.voices@[v].is_on {
        s1 == s0 && ol == 0 && orr == 0
    } else {
        &&& s1.pressed_notes@ == s0.pressed_notes@
        &&& s1.params == s0.params
        &&& s1.sample_rate == s0.sample_rate
        &&& (if s0.params.is_on == OnOff::Off || s0.sampler.is_done@[v] {
            &&& ol == 0
            &&& orr == 0
            &&& s1.voices@ == s0.voices@
            &&& s1.sampler == s0.sampler
        } else {
            &&& crate::sampler::render_rel(
                s0.sampler,
                s1.sampler,
                s0.voices@[v].sampler_phase,
                s1.voices@[v].sampler_phase,
                s0.params,
                v,
                ol,
                orr,
            )
            &&& s1.voices@ == s0.voices@.update(
                v,
                (Voice { sampler_phase: s1.voices@[v].sampler_phase, ..s0.voices@[v] }),
            )
        })
    }
}

/// The event half of one frame: starting from the frame state `s0`, the
/// events `e0 .. e1`, every one stamped with frame `f`, are dispatched
/// one after the other along the micro-trace `et`, reaching `m`.
pub open spec fn frame_events_ok(
    s0: Plug,
    m: Plug,
    events: Seq<NoteEvent>,
    e0: int,
    e1: int,
    et: Seq<Plug>,
    f: int,
) -> bool {
    &&& 0 <= e0 <= e1 <= events.len()
    &&& et.len() == e1 - e0 + 1
    &&& et[0] == s0
    &&& et[e1 - e0] == m
    &&& forall|k: int|
        0 <= k < e1 - e0 ==> event_rel(#[trigger] et[k], et[k + 1], events[e0 + k]) && events[e0
            + k].timing == f
}

/// The render half of one frame: from `m` the voice slots take their
/// steps in slot order along `vt`, reaching `s1`, their stereo outputs
/// accumulating in the partial sums `pl`/`pr`; the frame's output is the
/// total of each channel.
pub open spec fn frame_render_ok(
    m: Plug,
    s1: Plug,
    vt: Seq<Plug>,
    pl: Seq<int>,
    pr: Seq<int>,
    fout: [i64; 2],
) -> bool {
    &&& vt.len() == N_VOICES + 1
    &&& pl.len() == N_VOICES + 1
    &&& pr.len() == N_VOICES + 1
    &&& vt[0] == m
    &&& vt[N_VOICES as int] == s1
    &&& pl[0] == 0
    &&& pr[0] == 0
    &&& forall|v: int|
        0 <= v < N_VOICES ==> voice_step_rel(
            #[trigger] vt[v],
            vt[v + 1],
            v,
            ((pl[v + 1] - pl[v]) as i64),
            ((pr[v + 1] - pr[v]) as i64),
        ) && -0x1000_0000 <= pl[v + 1] - pl[v] <= 0x1000_0000 && -0x1000_0000 <= pr[v + 1] - pr[v]
            <= 0x1000_0000
    &&& fout[0] == pl[N_VOICES as int]
    &&& fout[1] == pr[N_VOICES as int]
}

/// The complete account of one frame: its events dispatched, then its
/// voices rendered.
pub open spec fn frame_trace_ok(
    s0: Plug,
    m: Plug,
    s1: Plug,
    events: Seq<NoteEvent>,
    e0: int,
    e1: int,
    et: Seq<Plug>,
    vt: Seq<Plug>,
    pl: Seq<int>,
    pr: Seq<int>,
    fout: [i64; 2],
    f: int,
) -> bool {
    &&& frame_events_ok(s0, m, events, e0, e1, et, f)
    &&& frame_render_ok(m, s1, vt, pl, pr, fout)
}

/// The complete account of one processed block: `states` holds the state
/// at every frame boundary, `evs` the event pointer there, and for each
/// frame the traces show its events dispatched and its voices rendered,
/// the frame's output being the channel-wise sum over the sounding
/// voices.
pub open spec fn block_trace(
    s0: Plug,
    s1: Plug,
    events: Seq<NoteEvent>,
    out: Seq<[i64; 2]>,
    n: int,
    ev_end: int,
    states: Seq<Plug>,
    mids: Seq<Plug>,
    evs: Seq<int>,
    etr: Seq<Seq<Plug>>,
    vtr: Seq<Seq<Plug>>,
    psl: Seq<Seq<int>>,
    psr: Seq<Seq<int>>,
) -> bool {
    &&& states.len() == n + 1
    &&& mids.len() == n
    &&& evs.len() == n + 1
    &&& etr.len() == n
    &&& vtr.len() == n
    &&& psl.len() == n
    &&& psr.len() == n
    &&& out.len() == n
    &&& states[0] == s0
    &&& states[n] == s1
    &&& evs[0] == 0
    &&& evs[n] == ev_end
    &&& forall|f: int|
        0 <= f < n ==> frame_trace_ok(
            #[trigger] states[f],
            mids[f],
            states[f + 1],
            events,
            evs[f],
            evs[f + 1],
            etr[f],
            vtr[f],
            psl[f],
            psr[f],
            out[f],
            f,
        )
}

/// The per-voice pitch state at a block's start: either untouched, or —
/// when the control context had raised the pitch-change flag — every
/// voice's raw ratio recomputed from the parameters and its tracked
/// pitch, with everything else in place. Which of the two happened
/// depends on the flag cell, which another thread writes.
pub open spec fn pitch_refresh_rel(s0: Plug, s1: Plug) -> bool {
    ||| s1 == s0
    ||| {
        &&& s1.voices@ == s0.voices@
        &&& s1.pressed_notes@ == s0.pressed_notes@
        &&& s1.params == s0.params
        &&& s1.sample_rate == s0.sample_rate
        &&& s1.sampler.data == s0.sampler.data
        &&& s1.sampler.base_pitch == s0.sampler.base_pitch
        &&& s1.sampler.standard_pitch == s0.sampler.standard_pitch
        &&& s1.sampler.sample_rate == s0.sampler.sample_rate
        &&& s1.sampler.is_done@ == s0.sampler.is_done@
        &&& s1.sampler.ratios@.len() == N_VOICES
        &&& forall|i: int|
            0 <= i < N_VOICES ==> #[trigger] s1.sampler.ratios@[i] as int
                == s0.sampler.raw_ratio_spec(s0.params, s0.voices@[i])
    }
}

/// The engine: parameters, the playback sampler, the pressed-note history
/// and the fixed voice pool.
pub struct Plug {
    pub params: SamplerParams,
    pub sampler: Sampler,
    pub sample_rate: u32,
    pub pressed_notes: Vec<u8>,
    pub voices: Vec<Voice>,
}

/// Everything one trigger call changes: the slot's voice is replaced —
/// glide-retargeted when it was sounding and legato was asked for, hard
/// reset otherwise — its one-shot flag is cleared, and its pitch ratio is
/// recomputed from the new voice state. Nothing else moves.
pub open spec fn trigger_rel(s0: Plug, s1: Plug, slot: int, note: u8, legato: bool) -> bool {
    let sounding = s0.voices@[slot].is_on && !s0.sampler.is_done@[slot];
    let v1 = if sounding && legato {
        glide_trigger(s0.voices@[slot], note)
    } else {
        hard_trigger(note, ((s0.params.pos as int) * (s0.sampler.data.len as int)) as u64)
    };
    &&& s1.voices@ == s0.voices@.update(slot, v1)
    &&& s1.sampler.is_done@ == s0.sampler.is_done@.update(slot, false)
    &&& s1.sampler.ratios@[slot] as int == s0.sampler.raw_ratio_spec(s0.params, v1)
    &&& forall|k: int|
        0 <= k < N_VOICES && k != slot ==> #[trigger] s1.sampler.ratios@[k]
            == s0.sampler.ratios@[k]
    &&& s1.sampler.data == s0.sampler.data
    &&& s1.sampler.base_pitch == s0.sampler.base_pitch
    &&& s1.sampler.standard_pitch == s0.sampler.standard_pitch
    &&& s1.sampler.sample_rate == s0.sampler.sample_rate
    &&& s1.sample_rate == s0.sample_rate
    &&& s1.params == s0.params
}

/// The pressed-note history with every press of `note` removed.
fn drop_note(notes: &Vec<u8>, note: u8) -> (r: Vec<u8>)
    requires
        forall|j: int| 0 <= j < notes@.len() ==> #[trigger] notes@[j] <= 127,
    ensures
        r@ == remove_note(notes@, note),
        forall|j: int| 0 <= j < r@.len() ==> #[trigger] r@[j] <= 127,
{
    let mut kept: Vec<u8> = Vec::new();
    let mut i: usize = 0;
    while i < notes.len()
        invariant
            i <= notes@.len(),
            kept@ == remove_note(notes@.subrange(0, i as int), note),
            forall|j: int| 0 <= j < kept@.len() ==> #[trigger] kept@[j] <= 127,
            forall|j: int| 0 <= j < notes@.len() ==> #[trigger] notes@[j] <= 127,
        decreases notes@.len() - i,
    {
        proof {
            lemma_remove_note_push(notes@.subrange(0, i as int), notes@[i as int], note);
            assert(notes@.subrange(0, i as int).push(notes@[i as int]) =~= notes@.subrange(
                0,
                i + 1,
            ));
        }
        let v: u8 = notes[i];
        if v != note {
            kept.push(v);
        }
        i = i + 1;
    }
    proof {
        assert(notes@.subrange(0, notes@.len() as int) =~= notes@);
    }
    kept
}

impl Plug {
    /// The engine's running invariant: well-formed parts, a full voice
    /// pool, and every voice's phase inside the current cycle.
    pub open spec fn wf(&self) -> bool {
        &&& self.params.wf()
        &&& self.sampler.wf()
        &&& self.voices@.len() == N_VOICES
        &&& forall|i: int| 0 <= i < N_VOICES ==> (#[trigger] self.voices@[i]).pitch_wf()
        &&& forall|i: int|
            0 <= i < N_VOICES ==> (#[trigger] self.voices@[i]).sampler_phase as int <= (
            self.sampler.data.len as int) * 0x1_0000_0000
        &&& forall|i: int| 0 <= i < N_VOICES ==> (#[trigger] self.voices@[i]).current_note <= 127
        &&& forall|i: int|
            0 <= i < self.pressed_notes@.len() ==> #[trigger] self.pressed_notes@[i] <= 127
        &&& 1 <= self.sample_rate <= 0x10_0000
    }

    /// (Re)assign a voice slot to a note and recompute its pitch ratio.
    fn trigger_voice(&mut self, note: u8, legato: bool, voice_n: usize)
        requires
            old(self).wf(),
            note <= 127,
            voice_n < N_VOICES,
        ensures
            final(self).wf(),
            trigger_rel(*old(self), *final(self), voice_n as int, note, legato),
            final(self).pressed_notes@ == old(self).pressed_notes@,
    {
        proof {
            let posg: int = self.params.pos as int;
            let leng: int = self.sampler.data.len as int;
            assert(posg * leng <= leng * 0x1_0000_0000) by (nonlinear_arith)
                requires
                    0 <= posg < 0x1_0000_0000,
                    leng >= 0,
            ;
        }
        let sounding: bool = self.voices[voice_n].is_on && !self.sampler.is_done[voice_n];
        if sounding && legato {
            let target: i64 = (note as i64) * 0x1_0000;
            let v0: &Voice = &self.voices[voice_n];
            // the glide time is fixed at zero, so the glide covers the
            // whole distance within one pitch update
            let v1: Voice = Voice {
                is_on: v0.is_on,
                current_note: note,
                current_notepitch: v0.current_notepitch,
                target_notepitch: target,
                increment: target - v0.current_notepitch,
                sampler_phase: v0.sampler_phase,
            };
            self.voices[voice_n] = v1;
        } else {
            let phase0: u64 = self.params.pos * (self.sampler.data.len as u64);
            self.voices[voice_n] = Voice {
                is_on: true,
                current_note: note,
                current_notepitch: (note as i64) * 0x1_0000,
                target_notepitch: (note as i64) * 0x1_0000,
                increment: 0,
                sampler_phase: phase0,
            };
        }
        self.sampler.is_done[voice_n] = false;
        self.sampler.voice_pitch_changed(&self.params, &self.voices, voice_n);
    }

    /// Dispatch a note-on: record the note as most recently pressed, then
    /// trigger voice zero in mono mode; in poly mode the first idle slot,
    /// or, with none idle, the slot holding the lowest note, earliest
    /// slot first.
    #[verifier::loop_isolation(false)]
    #[verifier::rlimit(50)]
    pub fn note_on(&mut self, note: u8)
        requires
            old(self).wf(),
            note <= 127,
        ensures
            final(self).wf(),
            final(self).params == old(self).params,
            final(self).sample_rate == old(self).sample_rate,
            final(self).pressed_notes@ == remove_note(old(self).pressed_notes@, note).push(note),
            old(self).params.mono == OnOff::On ==> trigger_rel(
                *old(self),
                *final(self),
                0,
                note,
                false,
            ),
            old(self).params.mono == OnOff::Off ==> noteon_poly_post(
                *old(self),
                *final(self),
                note,
            ),
    {
        // drop any earlier press of the same note, then append it as the
        // most recent one
        let mut kept: Vec<u8> = drop_note(&self.pressed_notes, note);
        kept.push(note);
        self.pressed_notes = kept;
        let ghost mid: Plug = *self;
        if self.params.mono == OnOff::On {
            self.trigger_voice(note, false, 0);
            proof {
                assert(trigger_rel(*old(self), *self, 0, note, false));
            }
        } else {
            let mut s: usize = 0;
            while s < N_VOICES
                invariant
                    s <= N_VOICES,
                    *self == mid,
                    forall|j: int|
                        0 <= j < s ==> (#[trigger] self.voices@[j]).is_on
                            && !self.sampler.is_done@[j],
                decreases N_VOICES - s,
            {
                if !self.voices[s].is_on || self.sampler.is_done[s] {
                    let ghost pre: Plug = *self;
                    self.trigger_voice(note, false, s);
                    proof {
                        assert(trigger_rel(*old(self), *self, s as int, note, false));
                        assert(!(old(self).voices@[s as int].is_on && !old(
                            self,
                        ).sampler.is_done@[s as int]));
                        assert forall|j: int| 0 <= j < s implies (#[trigger] old(
                            self,
                        ).voices@[j]).is_on && !old(self).sampler.is_done@[j] by {
                            assert(pre.voices@[j].is_on && !pre.sampler.is_done@[j]);
                        }
                        assert(noteon_poly_post(*old(self), *self, note));
                    }
                    return ;
                }
                s = s + 1;
            }
            // every slot is sounding: steal the one holding the lowest
            // note, the earliest such slot first
            let mut lowest_note: u8 = self.voices[0].current_note;
            let mut voice_number: usize = 0;
            let mut k: usize = 1;
            while k < N_VOICES
                invariant
                    1 <= k <= N_VOICES,
                    *self == mid,
                    voice_number < k,
                    lowest_note == self.voices@[voice_number as int].current_note,
                    forall|j: int|
                        0 <= j < k ==> (#[trigger] self.voices@[j]).current_note >= lowest_note,
                    forall|j: int|
                        0 <= j < voice_number ==> (#[trigger] self.voices@[j]).current_note
                            > lowest_note,
                decreases N_VOICES - k,
            {
                if self.voices[k].current_note < lowest_note {
                    lowest_note = self.voices[k].current_note;
                    voice_number = k;
                }
                k = k + 1;
            }
            let ghost pre: Plug = *self;
            self.trigger_voice(note, false, voice_number);
            proof {
                assert(trigger_rel(*old(self), *self, voice_number as int, note, false));
                assert(is_lowest_slot(old(self).voices@, voice_number as int));
                assert forall|j: int| 0 <= j < N_VOICES implies (#[trigger] old(
                    self,
                ).voices@[j]).is_on && !old(self).sampler.is_done@[j] by {
                    assert(pre.voices@[j].is_on && !pre.sampler.is_done@[j]);
                }
                assert(noteon_poly_post(*old(self), *self, note));
            }
        }
    }

    /// Dispatch a note-off: forget the note, find the voice sounding it;
    /// in mono mode with other notes still pressed, hard-retrigger that
    /// voice onto the most recently pressed remaining note, otherwise
    /// release it.
    #[verifier::loop_isolation(false)]
    #[verifier::rlimit(50)]
    pub fn note_off(&mut self, note: u8)
        requires
            old(self).wf(),
        ensures
            final(self).wf(),
            final(self).params == old(self).params,
            final(self).sample_rate == old(self).sample_rate,
            final(self).pressed_notes@ == remove_note(old(self).pressed_notes@, note),
            (exists|i: int|
                0 <= i < N_VOICES && #[trigger] sounds_note(old(self).voices@, i, note))
                ==> noteoff_found_post(*old(self), *final(self), note),
            (forall|i: int|
                0 <= i < N_VOICES ==> !(#[trigger] sounds_note(old(self).voices@, i, note)))
                ==> final(self).voices@ == old(self).voices@ && final(self).sampler == old(
                self,
            ).sampler,
    {
        let kept: Vec<u8> = drop_note(&self.pressed_notes, note);
        self.pressed_notes = kept;
        let ghost mid: Plug = *self;
        let mut i: usize = 0;
        while i < N_VOICES
            invariant
                i <= N_VOICES,
                *self == mid,
                forall|j: int| 0 <= j < i ==> !sounds_note(self.voices@, j, note),
            decreases N_VOICES - i,
        {
            if self.voices[i].current_note == note && self.voices[i].is_on {
                if self.params.mono == OnOff::On && self.pressed_notes.len() > 0 {
                    let back: u8 = self.pressed_notes[self.pressed_notes.len() - 1];
                    self.trigger_voice(back, false, i);
                    proof {
                        assert(sounds_note(old(self).voices@, i as int, note));
                        assert(trigger_rel(*old(self), *self, i as int, back, false));
                        assert(noteoff_found_post(*old(self), *self, note));
                    }
                } else {
                    let vr = &mut self.voices[i];
                    vr.release();
                    proof {
                        assert(sounds_note(old(self).voices@, i as int, note));
                        assert(self.voices@ =~= old(self).voices@.update(
                            i as int,
                            released(old(self).voices@[i as int]),
                        ));
                        assert(noteoff_found_post(*old(self), *self, note));
                    }
                }
                return ;
            }
            i = i + 1;
        }
    }
}

impl Plug {
    /// Remember the host's sample rate and refresh the table's standard
    /// pitch.
    pub fn initialize(&mut self, rate: u32)
        requires
            old(self).wf(),
            1 <= rate <= 0x10_0000,
        ensures
            final(self).wf(),
            final(self).sample_rate == rate,
            final(self).sampler.sample_rate == rate,
            final(self).sampler.standard_pitch as int == if old(self).sampler.data.len > 0 {
                (rate as int) * 2 * 0x1_0000_0000 / (old(self).sampler.data.len as int)
            } else {
                0
            },
            final(self).sampler.data == old(self).sampler.data,
            final(self).sampler.base_pitch == old(self).sampler.base_pitch,
            final(self).voices@ == old(self).voices@,
            final(self).pressed_notes@ == old(self).pressed_notes@,
            final(self).params == old(self).params,
    {
        self.sampler.set_standard_pitch(rate);
        self.sample_rate = rate;
    }

    /// Publish a freshly decoded source and rebuild the wavetable between
    /// blocks. Every voice's phase restarts at the window start, so no
    /// voice can point outside the new, possibly shorter cycle.
    #[verifier::loop_isolation(false)]
    #[verifier::rlimit(50)]
    pub fn set_source(&mut self, data: Vec<i64>, rate: u32, mono: bool)
        requires
            old(self).wf(),
            data@.len() <= 0xff_fffe,
            crate::interp::bounded(data@, crate::interp::SAMPLE_BOUND as int),
            1 <= rate <= 0x10_0000,
        ensures
            final(self).wf(),
            final(self).params == (SamplerParams {
                source: final(self).params.source,
                sample_sample_rate: rate,
                sample_mono: mono,
                ..old(self).params
            }),
            final(self).params.source@ == data@,
            mono ==> final(self).sampler.data.source_l@ == crate::sampler::padded(data@)
                && final(self).sampler.data.left_ready(),
            !mono ==> final(self).sampler.data.source_l@ == crate::sampler::padded(
                crate::sampler::split_left(data@),
            ) && final(self).sampler.data.source_r@ == crate::sampler::padded(
                crate::sampler::split_right(data@),
            ) && final(self).sampler.data.left_ready() && final(self).sampler.data.right_ready(),
            forall|i: int|
                0 <= i < N_VOICES ==> (#[trigger] final(self).voices@[i]).sampler_phase as int == (
                final(self).params.pos as int) * (final(self).sampler.data.len as int),
    {
        self.params.source = data;
        self.params.sample_sample_rate = rate;
        self.params.sample_mono = mono;
        self.sampler.source_changed(&self.params);
        let len: usize = self.sampler.data.len;
        proof {
            let posg: int = self.params.pos as int;
            let leng: int = len as int;
            assert(posg * leng <= leng * 0x1_0000_0000) by (nonlinear_arith)
                requires
                    0 <= posg < 0x1_0000_0000,
                    leng >= 0,
            ;
        }
        let phase0: u64 = self.params.pos * (len as u64);
        let ghost loaded: Plug = *self;
        let mut i: usize = 0;
        while i < N_VOICES
            invariant
                i <= N_VOICES,
                self.params == loaded.params,
                self.sampler == loaded.sampler,
                self.sample_rate == loaded.sample_rate,
                self.pressed_notes == loaded.pressed_notes,
                self.voices@.len() == N_VOICES,
                forall|j: int|
                    0 <= j < i ==> (#[trigger] self.voices@[j]).sampler_phase == phase0,
                forall|j: int|
                    i <= j < N_VOICES ==> #[trigger] self.voices@[j] == old(self).voices@[j],
                forall|j: int|
                    0 <= j < i ==> (#[trigger] self.voices@[j]) == (Voice {
                        sampler_phase: phase0,
                        ..old(self).voices@[j]
                    }),
            decreases N_VOICES - i,
        {
            self.voices[i].sampler_phase = phase0;
            i = i + 1;
        }
    }

    /// Dispatch every event stamped with `frame`, in delivery order,
    /// starting at event index `ev0`; returns the index past the last one
    /// dispatched. The ghost history `h0` is the block's starting
    /// pressed-note history, which the dispatched prefix folds over.
    #[verifier::loop_isolation(false)]
    #[verifier::rlimit(100)]
    #[verifier::spinoff_prover]
    fn apply_frame_events(
        &mut self,
        events: &Vec<NoteEvent>,
        ev0: usize,
        frame: usize,
        n_frames: usize,
        Ghost(h0): Ghost<Seq<u8>>,
    ) -> (ev1: usize)
        requires
            old(self).wf(),
            n_frames <= 0x10_0000,
            frame < n_frames,
            ev0 <= events@.len(),
            forall|i: int, j: int|
                0 <= i < j < events@.len() ==> (#[trigger] events@[i]).timing <= (
                #[trigger] events@[j]).timing,
            forall|i: int| 0 <= i < events@.len() ==> (#[trigger] events@[i]).note <= 127,
            old(self).pressed_notes@ == history_after(h0, events@, ev0 as nat),
            forall|j: int| 0 <= j < ev0 ==> (#[trigger] events@[j]).timing < frame,
            ev0 == events@.len() || events@[ev0 as int].timing >= frame,
        ensures
            final(self).wf(),
            final(self).params == old(self).params,
            final(self).sample_rate == old(self).sample_rate,
            ev0 <= ev1 <= events@.len(),
            final(self).pressed_notes@ == history_after(h0, events@, ev1 as nat),
            forall|j: int| 0 <= j < ev1 ==> (#[trigger] events@[j]).timing <= frame,
            ev1 == events@.len() || events@[ev1 as int].timing >= frame + 1,
            events@.len() == 0 ==> *final(self) == *old(self),
            exists|et: Seq<Plug>|
                #[trigger] frame_events_ok(
                    *old(self),
                    *final(self),
                    events@,
                    ev0 as int,
                    ev1 as int,
                    et,
                    frame as int,
                ),
    {
        let ghost fstart: Plug = *self;
        let ghost mut et: Seq<Plug> = seq![fstart];
        let mut ev: usize = ev0;
        while ev < events.len() && events[ev].timing as usize == frame
            invariant
                self.wf(),
                ev0 <= ev <= events@.len(),
                self.params == old(self).params,
                self.sample_rate == old(self).sample_rate,
                self.pressed_notes@ == history_after(h0, events@, ev as nat),
                forall|j: int| 0 <= j < ev ==> (#[trigger] events@[j]).timing <= frame,
                ev == events@.len() || events@[ev as int].timing >= frame,
                et.len() == ev as int - ev0 + 1,
                et[0] == fstart,
                et[ev as int - ev0] == *self,
                forall|k: int|
                    0 <= k < ev as int - ev0 ==> event_rel(
                        #[trigger] et[k],
                        et[k + 1],
                        events@[ev0 + k],
                    ) && events@[ev0 + k].timing == frame,
            decreases events@.len() - ev,
        {
            let ghost epre: Plug = *self;
            let e: NoteEvent = events[ev];
            if e.kind == NoteEventKind::NoteOn {
                self.note_on(e.note);
            } else {
                self.note_off(e.note);
            }
            proof {
                assert(event_rel(epre, *self, e));
                et = et.push(*self);
            }
            ev = ev + 1;
        }
        proof {
            assert(frame_events_ok(
                fstart,
                *self,
                events@,
                ev0 as int,
                ev as int,
                et,
                frame as int,
            ));
        }
        ev
    }

    /// Render one frame: visit the voice slots in order, render every
    /// sounding one through the sampler, and sum the stereo outputs.
    #[verifier::loop_isolation(false)]
    #[verifier::rlimit(50)]
    fn render_frame(&mut self) -> (o: [i64; 2])
        requires
            old(self).wf(),
        ensures
            final(self).wf(),
            final(self).params == old(self).params,
            final(self).sample_rate == old(self).sample_rate,
            final(self).pressed_notes@ == old(self).pressed_notes@,
            forall|i: int|
                0 <= i < N_VOICES ==> (#[trigger] final(self).voices@[i]).is_on == old(
                    self,
                ).voices@[i].is_on && final(self).voices@[i].current_note == old(
                    self,
                ).voices@[i].current_note,
            -0x8000_0000 <= o[0] <= 0x8000_0000,
            -0x8000_0000 <= o[1] <= 0x8000_0000,
            old(self).params.is_on == OnOff::Off ==> o[0] == 0 && o[1] == 0,
            exists|vt: Seq<Plug>, pl: Seq<int>, pr: Seq<int>|
                #[trigger] frame_render_ok(*old(self), *final(self), vt, pl, pr, o),
    {
        let ghost rstart: Plug = *self;
        let ghost mut vt: Seq<Plug> = seq![rstart];
        let ghost mut pl: Seq<int> = seq![0int];
        let ghost mut pr: Seq<int> = seq![0int];
        let mut sum_l: i64 = 0;
        let mut sum_r: i64 = 0;
        let mut v: usize = 0;
        while v < N_VOICES
            invariant
                self.wf(),
                v <= N_VOICES,
                self.params == old(self).params,
                self.sample_rate == old(self).sample_rate,
                self.pressed_notes@ == old(self).pressed_notes@,
                -0x1000_0000 * (v as int) <= sum_l as int <= 0x1000_0000 * (v as int),
                -0x1000_0000 * (v as int) <= sum_r as int <= 0x1000_0000 * (v as int),
                old(self).params.is_on == OnOff::Off ==> sum_l == 0 && sum_r == 0,
                forall|i: int|
                    0 <= i < N_VOICES ==> (#[trigger] self.voices@[i]).is_on == old(
                        self,
                    ).voices@[i].is_on && self.voices@[i].current_note == old(
                        self,
                    ).voices@[i].current_note,
                vt.len() == v + 1,
                pl.len() == v + 1,
                pr.len() == v + 1,
                vt[0] == rstart,
                vt[v as int] == *self,
                pl[0] == 0,
                pr[0] == 0,
                pl[v as int] == sum_l as int,
                pr[v as int] == sum_r as int,
                forall|k: int|
                    0 <= k < v ==> voice_step_rel(
                        #[trigger] vt[k],
                        vt[k + 1],
                        k,
                        ((pl[k + 1] - pl[k]) as i64),
                        ((pr[k + 1] - pr[k]) as i64),
                    ) && -0x1000_0000 <= pl[k + 1] - pl[k] <= 0x1000_0000 && -0x1000_0000 <= pr[k
                        + 1] - pr[k] <= 0x1000_0000,
            decreases N_VOICES - v,
        {
            let ghost vpre: Plug = *self;
            if self.voices[v].is_on {
                let mut ph: u64 = self.voices[v].sampler_phase;
                let o: [i64; 2] = self.sampler.process(v, &mut ph, &self.params);
                self.voices[v].sampler_phase = ph;
                proof {
                    if self.params.is_on == OnOff::Off || vpre.sampler.is_done@[v as int] {
                        assert(self.voices@ =~= vpre.voices@);
                    }
                    assert(voice_step_rel(vpre, *self, v as int, o[0], o[1]));
                    vt = vt.push(*self);
                    pl = pl.push(pl.last() + o[0] as int);
                    pr = pr.push(pr.last() + o[1] as int);
                }
                sum_l = sum_l + o[0];
                sum_r = sum_r + o[1];
            } else {
                proof {
                    assert(voice_step_rel(vpre, *self, v as int, 0i64, 0i64));
                    vt = vt.push(*self);
                    pl = pl.push(pl.last() + 0);
                    pr = pr.push(pr.last() + 0);
                }
            }
            v = v + 1;
        }
        let o: [i64; 2] = [sum_l, sum_r];
        proof {
            assert(frame_render_ok(rstart, *self, vt, pl, pr, o));
        }
        o
    }

    /// Render one block: consume the pitch-change flag, apply each note
    /// event at the frame it is stamped with, and sum the active voices
    /// into one stereo frame per output sample. The block-trace clause
    /// pins the whole run: frame by frame, the events stamped with that
    /// frame step the voices through the note-on/note-off relations
    /// before the frame is rendered, and the frame is the channel-wise
    /// sum of the sounding voices' rendered outputs.
    #[verifier::loop_isolation(false)]
    #[verifier::rlimit(100)]
    pub fn process_block(&mut self, events: &Vec<NoteEvent>, n_frames: usize) -> (out: Vec<
        [i64; 2],
    >)
        requires
            old(self).wf(),
            n_frames <= 0x10_0000,
            forall|i: int, j: int|
                0 <= i < j < events@.len() ==> (#[trigger] events@[i]).timing <= (
                #[trigger] events@[j]).timing,
            forall|i: int| 0 <= i < events@.len() ==> (#[trigger] events@[i]).note <= 127,
        ensures
            final(self).wf(),
            out@.len() == n_frames,
            forall|i: int|
                0 <= i < n_frames ==> -0x8000_0000 <= (#[trigger] out@[i])[0] <= 0x8000_0000
                    && -0x8000_0000 <= out@[i][1] <= 0x8000_0000,
            old(self).params.is_on == OnOff::Off ==> forall|i: int|
                0 <= i < n_frames ==> (#[trigger] out@[i])[0] == 0 && out@[i][1] == 0,
            final(self).params == old(self).params,
            final(self).sample_rate == old(self).sample_rate,
            events@.len() == 0 ==> final(self).pressed_notes@ == old(self).pressed_notes@ && (
            forall|i: int|
                0 <= i < N_VOICES ==> (#[trigger] final(self).voices@[i]).is_on == old(
                    self,
                ).voices@[i].is_on && final(self).voices@[i].current_note == old(
                    self,
                ).voices@[i].current_note),
            events_applied(
                old(self).pressed_notes@,
                final(self).pressed_notes@,
                events@,
                n_frames as int,
            ),
            exists|
                mid: Plug,
                ev1: int,
                states: Seq<Plug>,
                mids: Seq<Plug>,
                evs: Seq<int>,
                etr: Seq<Seq<Plug>>,
                vtr: Seq<Seq<Plug>>,
                psl: Seq<Seq<int>>,
                psr: Seq<Seq<int>>,
            |
                {
                    &&& pitch_refresh_rel(*old(self), mid)
                    &&& 0 <= ev1 <= events@.len()
                    &&& #[trigger] block_trace(
                        mid,
                        *final(self),
                        events@,
                        out@,
                        n_frames as int,
                        ev1,
                        states,
                        mids,
                        evs,
                        etr,
                        vtr,
                        psl,
                        psr,
                    )
                    &&& (ev1 == events@.len() || events@[ev1].timing >= n_frames)
                },
    {
        if self.params.pitch_changed.check_reset() {
            self.sampler.pitch_params_changed(&self.params, &self.voices);
        }
        let ghost bstart: Plug = *self;
        let ghost h0: Seq<u8> = old(self).pressed_notes@;
        proof {
            assert(pitch_refresh_rel(*old(self), bstart));
        }
        let ghost mut states: Seq<Plug> = seq![bstart];
        let ghost mut mids: Seq<Plug> = Seq::empty();
        let ghost mut evs: Seq<int> = seq![0int];
        let ghost mut etr: Seq<Seq<Plug>> = Seq::empty();
        let ghost mut vtr: Seq<Seq<Plug>> = Seq::empty();
        let ghost mut psl: Seq<Seq<int>> = Seq::empty();
        let ghost mut psr: Seq<Seq<int>> = Seq::empty();
        let mut out: Vec<[i64; 2]> = Vec::new();
        let mut ev: usize = 0;
        let mut frame: usize = 0;
        while frame < n_frames
            invariant
                self.wf(),
                frame <= n_frames,
                ev <= events@.len(),
                out@.len() == frame,
                self.params == old(self).params,
                self.sample_rate == old(self).sample_rate,
                forall|i: int|
                    0 <= i < frame ==> -0x8000_0000 <= (#[trigger] out@[i])[0] <= 0x8000_0000
                        && -0x8000_0000 <= out@[i][1] <= 0x8000_0000,
                old(self).params.is_on == OnOff::Off ==> forall|i: int|
                    0 <= i < frame ==> (#[trigger] out@[i])[0] == 0 && out@[i][1] == 0,
                events@.len() == 0 ==> self.pressed_notes@ == old(self).pressed_notes@ && (
                forall|i: int|
                    0 <= i < N_VOICES ==> (#[trigger] self.voices@[i]).is_on == old(
                        self,
                    ).voices@[i].is_on && self.voices@[i].current_note == old(
                        self,
                    ).voices@[i].current_note),
                self.pressed_notes@ == history_after(h0, events@, ev as nat),
                forall|j: int| 0 <= j < ev ==> (#[trigger] events@[j]).timing < frame,
                ev == events@.len() || events@[ev as int].timing >= frame,
                states.len() == frame + 1,
                mids.len() == frame,
                evs.len() == frame + 1,
                etr.len() == frame,
                vtr.len() == frame,
                psl.len() == frame,
                psr.len() == frame,
                states[0] == bstart,
                states[frame as int] == *self,
                evs[0] == 0,
                evs[frame as int] == ev as int,
                forall|f: int|
                    0 <= f < frame ==> frame_trace_ok(
                        #[trigger] states[f],
                        mids[f],
                        states[f + 1],
                        events@,
                        evs[f],
                        evs[f + 1],
                        etr[f],
                        vtr[f],
                        psl[f],
                        psr[f],
                        out@[f],
                        f,
                    ),
            decreases n_frames - frame,
        {
            let ghost fstart: Plug = *self;
            let ghost evstart: int = ev as int;
            ev = self.apply_frame_events(events, ev, frame, n_frames, Ghost(h0));
            let ghost rstart: Plug = *self;
            let ghost et: Seq<Plug> = choose|et: Seq<Plug>|
                #[trigger] frame_events_ok(
                    fstart,
                    rstart,
                    events@,
                    evstart,
                    ev as int,
                    et,
                    frame as int,
                );
            let o: [i64; 2] = self.render_frame();
            let ghost (vt, pl, pr): (Seq<Plug>, Seq<int>, Seq<int>) = choose|
                vt: Seq<Plug>,
                pl: Seq<int>,
                pr: Seq<int>,
            | #[trigger] frame_render_ok(rstart, *self, vt, pl, pr, o);
            out.push(o);
            proof {
                assert(frame_trace_ok(
                    fstart,
                    rstart,
                    *self,
                    events@,
                    evstart,
                    ev as int,
                    et,
                    vt,
                    pl,
                    pr,
                    out@[frame as int],
                    frame as int,
                ));
                states = states.push(*self);
                mids = mids.push(rstart);
                evs = evs.push(ev as int);
                etr = etr.push(et);
                vtr = vtr.push(vt);
                psl = psl.push(pl);
                psr = psr.push(pr);
            }
            frame = frame + 1;
        }
        proof {
            let kk: int = ev as int;
            assert(self.pressed_notes@ == history_after(
                old(self).pressed_notes@,
                events@,
                kk as nat,
            ));
            assert(events_applied(
                old(self).pressed_notes@,
                self.pressed_notes@,
                events@,
                n_frames as int,
            ));
            assert(block_trace(
                bstart,
                *self,
                events@,
                out@,
                n_frames as int,
                kk,
                states,
                mids,
                evs,
                etr,
                vtr,
                psl,
                psr,
            ));
        }
        out
    }
}

impl Default for Plug {
    /// A fresh engine over the default silent source: eight idle voices,
    /// an empty note history, and the wavetable already built.
    fn default() -> (p: Plug)
        ensures
            p.wf(),
            p.pressed_notes@.len() == 0,
            forall|i: int| 0 <= i < N_VOICES ==> !(#[trigger] p.voices@[i]).is_on,
            forall|i: int| 0 <= i < N_VOICES ==> #[trigger] p.sampler.is_done@[i],
            p.params.mono == OnOff::Off,
            p.sampler.data.len == 2048,
    {
        let params: SamplerParams = Default::default();
        let mut sampler: Sampler = Sampler::new();
        sampler.source_changed(&params);
        let mut voices: Vec<Voice> = Vec::new();
        while voices.len() < N_VOICES
            invariant
                voices@.len() <= N_VOICES,
                forall|i: int| 0 <= i < voices@.len() ==> !(#[trigger] voices@[i]).is_on,
                forall|i: int| 0 <= i < voices@.len() ==> (#[trigger] voices@[i]).pitch_wf(),
                forall|i: int|
                    0 <= i < voices@.len() ==> (#[trigger] voices@[i]).sampler_phase == 0,
                forall|i: int|
                    0 <= i < voices@.len() ==> (#[trigger] voices@[i]).current_note == 0,
            decreases N_VOICES - voices@.len(),
        {
            voices.push(Voice::new());
        }
        Plug { sampler, params, sample_rate: 48000, voices, pressed_notes: Vec::new() }
    }
}

/// Dropping a note from the history commutes with appending another.
pub proof fn lemma_remove_note_push(s: Seq<u8>, v: u8, n: u8)
    ensures
        remove_note(s.push(v), n) == if v != n {
            remove_note(s, n).push(v)
        } else {
            remove_note(s, n)
        },
{
    reveal_with_fuel(Seq::filter, 2);
    assert(s.push(v).drop_last() =~= s);
    assert(s.push(v).last() == v);
}

} // verus!
