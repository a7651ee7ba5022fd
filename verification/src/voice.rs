//! Per-voice state: on/off, playback phase, and current/target pitch with
//! a glide increment.
use vstd::prelude::*;

verus! {

/// Highest pitch a voice can hold, in Q16 MIDI-note units.
pub const PITCH_MAX: i64 = 127 * 0x1_0000;

/// One voice slot. Pitches are Q16 MIDI-note values; the phase counts
/// source samples in Q32.
pub struct Voice {
    pub is_on: bool,
    pub sampler_phase: u64,
    pub current_note: u8,
    pub current_notepitch: i64,
    pub target_notepitch: i64,
    pub increment: i64,
}

impl Voice {
    /// The pitch state a voice must keep: pitches stay in the MIDI range
    /// and the glide increment always points from the current pitch
    /// toward the target.
    pub open spec fn pitch_wf(&self) -> bool {
        &&& 0 <= self.current_notepitch <= PITCH_MAX
        &&& 0 <= self.target_notepitch <= PITCH_MAX
        &&& self.increment > 0 ==> self.current_notepitch <= self.target_notepitch
        &&& self.increment < 0 ==> self.current_notepitch >= self.target_notepitch
        &&& self.increment == 0 ==> self.current_notepitch == self.target_notepitch
        &&& -PITCH_MAX <= self.increment <= PITCH_MAX
    }

    /// A fresh, silent voice.
    pub fn new() -> (v: Voice)
        ensures
            !v.is_on,
            v.current_note == 0,
            v.current_notepitch == 0,
            v.target_notepitch == 0,
            v.increment == 0,
            v.sampler_phase == 0,
            v.pitch_wf(),
    {
        Voice {
            is_on: false,
            current_note: 0,
            current_notepitch: 0,
            target_notepitch: 0,
            increment: 0,
            sampler_phase: 0,
        }
    }

    /// One glide step: move the current pitch one increment toward the
    /// target, clamped so it never overshoots. Returns whether the pitch
    /// moved; once the target is reached nothing changes any more.
    pub fn update_pitch(&mut self) -> (moved: bool)
        requires
            old(self).pitch_wf(),
        ensures
            final(self).pitch_wf(),
            moved == (old(self).current_notepitch != old(self).target_notepitch),
            !moved ==> *final(self) == *old(self),
            moved && old(self).increment > 0 ==> final(self).current_notepitch as int == if old(
                self,
            ).current_notepitch + old(self).increment > old(self).target_notepitch {
                old(self).target_notepitch as int
            } else {
                old(self).current_notepitch as int + old(self).increment as int
            },
            moved && old(self).increment < 0 ==> final(self).current_notepitch as int == if old(
                self,
            ).current_notepitch + old(self).increment < old(self).target_notepitch {
                old(self).target_notepitch as int
            } else {
                old(self).current_notepitch as int + old(self).increment as int
            },
            final(self).target_notepitch == old(self).target_notepitch,
            final(self).increment == old(self).increment,
            final(self).is_on == old(self).is_on,
            final(self).current_note == old(self).current_note,
            final(self).sampler_phase == old(self).sampler_phase,
    {
        if self.current_notepitch == self.target_notepitch {
            false
        } else {
            if self.increment > 0 {
                let s: i64 = self.current_notepitch + self.increment;
                self.current_notepitch = if s > self.target_notepitch {
                    self.target_notepitch
                } else {
                    s
                };
            } else {
                let s: i64 = self.current_notepitch + self.increment;
                self.current_notepitch = if s < self.target_notepitch {
                    self.target_notepitch
                } else {
                    s
                };
            }
            true
        }
    }

    /// Release the voice: immediate silence, nothing else changes.
    pub fn release(&mut self)
        ensures
            !final(self).is_on,
            final(self).current_note == old(self).current_note,
            final(self).current_notepitch == old(self).current_notepitch,
            final(self).target_notepitch == old(self).target_notepitch,
            final(self).increment == old(self).increment,
            final(self).sampler_phase == old(self).sampler_phase,
    {
        self.is_on = false;
    }
}

} // verus!
