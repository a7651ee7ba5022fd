//! The parameter set the control context hands to the engine, modeled as
//! plain fixed-point values: tunings in Q16 semitones, volume in Q30,
//! offsets in Q32 fractions of the playback window.
use vstd::prelude::*;
use crate::resources::SampleName;
use crate::utils::AtomicBool;
use crate::utils::AtomicOps;
use crate::interp::{bounded, SAMPLE_BOUND};

verus! {

/// A two-state switch parameter.
#[derive(PartialEq, Eq, Structural, Clone, Copy, Debug)]
pub enum OnOff {
    Off,
    On,
}

/// Largest start offset: 0.99 of the cycle, in Q32.
pub const POS_MAX: u64 = 0xfd70_a3d7;

/// One in Q30, the unit of the volume parameter.
pub const VOL_ONE: u64 = 0x4000_0000;

/// All parameters the sampler engine reads. The two flag cells are written
/// by the control context and consumed once per block by the audio
/// context; everything else is read directly.
pub struct SamplerParams {
    pub sample_name: SampleName,
    pub mono: OnOff,
    pub pitch_changed: AtomicBool,
    /// root MIDI note, `0 ..= 127`
    pub root: u8,
    /// fine tune in Q16 semitones, one semitone either way
    pub fine_tune: i64,
    /// coarse tune in Q16 semitones, two octaves either way
    pub coarse_tune: i64,
    /// output gain in Q30, `0 ..= 1`
    pub volume: u64,
    /// stereo balance in Q30, `-1 ..= 1`; informational
    pub pan: i64,
    /// start offset of the playback window, Q32 fraction in `0 ..= 0.99`
    pub pos: u64,
    /// end offset, Q32 fraction; informational
    pub end: u64,
    pub is_looping: OnOff,
    /// the most recently decoded source, Q24 amplitudes
    pub source: Vec<i64>,
    pub source_changed: AtomicBool,
    pub is_on: OnOff,
    /// sample rate the source was recorded at
    pub sample_sample_rate: u32,
    pub sample_mono: bool,
    pub keytrack: OnOff,
}

impl SamplerParams {
    /// The ranges every parameter stays in.
    pub open spec fn wf(&self) -> bool {
        &&& self.root <= 127
        &&& -0x1_0000 <= self.fine_tune <= 0x1_0000
        &&& -0x18_0000 <= self.coarse_tune <= 0x18_0000
        &&& self.volume <= VOL_ONE
        &&& -0x4000_0000 <= self.pan <= 0x4000_0000
        &&& self.pos <= POS_MAX
        &&& self.end <= 0x1_0000_0000
        &&& self.source@.len() <= 0xff_fffe
        &&& bounded(self.source@, SAMPLE_BOUND as int)
        &&& self.sample_sample_rate <= 0x10_0000
    }

    /// A copy of the shared source buffer.
    pub fn get_sample(&self) -> (r: Vec<i64>)
        ensures
            r@ == self.source@,
    {
        crate::interp::copy_vec(&self.source)
    }

    /// The name of the loaded sample.
    pub fn get_sample_name(&self) -> (r: String)
        ensures
            r@ == self.sample_name.0@,
    {
        self.sample_name.name()
    }
}

impl Default for SamplerParams {
    /// The engine's start-up parameters: root at middle C, half volume,
    /// looping off, keytrack off, a mono silent source of 2048 samples.
    fn default() -> (p: SamplerParams)
        ensures
            p.wf(),
            p.root == 60,
            p.fine_tune == 0,
            p.coarse_tune == 0,
            p.volume == VOL_ONE / 2,
            p.pan == 0,
            p.pos == 0,
            p.end == 0,
            p.is_looping == OnOff::Off,
            p.is_on == OnOff::On,
            p.mono == OnOff::Off,
            p.keytrack == OnOff::Off,
            p.sample_mono,
            p.sample_sample_rate == 0,
            p.source@.len() == 2048,
            forall|i: int| 0 <= i < p.source@.len() ==> #[trigger] p.source@[i] == 0i64,
    {
        let mut source: Vec<i64> = Vec::new();
        while source.len() < 2048
            invariant
                source@.len() <= 2048,
                forall|i: int| 0 <= i < source@.len() ==> #[trigger] source@[i] == 0i64,
            decreases 2048 - source@.len(),
        {
            source.push(0i64);
        }
        SamplerParams {
            sample_name: SampleName(String::new()),
            mono: OnOff::Off,
            pitch_changed: AtomicBool::new(false),
            root: 60,
            fine_tune: 0,
            coarse_tune: 0,
            volume: VOL_ONE / 2,
            pan: 0,
            pos: 0,
            end: 0,
            is_looping: OnOff::Off,
            source,
            source_changed: AtomicBool::new(false),
            is_on: OnOff::On,
            sample_sample_rate: 0,
            sample_mono: true,
            keytrack: OnOff::Off,
        }
    }
}

} // verus!
