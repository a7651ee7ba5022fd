//! Sample naming and decoded-sample ingestion.
//!
//! Reading a file and parsing its wav container stay in the adapter; the
//! functions here state exactly which decoded streams are accepted and how
//! PCM words become the engine's Q24 amplitudes.
use vstd::prelude::*;
use crate::fixed::fdiv_i64;
use crate::interp::{bounded, SAMPLE_BOUND};

verus! {

/// Name of a sample file inside the sample folder.
#[derive(Clone, Debug)]
pub struct SampleName(pub String);

impl SampleName {
    /// The stored file name.
    pub fn name(&self) -> (r: String)
        ensures
            r@ == self.0@,
    {
        let mut r: String = String::new();
        r.append(self.0.as_str());
        r
    }
}

/// A decoded source: Q24 amplitudes, channel-interleaved when stereo.
pub struct Sample {
    pub data: Vec<i64>,
    pub channels: usize,
    pub sample_rate: u32,
}

/// Why a sample could not be taken in.
#[derive(PartialEq, Eq, Structural, Clone, Copy, Debug)]
pub enum LoadError {
    /// the file could not be read or its container not parsed
    Unreadable,
    /// a bit depth other than 16, 24 or 32
    UnsupportedBitDepth,
    /// a declared sample rate of zero
    ZeroSampleRate,
    /// more channels than stereo
    TooManyChannels,
}

/// Accept or reject a decoded stream's format: 16, 24 or 32 bits per
/// sample, a non-zero rate, one or two channels — each error named for
/// exactly the inputs that earn it, bit depth checked first, then rate,
/// then channels.
pub fn check_wav_spec(bits_per_sample: u16, sample_rate: u32, channels: u16) -> (r: Result<
    (),
    LoadError,
>)
    ensures
        r == if bits_per_sample != 16 && bits_per_sample != 24 && bits_per_sample != 32 {
            Result::<(), LoadError>::Err(LoadError::UnsupportedBitDepth)
        } else if sample_rate == 0 {
            Result::<(), LoadError>::Err(LoadError::ZeroSampleRate)
        } else if channels == 0 || channels > 2 {
            Result::<(), LoadError>::Err(LoadError::TooManyChannels)
        } else {
            Result::<(), LoadError>::Ok(())
        },
{
    if bits_per_sample != 16 && bits_per_sample != 24 && bits_per_sample != 32 {
        Err(LoadError::UnsupportedBitDepth)
    } else if sample_rate == 0 {
        Err(LoadError::ZeroSampleRate)
    } else if channels == 0 || channels > 2 {
        Err(LoadError::TooManyChannels)
    } else {
        Ok(())
    }
}

/// A 16-bit PCM word as a Q24 amplitude: `v * 2^24 / 32767`, so full
/// scale maps to one.
pub open spec fn pcm16_to_q24(v: i16) -> int {
    (v as int) * 0x100_0000 / 32767
}

/// A 24-bit PCM word as a Q24 amplitude: `v * 2^24 / (2^23 - 1)`.
pub open spec fn pcm24_to_q24(v: i32) -> int {
    (v as int) * 0x100_0000 / 0x7f_ffff
}

/// Convert a decoded 16-bit PCM stream to Q24 amplitudes.
pub fn convert_pcm16(samples: &Vec<i16>) -> (r: Vec<i64>)
    ensures
        r@.len() == samples@.len(),
        forall|i: int|
            0 <= i < r@.len() ==> #[trigger] r@[i] as int == pcm16_to_q24(samples@[i]),
        bounded(r@, SAMPLE_BOUND as int),
{
    let mut r: Vec<i64> = Vec::new();
    let mut i: usize = 0;
    while i < samples.len()
        invariant
            i <= samples@.len(),
            r@.len() == i,
            forall|j: int|
                0 <= j < r@.len() ==> #[trigger] r@[j] as int == pcm16_to_q24(samples@[j]),
            bounded(r@, SAMPLE_BOUND as int),
        decreases samples@.len() - i,
    {
        let v: i64 = samples[i] as i64;
        let q: i64 = fdiv_i64(v * 0x100_0000, 32767);
        r.push(q);
        i = i + 1;
    }
    r
}

/// Convert a decoded 24-bit PCM stream (sign-extended into 32-bit words)
/// to Q24 amplitudes.
pub fn convert_pcm24(samples: &Vec<i32>) -> (r: Vec<i64>)
    requires
        forall|i: int|
            0 <= i < samples@.len() ==> -0x80_0000 <= #[trigger] samples@[i] as int <= 0x80_0000,
    ensures
        r@.len() == samples@.len(),
        forall|i: int|
            0 <= i < r@.len() ==> #[trigger] r@[i] as int == pcm24_to_q24(samples@[i]),
        bounded(r@, SAMPLE_BOUND as int),
{
    let mut r: Vec<i64> = Vec::new();
    let mut i: usize = 0;
    while i < samples.len()
        invariant
            forall|j: int|
                0 <= j < samples@.len() ==> -0x80_0000 <= #[trigger] samples@[j] as int
                    <= 0x80_0000,
            i <= samples@.len(),
            r@.len() == i,
            forall|j: int|
                0 <= j < r@.len() ==> #[trigger] r@[j] as int == pcm24_to_q24(samples@[j]),
            bounded(r@, SAMPLE_BOUND as int),
        decreases samples@.len() - i,
    {
        let v: i64 = samples[i] as i64;
        let q: i64 = fdiv_i64(v * 0x100_0000, 0x7f_ffff);
        r.push(q);
        i = i + 1;
    }
    r
}

/// Wrap a folder listing's file names as sample names, in the order they
/// were handed in.
pub fn samples(names: Vec<String>) -> (r: Vec<SampleName>)
    ensures
        r@.len() == names@.len(),
        forall|i: int| 0 <= i < r@.len() ==> #[trigger] r@[i].0@ == names@[i]@,
{
    let mut r: Vec<SampleName> = Vec::new();
    let mut i: usize = 0;
    while i < names.len()
        invariant
            i <= names@.len(),
            r@.len() == i,
            forall|j: int| 0 <= j < r@.len() ==> #[trigger] r@[j].0@ == names@[j]@,
        decreases names@.len() - i,
    {
        let n: String = names[i].clone();
        r.push(SampleName(n));
        i = i + 1;
    }
    r
}

} // verus!
