//! Sound data and audio formats.
//!
//! Decoding compressed audio belongs to the codec bindings outside this
//! library; here live the format arithmetic and the decoded samples.

use vstd::prelude::*;

verus! {

/// Audio containers the engine recognizes.
#[derive(Clone, Copy, PartialEq, Eq, Structural, Debug)]
pub enum Codec {
    Vorbis,
    Wave,
}

/// The shape of raw audio data: how many channels, at what sample rate.
#[derive(Clone, Copy, PartialEq, Eq, Structural, Debug)]
pub struct Format {
    /// Number of channels.
    pub channels: usize,
    /// Number of samples per second.
    pub rate: usize,
}

impl Format {
    /// How many bytes one second of audio takes: samples are `i16`, two
    /// bytes each, across every channel.
    pub fn bytes_per_second(&self) -> (r: usize)
        requires
            self.channels * self.rate * 2 <= usize::MAX,
        ensures
            r == self.channels * self.rate * 2,
    {
        self.channels * self.rate * 2
    }

    /// Number of samples per second.
    pub fn samplerate(&self) -> (r: usize)
        ensures
            r == self.rate,
    {
        self.rate
    }

    /// Number of channels.
    pub fn channels(&self) -> (r: usize)
        ensures
            r == self.channels,
    {
        self.channels
    }
}

/// Streamed music; a placeholder this engine reserves for a streaming
/// decoder.
#[derive(Debug)]
pub struct Music {}

/// A fully decoded sound: its format and its raw `i16` samples.
#[derive(Clone, PartialEq, Eq, Debug)]
pub struct Sound {
    /// Audio format.
    pub format: Format,
    /// Raw audio data, in `i16` samples.
    pub data: Vec<i16>,
}

impl Sound {
    /// Creates a sound from already decoded samples.
    pub fn new(format: Format, data: Vec<i16>) -> (r: Sound)
        ensures
            r.format == format,
            r.data@ == data@,
    {
        Sound { format, data }
    }
}

} // verus!
