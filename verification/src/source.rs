//! A playback cursor over raw PCM samples.

use vstd::prelude::*;

verus! {

/// Interleaved 16-bit samples with a read position.
#[derive(Debug)]
pub struct RawPcmSource {
    pub data: Vec<i16>,
    pub channels: u16,
    pub sample_rate: u32,
    pub index: usize,
}

impl RawPcmSource {
    /// Whether the source has a channel and the read position lies within
    /// the samples.
    pub open spec fn wf(&self) -> bool {
        self.channels > 0 && self.index <= self.data@.len()
    }

    /// The number of samples for each channel, as a 32-bit count: the length
    /// is taken modulo 2^32.
    pub open spec fn total_samples(&self) -> int {
        (self.data@.len() as int % 0x1_0000_0000) / (self.channels as int)
    }

    /// A source that stands at the first sample, or nothing for a source
    /// without channels.
    pub fn new(data: Vec<i16>, channels: u16, sample_rate: u32) -> (r: Option<RawPcmSource>)
        ensures
            r is Some <==> channels > 0,
            r is Some ==> r.unwrap().wf() && r.unwrap().data == data && r.unwrap().channels
                == channels && r.unwrap().sample_rate == sample_rate && r.unwrap().index == 0,
    {
        if channels == 0 {
            None
        } else {
            Some(RawPcmSource { data, channels, sample_rate, index: 0 })
        }
    }

    /// The sample at the read position, which then moves on by one; nothing
    /// at the end.
    pub fn next_sample(&mut self) -> (r: Option<i16>)
        requires
            old(self).wf(),
        ensures
            final(self).wf(),
            final(self).data == old(self).data,
            final(self).channels == old(self).channels,
            final(self).sample_rate == old(self).sample_rate,
            old(self).index < old(self).data@.len() ==> r == Some(
                old(self).data@[old(self).index as int],
            ) && final(self).index == old(self).index + 1,
            old(self).index >= old(self).data@.len() ==> r == None::<i16> && final(self).index
                == old(self).index,
    {
        if self.index < self.data.len() {
            let sample = self.data[self.index];
            self.index = self.index + 1;
            Some(sample)
        } else {
            None
        }
    }

    /// The number of samples that are still to come.
    pub fn current_frame_len(&self) -> (r: Option<usize>)
        requires
            self.wf(),
        ensures
            r is Some,
            r.unwrap() as int == self.data@.len() - self.index,
    {
        Some(self.data.len() - self.index)
    }

    /// The number of channels.
    pub fn channels(&self) -> (r: u16)
        ensures
            r == self.channels,
    {
        self.channels
    }

    /// The number of frames per second.
    pub fn sample_rate(&self) -> (r: u32)
        ensures
            r == self.sample_rate,
    {
        self.sample_rate
    }

    /// The number of samples for each channel. Divided by the sample rate it
    /// is the duration in seconds.
    pub fn total_frames(&self) -> (r: u32)
        requires
            self.wf(),
        ensures
            r as int == self.total_samples(),
    {
        let len: u32 = ((self.data.len() as u64) % 0x1_0000_0000u64) as u32;
        len / (self.channels as u32)
    }

    /// Moves the read position to the frame `target_sample`, or to the end
    /// where the source has no such frame.
    pub fn seek_to(&mut self, target_sample: u32)
        requires
            old(self).wf(),
        ensures
            final(self).wf(),
            final(self).data == old(self).data,
            final(self).channels == old(self).channels,
            final(self).sample_rate == old(self).sample_rate,
            final(self).index as int == if target_sample >= old(self).total_samples() {
                old(self).data@.len() as int
            } else {
                target_sample * old(self).channels
            },
    {
        let total_samples = self.total_frames();
        if target_sample >= total_samples {
            self.index = self.data.len();
            return ;
        }
        assert(target_sample * self.channels <= total_samples * self.channels) by (nonlinear_arith)
            requires
                target_sample < total_samples,
        ;
        assert(total_samples * self.channels <= self.data@.len() % 0x1_0000_0000) by (
            nonlinear_arith)
            requires
                total_samples as int == (self.data@.len() as int % 0x1_0000_0000) / (
                self.channels as int),
                self.channels > 0,
        ;
        self.index = (target_sample * (self.channels as u32)) as usize;
    }
}

} // verus!
