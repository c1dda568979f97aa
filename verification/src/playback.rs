//! The playback cursor: how far into the samples the audio output has come.
//!
//! The producer hands out samples block by block and counts every sample it
//! hands out, the silence behind the last one included. The counter that the
//! renderer reads only ever moves forward.

use crate::wav::Header;
use vstd::prelude::*;

verus! {

/// What is asked of the output device: the frequency in samples per second,
/// the number of channels, and the size of its buffer in samples.
#[derive(Clone, Copy, Debug, PartialEq, Eq, Structural)]
pub struct DeviceRequest {
    pub freq: i32,
    pub channels: u8,
    pub samples: u16,
}

/// The request that plays a file with this header. The sample rate and the
/// channel count are cut down to the width the device takes; the buffer size
/// is the header's bits per sample.
pub fn device_request(header: &Header) -> (r: DeviceRequest)
    ensures
        r.freq == header.sample_rate as i32,
        r.channels == header.num_channels as u8,
        r.samples == header.bits_per_sample,
        header.sample_rate <= i32::MAX ==> r.freq as int == header.sample_rate as int,
        header.num_channels <= u8::MAX ==> r.channels as int == header.num_channels as int,
{
    DeviceRequest {
        freq: #[verifier::truncate]
        (header.sample_rate as i32),
        channels: #[verifier::truncate]
        (header.num_channels as u8),
        samples: header.bits_per_sample,
    }
}

/// The position after `n` more samples, held at the largest index there is.
pub open spec fn advanced(position: usize, n: usize) -> usize {
    if position + n > usize::MAX {
        usize::MAX
    } else {
        (position + n) as usize
    }
}

/// The sample heard at `position`: the one stored there, or silence behind
/// the last one.
pub open spec fn sample_or_silence(samples: Seq<i16>, position: int) -> i16 {
    if 0 <= position < samples.len() {
        samples[position]
    } else {
        0
    }
}

/// The counter shared between the producer, which advances it, and the
/// renderer, which reads it.
#[derive(Clone, Copy, Debug, PartialEq, Eq, Structural)]
pub struct PlaybackPosition {
    pub value: usize,
}

impl PlaybackPosition {
    /// A counter at the first sample.
    pub fn new() -> (p: PlaybackPosition)
        ensures
            p.value == 0,
    {
        PlaybackPosition { value: 0 }
    }

    /// Moves the counter forward by `n` samples.
    pub fn advance_by(&mut self, n: usize)
        ensures
            final(self).value == advanced(old(self).value, n),
            final(self).value >= old(self).value,
    {
        self.value = self.value.saturating_add(n);
    }

    /// The index of the next sample to be played.
    pub fn read(&self) -> (v: usize)
        ensures
            v == self.value,
    {
        self.value
    }
}

/// The producer's side of playback: the samples and its own cursor into them.
pub struct AudioPlayer {
    pub data: Vec<i16>,
    pub position: usize,
}

impl AudioPlayer {
    /// A player at the first of `data`'s samples.
    pub fn new(data: Vec<i16>) -> (p: AudioPlayer)
        ensures
            p.data@ == data@,
            p.position == 0,
    {
        AudioPlayer { data, position: 0 }
    }

    /// Fills `out` with the next samples and moves the cursor behind them.
    /// Where the samples have run out, `out` gets silence, and the cursor
    /// still moves on.
    pub fn callback(&mut self, out: &mut [i16])
        ensures
            final(self).data@ == old(self).data@,
            final(out)@.len() == old(out)@.len(),
            forall|k: int|
                0 <= k < old(out)@.len() ==> #[trigger] final(out)@[k] == sample_or_silence(
                    old(self).data@,
                    old(self).position + k,
                ),
            final(self).position == advanced(old(self).position, old(out)@.len() as usize),
            final(self).position >= old(self).position,
            old(self).position <= old(self).data@.len() ==> final(self).position <= old(
                self,
            ).data@.len() + old(out)@.len(),
    {
        let n: usize = out.len();
        let start: usize = self.position;
        let mut k: usize = 0;
        while k < n
            invariant
                k <= n,
                n == old(out)@.len(),
                out@.len() == n,
                self.data@ == old(self).data@,
                start == old(self).position,
                self.position == advanced(start, k),
                forall|j: int|
                    0 <= j < k ==> #[trigger] out@[j] == sample_or_silence(self.data@, start + j),
            decreases n - k,
        {
            let s: i16 = if self.position < self.data.len() {
                self.data[self.position]
            } else {
                0
            };
            out[k] = s;
            self.position = self.position.saturating_add(1);
            k += 1;
        }
    }
}

/// Advancing never moves a position back, and a block that starts within the
/// samples ends no more than its own length behind the last of them.
pub proof fn lemma_advance_bounds(position: usize, n: usize, len: nat)
    ensures
        advanced(position, n) >= position,
        position <= len ==> advanced(position, n) <= len + n,
{
}

/// Advancing block by block reaches the same position as advancing once by
/// the blocks' total length.
pub proof fn lemma_advance_adds(position: usize, a: usize, b: usize)
    requires
        a + b <= usize::MAX,
    ensures
        advanced(advanced(position, a), b) == advanced(position, (a + b) as usize),
{
}

} // verus!
