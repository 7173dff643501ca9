//! The assembled timeline of a track: the decoded samples of each chunk in the
//! chosen order, and the playback position at which each chunk starts.
//!
//! Positions are counted in frames. A frame is one sample for each of the two
//! channels, and 22050 frames make a second.

use vstd::prelude::*;
use crate::error::FormatError;
use crate::sbf::{chunk_error, chunk_samples, SBFIndexEntry, SBF};
use crate::sums::{
    lemma_sum_before_all, lemma_sum_before_monotone, lemma_sum_before_step, lemma_sum_permutation,
    sum_before, sum_of,
};

verus! {

/// Frames per second of every track.
pub const SAMPLE_RATE: u32 = 22050;

/// Channels of every track; the samples of a frame stand next to each other.
pub const CHANNELS: u16 = 2;

/// The whole seconds that have passed when `frames` frames have played.
pub open spec fn frame_seconds(frames: int) -> int {
    frames / 22050
}

/// The nanoseconds beyond the whole seconds that have passed when `frames`
/// frames have played, rounded down.
pub open spec fn frame_nanos(frames: int) -> int {
    (frames % 22050) * 1_000_000_000 / 22050
}

/// The number of frames that have played in full after `secs` seconds and
/// `nanos` nanoseconds.
pub open spec fn frames_in(secs: int, nanos: int) -> int {
    secs * 22050 + nanos * 22050 / 1_000_000_000
}

/// The time at which a frame plays, as whole seconds and nanoseconds.
pub fn frame_time(frames: u128) -> (r: (u128, u32))
    ensures
        r.0 as int == frame_seconds(frames as int),
        r.1 as int == frame_nanos(frames as int),
        r.1 < 1_000_000_000,
{
    let secs: u128 = frames / 22050;
    let rest: u64 = (frames % 22050) as u64;
    let nanos: u64 = rest * 1_000_000_000 / 22050;
    (secs, nanos as u32)
}

/// The frame that plays at a time that is given as whole seconds and
/// nanoseconds.
pub fn frames_at(secs: u64, nanos: u32) -> (frames: u128)
    ensures
        frames as int == frames_in(secs as int, nanos as int),
{
    let whole: u128 = (secs as u128) * 22050;
    let part: u64 = (nanos as u64) * 22050 / 1_000_000_000;
    whole + part as u128
}

/// A time that starts a frame leads back to that frame or the one before.
pub proof fn lemma_frame_time_round_trip(frames: int)
    requires
        0 <= frames,
    ensures
        frames - 1 <= frames_in(frame_seconds(frames), frame_nanos(frames)) <= frames,
{
    let rest = frames % 22050;
    let nanos = rest * 1_000_000_000 / 22050;
    assert(rest * 1_000_000_000 - 22050 < nanos * 22050 <= rest * 1_000_000_000);
    let back = nanos * 22050 / 1_000_000_000;
    assert(rest - 1 <= back <= rest);
}

/// The timeline of a track in a chosen chunk order.
#[derive(Debug)]
pub struct ReorderedData {
    /// The decoded samples of each chunk.
    pub chunk_pcms: Vec<Vec<i16>>,
    /// The frame at which each chunk starts.
    pub chunk_offsets: Vec<u128>,
}

/// The number of whole frames in a decoded chunk.
pub open spec fn frames_weight() -> spec_fn(Vec<i16>) -> nat {
    |pcm: Vec<i16>| pcm@.len() / 2
}

/// The number of samples in a decoded chunk.
pub open spec fn samples_weight() -> spec_fn(Vec<i16>) -> nat {
    |pcm: Vec<i16>| pcm@.len()
}

/// The number of samples that a chunk of the container `content` decodes to.
pub open spec fn decoded_len_weight(content: Seq<u8>) -> spec_fn(SBFIndexEntry) -> nat {
    |chunk: SBFIndexEntry| chunk_samples(content, chunk).len()
}

/// The number of whole frames that a chunk of the container `content` decodes
/// to.
pub open spec fn decoded_frames_weight(content: Seq<u8>) -> spec_fn(SBFIndexEntry) -> nat {
    |chunk: SBFIndexEntry| chunk_samples(content, chunk).len() / 2
}

/// The samples of the first `n` chunks, one chunk after the other.
pub open spec fn joined(pcms: Seq<Vec<i16>>, n: int) -> Seq<i16>
    decreases n,
{
    if n <= 0 {
        Seq::empty()
    } else {
        joined(pcms, n - 1) + pcms[n - 1]@
    }
}

/// The samples of a track: those of its chunks, one chunk after the other.
pub open spec fn track_pcm(content: Seq<u8>, track: Seq<SBFIndexEntry>) -> Seq<i16>
    decreases track.len(),
{
    if track.len() == 0 {
        Seq::empty()
    } else {
        track_pcm(content, track.drop_last()) + chunk_samples(content, track.last())
    }
}

/// The number of samples that the chunks of `track` decode to, all together.
pub open spec fn track_samples(content: Seq<u8>, track: Seq<SBFIndexEntry>) -> nat {
    sum_of(track, decoded_len_weight(content))
}

/// The number of frames that the chunks of `track` play for, all together.
pub open spec fn track_frames(content: Seq<u8>, track: Seq<SBFIndexEntry>) -> nat {
    sum_of(track, decoded_frames_weight(content))
}

/// The error of the first chunk of `track`, from `from` on, that cannot be
/// decoded.
pub open spec fn track_error(content: Seq<u8>, track: Seq<SBFIndexEntry>, from: int) -> Option<
    FormatError,
>
    decreases track.len() - from,
{
    if from < 0 || from >= track.len() {
        None
    } else {
        match chunk_error(content, track[from]) {
            Some(e) => Some(e),
            None => track_error(content, track, from + 1),
        }
    }
}

impl Default for ReorderedData {
    /// A timeline without chunks.
    fn default() -> (r: ReorderedData)
        ensures
            r.is_empty(),
            r.wf(),
    {
        ReorderedData::new()
    }
}

impl ReorderedData {
    /// Whether each chunk starts where the chunks before it end.
    pub open spec fn wf(&self) -> bool {
        &&& self.chunk_offsets@.len() == self.chunk_pcms@.len()
        &&& forall|i: int|
            0 <= i < self.chunk_offsets@.len() ==> (#[trigger] self.chunk_offsets@[i]) as nat
                == sum_before(self.chunk_pcms@, frames_weight(), i)
    }

    /// Whether this is the timeline of `track` in the container `content`:
    /// every chunk decoded, in the order of `track`.
    pub open spec fn is_timeline_of(&self, content: Seq<u8>, track: Seq<SBFIndexEntry>) -> bool {
        &&& self.wf()
        &&& self.chunk_pcms@.len() == track.len()
        &&& forall|i: int|
            0 <= i < track.len() ==> (#[trigger] self.chunk_pcms@[i])@ == chunk_samples(
                content,
                track[i],
            )
    }

    /// Whether the timeline holds no chunk.
    pub open spec fn is_empty(&self) -> bool {
        self.chunk_pcms@.len() == 0 && self.chunk_offsets@.len() == 0
    }

    /// All samples of the timeline, in order.
    pub open spec fn samples(&self) -> Seq<i16> {
        joined(self.chunk_pcms@, self.chunk_pcms@.len() as int)
    }

    /// The number of frames that the whole timeline plays for.
    pub open spec fn total_frames(&self) -> nat {
        sum_of(self.chunk_pcms@, frames_weight())
    }

    /// A timeline without chunks.
    pub fn new() -> (r: ReorderedData)
        ensures
            r.is_empty(),
            r.wf(),
    {
        ReorderedData { chunk_pcms: Vec::new(), chunk_offsets: Vec::new() }
    }

    /// Decodes the chunks of `track` in the given order and computes where
    /// each starts. Whatever the timeline held before is discarded. Where a
    /// chunk cannot be decoded the timeline is left empty.
    pub fn recalc(&mut self, track: &Vec<SBFIndexEntry>, sbf: &SBF) -> (r: Result<(), FormatError>)
        ensures
            match r {
                Ok(_) => track_error(sbf.content@, track@, 0) is None && final(self).is_timeline_of(
                    sbf.content@,
                    track@,
                ),
                Err(e) => track_error(sbf.content@, track@, 0) == Some(e) && final(self).is_empty(),
            },
    {
        self.chunk_pcms.clear();
        self.chunk_offsets.clear();
        let mut offset: u128 = 0;
        let mut i: usize = 0;
        while i < track.len()
            invariant
                i <= track@.len(),
                self.chunk_pcms@.len() == i,
                self.chunk_offsets@.len() == i,
                forall|k: int|
                    0 <= k < i ==> (#[trigger] self.chunk_offsets@[k]) as nat == sum_before(
                        self.chunk_pcms@,
                        frames_weight(),
                        k,
                    ),
                forall|k: int|
                    0 <= k < i ==> (#[trigger] self.chunk_pcms@[k])@ == chunk_samples(
                        sbf.content@,
                        track@[k],
                    ),
                offset as nat == sum_before(self.chunk_pcms@, frames_weight(), i as int),
                offset <= i * 0xffff_ffff_ffff_ffff,
                track_error(sbf.content@, track@, i as int) == track_error(sbf.content@, track@, 0),
            decreases track@.len() - i,
        {
            let pcm = match sbf.decode(&track[i]) {
                Ok(pcm) => pcm,
                Err(e) => {
                    self.chunk_pcms.clear();
                    self.chunk_offsets.clear();
                    return Err(e);
                },
            };
            let frames: u128 = (pcm.len() / 2) as u128;
            let ghost before = self.chunk_pcms@;
            self.chunk_offsets.push(offset);
            self.chunk_pcms.push(pcm);
            proof {
                let now = self.chunk_pcms@;
                assert forall|k: int| 0 <= k <= i implies sum_before(now, frames_weight(), k)
                    == sum_before(before, frames_weight(), k) by {
                    assert(now.take(k) =~= before.take(k));
                }
                lemma_sum_before_step(now, frames_weight(), i as int);
            }
            offset = offset + frames;
            i = i + 1;
        }
        Ok(())
    }

    /// All samples of the timeline, one chunk after the other.
    pub fn pcm(&self) -> (r: Vec<i16>)
        ensures
            r@ == self.samples(),
    {
        let mut out: Vec<i16> = Vec::new();
        let mut i: usize = 0;
        while i < self.chunk_pcms.len()
            invariant
                i <= self.chunk_pcms@.len(),
                out@ == joined(self.chunk_pcms@, i as int),
            decreases self.chunk_pcms@.len() - i,
        {
            let ghost before = out@;
            out.extend_from_slice(self.chunk_pcms[i].as_slice());
            assert(out@ =~= before + self.chunk_pcms@[i as int]@);
            i = i + 1;
        }
        out
    }

    /// The chunk that plays at the position `passed`, counted in frames: from
    /// the first chunk on, the next chunk takes over once the position has
    /// gone beyond its start. A timeline without chunks plays none.
    pub fn playing_chunk(&self, passed: u128) -> (r: Option<usize>)
        ensures
            match r {
                Some(k) => {
                    &&& k < self.chunk_offsets@.len()
                    &&& forall|j: int| 0 < j <= k ==> (#[trigger] self.chunk_offsets@[j]) < passed
                    &&& k + 1 < self.chunk_offsets@.len() ==> self.chunk_offsets@[k + 1] >= passed
                },
                None => self.chunk_offsets@.len() == 0,
            },
    {
        let n = self.chunk_offsets.len();
        if n == 0 {
            return None;
        }
        let mut k: usize = 0;
        while k < n - 1 && self.chunk_offsets[k + 1] < passed
            invariant
                k < n == self.chunk_offsets@.len(),
                forall|j: int| 0 < j <= k ==> (#[trigger] self.chunk_offsets@[j]) < passed,
            decreases n - k,
        {
            k = k + 1;
        }
        Some(k)
    }
}

/// The first chunk of a timeline starts at zero, and no chunk starts before
/// the one in front of it.
pub proof fn lemma_offsets_ascend(timeline: ReorderedData)
    requires
        timeline.wf(),
    ensures
        timeline.chunk_offsets@.len() > 0 ==> timeline.chunk_offsets@[0] == 0,
        forall|i: int, j: int|
            0 <= i <= j < timeline.chunk_offsets@.len() ==> (#[trigger] timeline.chunk_offsets@[i])
                <= (#[trigger] timeline.chunk_offsets@[j]),
{
    let pcms = timeline.chunk_pcms@;
    if pcms.len() > 0 {
        lemma_sum_before_step(pcms, frames_weight(), 0);
    }
    assert forall|i: int, j: int| 0 <= i <= j < timeline.chunk_offsets@.len() implies (
    #[trigger] timeline.chunk_offsets@[i]) <= (#[trigger] timeline.chunk_offsets@[j]) by {
        lemma_sum_before_monotone(pcms, frames_weight(), i, j);
    }
}

/// The samples of a timeline are as many as its chunks hold together.
pub proof fn lemma_joined_len(pcms: Seq<Vec<i16>>, n: int)
    requires
        0 <= n <= pcms.len(),
    ensures
        joined(pcms, n).len() == sum_before(pcms, samples_weight(), n),
    decreases n,
{
    if n > 0 {
        lemma_joined_len(pcms, n - 1);
        lemma_sum_before_step(pcms, samples_weight(), n - 1);
    } else {
        assert(pcms.take(0).len() == 0);
    }
}

/// The last chunk ends where the whole timeline ends: its start and its
/// length add up to the frames of all chunks.
pub proof fn lemma_last_chunk_ends_timeline(timeline: ReorderedData)
    requires
        timeline.wf(),
        timeline.chunk_pcms@.len() > 0,
    ensures
        timeline.chunk_offsets@.last() + timeline.chunk_pcms@.last()@.len() / 2
            == timeline.total_frames(),
{
    let pcms = timeline.chunk_pcms@;
    lemma_sum_before_step(pcms, frames_weight(), pcms.len() - 1);
    lemma_sum_before_all(pcms, frames_weight());
}

/// Where every chunk holds whole frames only, the frames of the timeline are
/// half its samples.
pub proof fn lemma_frames_are_half_the_samples(pcms: Seq<Vec<i16>>)
    requires
        forall|i: int| 0 <= i < pcms.len() ==> (#[trigger] pcms[i])@.len() % 2 == 0,
    ensures
        2 * sum_of(pcms, frames_weight()) == sum_of(pcms, samples_weight()),
    decreases pcms.len(),
{
    if pcms.len() > 0 {
        assert(pcms.last() == pcms[pcms.len() - 1]);
        assert forall|i: int| 0 <= i < pcms.drop_last().len() implies (
        #[trigger] pcms.drop_last()[i])@.len() % 2 == 0 by {
            assert(pcms.drop_last()[i] == pcms[i]);
        }
        lemma_frames_are_half_the_samples(pcms.drop_last());
    }
}

/// The timeline of a track holds as many samples and frames as the chunks of
/// the track decode to.
pub proof fn lemma_timeline_totals(
    timeline: ReorderedData,
    content: Seq<u8>,
    track: Seq<SBFIndexEntry>,
)
    requires
        timeline.is_timeline_of(content, track),
    ensures
        timeline.samples().len() == track_samples(content, track),
        timeline.total_frames() == track_frames(content, track),
{
    let pcms = timeline.chunk_pcms@;
    lemma_joined_len(pcms, pcms.len() as int);
    lemma_sum_before_all(pcms, samples_weight());
    lemma_same_weights(pcms, content, track);
}

/// Chunks that are the decoded chunks of a track weigh what those of the
/// track weigh.
proof fn lemma_same_weights(pcms: Seq<Vec<i16>>, content: Seq<u8>, track: Seq<SBFIndexEntry>)
    requires
        pcms.len() == track.len(),
        forall|i: int| 0 <= i < track.len() ==> (#[trigger] pcms[i])@ == chunk_samples(content, track[i]),
    ensures
        sum_of(pcms, samples_weight()) == sum_of(track, decoded_len_weight(content)),
        sum_of(pcms, frames_weight()) == sum_of(track, decoded_frames_weight(content)),
    decreases pcms.len(),
{
    if pcms.len() > 0 {
        assert(pcms.last() == pcms[pcms.len() - 1]);
        assert forall|i: int| 0 <= i < track.drop_last().len() implies (
        #[trigger] pcms.drop_last()[i])@ == chunk_samples(content, track.drop_last()[i]) by {
            assert(pcms.drop_last()[i] == pcms[i]);
        }
        lemma_same_weights(pcms.drop_last(), content, track.drop_last());
    }
}

/// However the chunks of a track are reordered, they decode to the same
/// number of samples and play for the same number of frames.
pub proof fn lemma_reorder_keeps_totals(
    content: Seq<u8>,
    track: Seq<SBFIndexEntry>,
    reordered: Seq<SBFIndexEntry>,
)
    requires
        track.to_multiset() == reordered.to_multiset(),
    ensures
        track_samples(content, track) == track_samples(content, reordered),
        track_frames(content, track) == track_frames(content, reordered),
{
    lemma_sum_permutation(track, reordered, decoded_len_weight(content));
    lemma_sum_permutation(track, reordered, decoded_frames_weight(content));
}

/// Where every chunk holds whole frames only, the timeline ends at half the
/// number of its samples: the start of the last chunk and the frames of the
/// last chunk, taken twice, are the samples of the timeline. At 22050 frames
/// to the second this is the duration of the track.
pub proof fn lemma_round_trip_duration(timeline: ReorderedData)
    requires
        timeline.wf(),
        timeline.chunk_pcms@.len() > 0,
        forall|i: int|
            0 <= i < timeline.chunk_pcms@.len() ==> (#[trigger] timeline.chunk_pcms@[i])@.len() % 2
                == 0,
    ensures
        2 * (timeline.chunk_offsets@.last() + timeline.chunk_pcms@.last()@.len() / 2)
            == timeline.samples().len(),
{
    let pcms = timeline.chunk_pcms@;
    lemma_last_chunk_ends_timeline(timeline);
    lemma_frames_are_half_the_samples(pcms);
    lemma_joined_len(pcms, pcms.len() as int);
    lemma_sum_before_all(pcms, samples_weight());
}

/// The timeline of a reordered track starts at zero, never steps back, and
/// holds as many samples as the timeline of the track before: the sum of what
/// the chunks decode to one by one.
pub proof fn lemma_reorder_invariance(
    content: Seq<u8>,
    track: Seq<SBFIndexEntry>,
    reordered: Seq<SBFIndexEntry>,
    before: ReorderedData,
    after: ReorderedData,
)
    requires
        track.to_multiset() == reordered.to_multiset(),
        before.is_timeline_of(content, track),
        after.is_timeline_of(content, reordered),
    ensures
        after.chunk_offsets@.len() > 0 ==> after.chunk_offsets@[0] == 0,
        forall|i: int, j: int|
            0 <= i <= j < after.chunk_offsets@.len() ==> (#[trigger] after.chunk_offsets@[i]) <= (
            #[trigger] after.chunk_offsets@[j]),
        after.samples().len() == track_samples(content, track),
        after.samples().len() == before.samples().len(),
        after.total_frames() == before.total_frames(),
{
    lemma_offsets_ascend(after);
    lemma_timeline_totals(before, content, track);
    lemma_timeline_totals(after, content, reordered);
    lemma_reorder_keeps_totals(content, track, reordered);
}

/// The samples of a timeline are the samples of its track.
pub proof fn lemma_timeline_samples(
    timeline: ReorderedData,
    content: Seq<u8>,
    track: Seq<SBFIndexEntry>,
)
    requires
        timeline.is_timeline_of(content, track),
    ensures
        timeline.samples() == track_pcm(content, track),
{
    lemma_joined_prefix(timeline.chunk_pcms@, content, track, track.len() as int);
    assert(track.take(track.len() as int) =~= track);
}

/// The first chunks of a timeline, joined, are the samples of the first
/// chunks of its track.
proof fn lemma_joined_prefix(
    pcms: Seq<Vec<i16>>,
    content: Seq<u8>,
    track: Seq<SBFIndexEntry>,
    n: int,
)
    requires
        pcms.len() == track.len(),
        0 <= n <= track.len(),
        forall|i: int| 0 <= i < track.len() ==> (#[trigger] pcms[i])@ == chunk_samples(content, track[i]),
    ensures
        joined(pcms, n) == track_pcm(content, track.take(n)),
    decreases n,
{
    if n > 0 {
        lemma_joined_prefix(pcms, content, track, n - 1);
        assert(track.take(n).drop_last() =~= track.take(n - 1));
        assert(track.take(n).last() == track[n - 1]);
    }
}

} // verus!
