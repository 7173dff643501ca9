//! Export of a track as an audio file.
//!
//! A first pass over the block headers gives the size that the file header
//! must declare. Then each block is decoded into a small buffer of fixed
//! capacity, and what the buffer holds is appended to the file.

use vstd::prelude::*;
use arrayvec::ArrayVec;
use vstd::slice::slice_subrange;
use crate::bytes::sample_le_bytes;
use crate::codec::{
    block_count, block_samples, blocks_samples, count_samples, decoded, lemma_block_samples,
    payload_block, payload_error, upscale_pcm, SBFChunkData,
};
use crate::error::FormatError;
use crate::group::TrackGroup;
use crate::sbf::{chunk_samples, container_error, SBFIndexEntry, SBF};
use crate::timeline::{track_error, track_pcm};
use crate::wav::{
    lemma_samples_le_concat, samples_le, wav_file, wav_header, write_wav_header, MAX_DATA_SIZE,
};

verus! {

/// Capacity of the block buffer in bytes: two for each sample of a full block.
pub const BUFFER_SIZE: usize = 8192;

/// `arrayvec::ArrayVec`: a vector of fixed capacity. Nothing of its inside
/// is known here; what it holds is spoken of through `buffer_bytes`.
#[verifier::external_type_specification]
#[verifier::external_body]
#[verifier::reject_recursive_types(T)]
pub struct ExArrayVec<T, const CAP: usize>(ArrayVec<T, CAP>);

/// The bytes that a block buffer holds, in the order in which they went in.
pub uninterp spec fn buffer_bytes(buffer: ArrayVec<u8, BUFFER_SIZE>) -> Seq<u8>;

/// `ArrayVec::new`: a buffer that holds nothing.
#[verifier::external_body]
fn buffer_new() -> (buffer: ArrayVec<u8, BUFFER_SIZE>)
    ensures
        buffer_bytes(buffer) == Seq::<u8>::empty(),
{
    ArrayVec::new()
}

/// `ArrayVec::clear`: the buffer holds nothing afterwards.
#[verifier::external_body]
fn buffer_clear(buffer: &mut ArrayVec<u8, BUFFER_SIZE>)
    ensures
        buffer_bytes(*final(buffer)) == Seq::<u8>::empty(),
{
    buffer.clear()
}

/// `ArrayVec::extend` with the two bytes of a sample: they are appended to
/// what the buffer holds. The call panics where they do not fit, so there
/// must be room for them.
#[verifier::external_body]
fn buffer_extend(buffer: &mut ArrayVec<u8, BUFFER_SIZE>, bytes: [u8; 2])
    requires
        buffer_bytes(*old(buffer)).len() + 2 <= BUFFER_SIZE,
    ensures
        buffer_bytes(*final(buffer)) == buffer_bytes(*old(buffer)) + bytes@,
{
    buffer.extend(bytes)
}

/// `ArrayVec::as_slice`: what the buffer holds.
#[verifier::external_body]
fn buffer_as_slice(buffer: &ArrayVec<u8, BUFFER_SIZE>) -> (bytes: &[u8])
    ensures
        bytes@ == buffer_bytes(*buffer),
{
    buffer.as_slice()
}

/// Why a track cannot be exported, if it cannot: the error of the first chunk
/// that cannot be decoded, or else that the samples are more than the file
/// header can declare.
pub open spec fn export_error(content: Seq<u8>, track: Seq<SBFIndexEntry>) -> Option<FormatError> {
    match track_error(content, track, 0) {
        Some(e) => Some(e),
        None => if 2 * track_pcm(content, track).len() > MAX_DATA_SIZE {
            Some(FormatError::OutputTooLarge)
        } else {
            None
        },
    }
}

/// Appends the bytes of the samples of one block, by way of the buffer.
fn write_block(writer: &mut Vec<u8>, buffer: &mut ArrayVec<u8, BUFFER_SIZE>, data: &SBFChunkData)
    requires
        data.size <= 4096,
    ensures
        final(writer)@ == old(writer)@ + samples_le(data.samples()),
{
    buffer_clear(buffer);
    let n: usize = data.size as usize;
    let mut i: usize = 0;
    assert(samples_le(data.samples().take(0)) =~= Seq::<u8>::empty());
    while i < n
        invariant
            i <= n == data.size <= 4096,
            buffer_bytes(*buffer) == samples_le(data.samples().take(i as int)),
            buffer_bytes(*buffer).len() == 2 * i,
        decreases n - i,
    {
        let sample = upscale_pcm(data.content[i], data.scale1);
        buffer_extend(buffer, sample_le_bytes(sample));
        proof {
            let taken = data.samples().take(i + 1);
            assert(taken.drop_last() =~= data.samples().take(i as int));
            assert(taken.last() == sample);
        }
        i = i + 1;
    }
    assert(data.samples().take(n as int) =~= data.samples());
    let ghost before = writer@;
    writer.extend_from_slice(buffer_as_slice(buffer));
    assert(writer@ =~= before + buffer_bytes(*buffer));
}

/// Appends the bytes of the samples of one payload, block by block.
fn write_payload(writer: &mut Vec<u8>, buffer: &mut ArrayVec<u8, BUFFER_SIZE>, payload: &[u8])
    requires
        payload_error(payload@) is None,
    ensures
        final(writer)@ == old(writer)@ + samples_le(decoded(payload@)),
{
    let len = payload.len();
    let blocks: usize = len / 4104;
    let mut k: usize = 0;
    assert(samples_le(blocks_samples(payload@, 0)) =~= Seq::<u8>::empty());
    while k < blocks
        invariant
            k <= blocks,
            len == payload@.len(),
            len == blocks * 4104,
            payload_error(payload@) is None,
            writer@ == old(writer)@ + samples_le(blocks_samples(payload@, k as int)),
        decreases blocks - k,
    {
        let block = slice_subrange(payload, k * 4104, (k + 1) * 4104);
        let data = SBFChunkData::parse(block).unwrap();
        proof {
            assert(block@ == payload_block(payload@, k as int));
            assert(block_count(payload_block(payload@, k as int)) <= 4096);
            lemma_block_samples(data, block@);
            lemma_samples_le_concat(blocks_samples(payload@, k as int), block_samples(block@));
        }
        write_block(writer, buffer, &data);
        k = k + 1;
    }
}

impl SBF {
    /// The number of data bytes of the file for `track`: two for each sample.
    pub fn export_size(&self, track: &Vec<SBFIndexEntry>) -> (r: Result<u32, FormatError>)
        ensures
            match r {
                Ok(size) => export_error(self.content@, track@) is None && size == 2 * track_pcm(
                    self.content@,
                    track@,
                ).len(),
                Err(e) => export_error(self.content@, track@) == Some(e),
            },
    {
        let limit: u64 = (MAX_DATA_SIZE / 2) as u64;
        let mut total: u64 = 0;
        let mut too_large = false;
        let mut i: usize = 0;
        assert(track@.take(0) =~= Seq::<SBFIndexEntry>::empty());
        while i < track.len()
            invariant
                i <= track@.len(),
                limit == 0x7fff_ffed,
                track_error(self.content@, track@, i as int) == track_error(self.content@, track@, 0),
                !too_large ==> total == track_pcm(self.content@, track@.take(i as int)).len() && total
                    <= limit,
                too_large ==> track_pcm(self.content@, track@.take(i as int)).len() > limit,
            decreases track@.len() - i,
        {
            let payload = match self.chunk_payload(&track[i]) {
                Ok(p) => p,
                Err(e) => {
                    return Err(e);
                },
            };
            let n = match count_samples(payload) {
                Ok(n) => n,
                Err(e) => {
                    return Err(e);
                },
            };
            proof {
                assert(track@.take(i + 1).drop_last() =~= track@.take(i as int));
                assert(track@.take(i + 1).last() == track@[i as int]);
            }
            if !too_large {
                if n as u64 > limit - total {
                    too_large = true;
                } else {
                    total = total + n as u64;
                }
            }
            i = i + 1;
        }
        assert(track@.take(i as int) =~= track@);
        if too_large {
            return Err(FormatError::OutputTooLarge);
        }
        Ok((total * 2) as u32)
    }

    /// The audio file of `track`: the chunks decoded in the given order.
    pub fn export_track(&self, track: &Vec<SBFIndexEntry>) -> (r: Result<Vec<u8>, FormatError>)
        ensures
            match r {
                Ok(file) => export_error(self.content@, track@) is None && file@ == wav_file(
                    track_pcm(self.content@, track@),
                ),
                Err(e) => export_error(self.content@, track@) == Some(e),
            },
    {
        let total_size = match self.export_size(track) {
            Ok(size) => size,
            Err(e) => {
                return Err(e);
            },
        };
        let mut file: Vec<u8> = Vec::new();
        write_wav_header(&mut file, total_size);
        let mut parsed_data = buffer_new();
        let mut i: usize = 0;
        assert(track@.take(0) =~= Seq::<SBFIndexEntry>::empty());
        assert(samples_le(track_pcm(self.content@, track@.take(0))) =~= Seq::<u8>::empty());
        while i < track.len()
            invariant
                i <= track@.len(),
                track_error(self.content@, track@, 0) is None,
                track_error(self.content@, track@, i as int) is None,
                file@ == wav_header(total_size as int) + samples_le(
                    track_pcm(self.content@, track@.take(i as int)),
                ),
            decreases track@.len() - i,
        {
            let payload = match self.chunk_payload(&track[i]) {
                Ok(p) => p,
                Err(e) => {
                    return Err(e);
                },
            };
            proof {
                assert(track@.take(i + 1).drop_last() =~= track@.take(i as int));
                assert(track@.take(i + 1).last() == track@[i as int]);
                lemma_samples_le_concat(
                    track_pcm(self.content@, track@.take(i as int)),
                    chunk_samples(self.content@, track@[i as int]),
                );
            }
            write_payload(&mut file, &mut parsed_data, payload);
            i = i + 1;
        }
        assert(track@.take(i as int) =~= track@);
        Ok(file)
    }
}

/// What the export of one track gave: the file, or why there is none.
#[derive(Debug)]
pub struct TrackExport {
    pub ident: String,
    pub file: Result<Vec<u8>, FormatError>,
}

impl TrackExport {
    /// Whether this is the export of the track `group` of the container
    /// `content`.
    pub open spec fn is_export_of(&self, content: Seq<u8>, group: TrackGroup) -> bool {
        &&& self.ident@ == group.ident@
        &&& match self.file {
            Ok(file) => export_error(content, group.chunks@) is None && file@ == wav_file(
                track_pcm(content, group.chunks@),
            ),
            Err(e) => export_error(content, group.chunks@) == Some(e),
        }
    }
}

impl SBF {
    /// Exports every track in the order of the index. A track that cannot be
    /// exported does not keep the others from being exported.
    pub fn export_all(&self) -> (exports: Vec<TrackExport>)
        ensures
            exports@.len() == self.grouped_chunks@.len(),
            forall|i: int|
                0 <= i < exports@.len() ==> (#[trigger] exports@[i]).is_export_of(
                    self.content@,
                    self.grouped_chunks@[i],
                ),
    {
        let mut exports: Vec<TrackExport> = Vec::new();
        let mut i: usize = 0;
        while i < self.grouped_chunks.len()
            invariant
                i <= self.grouped_chunks@.len(),
                exports@.len() == i,
                forall|k: int|
                    0 <= k < i ==> (#[trigger] exports@[k]).is_export_of(
                        self.content@,
                        self.grouped_chunks@[k],
                    ),
            decreases self.grouped_chunks@.len() - i,
        {
            let group = &self.grouped_chunks[i];
            let file = self.export_track(&group.chunks);
            exports.push(TrackExport { ident: group.ident.clone(), file });
            i = i + 1;
        }
        exports
    }
}

/// Loads a container and exports each of its tracks. A malformed container
/// gives no export at all.
pub fn process_file(content: Vec<u8>) -> (r: Result<(SBF, Vec<TrackExport>), FormatError>)
    ensures
        match r {
            Ok((sbf, exports)) => {
                &&& sbf.wf()
                &&& sbf.content@ == content@
                &&& exports@.len() == sbf.grouped_chunks@.len()
                &&& forall|i: int|
                    0 <= i < exports@.len() ==> (#[trigger] exports@[i]).is_export_of(
                        sbf.content@,
                        sbf.grouped_chunks@[i],
                    )
            },
            Err(e) => container_error(content@) == Some(e),
        },
{
    let sbf = match SBF::from_file(content) {
        Ok(sbf) => sbf,
        Err(e) => {
            return Err(e);
        },
    };
    let exports = sbf.export_all();
    Ok((sbf, exports))
}

} // verus!
