//! The SBF container: a 24-byte header, an index of 32-byte records, and the
//! chunk payloads that the records point at. All integers are little-endian.

use vstd::prelude::*;
use vstd::slice::slice_subrange;
use crate::bytes::{le_u32, read_u32_le};
use crate::codec::{decode_chunk, decoded, payload_error};
use crate::error::FormatError;
use crate::group::{find_group, group_chunks, is_grouping_of, TrackGroup};
use crate::ident::{name_bytes, reads_as, split_ident, suffix_bytes};

verus! {

/// Size of the container header in bytes.
pub const HEADER_SIZE: usize = 24;

/// Size of one index record in bytes.
pub const INDEX_ENTRY_SIZE: usize = 32;

/// Size of one payload block: an 8-byte block header and 4096 encoded bytes.
pub const BLOCK_SIZE: u32 = 4104;

/// The container header.
#[derive(Debug, Clone, Copy)]
pub struct SBFHeader {
    pub magic: [u8; 4],
    /// Three fields of unknown meaning; they are read and not looked at.
    pub i1: u32,
    pub i2: u32,
    pub i3: u32,
    /// Where the index starts, in bytes from the start of the container.
    pub index_offset: u32,
    /// The number of index records.
    pub index_count: u32,
}

/// An index record as stored.
#[derive(Debug, Clone, Copy)]
pub struct SBFIndexEntryBin {
    /// Track name and suffix, ASCII, padded with NUL.
    pub ident: [u8; 8],
    /// Reserved; holds anything.
    pub z1: u32,
    /// Reserved; must be zero.
    pub z2: u32,
    /// Where the payload starts, in bytes from the start of the container.
    pub start: u32,
    /// The size of the payload in bytes; a multiple of the block size.
    pub size: u32,
    /// The block size; must be 4104.
    pub block_size: u32,
    /// Reserved; must be zero.
    pub z3: u32,
}

/// A chunk descriptor: an index record with its identifier split into track
/// name and suffix.
#[derive(Debug)]
pub struct SBFIndexEntry {
    pub ident: String,
    pub suffix: String,
    pub z1: u32,
    pub z2: u32,
    pub start: u32,
    pub size: u32,
    pub block_size: u32,
    pub z3: u32,
}

impl Clone for SBFIndexEntry {
    fn clone(&self) -> (r: Self)
        ensures
            r == *self,
    {
        SBFIndexEntry {
            ident: self.ident.clone(),
            suffix: self.suffix.clone(),
            z1: self.z1,
            z2: self.z2,
            start: self.start,
            size: self.size,
            block_size: self.block_size,
            z3: self.z3,
        }
    }
}

/// Where the index region that the header of `bytes` describes ends.
pub open spec fn index_region_end(bytes: Seq<u8>) -> int {
    le_u32(bytes, 16) + le_u32(bytes, 20) * 32
}

/// Why `bytes` holds no usable header, if it does not: it is shorter than a
/// header, or the index region ends beyond it.
pub open spec fn header_error(bytes: Seq<u8>) -> Option<FormatError> {
    if bytes.len() < 24 {
        Some(FormatError::HeaderTooShort)
    } else if index_region_end(bytes) > bytes.len() {
        Some(FormatError::IndexOutOfBounds)
    } else {
        None
    }
}

/// The invariant that the record at `at` violates, if any. The reserved fields
/// are looked at first, then the block size, then the payload size.
pub open spec fn record_violation(bytes: Seq<u8>, at: int) -> Option<FormatError> {
    if le_u32(bytes, at + 12) != 0 || le_u32(bytes, at + 28) != 0 {
        Some(FormatError::ReservedNonZero)
    } else if le_u32(bytes, at + 24) != 4104 {
        Some(FormatError::BlockSizeMismatch)
    } else if le_u32(bytes, at + 20) % 4104 != 0 {
        Some(FormatError::SizeNotBlockMultiple)
    } else {
        None
    }
}

/// The violation of the first malformed record among records `from..count` of
/// the index at `base`.
pub open spec fn index_violation(bytes: Seq<u8>, base: int, count: int, from: int) -> Option<
    FormatError,
>
    decreases count - from,
{
    if from >= count {
        None
    } else {
        match record_violation(bytes, base + 32 * from) {
            Some(e) => Some(e),
            None => index_violation(bytes, base, count, from + 1),
        }
    }
}

/// Why `bytes` is no valid container, if it is not.
pub open spec fn container_error(bytes: Seq<u8>) -> Option<FormatError> {
    match header_error(bytes) {
        Some(e) => Some(e),
        None => index_violation(bytes, le_u32(bytes, 16), le_u32(bytes, 20), 0),
    }
}

impl SBFHeader {
    /// Whether this is the header that `bytes` starts with.
    pub open spec fn is_header_of(&self, bytes: Seq<u8>) -> bool {
        &&& self.magic@ == bytes.subrange(0, 4)
        &&& self.i1 as int == le_u32(bytes, 4)
        &&& self.i2 as int == le_u32(bytes, 8)
        &&& self.i3 as int == le_u32(bytes, 12)
        &&& self.index_offset as int == le_u32(bytes, 16)
        &&& self.index_count as int == le_u32(bytes, 20)
    }

    /// Reads the header and checks that the index region lies inside `bytes`.
    pub fn parse(bytes: &[u8]) -> (r: Result<SBFHeader, FormatError>)
        ensures
            match r {
                Ok(h) => header_error(bytes@) is None && h.is_header_of(bytes@),
                Err(e) => header_error(bytes@) == Some(e),
            },
    {
        if bytes.len() < HEADER_SIZE {
            return Err(FormatError::HeaderTooShort);
        }
        let magic: [u8; 4] = [bytes[0], bytes[1], bytes[2], bytes[3]];
        assert(magic@ =~= bytes@.subrange(0, 4));
        let header = SBFHeader {
            magic,
            i1: read_u32_le(bytes, 4).unwrap(),
            i2: read_u32_le(bytes, 8).unwrap(),
            i3: read_u32_le(bytes, 12).unwrap(),
            index_offset: read_u32_le(bytes, 16).unwrap(),
            index_count: read_u32_le(bytes, 20).unwrap(),
        };
        let end: u64 = header.index_offset as u64 + header.index_count as u64 * 32;
        if end > bytes.len() as u64 {
            return Err(FormatError::IndexOutOfBounds);
        }
        Ok(header)
    }
}

impl SBFIndexEntryBin {
    /// Whether this is the record that `bytes` holds at `at`.
    pub open spec fn is_record_at(&self, bytes: Seq<u8>, at: int) -> bool {
        &&& self.ident@ == bytes.subrange(at, at + 8)
        &&& self.z1 as int == le_u32(bytes, at + 8)
        &&& self.z2 as int == le_u32(bytes, at + 12)
        &&& self.start as int == le_u32(bytes, at + 16)
        &&& self.size as int == le_u32(bytes, at + 20)
        &&& self.block_size as int == le_u32(bytes, at + 24)
        &&& self.z3 as int == le_u32(bytes, at + 28)
    }

    /// The invariant that this record violates, if any.
    pub open spec fn violation(&self) -> Option<FormatError> {
        if self.z2 != 0 || self.z3 != 0 {
            Some(FormatError::ReservedNonZero)
        } else if self.block_size != 4104 {
            Some(FormatError::BlockSizeMismatch)
        } else if self.size % 4104 != 0 {
            Some(FormatError::SizeNotBlockMultiple)
        } else {
            None
        }
    }

    /// Reads the record at `at`, or nothing where fewer than 32 bytes follow
    /// `at`.
    pub fn parse(bytes: &[u8], at: usize) -> (r: Option<SBFIndexEntryBin>)
        ensures
            r is Some <==> at + 32 <= bytes@.len(),
            r is Some ==> r.unwrap().is_record_at(bytes@, at as int),
            r is Some ==> r.unwrap().violation() == record_violation(bytes@, at as int),
    {
        if bytes.len() < INDEX_ENTRY_SIZE || at > bytes.len() - INDEX_ENTRY_SIZE {
            return None;
        }
        let ident: [u8; 8] = [
            bytes[at],
            bytes[at + 1],
            bytes[at + 2],
            bytes[at + 3],
            bytes[at + 4],
            bytes[at + 5],
            bytes[at + 6],
            bytes[at + 7],
        ];
        assert(ident@ =~= bytes@.subrange(at as int, at + 8));
        Some(
            SBFIndexEntryBin {
                ident,
                z1: read_u32_le(bytes, at + 8).unwrap(),
                z2: read_u32_le(bytes, at + 12).unwrap(),
                start: read_u32_le(bytes, at + 16).unwrap(),
                size: read_u32_le(bytes, at + 20).unwrap(),
                block_size: read_u32_le(bytes, at + 24).unwrap(),
                z3: read_u32_le(bytes, at + 28).unwrap(),
            },
        )
    }

    /// Checks the fixed invariants of a record.
    pub fn check(&self) -> (r: Result<(), FormatError>)
        ensures
            match r {
                Ok(_) => self.violation() is None,
                Err(e) => self.violation() == Some(e),
            },
    {
        if self.z2 != 0 || self.z3 != 0 {
            Err(FormatError::ReservedNonZero)
        } else if self.block_size != BLOCK_SIZE {
            Err(FormatError::BlockSizeMismatch)
        } else if self.size % BLOCK_SIZE != 0 {
            Err(FormatError::SizeNotBlockMultiple)
        } else {
            Ok(())
        }
    }

    /// The chunk descriptor of this record.
    pub fn to_entry(&self) -> (e: SBFIndexEntry)
        ensures
            e.describes(*self),
    {
        let (ident, suffix) = split_ident(self.ident.as_slice());
        SBFIndexEntry {
            ident,
            suffix,
            z1: self.z1,
            z2: self.z2,
            start: self.start,
            size: self.size,
            block_size: self.block_size,
            z3: self.z3,
        }
    }
}

impl SBFIndexEntry {
    /// Whether this is the descriptor of `record`: the numeric fields are
    /// carried through, and the identifier is split into name and suffix.
    pub open spec fn describes(&self, record: SBFIndexEntryBin) -> bool {
        &&& reads_as(name_bytes(record.ident@), self.ident@)
        &&& reads_as(suffix_bytes(record.ident@), self.suffix@)
        &&& self.z1 == record.z1
        &&& self.z2 == record.z2
        &&& self.start == record.start
        &&& self.size == record.size
        &&& self.block_size == record.block_size
        &&& self.z3 == record.z3
    }

    /// Whether this is the descriptor of the record that `bytes` holds at `at`.
    pub open spec fn describes_record_at(&self, bytes: Seq<u8>, at: int) -> bool {
        let ident = bytes.subrange(at, at + 8);
        &&& reads_as(name_bytes(ident), self.ident@)
        &&& reads_as(suffix_bytes(ident), self.suffix@)
        &&& self.z1 as int == le_u32(bytes, at + 8)
        &&& self.z2 as int == le_u32(bytes, at + 12)
        &&& self.start as int == le_u32(bytes, at + 16)
        &&& self.size as int == le_u32(bytes, at + 20)
        &&& self.block_size as int == le_u32(bytes, at + 24)
        &&& self.z3 as int == le_u32(bytes, at + 28)
    }
}

/// Whether `chunks` are the descriptors of the index records of the container
/// `bytes`, in index order.
pub open spec fn is_index_of(chunks: Seq<SBFIndexEntry>, bytes: Seq<u8>) -> bool {
    &&& chunks.len() == le_u32(bytes, 20)
    &&& forall|j: int|
        0 <= j < chunks.len() ==> (#[trigger] chunks[j]).describes_record_at(
            bytes,
            le_u32(bytes, 16) + 32 * j,
        )
}

/// Reads and checks the index of a container whose header is `header`.
pub fn parse_index(bytes: &[u8], header: &SBFHeader) -> (r: Result<Vec<SBFIndexEntry>, FormatError>)
    requires
        header_error(bytes@) is None,
        header.is_header_of(bytes@),
    ensures
        match r {
            Ok(chunks) => container_error(bytes@) is None && is_index_of(chunks@, bytes@),
            Err(e) => container_error(bytes@) == Some(e),
        },
{
    let len: usize = bytes.len();
    let base: usize = header.index_offset as usize;
    let count: usize = header.index_count as usize;
    let mut i: usize = 0;
    while i < count
        invariant
            i <= count,
            base as int == le_u32(bytes@, 16),
            count as int == le_u32(bytes@, 20),
            base + count * 32 <= bytes@.len() == len,
            index_violation(bytes@, base as int, count as int, i as int) == index_violation(
                bytes@,
                base as int,
                count as int,
                0,
            ),
        decreases count - i,
    {
        let record = SBFIndexEntryBin::parse(bytes, base + i * 32).unwrap();
        match record.check() {
            Ok(_) => {},
            Err(e) => {
                return Err(e);
            },
        }
        i = i + 1;
    }
    let mut chunks: Vec<SBFIndexEntry> = Vec::new();
    let mut k: usize = 0;
    while k < count
        invariant
            k <= count,
            base as int == le_u32(bytes@, 16),
            count as int == le_u32(bytes@, 20),
            base + count * 32 <= bytes@.len() == len,
            chunks@.len() == k,
            forall|j: int|
                0 <= j < k ==> (#[trigger] chunks@[j]).describes_record_at(bytes@, base + 32 * j),
        decreases count - k,
    {
        let record = SBFIndexEntryBin::parse(bytes, base + k * 32).unwrap();
        chunks.push(record.to_entry());
        k = k + 1;
    }
    Ok(chunks)
}

/// A loaded container: the bytes, the header, the chunk descriptors in index
/// order, and the descriptors grouped into tracks.
#[derive(Debug)]
pub struct SBF {
    pub content: Vec<u8>,
    pub header: SBFHeader,
    pub chunks: Vec<SBFIndexEntry>,
    pub grouped_chunks: Vec<TrackGroup>,
}

/// The payload region that a descriptor points at.
pub open spec fn payload_of(content: Seq<u8>, chunk: SBFIndexEntry) -> Seq<u8> {
    content.subrange(chunk.start as int, chunk.start + chunk.size)
}

/// Whether the payload region of a descriptor lies inside the container.
pub open spec fn payload_in_bounds(content: Seq<u8>, chunk: SBFIndexEntry) -> bool {
    chunk.start + chunk.size <= content.len()
}

/// Why a chunk cannot be decoded, if it cannot: its payload region ends beyond
/// the container, or the payload itself is malformed.
pub open spec fn chunk_error(content: Seq<u8>, chunk: SBFIndexEntry) -> Option<FormatError> {
    if !payload_in_bounds(content, chunk) {
        Some(FormatError::PayloadOutOfBounds)
    } else {
        payload_error(payload_of(content, chunk))
    }
}

/// The samples that a chunk decodes to.
pub open spec fn chunk_samples(content: Seq<u8>, chunk: SBFIndexEntry) -> Seq<i16> {
    decoded(payload_of(content, chunk))
}

impl SBF {
    /// Whether the parts of this container belong together: the bytes form a
    /// valid container, and header, descriptors and tracks are what the bytes
    /// say.
    pub open spec fn wf(&self) -> bool {
        &&& container_error(self.content@) is None
        &&& self.header.is_header_of(self.content@)
        &&& is_index_of(self.chunks@, self.content@)
        &&& is_grouping_of(self.grouped_chunks@, self.chunks@)
    }

    /// Loads a container from the contents of its file. A single malformed
    /// record fails the whole load.
    pub fn from_file(content: Vec<u8>) -> (r: Result<SBF, FormatError>)
        ensures
            match r {
                Ok(sbf) => sbf.wf() && sbf.content@ == content@,
                Err(e) => container_error(content@) == Some(e),
            },
    {
        let header = match SBFHeader::parse(content.as_slice()) {
            Ok(h) => h,
            Err(e) => {
                return Err(e);
            },
        };
        let chunks = match parse_index(content.as_slice(), &header) {
            Ok(c) => c,
            Err(e) => {
                return Err(e);
            },
        };
        let grouped_chunks = group_chunks(&chunks);
        Ok(SBF { content, header, chunks, grouped_chunks })
    }

    /// The track named `name`, if the container has one.
    pub fn track(&self, name: &str) -> (r: Option<&TrackGroup>)
        ensures
            match r {
                Some(g) => exists|i: int|
                    0 <= i < self.grouped_chunks@.len() && *g == #[trigger] self.grouped_chunks@[i]
                        && g.ident@ == name@,
                None => forall|i: int|
                    0 <= i < self.grouped_chunks@.len() ==> (#[trigger] self.grouped_chunks@[i]).ident@
                        != name@,
            },
    {
        match find_group(&self.grouped_chunks, name) {
            Some(i) => Some(&self.grouped_chunks[i]),
            None => None,
        }
    }

    /// Whether the container has a track named `name`.
    pub fn has_track(&self, name: &str) -> (r: bool)
        ensures
            r == exists|i: int|
                0 <= i < self.grouped_chunks@.len() && (#[trigger] self.grouped_chunks@[i]).ident@
                    == name@,
    {
        find_group(&self.grouped_chunks, name).is_some()
    }

    /// The names of the tracks, in order of first occurrence.
    pub fn track_names(&self) -> (names: Vec<String>)
        ensures
            names@.len() == self.grouped_chunks@.len(),
            forall|i: int|
                0 <= i < names@.len() ==> (#[trigger] names@[i])@ == self.grouped_chunks@[i].ident@,
    {
        let mut names: Vec<String> = Vec::new();
        let mut i: usize = 0;
        while i < self.grouped_chunks.len()
            invariant
                i <= self.grouped_chunks@.len(),
                names@.len() == i,
                forall|k: int|
                    0 <= k < i ==> (#[trigger] names@[k])@ == self.grouped_chunks@[k].ident@,
            decreases self.grouped_chunks@.len() - i,
        {
            names.push(self.grouped_chunks[i].ident.clone());
            i = i + 1;
        }
        names
    }

    /// The payload bytes of a chunk.
    pub fn chunk_payload(&self, chunk: &SBFIndexEntry) -> (r: Result<&[u8], FormatError>)
        ensures
            match r {
                Ok(p) => payload_in_bounds(self.content@, *chunk) && p@ == payload_of(
                    self.content@,
                    *chunk,
                ),
                Err(e) => e == FormatError::PayloadOutOfBounds && !payload_in_bounds(
                    self.content@,
                    *chunk,
                ),
            },
    {
        let end: u64 = chunk.start as u64 + chunk.size as u64;
        if end > self.content.len() as u64 {
            return Err(FormatError::PayloadOutOfBounds);
        }
        Ok(slice_subrange(self.content.as_slice(), chunk.start as usize, end as usize))
    }

    /// Decodes a chunk into 16-bit PCM samples.
    pub fn decode(&self, chunk: &SBFIndexEntry) -> (r: Result<Vec<i16>, FormatError>)
        ensures
            match r {
                Ok(pcm) => chunk_error(self.content@, *chunk) is None && pcm@ == chunk_samples(
                    self.content@,
                    *chunk,
                ),
                Err(e) => chunk_error(self.content@, *chunk) == Some(e),
            },
    {
        match self.chunk_payload(chunk) {
            Ok(payload) => decode_chunk(payload),
            Err(e) => Err(e),
        }
    }
}

/// The index region of a container that loads lies inside the buffer, and a
/// buffer whose header describes an index region that ends beyond it does not
/// load.
pub proof fn lemma_index_region_checked(bytes: Seq<u8>)
    ensures
        container_error(bytes) is None ==> 24 <= bytes.len() && index_region_end(bytes)
            <= bytes.len(),
        24 <= bytes.len() && index_region_end(bytes) > bytes.len() ==> container_error(bytes)
            == Some(FormatError::IndexOutOfBounds),
{
}

/// A record that violates an invariant fails the whole index.
pub proof fn lemma_record_violation_is_fatal(bytes: Seq<u8>, base: int, count: int, i: int)
    requires
        0 <= i < count,
        record_violation(bytes, base + 32 * i) is Some,
    ensures
        index_violation(bytes, base, count, 0) is Some,
{
    lemma_violation_from(bytes, base, count, 0, i);
}

/// A violation behind `from` shows in the records from `from` on.
proof fn lemma_violation_from(bytes: Seq<u8>, base: int, count: int, from: int, i: int)
    requires
        0 <= from <= i < count,
        record_violation(bytes, base + 32 * i) is Some,
    ensures
        index_violation(bytes, base, count, from) is Some,
    decreases i - from,
{
    if from < i && record_violation(bytes, base + 32 * from) is None {
        lemma_violation_from(bytes, base, count, from + 1, i);
    }
}

/// In an index without violation every record is sound.
pub proof fn lemma_sound_index(bytes: Seq<u8>, base: int, count: int, i: int)
    requires
        0 <= i < count,
        index_violation(bytes, base, count, 0) is None,
    ensures
        record_violation(bytes, base + 32 * i) is None,
{
    if record_violation(bytes, base + 32 * i) is Some {
        lemma_record_violation_is_fatal(bytes, base, count, i);
    }
}

/// A container with a record whose block size is not 4104 does not load.
pub proof fn lemma_block_size_mismatch_is_fatal(bytes: Seq<u8>, i: int)
    requires
        0 <= i < le_u32(bytes, 20),
        le_u32(bytes, le_u32(bytes, 16) + 32 * i + 24) != 4104,
    ensures
        container_error(bytes) is Some,
{
    if header_error(bytes) is None {
        lemma_record_violation_is_fatal(bytes, le_u32(bytes, 16), le_u32(bytes, 20), i);
    }
}

} // verus!
