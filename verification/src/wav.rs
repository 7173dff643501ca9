//! The output artifact: an uncompressed PCM audio file. A fixed 44-byte header
//! declares two channels, 16-bit samples and 22050 frames per second, and is
//! followed by the samples as little-endian 16-bit integers.

use vstd::prelude::*;
use crate::bytes::{
    i16_le_bytes, le_u32, lemma_le_u32_round_trip, push_u16_le, push_u32_le, sample_le_bytes,
    u16_le_bytes, u32_le_bytes,
};
use crate::error::FormatError;
use crate::timeline::{CHANNELS, SAMPLE_RATE};

verus! {

/// Size of the header in bytes.
pub const WAV_HEADER_SIZE: usize = 44;

/// Bits of one sample.
pub const BITS_PER_SAMPLE: u16 = 16;

/// The largest number of data bytes that the size fields of the header can
/// declare.
pub const MAX_DATA_SIZE: u32 = 0xffff_ffdb;

/// The header of a file with `total_size` bytes of sample data.
pub open spec fn wav_header(total_size: int) -> Seq<u8> {
    seq![0x52u8, 0x49, 0x46, 0x46] + u32_le_bytes(36 + total_size) + seq![
        0x57u8,
        0x41,
        0x56,
        0x45,
    ] + seq![0x66u8, 0x6d, 0x74, 0x20] + u32_le_bytes(16) + u16_le_bytes(1) + u16_le_bytes(2)
        + u32_le_bytes(22050) + u32_le_bytes(88200) + u16_le_bytes(4) + u16_le_bytes(16) + seq![
        0x64u8,
        0x61,
        0x74,
        0x61,
    ] + u32_le_bytes(total_size)
}

/// The bytes of a sequence of samples.
pub open spec fn samples_le(pcm: Seq<i16>) -> Seq<u8>
    decreases pcm.len(),
{
    if pcm.len() == 0 {
        Seq::empty()
    } else {
        samples_le(pcm.drop_last()) + i16_le_bytes(pcm.last() as int)
    }
}

/// The file for a sequence of samples.
pub open spec fn wav_file(pcm: Seq<i16>) -> Seq<u8> {
    wav_header(2 * (pcm.len() as int)) + samples_le(pcm)
}

/// Each sample takes two bytes.
pub proof fn lemma_samples_le_len(pcm: Seq<i16>)
    ensures
        samples_le(pcm).len() == 2 * pcm.len(),
    decreases pcm.len(),
{
    if pcm.len() > 0 {
        lemma_samples_le_len(pcm.drop_last());
    }
}

/// The bytes of two runs of samples, one after the other, are the bytes of the
/// first followed by the bytes of the second.
pub proof fn lemma_samples_le_concat(a: Seq<i16>, b: Seq<i16>)
    ensures
        samples_le(a + b) == samples_le(a) + samples_le(b),
    decreases b.len(),
{
    if b.len() == 0 {
        assert(a + b =~= a);
        assert(samples_le(a) + samples_le(b) =~= samples_le(a));
    } else {
        lemma_samples_le_concat(a, b.drop_last());
        assert((a + b).drop_last() =~= a + b.drop_last());
        assert((a + b).last() == b.last());
        assert(samples_le(a + b) =~= samples_le(a) + samples_le(b));
    }
}

/// The header is 44 bytes long and declares the data size at byte 40, the
/// size of what follows the first eight bytes at byte 4, and the frame rate at
/// byte 24.
pub proof fn lemma_wav_header_layout(total_size: int)
    requires
        0 <= total_size <= 0xffff_ffdb,
    ensures
        wav_header(total_size).len() == 44,
        le_u32(wav_header(total_size), 40) == total_size,
        le_u32(wav_header(total_size), 4) == 36 + total_size,
        le_u32(wav_header(total_size), 24) == 22050,
{
    let riff = seq![0x52u8, 0x49, 0x46, 0x46] + u32_le_bytes(36 + total_size);
    let tags = riff + seq![0x57u8, 0x41, 0x56, 0x45] + seq![0x66u8, 0x6d, 0x74, 0x20];
    let format = tags + u32_le_bytes(16) + u16_le_bytes(1) + u16_le_bytes(2);
    let rate = format + u32_le_bytes(22050);
    let data = rate + u32_le_bytes(88200) + u16_le_bytes(4) + u16_le_bytes(16) + seq![
        0x64u8,
        0x61,
        0x74,
        0x61,
    ];
    let header = data + u32_le_bytes(total_size);
    assert(header == wav_header(total_size));
    assert(riff.len() == 8);
    assert(tags.len() == 16);
    assert(format.len() == 24);
    assert(rate.len() == 28);
    assert(data.len() == 40);
    assert(header.len() == 44);
    lemma_le_u32_round_trip(total_size);
    lemma_le_u32_round_trip(36 + total_size);
    lemma_le_u32_round_trip(22050);
    assert(header.subrange(40, 44) =~= u32_le_bytes(total_size));
    assert(le_u32(header, 40) == le_u32(header.subrange(40, 44), 0));
    assert(header.subrange(4, 8) =~= u32_le_bytes(36 + total_size));
    assert(le_u32(header, 4) == le_u32(header.subrange(4, 8), 0));
    assert(header.subrange(24, 28) =~= u32_le_bytes(22050));
    assert(le_u32(header, 24) == le_u32(header.subrange(24, 28), 0));
}

/// The file for `N` samples is `44 + 2 * N` bytes long and declares `2 * N`
/// bytes of data.
pub proof fn lemma_wav_file_layout(pcm: Seq<i16>)
    requires
        2 * pcm.len() <= 0xffff_ffdb,
    ensures
        wav_file(pcm).len() == 44 + 2 * pcm.len(),
        le_u32(wav_file(pcm), 40) == 2 * pcm.len(),
{
    lemma_wav_header_layout(2 * (pcm.len() as int));
    lemma_samples_le_len(pcm);
    let header = wav_header(2 * (pcm.len() as int));
    let file = wav_file(pcm);
    assert(file[40] == header[40]);
    assert(file[41] == header[41]);
    assert(file[42] == header[42]);
    assert(file[43] == header[43]);
}

/// Appends a tag of four characters.
fn push_tag(writer: &mut Vec<u8>, a: u8, b: u8, c: u8, d: u8)
    ensures
        final(writer)@ == old(writer)@ + seq![a, b, c, d],
{
    writer.push(a);
    writer.push(b);
    writer.push(c);
    writer.push(d);
    assert(writer@ =~= old(writer)@ + seq![a, b, c, d]);
}

/// Appends the header of a file with `total_size` bytes of sample data. The
/// size must leave room for the 36 header bytes that the first size field
/// counts as well.
pub fn write_wav_header(writer: &mut Vec<u8>, total_size: u32)
    requires
        total_size <= MAX_DATA_SIZE,
    ensures
        final(writer)@ == old(writer)@ + wav_header(total_size as int),
{
    let num_channels: u16 = CHANNELS;
    let bits_per_sample: u16 = BITS_PER_SAMPLE;
    let sample_rate: u32 = SAMPLE_RATE;
    let block_align: u16 = num_channels * (bits_per_sample / 8);
    let byte_rate: u32 = sample_rate * (block_align as u32);

    push_tag(writer, 0x52, 0x49, 0x46, 0x46);
    push_u32_le(writer, 36 + total_size);
    push_tag(writer, 0x57, 0x41, 0x56, 0x45);

    push_tag(writer, 0x66, 0x6d, 0x74, 0x20);
    push_u32_le(writer, 16);
    push_u16_le(writer, 1);
    push_u16_le(writer, num_channels);
    push_u32_le(writer, sample_rate);
    push_u32_le(writer, byte_rate);
    push_u16_le(writer, block_align);
    push_u16_le(writer, bits_per_sample);

    push_tag(writer, 0x64, 0x61, 0x74, 0x61);
    push_u32_le(writer, total_size);
    assert(writer@ =~= old(writer)@ + wav_header(total_size as int));
}

/// Appends the bytes of the samples.
pub fn write_samples(writer: &mut Vec<u8>, pcm: &[i16])
    ensures
        final(writer)@ == old(writer)@ + samples_le(pcm@),
{
    let mut i: usize = 0;
    assert(samples_le(pcm@.take(0)) =~= Seq::<u8>::empty());
    while i < pcm.len()
        invariant
            i <= pcm@.len(),
            writer@ == old(writer)@ + samples_le(pcm@.take(i as int)),
        decreases pcm@.len() - i,
    {
        let bytes = sample_le_bytes(pcm[i]);
        writer.push(bytes[0]);
        writer.push(bytes[1]);
        proof {
            assert(pcm@.take(i + 1).drop_last() =~= pcm@.take(i as int));
            assert(pcm@.take(i + 1).last() == pcm@[i as int]);
            assert(writer@ =~= old(writer)@ + samples_le(pcm@.take(i + 1)));
        }
        i = i + 1;
    }
    assert(pcm@.take(i as int) =~= pcm@);
}

/// The file for a sequence of samples: the header, then the samples. More
/// samples than the size fields of the header can declare are an error.
pub fn encode_wav(pcm: &[i16]) -> (r: Result<Vec<u8>, FormatError>)
    ensures
        match r {
            Ok(file) => 2 * pcm@.len() <= MAX_DATA_SIZE && file@ == wav_file(pcm@),
            Err(e) => e == FormatError::OutputTooLarge && 2 * pcm@.len() > MAX_DATA_SIZE,
        },
{
    if pcm.len() > (MAX_DATA_SIZE / 2) as usize {
        return Err(FormatError::OutputTooLarge);
    }
    let total_size: u32 = (pcm.len() * 2) as u32;
    let mut file: Vec<u8> = Vec::new();
    write_wav_header(&mut file, total_size);
    write_samples(&mut file, pcm);
    assert(file@ =~= wav_file(pcm@));
    Ok(file)
}

} // verus!
