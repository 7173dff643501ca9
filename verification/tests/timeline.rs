use dfbhd_mus::codec::decode_chunk;
use dfbhd_mus::error::FormatError;
use dfbhd_mus::sbf::{SBFIndexEntry, SBF};
use dfbhd_mus::timeline::{frame_time, frames_at, ReorderedData, CHANNELS, SAMPLE_RATE};

fn block(count: u32, scale: u8, fill: u8) -> Vec<u8> {
    let mut out = Vec::new();
    out.extend_from_slice(&count.to_le_bytes());
    out.extend_from_slice(&[scale, scale, 250, 0]);
    out.resize(4104, fill);
    out
}

/// A container with one track "song" of four chunks that decode to 10, 4096,
/// 7 and 300 samples. The third chunk has two blocks.
fn song() -> SBF {
    let payloads: Vec<Vec<u8>> = vec![
        block(10, 0, 255),
        block(4096, 1, 0),
        [block(3, 2, 129), block(4, 3, 127)].concat(),
        block(300, 0, 130),
    ];
    let index_len = 32 * payloads.len();
    let mut bytes = Vec::new();
    bytes.extend_from_slice(b"SBF0");
    bytes.extend_from_slice(&[0u8; 12]);
    bytes.extend_from_slice(&24u32.to_le_bytes());
    bytes.extend_from_slice(&(payloads.len() as u32).to_le_bytes());
    let mut start = 24 + index_len;
    for (i, p) in payloads.iter().enumerate() {
        let mut ident = *b"song\0\0\0\0";
        ident[4] = b'1' + i as u8;
        bytes.extend_from_slice(&ident);
        bytes.extend_from_slice(&0u32.to_le_bytes());
        bytes.extend_from_slice(&0u32.to_le_bytes());
        bytes.extend_from_slice(&(start as u32).to_le_bytes());
        bytes.extend_from_slice(&(p.len() as u32).to_le_bytes());
        bytes.extend_from_slice(&4104u32.to_le_bytes());
        bytes.extend_from_slice(&0u32.to_le_bytes());
        start += p.len();
    }
    for p in &payloads {
        bytes.extend_from_slice(p);
    }
    SBF::from_file(bytes).unwrap()
}

fn pick(sbf: &SBF, order: &[usize]) -> Vec<SBFIndexEntry> {
    order.iter().map(|&i| sbf.chunks[i].clone()).collect()
}

#[test]
fn fixed_format_of_every_track() {
    assert_eq!(SAMPLE_RATE, 22050);
    assert_eq!(CHANNELS, 2);
}

#[test]
fn offsets_are_the_frames_of_the_chunks_before() {
    let sbf = song();
    let mut rd = ReorderedData::new();
    rd.recalc(&sbf.chunks, &sbf).unwrap();
    assert_eq!(rd.chunk_offsets, vec![0, 5, 2053, 2056]);
    let lens: Vec<usize> = rd.chunk_pcms.iter().map(|p| p.len()).collect();
    assert_eq!(lens, vec![10, 4096, 7, 300]);
    assert_eq!(rd.chunk_pcms[0], vec![16256; 10]);
    assert_eq!(rd.chunk_pcms[2], vec![32, 32, 32, -16, -16, -16, -16]);
}

#[test]
fn chunks_decode_as_the_codec_decodes_their_payload() {
    let sbf = song();
    let mut rd = ReorderedData::new();
    rd.recalc(&sbf.chunks, &sbf).unwrap();
    for (chunk, pcm) in sbf.chunks.iter().zip(&rd.chunk_pcms) {
        let payload = sbf.chunk_payload(chunk).unwrap();
        assert_eq!(&decode_chunk(payload).unwrap(), pcm);
        assert_eq!(&sbf.decode(chunk).unwrap(), pcm);
    }
}

#[test]
fn last_offset_and_last_duration_give_the_total() {
    let sbf = song();
    let mut rd = ReorderedData::new();
    rd.recalc(&pick(&sbf, &[1, 3, 0]), &sbf).unwrap();
    let total_samples: usize = rd.chunk_pcms.iter().map(|p| p.len()).sum();
    assert_eq!(total_samples, 4406);
    let end = rd.chunk_offsets[2] + (rd.chunk_pcms[2].len() / 2) as u128;
    assert_eq!(end, 2203);
    assert_eq!(end, (total_samples / 2) as u128);
    let seconds = end as f64 / f64::from(SAMPLE_RATE);
    assert!((seconds - total_samples as f64 / 2.0 / 22050.0).abs() < 1e-12);
}

#[test]
fn every_order_starts_at_zero_and_never_goes_back() {
    let sbf = song();
    let orders: [&[usize]; 6] =
        [&[0, 1, 2, 3], &[3, 2, 1, 0], &[2, 0, 3, 1], &[1, 1, 1], &[2], &[3, 0, 0, 2, 1]];
    for order in orders {
        let mut rd = ReorderedData::new();
        rd.recalc(&pick(&sbf, order), &sbf).unwrap();
        assert_eq!(rd.chunk_offsets.len(), order.len());
        assert_eq!(rd.chunk_offsets[0], 0);
        assert!(rd.chunk_offsets.windows(2).all(|w| w[0] <= w[1]));
    }
}

#[test]
fn reordering_keeps_the_length_of_the_samples() {
    let sbf = song();
    let lens = [10usize, 4096, 7, 300];
    let orders: [&[usize]; 4] = [&[0, 1, 2, 3], &[3, 2, 1, 0], &[2, 0, 3, 1], &[1, 3, 0, 2]];
    for order in orders {
        let mut rd = ReorderedData::new();
        rd.recalc(&pick(&sbf, order), &sbf).unwrap();
        let pcm = rd.pcm();
        assert_eq!(pcm.len(), 4413);
        assert_eq!(pcm.len(), order.iter().map(|&i| lens[i]).sum::<usize>());
        let joined: Vec<i16> = rd.chunk_pcms.concat();
        assert_eq!(pcm, joined);
    }
}

#[test]
fn reordered_offsets_follow_the_new_order() {
    let sbf = song();
    let mut rd = ReorderedData::new();
    rd.recalc(&pick(&sbf, &[2, 3, 0, 1]), &sbf).unwrap();
    assert_eq!(rd.chunk_offsets, vec![0, 3, 153, 158]);
    rd.recalc(&pick(&sbf, &[0]), &sbf).unwrap();
    assert_eq!(rd.chunk_offsets, vec![0]);
    assert_eq!(rd.chunk_pcms.len(), 1);
}

#[test]
fn an_empty_track_has_an_empty_timeline() {
    let sbf = song();
    let mut rd = ReorderedData::new();
    assert!(rd.chunk_pcms.is_empty() && rd.chunk_offsets.is_empty());
    rd.recalc(&Vec::new(), &sbf).unwrap();
    assert!(rd.chunk_pcms.is_empty() && rd.chunk_offsets.is_empty());
    assert!(rd.pcm().is_empty());
    assert_eq!(rd.playing_chunk(0), None);
}

#[test]
fn a_chunk_that_cannot_be_decoded_leaves_the_timeline_empty() {
    let sbf = song();
    let mut rd = ReorderedData::new();
    rd.recalc(&sbf.chunks, &sbf).unwrap();
    let mut track = pick(&sbf, &[0, 1]);
    track[1].size = 4103;
    assert_eq!(rd.recalc(&track, &sbf), Err(FormatError::SizeNotBlockMultiple));
    assert!(rd.chunk_pcms.is_empty() && rd.chunk_offsets.is_empty());
    track[0].start = u32::MAX;
    assert_eq!(rd.recalc(&track, &sbf), Err(FormatError::PayloadOutOfBounds));
    let mut misplaced = pick(&sbf, &[3]);
    misplaced[0].start += 1;
    misplaced[0].size = 0;
    assert_eq!(rd.recalc(&misplaced, &sbf), Ok(()));
    misplaced[0].start -= 4104;
    misplaced[0].size = 4104;
    assert_eq!(rd.recalc(&misplaced, &sbf), Err(FormatError::SampleCountTooLarge));
}

#[test]
fn the_playing_chunk_changes_after_the_start_of_the_next() {
    let sbf = song();
    let mut rd = ReorderedData::new();
    rd.recalc(&sbf.chunks, &sbf).unwrap();
    assert_eq!(rd.playing_chunk(0), Some(0));
    assert_eq!(rd.playing_chunk(5), Some(0));
    assert_eq!(rd.playing_chunk(6), Some(1));
    assert_eq!(rd.playing_chunk(2053), Some(1));
    assert_eq!(rd.playing_chunk(2054), Some(2));
    assert_eq!(rd.playing_chunk(2056), Some(2));
    assert_eq!(rd.playing_chunk(2057), Some(3));
    assert_eq!(rd.playing_chunk(u128::MAX), Some(3));
}

#[test]
fn chunks_without_frames_are_passed_at_once() {
    let rd = ReorderedData {
        chunk_pcms: vec![vec![0; 4], vec![], vec![1], vec![0; 2]],
        chunk_offsets: vec![0, 2, 2, 2],
    };
    assert_eq!(rd.playing_chunk(2), Some(0));
    assert_eq!(rd.playing_chunk(3), Some(3));
    assert_eq!(rd.pcm(), vec![0, 0, 0, 0, 1, 0, 0]);
}

#[test]
fn frames_become_seconds_and_nanoseconds() {
    assert_eq!(frame_time(0), (0, 0));
    assert_eq!(frame_time(1), (0, 45_351));
    assert_eq!(frame_time(22_049), (0, 999_954_648));
    assert_eq!(frame_time(22_050), (1, 0));
    assert_eq!(frame_time(44_100), (2, 0));
    assert_eq!(frame_time(2203), (0, 99_909_297));
    assert_eq!(frame_time(22_050 * 3600 + 11_025), (3600, 500_000_000));
    assert_eq!(frame_time(u128::MAX).0, u128::MAX / 22_050);
}

#[test]
fn times_become_frames() {
    assert_eq!(frames_at(0, 0), 0);
    assert_eq!(frames_at(0, 45_351), 0);
    assert_eq!(frames_at(0, 45_352), 1);
    assert_eq!(frames_at(1, 0), 22_050);
    assert_eq!(frames_at(2, 500_000_000), 55_125);
    assert_eq!(frames_at(0, 999_999_999), 22_049);
    assert_eq!(frames_at(u64::MAX, u32::MAX), u128::from(u64::MAX) * 22_050 + 94_704);
}

#[test]
fn a_frame_time_leads_back_to_the_frame_or_the_one_before() {
    for frames in [0u128, 1, 2, 3, 5, 100, 22_049, 22_050, 22_051, 1_000_003, 987_654_321] {
        let (secs, nanos) = frame_time(frames);
        let back = frames_at(secs as u64, nanos);
        assert!(back == frames || back + 1 == frames);
    }
}
