use dfbhd_mus::codec::{count_samples, decode_chunk, upscale_pcm, SBFChunkData};
use dfbhd_mus::error::FormatError;

fn block(count: u32, scale: u8, data: &[u8]) -> Vec<u8> {
    let mut out = Vec::new();
    out.extend_from_slice(&count.to_le_bytes());
    out.extend_from_slice(&[scale, scale, 250, 0]);
    out.extend_from_slice(data);
    out.resize(4104, 0x55);
    out
}

#[test]
fn upscale_recentres_widens_and_attenuates() {
    assert_eq!(upscale_pcm(128, 0), 0);
    assert_eq!(upscale_pcm(255, 0), 16256);
    assert_eq!(upscale_pcm(0, 0), -16384);
    assert_eq!(upscale_pcm(129, 0), 128);
    assert_eq!(upscale_pcm(127, 0), -128);
    assert_eq!(upscale_pcm(255, 1), 8128);
    assert_eq!(upscale_pcm(0, 1), -8192);
    assert_eq!(upscale_pcm(127, 3), -16);
    assert_eq!(upscale_pcm(130, 7), 2);
}

#[test]
fn upscale_rounds_toward_zero() {
    assert_eq!(upscale_pcm(129, 8), 0);
    assert_eq!(upscale_pcm(127, 8), 0);
    assert_eq!(upscale_pcm(131, 8), 1);
    assert_eq!(upscale_pcm(125, 8), -1);
    assert_eq!(upscale_pcm(255, 14), 0);
    assert_eq!(upscale_pcm(0, 14), -1);
}

#[test]
fn upscale_falls_silent_for_large_exponents() {
    for b in [0u8, 1, 127, 128, 129, 255] {
        for scale in [15u8, 16, 31, 32, 200, 255] {
            assert_eq!(upscale_pcm(b, scale), 0);
        }
    }
}

#[test]
fn higher_scale_is_never_louder() {
    for b in 0..=255u8 {
        for scale in 0..20u8 {
            let loud = i32::from(upscale_pcm(b, scale)).abs();
            let quiet = i32::from(upscale_pcm(b, scale + 1)).abs();
            assert!(quiet <= loud);
        }
    }
}

#[test]
fn upscale_agrees_with_two_divisions() {
    for b in 0..=255u8 {
        for scale in 0..=14u8 {
            let widened = (i16::from(b) - 128) as i32 * 256;
            let expected = widened / 2i32.pow(u32::from(scale)) / 2;
            assert_eq!(i32::from(upscale_pcm(b, scale)), expected);
        }
    }
}

#[test]
fn block_header_is_read() {
    let bytes = block(3, 2, &[1, 2, 3]);
    let data = SBFChunkData::parse(&bytes).unwrap();
    assert_eq!(data.size, 3);
    assert_eq!(data.scale1, 2);
    assert_eq!(data.scale2, 2);
    assert_eq!(data.two_fifty, 250);
    assert_eq!(data.zero, 0);
    assert_eq!(&data.content[..4], &[1, 2, 3, 0x55]);
    assert_eq!(data.content[4095], 0x55);
    assert!(SBFChunkData::parse(&bytes[..4103]).is_none());
    assert!(SBFChunkData::parse(&[]).is_none());
}

#[test]
fn only_the_declared_samples_are_decoded() {
    let bytes = block(4, 0, &[128, 255, 0, 129, 200, 200]);
    assert_eq!(decode_chunk(&bytes).unwrap(), vec![0, 16256, -16384, 128]);
    assert_eq!(count_samples(&bytes), Ok(4));
    let mut out = vec![7i16];
    SBFChunkData::parse(&bytes).unwrap().decode_into(&mut out).unwrap();
    assert_eq!(out, vec![7, 0, 16256, -16384, 128]);
}

#[test]
fn blocks_decode_in_order_each_with_its_scale() {
    let mut payload = block(2, 0, &[255, 0]);
    payload.extend(block(0, 0, &[]));
    payload.extend(block(3, 7, &[130, 126, 128]));
    assert_eq!(decode_chunk(&payload).unwrap(), vec![16256, -16384, 2, -2, 0]);
    assert_eq!(count_samples(&payload), Ok(5));
}

#[test]
fn a_full_block_decodes_to_4096_samples() {
    let data: Vec<u8> = (0..4096u32).map(|i| (i % 256) as u8).collect();
    let payload = block(4096, 1, &data);
    let pcm = decode_chunk(&payload).unwrap();
    assert_eq!(pcm.len(), 4096);
    assert_eq!(pcm[0], -8192);
    assert_eq!(pcm[255], 8128);
    assert_eq!(pcm[4095], 8128);
}

#[test]
fn empty_payload_decodes_to_nothing() {
    assert_eq!(decode_chunk(&[]).unwrap(), Vec::<i16>::new());
    assert_eq!(count_samples(&[]), Ok(0));
}

#[test]
fn declared_count_beyond_the_block_is_an_error() {
    let mut payload = block(1, 0, &[128]);
    payload.extend(block(4097, 0, &[]));
    assert_eq!(decode_chunk(&payload).unwrap_err(), FormatError::SampleCountTooLarge);
    assert_eq!(count_samples(&payload), Err(FormatError::SampleCountTooLarge));
    let huge = block(u32::MAX, 0, &[]);
    assert_eq!(decode_chunk(&huge).unwrap_err(), FormatError::SampleCountTooLarge);
    let mut out = vec![1i16, 2];
    let r = SBFChunkData::parse(&huge).unwrap().decode_into(&mut out);
    assert_eq!(r, Err(FormatError::SampleCountTooLarge));
    assert_eq!(out, vec![1, 2]);
}

#[test]
fn payload_must_be_whole_blocks() {
    let payload = block(1, 0, &[128]);
    assert_eq!(decode_chunk(&payload[..4103]).unwrap_err(), FormatError::SizeNotBlockMultiple);
    assert_eq!(count_samples(&payload[..1]), Err(FormatError::SizeNotBlockMultiple));
    let mut long = block(4097, 0, &[]);
    long.push(0);
    assert_eq!(decode_chunk(&long).unwrap_err(), FormatError::SizeNotBlockMultiple);
}

#[test]
fn decoding_twice_gives_the_same_samples() {
    let data: Vec<u8> = (0..1000u32).map(|i| (i * 37 % 256) as u8).collect();
    let mut payload = block(1000, 3, &data);
    payload.extend(block(17, 9, &data));
    let first = decode_chunk(&payload).unwrap();
    let second = decode_chunk(&payload).unwrap();
    assert_eq!(first, second);
    assert_eq!(first.len(), 1017);
    let bad = block(5000, 0, &[]);
    assert_eq!(decode_chunk(&bad), decode_chunk(&bad));
}
