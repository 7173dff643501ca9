use dfbhd_mus::error::FormatError;
use dfbhd_mus::group::{find_group, group_chunks};
use dfbhd_mus::ident::{split_ident, split_positions};
use dfbhd_mus::sbf::{SBFHeader, SBFIndexEntry, SBFIndexEntryBin, SBF};

fn header(index_offset: u32, index_count: u32) -> Vec<u8> {
    let mut out = Vec::new();
    out.extend_from_slice(b"SBF0");
    out.extend_from_slice(&1u32.to_le_bytes());
    out.extend_from_slice(&2u32.to_le_bytes());
    out.extend_from_slice(&3u32.to_le_bytes());
    out.extend_from_slice(&index_offset.to_le_bytes());
    out.extend_from_slice(&index_count.to_le_bytes());
    out
}

fn record(ident: &[u8; 8], fields: [u32; 6]) -> Vec<u8> {
    let mut out = Vec::new();
    out.extend_from_slice(ident);
    for f in fields {
        out.extend_from_slice(&f.to_le_bytes());
    }
    out
}

fn sound(ident: &[u8; 8], start: u32, size: u32) -> Vec<u8> {
    record(ident, [0, 0, start, size, 4104, 0])
}

fn container(records: &[Vec<u8>]) -> Vec<u8> {
    let mut out = header(24, records.len() as u32);
    for r in records {
        out.extend_from_slice(r);
    }
    out
}

fn entry(ident: &str, suffix: &str, start: u32) -> SBFIndexEntry {
    SBFIndexEntry {
        ident: ident.to_string(),
        suffix: suffix.to_string(),
        z1: 0,
        z2: 0,
        start,
        size: 4104,
        block_size: 4104,
        z3: 0,
    }
}

#[test]
fn header_fields_are_read_little_endian() {
    let mut bytes = header(0x0102_0304, 0);
    bytes.resize(0x0102_0304, 0);
    let h = SBFHeader::parse(&bytes).unwrap();
    assert_eq!(h.magic, *b"SBF0");
    assert_eq!(h.i1, 1);
    assert_eq!(h.i2, 2);
    assert_eq!(h.i3, 3);
    assert_eq!(h.index_offset, 0x0102_0304);
    assert_eq!(h.index_count, 0);
}

#[test]
fn header_needs_24_bytes() {
    let bytes = header(24, 0);
    assert_eq!(SBFHeader::parse(&bytes[..23]).unwrap_err(), FormatError::HeaderTooShort);
    assert_eq!(SBFHeader::parse(&[]).unwrap_err(), FormatError::HeaderTooShort);
    assert!(SBFHeader::parse(&bytes).is_ok());
}

#[test]
fn index_region_must_end_inside_the_buffer() {
    let mut bytes = header(24, 2);
    bytes.extend_from_slice(&[0u8; 63]);
    assert_eq!(SBFHeader::parse(&bytes).unwrap_err(), FormatError::IndexOutOfBounds);
    assert_eq!(SBF::from_file(bytes.clone()).unwrap_err(), FormatError::IndexOutOfBounds);
    bytes.push(0);
    assert!(SBFHeader::parse(&bytes).is_ok());
}

#[test]
fn index_region_end_does_not_wrap() {
    let bytes = header(0xffff_ffff, 0xffff_ffff);
    assert_eq!(SBFHeader::parse(&bytes).unwrap_err(), FormatError::IndexOutOfBounds);
    let bytes = header(25, 0);
    assert_eq!(SBF::from_file(bytes).unwrap_err(), FormatError::IndexOutOfBounds);
}

#[test]
fn empty_container_has_no_tracks() {
    let sbf = SBF::from_file(header(24, 0)).unwrap();
    assert!(sbf.chunks.is_empty());
    assert!(sbf.grouped_chunks.is_empty());
    assert!(sbf.track_names().is_empty());
    assert!(!sbf.has_track("menu"));
}

#[test]
fn record_fields_are_read_at_their_offsets() {
    let bytes = record(b"track7\0\0", [9, 0, 0x100, 8208, 4104, 0]);
    let r = SBFIndexEntryBin::parse(&bytes, 0).unwrap();
    assert_eq!(r.ident, *b"track7\0\0");
    assert_eq!(r.z1, 9);
    assert_eq!(r.z2, 0);
    assert_eq!(r.start, 0x100);
    assert_eq!(r.size, 8208);
    assert_eq!(r.block_size, 4104);
    assert_eq!(r.z3, 0);
    assert_eq!(r.check(), Ok(()));
    assert!(SBFIndexEntryBin::parse(&bytes, 1).is_none());
    assert!(SBFIndexEntryBin::parse(&bytes[..31], 0).is_none());
    assert!(SBFIndexEntryBin::parse(&bytes, usize::MAX).is_none());
}

#[test]
fn record_invariants_are_checked_in_order() {
    let bad = |fields: [u32; 6]| {
        SBFIndexEntryBin::parse(&record(b"x\0\0\0\0\0\0\0", fields), 0).unwrap().check()
    };
    assert_eq!(bad([0, 1, 0, 4104, 4104, 0]), Err(FormatError::ReservedNonZero));
    assert_eq!(bad([0, 0, 0, 4104, 4104, 1]), Err(FormatError::ReservedNonZero));
    assert_eq!(bad([0, 1, 0, 5, 7, 0]), Err(FormatError::ReservedNonZero));
    assert_eq!(bad([0, 0, 0, 4104, 4103, 0]), Err(FormatError::BlockSizeMismatch));
    assert_eq!(bad([0, 0, 0, 5, 4105, 0]), Err(FormatError::BlockSizeMismatch));
    assert_eq!(bad([0, 0, 0, 4105, 4104, 0]), Err(FormatError::SizeNotBlockMultiple));
    assert_eq!(bad([7, 0, 0, 0, 4104, 0]), Ok(()));
}

#[test]
fn first_reserved_field_may_hold_anything() {
    let bytes = container(&[record(b"VALIANT0", [0xdead_beef, 0, 0, 0, 4104, 0])]);
    let sbf = SBF::from_file(bytes).unwrap();
    assert_eq!(sbf.chunks[0].z1, 0xdead_beef);
}

#[test]
fn block_size_mismatch_fails_the_whole_load() {
    let bytes = container(&[
        sound(b"menua1\0\0", 0, 4104),
        record(b"menua2\0\0", [0, 0, 0, 4104, 4096, 0]),
        sound(b"menua3\0\0", 0, 4104),
    ]);
    assert_eq!(SBF::from_file(bytes).unwrap_err(), FormatError::BlockSizeMismatch);
}

#[test]
fn the_first_malformed_record_names_the_error() {
    let bytes = container(&[
        sound(b"a1\0\0\0\0\0\0", 0, 4104),
        record(b"a2\0\0\0\0\0\0", [0, 0, 0, 4100, 4104, 0]),
        record(b"a3\0\0\0\0\0\0", [0, 0, 0, 4104, 4104, 5]),
    ]);
    assert_eq!(SBF::from_file(bytes).unwrap_err(), FormatError::SizeNotBlockMultiple);
}

#[test]
fn leading_m_splits_before_the_first_a() {
    let (ident, suffix) = split_ident(b"menua3\0\0");
    assert_eq!(ident, "menu");
    assert_eq!(suffix, "a3");
    assert_eq!(split_positions(b"menua3\0\0"), (4, 6));
}

#[test]
fn other_identifiers_split_after_the_leading_letters() {
    let (ident, suffix) = split_ident(b"track7\0\0");
    assert_eq!(ident, "track");
    assert_eq!(suffix, "7");
    assert_eq!(split_positions(b"track7\0\0"), (5, 6));
}

#[test]
fn leading_m_without_a_takes_the_whole_field() {
    let (ident, suffix) = split_ident(b"mus12\0\0\0");
    assert_eq!(ident, "mus12\0\0\0");
    assert_eq!(suffix, "");
    let (ident, suffix) = split_ident(b"ma\0\0\0\0\0\0");
    assert_eq!(ident, "m");
    assert_eq!(suffix, "a");
}

#[test]
fn all_letters_leave_no_suffix() {
    let (ident, suffix) = split_ident(b"gamemusX");
    assert_eq!(ident, "gamemusX");
    assert_eq!(suffix, "");
    assert_eq!(split_positions(b"gamemusX"), (8, 8));
}

#[test]
fn suffix_ends_at_the_first_nul() {
    let (ident, suffix) = split_ident(b"ab12\0cd\0");
    assert_eq!(ident, "ab");
    assert_eq!(suffix, "12");
    let (ident, suffix) = split_ident(b"\0abc\0\0\0\0");
    assert_eq!(ident, "");
    assert_eq!(suffix, "");
    let (ident, suffix) = split_ident(b"");
    assert_eq!(ident, "");
    assert_eq!(suffix, "");
}

#[test]
fn bytes_that_are_no_text_are_replaced() {
    let (ident, suffix) = split_ident(&[b'a', b'b', 0xff, b'1', 0, 0, 0, 0]);
    assert_eq!(ident, "ab");
    assert_eq!(suffix, "\u{fffd}1");
    let (ident, _) = split_ident(&[b'm', 0xc3, 0xa9, b'a', 0, 0, 0, 0]);
    assert_eq!(ident, "m\u{e9}");
}

#[test]
fn descriptors_carry_the_record_fields() {
    let bytes = container(&[record(b"menua3\0\0", [5, 0, 1000, 8208, 4104, 0])]);
    let sbf = SBF::from_file(bytes.clone()).unwrap();
    assert_eq!(sbf.content, bytes);
    assert_eq!(sbf.header.index_count, 1);
    assert_eq!(sbf.chunks.len(), 1);
    let c = &sbf.chunks[0];
    assert_eq!(c.ident, "menu");
    assert_eq!(c.suffix, "a3");
    assert_eq!((c.z1, c.z2, c.start, c.size, c.block_size, c.z3), (5, 0, 1000, 8208, 4104, 0));
}

#[test]
fn grouping_is_stable_and_in_order_of_first_occurrence() {
    let bytes = container(&[
        sound(b"b1\0\0\0\0\0\0", 1, 0),
        sound(b"a1\0\0\0\0\0\0", 2, 0),
        sound(b"a2\0\0\0\0\0\0", 3, 0),
        sound(b"b2\0\0\0\0\0\0", 4, 0),
        sound(b"c9\0\0\0\0\0\0", 5, 0),
        sound(b"a3\0\0\0\0\0\0", 6, 0),
    ]);
    let sbf = SBF::from_file(bytes).unwrap();
    assert_eq!(sbf.track_names(), vec!["b", "a", "c"]);
    let starts = |name: &str| -> Vec<u32> {
        sbf.track(name).unwrap().chunks.iter().map(|c| c.start).collect()
    };
    assert_eq!(starts("b"), vec![1, 4]);
    assert_eq!(starts("a"), vec![2, 3, 6]);
    assert_eq!(starts("c"), vec![5]);
    assert!(sbf.track("d").is_none());
    assert!(sbf.has_track("c"));
    assert!(!sbf.has_track(""));
}

#[test]
fn grouping_keeps_every_chunk_once() {
    let chunks = vec![
        entry("x", "1", 10),
        entry("y", "1", 11),
        entry("x", "2", 12),
        entry("x", "2", 13),
        entry("y", "0", 14),
    ];
    let groups = group_chunks(&chunks);
    assert_eq!(groups.len(), 2);
    assert_eq!(groups.iter().map(|g| g.chunks.len()).sum::<usize>(), chunks.len());
    assert_eq!(groups[0].ident, "x");
    assert_eq!(groups[0].chunks.iter().map(|c| c.start).collect::<Vec<_>>(), vec![10, 12, 13]);
    assert_eq!(groups[1].ident, "y");
    assert_eq!(groups[1].chunks.iter().map(|c| c.start).collect::<Vec<_>>(), vec![11, 14]);
    assert_eq!(find_group(&groups, "y"), Some(1));
    assert_eq!(find_group(&groups, "z"), None);
    assert!(group_chunks(&Vec::new()).is_empty());
}

#[test]
fn payload_must_lie_inside_the_container() {
    let mut bytes = container(&[sound(b"a1\0\0\0\0\0\0", 56, 4104)]);
    bytes.resize(56 + 4104, 7);
    let sbf = SBF::from_file(bytes).unwrap();
    let c = sbf.chunks[0].clone();
    assert_eq!(sbf.chunk_payload(&c).unwrap().len(), 4104);
    let mut beyond = c.clone();
    beyond.start = 57;
    assert_eq!(sbf.chunk_payload(&beyond).unwrap_err(), FormatError::PayloadOutOfBounds);
    beyond.start = u32::MAX;
    beyond.size = u32::MAX;
    assert_eq!(sbf.chunk_payload(&beyond).unwrap_err(), FormatError::PayloadOutOfBounds);
    assert_eq!(sbf.decode(&beyond).unwrap_err(), FormatError::PayloadOutOfBounds);
}

#[test]
fn errors_describe_themselves() {
    assert_eq!(FormatError::BlockSizeMismatch.message(), "block size is not 4104");
    assert_eq!(FormatError::HeaderTooShort.message(), "container is too short to hold a header");
}
