use dfbhd_mus::config::{clone_strings, PlayerConfig};
use dfbhd_mus::error::ConfigError;
use dfbhd_mus::order::{order_by_config, rank_of, track_suffixes};
use dfbhd_mus::sbf::{SBFIndexEntry, SBF};

fn strings(items: &[&str]) -> Vec<String> {
    items.iter().map(|s| s.to_string()).collect()
}

fn entry(ident: &str, suffix: &str, start: u32) -> SBFIndexEntry {
    SBFIndexEntry {
        ident: ident.to_string(),
        suffix: suffix.to_string(),
        z1: 0,
        z2: 0,
        start,
        size: 0,
        block_size: 4104,
        z3: 0,
    }
}

fn starts(track: &[SBFIndexEntry]) -> Vec<u32> {
    track.iter().map(|c| c.start).collect()
}

fn container(idents: &[&[u8; 8]]) -> SBF {
    let mut bytes = Vec::new();
    bytes.extend_from_slice(b"SBF0");
    bytes.extend_from_slice(&[0u8; 12]);
    bytes.extend_from_slice(&24u32.to_le_bytes());
    bytes.extend_from_slice(&(idents.len() as u32).to_le_bytes());
    for (i, ident) in idents.iter().enumerate() {
        bytes.extend_from_slice(*ident);
        bytes.extend_from_slice(&[0u8; 8]);
        bytes.extend_from_slice(&(i as u32).to_le_bytes());
        bytes.extend_from_slice(&0u32.to_le_bytes());
        bytes.extend_from_slice(&4104u32.to_le_bytes());
        bytes.extend_from_slice(&0u32.to_le_bytes());
    }
    SBF::from_file(bytes).unwrap()
}

#[test]
fn new_configuration_is_empty() {
    let config = PlayerConfig::new();
    assert!(config.tracks.is_empty());
    assert!(!config.contains_key("menu"));
    assert!(config.get("menu").is_none());
}

#[test]
fn insert_adds_and_replaces() {
    let mut config = PlayerConfig::new();
    config.insert("menu".to_string(), strings(&["a1", "a2"]));
    config.insert("boss".to_string(), strings(&["1"]));
    assert!(config.contains_key("menu"));
    assert_eq!(config.get("menu"), Some(&strings(&["a1", "a2"])));
    assert_eq!(config.get("boss"), Some(&strings(&["1"])));
    config.insert("menu".to_string(), strings(&["a2", "a1"]));
    assert_eq!(config.tracks.len(), 2);
    assert_eq!(config.get("menu"), Some(&strings(&["a2", "a1"])));
    assert_eq!(config.get("boss"), Some(&strings(&["1"])));
    assert!(!config.contains_key("Menu"));
}

#[test]
fn document_is_read() {
    let config =
        PlayerConfig::from_json(r#"{"menu": ["a2", "a1"], "boss": [], "x": ["1"]}"#).unwrap();
    assert_eq!(config.tracks.len(), 3);
    assert_eq!(config.get("menu"), Some(&strings(&["a2", "a1"])));
    assert_eq!(config.get("boss"), Some(&strings(&[])));
    assert_eq!(config.get("x"), Some(&strings(&["1"])));
    assert!(config.get("y").is_none());
    let names: Vec<&str> = config.tracks.iter().map(|t| t.ident.as_str()).collect();
    assert_eq!(names, vec!["boss", "menu", "x"]);
}

#[test]
fn empty_object_is_the_empty_configuration() {
    let config = PlayerConfig::from_json("{}").unwrap();
    assert!(config.tracks.is_empty());
}

#[test]
fn last_member_of_a_name_counts() {
    let config = PlayerConfig::from_json(r#"{"a": ["1"], "a": ["2", "3"]}"#).unwrap();
    assert_eq!(config.tracks.len(), 1);
    assert_eq!(config.get("a"), Some(&strings(&["2", "3"])));
}

#[test]
fn malformed_documents_are_rejected() {
    for text in ["", "[]", "{", r#"{"a": "b"}"#, r#"{"a": [1]}"#, r#"{"a": ["b"]} x"#, "null"] {
        assert_eq!(PlayerConfig::from_json(text).unwrap_err(), ConfigError::Malformed);
    }
}

#[test]
fn missing_or_malformed_document_falls_back_to_empty() {
    assert!(PlayerConfig::load(None).tracks.is_empty());
    assert!(PlayerConfig::load(Some("not json")).tracks.is_empty());
    assert!(PlayerConfig::load(Some("{}")).tracks.is_empty());
    let config = PlayerConfig::load(Some(r#"{"menu": ["a1"]}"#));
    assert_eq!(config.get("menu"), Some(&strings(&["a1"])));
}

#[test]
fn pairs_make_a_configuration() {
    let config = PlayerConfig::from_entries(&vec![
        ("b".to_string(), strings(&["1"])),
        ("a".to_string(), strings(&["2"])),
        ("b".to_string(), strings(&["3", "4"])),
    ]);
    assert_eq!(config.tracks.len(), 2);
    assert_eq!(config.get("b"), Some(&strings(&["3", "4"])));
    assert_eq!(config.get("a"), Some(&strings(&["2"])));
    let entries = config.to_entries();
    assert_eq!(
        entries,
        vec![("b".to_string(), strings(&["3", "4"])), ("a".to_string(), strings(&["2"]))]
    );
    assert!(PlayerConfig::from_entries(&Vec::new()).tracks.is_empty());
}

#[test]
fn document_is_written_indented_and_sorted() {
    let mut config = PlayerConfig::new();
    config.insert("menu".to_string(), strings(&["a2", "a1"]));
    config.insert("boss".to_string(), strings(&[]));
    let text = config.to_json().unwrap();
    assert_eq!(text, "{\n  \"boss\": [],\n  \"menu\": [\n    \"a2\",\n    \"a1\"\n  ]\n}");
    assert_eq!(PlayerConfig::new().to_json().unwrap(), "{}");
}

#[test]
fn written_document_reads_back() {
    let mut config = PlayerConfig::new();
    config.insert("we\"ird\n".to_string(), strings(&["\u{e9}", ""]));
    config.insert("menu".to_string(), strings(&["a3", "a1", "a2"]));
    let back = PlayerConfig::from_json(&config.to_json().unwrap()).unwrap();
    assert_eq!(back.tracks.len(), 2);
    assert_eq!(back.get("menu"), config.get("menu"));
    assert_eq!(back.get("we\"ird\n"), config.get("we\"ird\n"));
}

#[test]
fn strings_are_copied() {
    let list = strings(&["a", "", "bc"]);
    assert_eq!(clone_strings(&list), list);
    assert!(clone_strings(&Vec::new()).is_empty());
}

#[test]
fn rank_is_the_first_place() {
    let order = strings(&["b", "a", "b", ""]);
    assert_eq!(rank_of(&order, "b"), 0);
    assert_eq!(rank_of(&order, "a"), 1);
    assert_eq!(rank_of(&order, ""), 3);
    assert_eq!(rank_of(&order, "c"), 4);
    assert_eq!(rank_of(&Vec::new(), "a"), 0);
}

#[test]
fn chunks_follow_the_configured_order() {
    let track = vec![entry("t", "1", 10), entry("t", "2", 11), entry("t", "3", 12)];
    let sorted = order_by_config(&track, &strings(&["3", "1", "2"])).unwrap();
    assert_eq!(starts(&sorted), vec![12, 10, 11]);
    let same = order_by_config(&track, &track_suffixes(&track)).unwrap();
    assert_eq!(starts(&same), vec![10, 11, 12]);
    assert_eq!(track_suffixes(&track), strings(&["1", "2", "3"]));
}

#[test]
fn order_may_list_more_than_the_track_holds() {
    let track = vec![entry("t", "1", 10), entry("t", "2", 11)];
    let sorted = order_by_config(&track, &strings(&["9", "2", "8", "1", "2", "1"])).unwrap();
    assert_eq!(starts(&sorted), vec![11, 10]);
    assert!(order_by_config(&Vec::new(), &strings(&["1"])).unwrap().is_empty());
    assert!(order_by_config(&Vec::new(), &Vec::new()).unwrap().is_empty());
}

#[test]
fn chunks_of_equal_rank_stay_as_they_stood() {
    let track = vec![
        entry("t", "a", 1),
        entry("t", "b", 2),
        entry("t", "a", 3),
        entry("t", "c", 4),
        entry("t", "b", 5),
    ];
    let sorted = order_by_config(&track, &strings(&["c", "a", "b"])).unwrap();
    assert_eq!(starts(&sorted), vec![4, 1, 3, 2, 5]);
    let own = order_by_config(&track, &track_suffixes(&track)).unwrap();
    assert_eq!(starts(&own), vec![1, 3, 2, 5, 4]);
}

#[test]
fn ordering_keeps_every_chunk() {
    let track: Vec<SBFIndexEntry> =
        (0..20u32).map(|i| entry("t", &(i % 7).to_string(), i)).collect();
    let order = strings(&["6", "5", "4", "3", "2", "1", "0"]);
    let sorted = order_by_config(&track, &order).unwrap();
    let mut seen = starts(&sorted);
    seen.sort();
    assert_eq!(seen, (0..20).collect::<Vec<u32>>());
    assert_eq!(starts(&sorted)[..3], [6, 13, 5]);
}

#[test]
fn a_chunk_that_is_not_listed_makes_the_order_unusable() {
    let track = vec![entry("t", "1", 10), entry("t", "2", 11)];
    assert_eq!(
        order_by_config(&track, &strings(&["1"])).unwrap_err(),
        ConfigError::UnlistedChunk
    );
    assert_eq!(order_by_config(&track, &Vec::new()).unwrap_err(), ConfigError::UnlistedChunk);
}

#[test]
fn chunks_are_picked_by_track_and_suffix() {
    let sbf = container(&[b"a1\0\0\0\0\0\0", b"b1\0\0\0\0\0\0", b"a2\0\0\0\0\0\0", b"a1\0\0\0\0\0\0"]);
    assert_eq!(sbf.find_chunk("a", "1"), Some(0));
    assert_eq!(sbf.find_chunk("a", "2"), Some(2));
    assert_eq!(sbf.find_chunk("b", "1"), Some(1));
    assert_eq!(sbf.find_chunk("b", "2"), None);
    assert_eq!(sbf.find_chunk("c", "1"), None);
    let picked = sbf.select_chunks("a", &strings(&["2", "1", "2"])).unwrap();
    assert_eq!(starts(&picked), vec![2, 0, 2]);
    assert!(sbf.select_chunks("a", &Vec::new()).unwrap().is_empty());
    assert_eq!(
        sbf.select_chunks("a", &strings(&["1", "3"])).unwrap_err(),
        ConfigError::UnknownSuffix
    );
    assert_eq!(
        sbf.select_chunks("c", &strings(&["1"])).unwrap_err(),
        ConfigError::UnknownSuffix
    );
}

#[test]
fn configuration_errors_describe_themselves() {
    assert_eq!(ConfigError::Malformed.message(), "chunk order document is malformed");
    assert_eq!(ConfigError::UnknownTrack.message(), "no track of that name");
}

#[test]
fn track_chunks_come_in_index_order() {
    let sbf = container(&[b"a1\0\0\0\0\0\0", b"b1\0\0\0\0\0\0", b"a2\0\0\0\0\0\0", b"a1\0\0\0\0\0\0"]);
    assert_eq!(starts(&sbf.track_chunks("a")), vec![0, 2, 3]);
    assert_eq!(starts(&sbf.track_chunks("b")), vec![1]);
    assert!(sbf.track_chunks("c").is_empty());
    assert_eq!(starts(&sbf.track("a").unwrap().chunks), starts(&sbf.track_chunks("a")));
}

#[test]
fn a_list_with_an_unknown_suffix_falls_back_to_index_order() {
    let sbf = container(&[b"a1\0\0\0\0\0\0", b"b1\0\0\0\0\0\0", b"a2\0\0\0\0\0\0", b"a3\0\0\0\0\0\0"]);
    let (picked, fell_back) = sbf.select_chunks_or_default("a", &strings(&["3", "1", "2"]));
    assert!(!fell_back);
    assert_eq!(starts(&picked), vec![3, 0, 2]);
    let (picked, fell_back) = sbf.select_chunks_or_default("a", &strings(&["3", "9", "2"]));
    assert!(fell_back);
    assert_eq!(starts(&picked), vec![0, 2, 3]);
    let (picked, fell_back) = sbf.select_chunks_or_default("a", &strings(&["2"]));
    assert!(!fell_back);
    assert_eq!(starts(&picked), vec![2]);
    let (picked, fell_back) = sbf.select_chunks_or_default("a", &Vec::new());
    assert!(!fell_back);
    assert!(picked.is_empty());
    let (picked, fell_back) = sbf.select_chunks_or_default("c", &strings(&["1"]));
    assert!(fell_back);
    assert!(picked.is_empty());
}
