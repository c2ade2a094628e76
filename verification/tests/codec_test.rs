use log_kv::codec::{decode_text, encode_records, encode_text, CodecError};
use log_kv::snapshot::{parse_snapshot_name, select_latest, Snapshot};
use log_kv::sync::SnapshotLoader;

fn records(pairs: &[(&str, &[u8])]) -> Vec<(String, Vec<u8>)> {
    pairs.iter().map(|(k, v)| (k.to_string(), v.to_vec())).collect()
}

#[test]
fn binary_round_trip_two_entries() {
    let input = records(&[("map:1", b"x"), ("map:-2", b"")]);
    let image = encode_records(&input);
    let decoded = SnapshotLoader::load_from_bytes(&image).unwrap();
    assert_eq!(decoded, input);
}

#[test]
fn binary_image_is_byte_exact() {
    let input = records(&[("a", b"b")]);
    let image = encode_records(&input);
    let expected: Vec<u8> = vec![
        66, 77, 65, 80, // magic
        1, 0, 0, 0, // version
        1, 0, 0, 0, // count
        1, 0, // key length
        97, // "a"
        1, 0, 0, 0, // value length
        98, // "b"
    ];
    assert_eq!(image, expected);
}

#[test]
fn empty_input_decodes_to_no_records() {
    let decoded = SnapshotLoader::load_from_bytes(&[]).unwrap();
    assert!(decoded.is_empty());
}

#[test]
fn encoding_no_records_yields_a_decodable_header() {
    let image = encode_records(&records(&[]));
    assert_eq!(image.len(), 12);
    let decoded = SnapshotLoader::load_from_bytes(&image).unwrap();
    assert!(decoded.is_empty());
}

#[test]
fn truncated_image_is_rejected() {
    let input = records(&[("map:1", b"x"), ("map:-2", b"yy")]);
    let mut image = encode_records(&input);
    let n = image.len();
    image.truncate(n - 4);
    assert_eq!(
        SnapshotLoader::load_from_bytes(&image).unwrap_err(),
        CodecError::Truncated
    );
}

#[test]
fn header_errors_are_distinguished() {
    assert_eq!(
        SnapshotLoader::load_from_bytes(&[1, 2, 3]).unwrap_err(),
        CodecError::TooShort
    );
    let bad_magic = [0u8, 0, 0, 0, 1, 0, 0, 0, 0, 0, 0, 0];
    assert_eq!(
        SnapshotLoader::load_from_bytes(&bad_magic).unwrap_err(),
        CodecError::InvalidMagic
    );
    let bad_version = [66u8, 77, 65, 80, 2, 0, 0, 0, 0, 0, 0, 0];
    assert_eq!(
        SnapshotLoader::load_from_bytes(&bad_version).unwrap_err(),
        CodecError::InvalidVersion(2)
    );
}

#[test]
fn overlong_count_is_a_truncation() {
    let image = [66u8, 77, 65, 80, 1, 0, 0, 0, 9, 0, 0, 0];
    assert_eq!(
        SnapshotLoader::load_from_bytes(&image).unwrap_err(),
        CodecError::Truncated
    );
}

#[test]
fn invalid_utf8_key_is_decoded_lossily() {
    // One record whose key is the single byte 0xFF: not valid UTF-8.
    let image = [66u8, 77, 65, 80, 1, 0, 0, 0, 1, 0, 0, 0, 1, 0, 0xFF, 1, 0, 0, 0, 120];
    let decoded = SnapshotLoader::load_from_bytes(&image).unwrap();
    assert_eq!(decoded.len(), 1);
    assert_eq!(decoded[0].0, "\u{FFFD}");
    assert_eq!(decoded[0].1, b"x".to_vec());
}

#[test]
fn text_format_is_one_line_per_record() {
    let input = records(&[("map:1", b"hello"), ("map:2", b"there")]);
    let text = encode_text(&input);
    assert_eq!(text, "map:1: hello\nmap:2: there\n");
}

#[test]
fn text_format_parses_back_line_by_line() {
    let input = records(&[("map:1", b"hello"), ("map:2", b"there")]);
    let text = encode_text(&input);
    assert_eq!(decode_text(text.as_bytes()), input);

    // Lines without the separator are skipped; the first separator splits.
    let loose = b"no separator here\nk: a: b\n: empty key\ntail without newline: x";
    assert_eq!(
        decode_text(loose),
        records(&[("k", b"a: b"), ("", b"empty key"), ("tail without newline", b"x")])
    );
    assert!(decode_text(b"").is_empty());
}

#[test]
fn snapshot_policy_fires_on_the_interval() {
    let mut snapshot = Snapshot::new("snaps", 3);
    let mut taken = Vec::new();
    for ordinal in 1..=7u64 {
        if snapshot.should_snapshot(ordinal) {
            taken.push(ordinal);
        }
    }
    assert_eq!(taken, vec![3, 6]);
    assert!(!snapshot.should_snapshot(0));
}

#[test]
fn snapshot_paths_follow_the_convention() {
    let snapshot = Snapshot::new("snaps", 3);
    assert_eq!(snapshot.snapshot_path(12, "bmap"), "snaps/snapshot_12.bmap");
    assert_eq!(snapshot.snapshot_path(3, "tmap"), "snaps/snapshot_3.tmap");
}

#[test]
fn snapshot_names_parse_back() {
    assert_eq!(parse_snapshot_name("snapshot_12.bmap"), Some((12, true)));
    assert_eq!(parse_snapshot_name("snapshot_7.tmap"), Some((7, false)));
    assert_eq!(parse_snapshot_name("snapshot_.bmap"), None);
    assert_eq!(parse_snapshot_name("snapshot_12.xmap"), None);
    assert_eq!(parse_snapshot_name("foo.bmap"), None);
    assert_eq!(parse_snapshot_name("snapshot_12bmap"), None);
}

#[test]
fn latest_snapshot_prefers_binary_at_the_top_ordinal() {
    let names = vec![
        "snapshot_3.tmap".to_string(),
        "snapshot_6.tmap".to_string(),
        "snapshot_6.bmap".to_string(),
        "journal.log".to_string(),
    ];
    assert_eq!(select_latest(&names), Some((6, true)));

    let text_only = vec!["snapshot_3.bmap".to_string(), "snapshot_9.tmap".to_string()];
    assert_eq!(select_latest(&text_only), Some((9, false)));

    let none: Vec<String> = vec!["journal.log".to_string()];
    assert_eq!(select_latest(&none), None);
    assert_eq!(select_latest(&Vec::new()), None);
}
