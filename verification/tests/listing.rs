use agentfs_fskit::listing::{decode_entries, encode_entries};

fn enc(entries: &[&str]) -> Vec<u8> {
    let owned: Vec<Vec<u8>> = entries.iter().map(|e| e.as_bytes().to_vec()).collect();
    encode_entries(&owned)
}

#[test]
fn encodes_plain_names_as_a_json_array() {
    assert_eq!(enc(&["file1", "file2", "dir1"]), b"[\"file1\",\"file2\",\"dir1\"]".to_vec());
}

#[test]
fn encodes_the_empty_listing() {
    assert_eq!(enc(&[]), b"[]".to_vec());
}

#[test]
fn escapes_only_backslash_and_quote() {
    assert_eq!(enc(&["d\"e"]), b"[\"d\\\"e\"]".to_vec());
    assert_eq!(enc(&["a\\b"]), b"[\"a\\\\b\"]".to_vec());
    assert_eq!(enc(&["b c"]), b"[\"b c\"]".to_vec());
}

#[test]
fn round_trip_preserves_contents_and_order() {
    let entries: Vec<Vec<u8>> = ["a.txt", "b c", "d\"e"]
        .iter()
        .map(|e| e.as_bytes().to_vec())
        .collect();
    let payload = encode_entries(&entries);
    let decoded = decode_entries(&payload).expect("well-formed payload");
    assert_eq!(decoded, entries);
}

#[test]
fn round_trip_covers_awkward_entries() {
    let entries: Vec<Vec<u8>> = ["", "\\", "\"", "a\\\"b", "plain"]
        .iter()
        .map(|e| e.as_bytes().to_vec())
        .collect();
    let payload = encode_entries(&entries);
    assert_eq!(decode_entries(&payload), Some(entries));
}

#[test]
fn decoder_rejects_malformed_payloads() {
    assert_eq!(decode_entries(&b"".to_vec()), None);
    assert_eq!(decode_entries(&b"[".to_vec()), None);
    assert_eq!(decode_entries(&b"[\"a\"".to_vec()), None);
    assert_eq!(decode_entries(&b"[\"a\"]x".to_vec()), None);
    assert_eq!(decode_entries(&b"plain".to_vec()), None);
    assert_eq!(decode_entries(&b"[a]".to_vec()), None);
    assert_eq!(decode_entries(&b"[\"a\",]".to_vec()), None);
}

#[test]
fn decoder_accepts_the_empty_array() {
    assert_eq!(decode_entries(&b"[]".to_vec()), Some(Vec::new()));
}
