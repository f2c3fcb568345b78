use lumelo::artwork::{bucket_id_ok, bucket_segments, source_path, thumb_path};

#[test]
fn buckets_are_zero_padded() {
    assert_eq!(bucket_segments("a"), ("a0".to_string(), "00".to_string()));
}

#[test]
fn thumb_path_uses_expected_layout() {
    let path = thumb_path("/var/cache/lumelo/artwork", "a1b2c3");
    assert_eq!(path, "/var/cache/lumelo/artwork/thumb/320/a1/b2/a1b2c3.jpg");
}

#[test]
fn source_path_uses_expected_layout() {
    let path = source_path("/var/cache/lumelo/artwork", "a1b2c3", "PNG");
    assert_eq!(path, "/var/cache/lumelo/artwork/source/a1/b2/a1b2c3.png");
}

#[test]
fn buckets_split_long_ids_after_four_characters() {
    assert_eq!(bucket_segments("abcdef"), ("ab".to_string(), "cd".to_string()));
    assert_eq!(bucket_segments(""), ("00".to_string(), "00".to_string()));
    assert_eq!(bucket_segments("abc"), ("ab".to_string(), "c0".to_string()));
}

#[test]
fn bucket_id_ok_requires_character_boundaries() {
    assert!(bucket_id_ok("abcdef"));
    assert!(bucket_id_ok("ab"));
    assert!(bucket_id_ok(""));
    assert!(bucket_id_ok("é"));
    assert!(!bucket_id_ok("aéb"));
    assert!(!bucket_id_ok("€"));
}
