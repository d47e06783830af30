use gif_editor_core::naming::{
    artifact_index, artifact_name, clamp_delay, decimal, frame_selector, is_artifact,
    padded_artifact_name, padded_decimal, safe_base, slice_matches, to_centiseconds, ArtifactKind, PADDED_WIDTHS,
};

#[test]
fn decimal_digits() {
    assert_eq!(decimal(0), b"0".to_vec());
    assert_eq!(decimal(7), b"7".to_vec());
    assert_eq!(decimal(10), b"10".to_vec());
    assert_eq!(decimal(1234567890), b"1234567890".to_vec());
    assert_eq!(decimal(usize::MAX), usize::MAX.to_string().into_bytes());
}

#[test]
fn padded_digits() {
    assert_eq!(padded_decimal(7, 4), b"0007".to_vec());
    assert_eq!(padded_decimal(7, 3), b"007".to_vec());
    assert_eq!(padded_decimal(0, 4), b"0000".to_vec());
    assert_eq!(padded_decimal(12345, 4), b"12345".to_vec());
    assert_eq!(padded_decimal(1234, 4), b"1234".to_vec());
    assert_eq!(padded_decimal(5, 0), b"5".to_vec());
}

#[test]
fn artifact_names_are_not_padded() {
    assert_eq!(artifact_name(ArtifactKind::FullFrame, 0), b"frame.0".to_vec());
    assert_eq!(artifact_name(ArtifactKind::FullFrame, 100), b"frame.100".to_vec());
    assert_eq!(artifact_name(ArtifactKind::Preview, 123), b"preview.123".to_vec());
}

#[test]
fn padded_artifact_names() {
    assert_eq!(padded_artifact_name(ArtifactKind::FullFrame, 7, 4), b"frame.0007".to_vec());
    assert_eq!(padded_artifact_name(ArtifactKind::FullFrame, 7, 3), b"frame.007".to_vec());
    assert_eq!(padded_artifact_name(ArtifactKind::Preview, 100, 4), b"preview.0100".to_vec());
    assert_eq!(padded_artifact_name(ArtifactKind::Preview, 1000, 3), b"preview.1000".to_vec());
}

#[test]
fn padded_names_that_are_looked_for() {
    let names: Vec<Vec<u8>> = PADDED_WIDTHS
        .iter()
        .map(|w| padded_artifact_name(ArtifactKind::FullFrame, 12, *w))
        .collect();
    assert_eq!(names, vec![b"frame.0012".to_vec(), b"frame.012".to_vec()]);
}

#[test]
fn index_is_read_back_from_a_name() {
    assert_eq!(artifact_index(b"frame.12", ArtifactKind::FullFrame), Some(12));
    assert_eq!(artifact_index(b"frame.0012", ArtifactKind::FullFrame), Some(12));
    assert_eq!(artifact_index(b"frame.+5", ArtifactKind::FullFrame), Some(5));
    assert_eq!(artifact_index(b"preview.3", ArtifactKind::Preview), Some(3));
    for i in [0usize, 9, 10, 99, 100, 65535, usize::MAX] {
        for kind in [ArtifactKind::FullFrame, ArtifactKind::Preview] {
            assert_eq!(artifact_index(&artifact_name(kind, i), kind), Some(i));
        }
    }
}

#[test]
fn names_without_an_index() {
    assert_eq!(artifact_index(b"frame.", ArtifactKind::FullFrame), None);
    assert_eq!(artifact_index(b"frame.x", ArtifactKind::FullFrame), None);
    assert_eq!(artifact_index(b"frame.1.png", ArtifactKind::FullFrame), None);
    assert_eq!(artifact_index(b"frame_0001.png", ArtifactKind::FullFrame), None);
    assert_eq!(artifact_index(b"preview.3", ArtifactKind::FullFrame), None);
    assert_eq!(artifact_index(b"frame.3", ArtifactKind::Preview), None);
    assert_eq!(artifact_index(b"", ArtifactKind::Preview), None);
    assert_eq!(artifact_index(b"frame.99999999999999999999999", ArtifactKind::FullFrame), None);
}

#[test]
fn artifacts_are_told_by_their_prefix() {
    assert!(is_artifact(b"frame.1", ArtifactKind::FullFrame));
    assert!(is_artifact(b"frame.", ArtifactKind::FullFrame));
    assert!(is_artifact(b"frame.abc", ArtifactKind::FullFrame));
    assert!(!is_artifact(b"frame", ArtifactKind::FullFrame));
    assert!(!is_artifact(b"xframe.1", ArtifactKind::FullFrame));
    assert!(!is_artifact(b"frame.1", ArtifactKind::Preview));
    assert!(is_artifact(b"preview.1", ArtifactKind::Preview));
}

#[test]
fn selectors() {
    assert_eq!(frame_selector(5, 5), b"#5".to_vec());
    assert_eq!(frame_selector(0, 99), b"#0-99".to_vec());
    assert_eq!(frame_selector(200, 249), b"#200-249".to_vec());
    assert_eq!(frame_selector(7, 3), b"#7-3".to_vec());
}

#[test]
fn slice_needs_one_delay_for_each_frame() {
    assert!(slice_matches(0, 0, 1));
    assert!(slice_matches(3, 7, 5));
    assert!(!slice_matches(3, 7, 4));
    assert!(!slice_matches(3, 7, 6));
    assert!(slice_matches(7, 3, 0));
    assert!(!slice_matches(7, 3, 1));
    assert!(!slice_matches(0, usize::MAX, 0));
    assert!(slice_matches(1, usize::MAX, usize::MAX));
}

#[test]
fn safe_base_names() {
    assert_eq!(safe_base("clip01"), b"clip01".to_vec());
    assert_eq!(safe_base("my gif(1)"), b"my_32gif_401_41".to_vec());
    assert_eq!(safe_base("a-b_c.d"), b"a_45b_95c_46d".to_vec());
    assert_eq!(safe_base("caf\u{e9}"), b"caf_233".to_vec());
    assert_eq!(safe_base("\u{1F600}"), b"_128512".to_vec());
    assert_eq!(safe_base(""), Vec::<u8>::new());
}

#[test]
fn delay_conversions() {
    assert_eq!(to_centiseconds(0), 0);
    assert_eq!(to_centiseconds(55), 5);
    assert_eq!(to_centiseconds(100), 10);
    assert_eq!(to_centiseconds(65535), 6553);
    assert_eq!(clamp_delay(0), 0);
    assert_eq!(clamp_delay(65535), 65535);
    assert_eq!(clamp_delay(65536), 65535);
    assert_eq!(clamp_delay(u64::MAX), 65535);
}
