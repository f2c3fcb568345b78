use lumelo::playback::ResolvedTrack;
use lumelo::protocol::PlaybackFailureClass;
use lumelo::resolver::{
    absolute_path_playback_enabled, is_absolute_path, preflight_track_file, resolve_path_track,
    track_from_row, LibraryTrackRow,
};

fn row(is_available: bool, duration_ms: Option<i64>) -> LibraryTrackRow {
    LibraryTrackRow {
        track_uid: "trk_1".to_string(),
        volume_uuid: "vol_a".to_string(),
        relative_path: "Artist/Album/01.flac".to_string(),
        title: Some("Song".to_string()),
        duration_ms,
        format: "flac".to_string(),
        is_available,
        mount_path: "/media/usb".to_string(),
    }
}

#[test]
fn absolute_path_flag_accepts_common_truthy_values() {
    for value in ["1", "true", "TRUE", "yes", "on"] {
        assert!(absolute_path_playback_enabled(Some(value.to_string())), "{value}");
    }
    for value in ["0", "false", "no", "off", ""] {
        assert!(!absolute_path_playback_enabled(Some(value.to_string())), "{value}");
    }
    assert!(!absolute_path_playback_enabled(None));
}

#[test]
fn absolute_path_detection() {
    assert!(is_absolute_path("/music/a.flac"));
    assert!(!is_absolute_path("trk_1"));
    assert!(!is_absolute_path("music/a.flac"));
}

#[test]
fn library_ids_are_not_paths() {
    assert!(matches!(resolve_path_track("trk_1", true, true), Ok(None)));
    assert!(matches!(resolve_path_track("trk_1", false, false), Ok(None)));
}

#[test]
fn path_playback_refused_when_disabled() {
    let err = resolve_path_track("/music/a.flac", false, true).unwrap_err();
    assert_eq!(err.code, "absolute_path_playback_disabled");
    assert_eq!(
        err.reason,
        "absolute path playback is disabled; use a library track uid"
    );
    assert_eq!(err.class, PlaybackFailureClass::Content);
    assert!(err.recoverable);
    assert!(!err.keep_quiet);
}

#[test]
fn path_playback_missing_file_falls_through() {
    assert!(matches!(resolve_path_track("/music/a.flac", true, false), Ok(None)));
}

#[test]
fn path_playback_builds_track_from_path() {
    let track = resolve_path_track("/music/Album/a.FLAC", true, true)
        .unwrap()
        .unwrap();
    assert_eq!(track.track_uid, "/music/Album/a.FLAC");
    assert_eq!(track.volume_uuid, "manual-path");
    assert_eq!(track.relative_path, "/music/Album/a.FLAC");
    assert_eq!(track.title.as_deref(), Some("a.FLAC"));
    assert_eq!(track.duration_ms, None);
    assert_eq!(track.format, "flac");
    assert_eq!(track.absolute_path, "/music/Album/a.FLAC");
}

#[test]
fn missing_library_row_is_track_not_found() {
    let err = track_from_row("trk_9", None).unwrap_err();
    assert_eq!(err.code, "track_not_found");
    assert_eq!(err.reason, "track is not present in library.db: trk_9");
    assert!(err.keep_quiet);
}

#[test]
fn offline_volume_is_refused() {
    let err = track_from_row("trk_1", Some(row(false, Some(1000)))).unwrap_err();
    assert_eq!(err.code, "track_volume_unavailable");
    assert_eq!(err.reason, "track volume is offline: vol_a");
    assert!(!err.keep_quiet);
}

#[test]
fn library_row_becomes_track_under_mount_path() {
    let track = track_from_row("trk_1", Some(row(true, Some(183_000)))).unwrap();
    assert_eq!(track.track_uid, "trk_1");
    assert_eq!(track.volume_uuid, "vol_a");
    assert_eq!(track.title.as_deref(), Some("Song"));
    assert_eq!(track.duration_ms, Some(183_000));
    assert_eq!(track.format, "flac");
    assert_eq!(track.absolute_path, "/media/usb/Artist/Album/01.flac");
}

#[test]
fn negative_duration_is_dropped() {
    let track = track_from_row("trk_1", Some(row(true, Some(-5)))).unwrap();
    assert_eq!(track.duration_ms, None);
}

#[test]
fn preflight_reports_missing_file() {
    let track = ResolvedTrack {
        track_uid: "trk_1".to_string(),
        volume_uuid: "vol_a".to_string(),
        relative_path: "a.flac".to_string(),
        title: None,
        duration_ms: None,
        format: "flac".to_string(),
        absolute_path: "/media/usb/a.flac".to_string(),
    };
    assert!(preflight_track_file(&track, true).is_ok());
    let err = preflight_track_file(&track, false).unwrap_err();
    assert_eq!(err.code, "track_file_missing");
    assert_eq!(err.reason, "resolved media path is missing: /media/usb/a.flac");
    assert!(!err.keep_quiet);
}
