use lumelo::protocol::{
    format_event_line, format_status_line, parse_command_line, parse_event_line, parse_status_line,
    PlaybackCommand, PlaybackEvent, PlaybackFailureClass, PlaybackState, PlaybackStatusSnapshot,
};
use lumelo::snapshot::{
    format_history_snapshot_line, format_queue_snapshot_line, parse_history_snapshot_line,
    parse_queue_snapshot_line,
};
use serde_json::Value;

#[test]
fn parses_track_commands_with_spaces() {
    let parsed = parse_command_line("PLAY Album Side A / Track 01").unwrap();
    assert_eq!(
        parsed,
        PlaybackCommand::Play("Album Side A / Track 01".to_string())
    );
}

#[test]
fn parses_queue_replace_json_payload() {
    let parsed = parse_command_line(
        r#"QUEUE_REPLACE ["Album Side A / Track 01","Album Side B / Track 02"]"#,
    )
    .unwrap();
    assert_eq!(
        parsed,
        PlaybackCommand::QueueReplace(vec![
            "Album Side A / Track 01".to_string(),
            "Album Side B / Track 02".to_string(),
        ])
    );
}

#[test]
fn parses_queue_play_json_payload() {
    let parsed = parse_command_line(
        r#"QUEUE_PLAY ["Album Side A / Track 01","Album Side B / Track 02"]"#,
    )
    .unwrap();
    assert_eq!(
        parsed,
        PlaybackCommand::QueuePlay(vec![
            "Album Side A / Track 01".to_string(),
            "Album Side B / Track 02".to_string(),
        ])
    );
}

#[test]
fn parses_history_snapshot_command() {
    let parsed = parse_command_line("HISTORY_SNAPSHOT").unwrap();

    assert_eq!(parsed, PlaybackCommand::HistorySnapshot);
}

#[test]
fn parses_playback_mode_commands() {
    assert_eq!(
        parse_command_line("SET_ORDER_MODE shuffle").unwrap(),
        PlaybackCommand::SetOrderMode("shuffle".to_string())
    );
    assert_eq!(
        parse_command_line("SET_REPEAT_MODE all").unwrap(),
        PlaybackCommand::SetRepeatMode("all".to_string())
    );
}

#[test]
fn rejects_unknown_playback_modes() {
    let order_err = parse_command_line("SET_ORDER_MODE random").unwrap_err();
    assert_eq!(order_err.code, "invalid_order_mode");

    let repeat_err = parse_command_line("SET_REPEAT_MODE forever").unwrap_err();
    assert_eq!(repeat_err.code, "invalid_repeat_mode");
}

#[test]
fn queue_replace_encode_round_trips_json() {
    let original = PlaybackCommand::QueueReplace(vec![
        "Album Side A / Track 01".to_string(),
        "Album Side B / Track 02".to_string(),
    ]);

    let encoded = original.encode();
    let decoded = parse_command_line(&encoded).unwrap();

    assert_eq!(decoded, original);
}

#[test]
fn queue_play_encode_round_trips_json() {
    let original = PlaybackCommand::QueuePlay(vec![
        "Album Side A / Track 01".to_string(),
        "Album Side B / Track 02".to_string(),
    ]);

    let encoded = original.encode();
    let decoded = parse_command_line(&encoded).unwrap();

    assert_eq!(decoded, original);
}

#[test]
fn playback_mode_encode_round_trips() {
    for original in [
        PlaybackCommand::SetOrderMode("sequential".to_string()),
        PlaybackCommand::SetOrderMode("shuffle".to_string()),
        PlaybackCommand::SetRepeatMode("off".to_string()),
        PlaybackCommand::SetRepeatMode("one".to_string()),
        PlaybackCommand::SetRepeatMode("all".to_string()),
    ] {
        let encoded = original.encode();
        let decoded = parse_command_line(&encoded).unwrap();

        assert_eq!(decoded, original);
    }
}

#[test]
fn status_round_trip_preserves_fields() {
    let original = PlaybackStatusSnapshot {
        state: PlaybackState::QuietActive,
        order_mode: "sequential".to_string(),
        repeat_mode: "off".to_string(),
        current_track: Some("Album Side A / Track 01".to_string()),
        last_command: Some("play_history:Album Side A / Track 01".to_string()),
        queue_entries: 3,
    };

    let encoded = format_status_line(&original);
    let decoded = parse_status_line(&encoded).unwrap();

    assert_eq!(decoded, original);
}

fn object(fields: Vec<(&str, Value)>) -> Value {
    let mut map = serde_json::Map::new();
    for (key, value) in fields {
        map.insert(key.to_string(), value);
    }
    Value::Object(map)
}

fn text(value: &str) -> Value {
    Value::String(value.to_string())
}

#[test]
fn queue_snapshot_round_trip_preserves_fields() {
    let entry = |order_index: u64, id: &str, track: &str, current: bool| {
        object(vec![
            ("order_index", Value::from(order_index)),
            ("queue_entry_id", text(id)),
            ("track_uid", text(track)),
            ("volume_uuid", text("vol-1")),
            ("relative_path", text(track)),
            ("title", text(track)),
            ("duration_ms", Value::Null),
            ("is_current", Value::Bool(current)),
        ])
    };
    let original = object(vec![
        ("order_mode", text("sequential")),
        ("repeat_mode", text("off")),
        ("current_order_index", Value::from(1u64)),
        (
            "entries",
            Value::Array(vec![
                entry(0, "q1", "track-a", false),
                entry(1, "q2", "track-b", true),
            ]),
        ),
    ]);

    let payload = serde_json::to_string(&original).unwrap();
    let encoded = format_queue_snapshot_line(&payload);
    let decoded_payload = parse_queue_snapshot_line(&encoded).unwrap();
    let decoded: Value = serde_json::from_str(&decoded_payload).unwrap();

    assert_eq!(decoded, original);
}

#[test]
fn history_snapshot_round_trip_preserves_fields() {
    let original = object(vec![(
        "entries",
        Value::Array(vec![object(vec![
            ("played_at", Value::from(123u64)),
            ("track_uid", text("track-a")),
            ("volume_uuid", text("vol-1")),
            ("relative_path", text("Album/track-a.flac")),
            ("title", text("Track A")),
            ("duration_ms", Value::from(201_000u64)),
        ])]),
    )]);

    let payload = serde_json::to_string(&original).unwrap();
    let encoded = format_history_snapshot_line(&payload);
    let decoded_payload = parse_history_snapshot_line(&encoded).unwrap();
    let decoded: Value = serde_json::from_str(&decoded_payload).unwrap();

    assert_eq!(decoded, original);
}

#[test]
fn event_round_trip_preserves_failure_payload() {
    let original = PlaybackEvent::PlaybackFailed {
        reason: "alsa_open_failed".to_string(),
        class: PlaybackFailureClass::Output,
        recoverable: false,
        keep_quiet: false,
    };

    let encoded = format_event_line(&original);
    let decoded = parse_event_line(&encoded).unwrap();

    assert_eq!(decoded, original);
}

#[test]
fn json_strings_are_escaped_as_serde_json_escapes_them() {
    let samples = [
        "",
        "plain",
        "quote \" and backslash \\",
        "tab\tline\nreturn\rfeed\u{c}back\u{8}",
        "bell\u{7} nul\u{0} unit\u{1f} del\u{7f}",
        "slash / é 音 🎵",
    ];
    for sample in samples {
        assert_eq!(
            lumelo::json::json_string_text(sample),
            serde_json::to_string(sample).unwrap(),
            "{sample:?}"
        );
    }
}

#[test]
fn invalid_snapshot_payloads_are_reported() {
    let message = serde_json::from_str::<serde_json::Value>("{not json").unwrap_err().to_string();
    let err = lumelo::snapshot::queue_snapshot_from_json(Err(message.clone())).unwrap_err();
    assert_eq!(err.code, "invalid_queue_snapshot");
    assert_eq!(err.message, format!("queue snapshot payload is invalid JSON: {message}"));
    let err = lumelo::snapshot::history_snapshot_from_json(Err("bad".to_string())).unwrap_err();
    assert_eq!(err.code, "invalid_history_snapshot");
    assert_eq!(err.message, "history snapshot payload is invalid JSON: bad");
    let empty = lumelo::snapshot::HistorySnapshotView { entries: Vec::new() };
    assert!(lumelo::snapshot::history_snapshot_from_json(Ok(empty)).unwrap().entries.is_empty());
}
