use lumelo::protocol::{parse_command_line, parse_event_line, parse_status_line, ProtocolError};

fn expect_err<T>(result: Result<T, ProtocolError>, code: &str, message: &str) {
    match result {
        Ok(_) => panic!("expected {code}"),
        Err(err) => {
            assert_eq!(err.code, code);
            assert_eq!(err.message, message);
        }
    }
}

#[test]
fn command_errors_name_what_is_wrong() {
    expect_err(parse_command_line("   "), "empty_command", "command line is empty");
    expect_err(parse_command_line("JUMP now"), "unknown_command", "unsupported command verb: JUMP");
    expect_err(parse_command_line("PLAY"), "missing_track_id", "track id is required");
    expect_err(parse_command_line("QUEUE_APPEND   "), "missing_track_id", "track id is required");
    expect_err(
        parse_command_line("QUEUE_REMOVE"),
        "missing_queue_entry_id",
        "queue entry id is required",
    );
    expect_err(parse_command_line("QUEUE_PLAY"), "missing_track_list", "track list is required");
    expect_err(parse_command_line("SET_ORDER_MODE"), "missing_order_mode", "order mode is required");
    expect_err(
        parse_command_line("SET_REPEAT_MODE"),
        "missing_repeat_mode",
        "repeat mode is required",
    );
    expect_err(
        parse_command_line("QUEUE_REPLACE [\"a\",\"  \"]"),
        "invalid_track_id",
        "track list contains an empty track id",
    );
}

#[test]
fn track_list_must_be_json_strings() {
    let err = parse_command_line("QUEUE_REPLACE not-json").unwrap_err();
    assert_eq!(err.code, "invalid_track_list");
    assert!(err
        .message
        .starts_with("track list must be a JSON array of strings: "));
    let err = parse_command_line("QUEUE_PLAY [1,2]").unwrap_err();
    assert_eq!(err.code, "invalid_track_list");
}

#[test]
fn command_verb_is_case_sensitive() {
    expect_err(parse_command_line("ping"), "unknown_command", "unsupported command verb: ping");
}

#[test]
fn status_line_errors() {
    expect_err(parse_status_line(""), "empty_response", "response line is empty");
    expect_err(parse_status_line("HELLO"), "invalid_response", "unsupported response prefix: HELLO");
    expect_err(parse_status_line("ERR\tcode=x"), "unexpected_response", "response is not OK");
    expect_err(parse_status_line("OK\tstate=idle"), "missing_field", "missing kind field");
    expect_err(
        parse_status_line("OK\tkind=queue"),
        "unexpected_response",
        "expected status response, got queue",
    );
    expect_err(
        parse_status_line("OK\tkind=status\tbroken"),
        "invalid_field",
        "response field is missing '=': broken",
    );
    expect_err(parse_status_line("OK\tkind=status"), "missing_field", "missing field: state");
    expect_err(
        parse_status_line("OK\tkind=status\tstate=dancing"),
        "invalid_state",
        "state field is invalid",
    );
    expect_err(
        parse_status_line("OK\tkind=status\tstate=idle\tqueue_entries=many"),
        "invalid_queue_entries",
        "queue_entries is not a number",
    );
}

#[test]
fn event_line_errors() {
    expect_err(parse_event_line(" "), "empty_line", "line is empty");
    expect_err(
        parse_event_line("OK\tname=PLAYBACK_PAUSED"),
        "invalid_prefix",
        "expected prefix EVENT, got OK",
    );
    expect_err(parse_event_line("EVENT\tname"), "invalid_field", "field is missing '=': name");
    expect_err(parse_event_line("EVENT\ttrack_id=a"), "missing_field", "missing field: name");
    expect_err(parse_event_line("EVENT\tname=EXPLODED"), "unknown_event", "unsupported event name: EXPLODED");
    expect_err(
        parse_event_line("EVENT\tname=PLAYBACK_FAILED\treason=x\tclass=cosmic\trecoverable=true\tkeep_quiet=false"),
        "invalid_class",
        "invalid failure class",
    );
    expect_err(
        parse_event_line("EVENT\tname=PLAYBACK_FAILED\treason=x\tclass=output\trecoverable=maybe\tkeep_quiet=false"),
        "invalid_bool",
        "invalid boolean value: maybe",
    );
}
