use lumelo::alsa::{
    parse_alsa_stream_capabilities, parse_dsd_output_policy_from_config, select_dop_plan,
    select_native_dsd_plan, select_pcm_fallback_plan, AlsaDsdFormat, AlsaStreamCapabilities,
    DopPcmFormat, DsdOutputPolicy, DsdSourceInfo, DsdTransport,
};
use lumelo::cards::{select_unique_usb_audio_output, usb_audio_output_devices_from_cards};
use lumelo::media_model::{HistoryLog, OrderMode, QueueEntry, QueueSnapshot, RepeatMode};
use lumelo::playback::{
    apply_operation_failure, playback_track_id_for_preflight, PlaybackOperationError,
    ResolvedTrack, TrackFinishAction,
};
use lumelo::protocol::{PlaybackCommand, PlaybackEvent, PlaybackState};
use lumelo::queue::{normalize_snapshot, resolve_track_uid};
use lumelo::runtime::RuntimeState;
use lumelo::snapshot::{parse_history_snapshot_line, parse_queue_snapshot_line};
use lumelo::runtime_model::HISTORY_LIMIT;

const NOW: u64 = 1_700_000_000;

#[test]
fn restore_keeps_pointer_but_forces_stopped_state() {
    let restored = RuntimeState::restore(shuffled_snapshot(), HistoryLog::empty());

    assert_eq!(restored.playback_state.as_str(), "stopped");
    assert_eq!(restored.current_track.as_deref(), Some("track-b"));
    assert_eq!(restored.snapshot.current_order_index, Some(0));
}

#[test]
fn stop_preserves_current_order_index() {
    let mut state = RuntimeState::new();
    state.apply_command(PlaybackCommand::Play("track-a".to_string()));

    let outcome = state.apply_command(PlaybackCommand::Stop);

    assert_eq!(state.playback_state.as_str(), "stopped");
    assert_eq!(state.snapshot.current_order_index, Some(0));
    assert_eq!(state.current_track.as_deref(), Some("track-a"));
    assert!(!outcome.persist_queue);
}

#[test]
fn resolve_track_uses_play_order_not_track_vector_index() {
    let snapshot = shuffled_snapshot();

    assert_eq!(
        resolve_track_uid(&snapshot, Some(0)).as_deref(),
        Some("track-b")
    );
    assert_eq!(
        resolve_track_uid(&snapshot, Some(1)).as_deref(),
        Some("track-a")
    );
}

#[test]
fn normalize_snapshot_appends_missing_track_ids() {
    let snapshot = QueueSnapshot {
        order_mode: OrderMode::Sequential,
        repeat_mode: RepeatMode::Off,
        current_order_index: Some(0),
        play_order: vec!["q2".to_string()],
        tracks: vec![queue_entry("q1", "track-a"), queue_entry("q2", "track-b")],
    };

    let normalized = normalize_snapshot(snapshot);

    assert_eq!(
        normalized.play_order,
        vec!["q2".to_string(), "q1".to_string()]
    );
}

#[test]
fn play_appends_recent_history_entry() {
    let mut state = RuntimeState::new();

    state.apply_command(PlaybackCommand::Play("track-a".to_string()));
    state.apply_command(PlaybackCommand::Play("track-b".to_string()));

    assert_eq!(state.history_log.entries.len(), 2);
    assert_eq!(state.history_log.entries[0].track_uid, "track-b");
    assert_eq!(state.history_log.entries[1].track_uid, "track-a");
}

#[test]
fn failed_play_rolls_back_recent_history_entry() {
    let mut state = RuntimeState::new();
    let mut outcome = state.apply_command(PlaybackCommand::Play("track-a".to_string()));

    assert_eq!(state.history_log.entries.len(), 1);
    assert_eq!(state.history_log.entries[0].track_uid, "track-a");

    apply_operation_failure(
        &mut state,
        &mut outcome,
        Some("track-a".to_string()),
        PlaybackOperationError::content("missing_media", "resolved media path is missing", true),
    );

    assert!(state.history_log.entries.is_empty());
    assert_eq!(state.playback_state.as_str(), "quiet_error_hold");
    assert!(!outcome.persist_history);
    assert!(outcome.response_line.contains("ERR"));
}

#[test]
fn enrich_current_track_updates_recent_history_metadata() {
    let mut state = RuntimeState::new();
    state.apply_command(PlaybackCommand::Play("track-a".to_string()));

    let resolved = resolved_track(
        "track-a",
        "media-vol-1",
        "albums/track-a.flac",
        Some("Track A".to_string()),
        Some(123_000),
        "flac",
    );

    assert!(state.enrich_current_track(&resolved));
    assert_eq!(state.history_log.entries.len(), 1);
    assert_eq!(state.history_log.entries[0].track_uid, "track-a");
    assert_eq!(state.history_log.entries[0].volume_uuid, "media-vol-1");
    assert_eq!(
        state.history_log.entries[0].relative_path,
        "albums/track-a.flac"
    );
    assert_eq!(
        state.history_log.entries[0].title,
        Some("Track A".to_string())
    );
    assert_eq!(state.history_log.entries[0].duration_ms, Some(123_000));
}

#[test]
fn failed_play_after_enrich_rolls_back_recent_history_entry() {
    let mut state = RuntimeState::new();
    let mut outcome = state.apply_command(PlaybackCommand::Play("track-a".to_string()));

    assert!(state.enrich_current_track(&resolved_track(
        "track-a",
        "media-vol-1",
        "albums/track-a.flac",
        Some("Track A".to_string()),
        Some(123_000),
        "flac",
    )));
    assert_eq!(state.history_log.entries[0].volume_uuid, "media-vol-1");

    apply_operation_failure(
        &mut state,
        &mut outcome,
        Some("track-a".to_string()),
        PlaybackOperationError::content(
            "track_file_missing",
            "resolved media path is missing",
            true,
        ),
    );

    assert!(state.history_log.entries.is_empty());
    assert_eq!(state.playback_state.as_str(), "quiet_error_hold");
    assert!(!outcome.persist_history);
}

#[test]
fn output_failure_stops_instead_of_entering_quiet_error_hold() {
    let mut state = RuntimeState::new();
    let mut outcome = state.apply_command(PlaybackCommand::Play("track-a".to_string()));

    apply_operation_failure(
        &mut state,
        &mut outcome,
        Some("track-a".to_string()),
        PlaybackOperationError::output("dsd_transport_unavailable", "Native DSD / DoP unavailable"),
    );

    assert!(state.history_log.entries.is_empty());
    assert_eq!(state.playback_state.as_str(), "stopped");
    assert_eq!(state.current_track.as_deref(), Some("track-a"));
    assert!(!outcome.persist_history);
}

#[test]
fn playback_track_id_for_preflight_skips_paused_resume() {
    let mut state = RuntimeState::new();
    state.apply_command(PlaybackCommand::Play("track-a".to_string()));
    state.playback_state = PlaybackState::Paused;
    state.current_track = Some("track-a".to_string());

    assert_eq!(
        playback_track_id_for_preflight(&state, &PlaybackCommand::Play("track-a".to_string())),
        None
    );
    assert_eq!(
        playback_track_id_for_preflight(&state, &PlaybackCommand::Play("track-b".to_string())),
        Some("track-b".to_string())
    );
}

#[test]
fn queue_append_selects_first_track_without_starting_playback() {
    let mut state = RuntimeState::new();

    let outcome = state.apply_command(PlaybackCommand::QueueAppend("track-a".to_string()));

    assert_eq!(state.playback_state.as_str(), "stopped");
    assert_eq!(state.current_track.as_deref(), Some("track-a"));
    assert_eq!(state.snapshot.current_order_index, Some(0));
    assert!(outcome.events.is_empty());
    assert!(outcome.persist_queue);
    assert!(!outcome.persist_history);
}

fn play_order_tracks(state: &RuntimeState) -> Vec<String> {
    state
        .snapshot
        .play_order
        .iter()
        .map(|queue_entry_id| {
            state
                .snapshot
                .tracks
                .iter()
                .find(|entry| &entry.queue_entry_id == queue_entry_id)
                .map(|entry| entry.track_uid.clone())
                .unwrap()
        })
        .collect::<Vec<_>>()
}

#[test]
fn queue_insert_next_places_track_after_current_pointer() {
    let mut state = RuntimeState::new();
    state.apply_command(PlaybackCommand::Play("track-a".to_string()));
    state.apply_command(PlaybackCommand::QueueAppend("track-c".to_string()));

    state.apply_command(PlaybackCommand::QueueInsertNext("track-b".to_string()));

    assert_eq!(play_order_tracks(&state), vec!["track-a", "track-b", "track-c"]);
    assert_eq!(state.current_track.as_deref(), Some("track-a"));
    assert_eq!(state.snapshot.current_order_index, Some(0));
}

#[test]
fn queue_snapshot_command_exposes_order_and_current_marker() {
    let mut state = RuntimeState::new();
    state.apply_command(PlaybackCommand::Play("track-a".to_string()));
    state.apply_command(PlaybackCommand::QueueAppend("track-c".to_string()));
    state.apply_command(PlaybackCommand::QueueInsertNext("track-b".to_string()));

    let outcome = state.apply_command(PlaybackCommand::QueueSnapshot);
    let payload = parse_queue_snapshot_line(&outcome.response_line).unwrap();
    let snapshot: serde_json::Value = serde_json::from_str(&payload).unwrap();
    let entries = snapshot["entries"].as_array().unwrap();

    assert_eq!(snapshot["current_order_index"].as_u64(), Some(0));
    assert_eq!(entries.len(), 3);
    assert_eq!(entries[0]["track_uid"], "track-a");
    assert_eq!(entries[1]["track_uid"], "track-b");
    assert_eq!(entries[2]["track_uid"], "track-c");
    assert_eq!(entries[0]["is_current"], true);
    assert_eq!(entries[1]["is_current"], false);
}

#[test]
fn snapshot_lines_carry_exact_json_payloads() {
    let mut state = RuntimeState::new();
    let outcome = state.apply_command_at(PlaybackCommand::QueueSnapshot, NOW, 0);
    assert_eq!(
        outcome.response_line,
        "OK\tkind=queue_snapshot\tpayload={\"order_mode\":\"sequential\",\"repeat_mode\":\"off\",\"current_order_index\":null,\"entries\":[]}"
    );
    assert!(outcome.events.is_empty());

    state.apply_command_at(PlaybackCommand::Play("a \"b\"".to_string()), NOW, 0);
    let outcome = state.apply_command_at(PlaybackCommand::QueueSnapshot, NOW, 0);
    assert_eq!(
        parse_queue_snapshot_line(&outcome.response_line).unwrap(),
        "{\"order_mode\":\"sequential\",\"repeat_mode\":\"off\",\"current_order_index\":0,\"entries\":[{\"order_index\":0,\"queue_entry_id\":\"q1\",\"track_uid\":\"a \\\"b\\\"\",\"volume_uuid\":\"manual\",\"relative_path\":\"a \\\"b\\\"\",\"title\":\"a \\\"b\\\"\",\"duration_ms\":null,\"is_current\":true}]}"
    );

    let outcome = state.apply_command_at(PlaybackCommand::HistorySnapshot, NOW, 0);
    let payload = parse_history_snapshot_line(&outcome.response_line).unwrap();
    let history: serde_json::Value = serde_json::from_str(&payload).unwrap();
    assert_eq!(history["entries"][0]["played_at"].as_u64(), Some(NOW));
    assert_eq!(history["entries"][0]["track_uid"], "a \"b\"");
}

#[test]
fn queue_remove_before_current_shifts_pointer_without_switching_track() {
    let mut state = RuntimeState::new();
    state.apply_command(PlaybackCommand::Play("track-a".to_string()));
    state.apply_command(PlaybackCommand::QueueAppend("track-b".to_string()));
    state.apply_command(PlaybackCommand::QueueAppend("track-c".to_string()));
    state.apply_command(PlaybackCommand::Next);

    let remove_id = queue_entry_id_by_track(&state, "track-a");
    let outcome = state.apply_command(PlaybackCommand::QueueRemove(remove_id));

    assert_eq!(state.snapshot.current_order_index, Some(0));
    assert_eq!(state.current_track.as_deref(), Some("track-b"));
    assert!(outcome.events.is_empty());
    assert!(outcome.persist_queue);
}

#[test]
fn queue_remove_current_active_track_advances_and_records_history() {
    let mut state = RuntimeState::new();
    state.apply_command(PlaybackCommand::Play("track-a".to_string()));
    state.apply_command(PlaybackCommand::QueueAppend("track-b".to_string()));

    let remove_id = queue_entry_id_by_track(&state, "track-a");
    let outcome = state.apply_command(PlaybackCommand::QueueRemove(remove_id));

    assert_eq!(state.playback_state.as_str(), "quiet_active");
    assert_eq!(state.current_track.as_deref(), Some("track-b"));
    assert!(outcome.persist_history);
    assert_eq!(state.history_log.entries[0].track_uid, "track-b");
    assert_eq!(
        outcome.events,
        vec![PlaybackEvent::TrackChanged {
            track_id: "track-b".to_string()
        }]
    );
}

#[test]
fn queue_clear_from_active_state_stops_and_empties_queue() {
    let mut state = RuntimeState::new();
    state.apply_command(PlaybackCommand::Play("track-a".to_string()));
    state.apply_command(PlaybackCommand::QueueAppend("track-b".to_string()));

    let outcome = state.apply_command(PlaybackCommand::QueueClear);

    assert_eq!(state.playback_state.as_str(), "idle");
    assert!(state.snapshot.play_order.is_empty());
    assert!(state.snapshot.tracks.is_empty());
    assert_eq!(
        outcome.events,
        vec![PlaybackEvent::PlaybackStopped {
            reason: "queue_cleared".to_string()
        }]
    );
}

#[test]
fn queue_replace_stops_active_playback_and_selects_first_replacement() {
    let mut state = RuntimeState::new();
    state.apply_command(PlaybackCommand::Play("track-a".to_string()));

    let outcome = state.apply_command(PlaybackCommand::QueueReplace(vec![
        "track-x".to_string(),
        "track-y".to_string(),
    ]));

    assert_eq!(state.playback_state.as_str(), "stopped");
    assert_eq!(state.current_track.as_deref(), Some("track-x"));
    assert_eq!(state.snapshot.play_order.len(), 2);
    assert_eq!(
        outcome.events,
        vec![PlaybackEvent::PlaybackStopped {
            reason: "queue_replaced".to_string()
        }]
    );
}

#[test]
fn queue_play_replaces_queue_and_starts_first_track() {
    let mut state = RuntimeState::new();
    state.apply_command(PlaybackCommand::Play("track-a".to_string()));

    let outcome = state.apply_command(PlaybackCommand::QueuePlay(vec![
        "track-x".to_string(),
        "track-y".to_string(),
    ]));

    assert_eq!(state.playback_state.as_str(), "quiet_active");
    assert_eq!(state.current_track.as_deref(), Some("track-x"));
    assert_eq!(state.snapshot.play_order.len(), 2);
    assert_eq!(state.snapshot.current_order_index, Some(0));
    assert_eq!(state.history_log.entries[0].track_uid, "track-x");
    assert_eq!(
        outcome.events,
        vec![
            PlaybackEvent::PlayRequestAccepted {
                track_id: "track-x".to_string()
            },
            PlaybackEvent::PlaybackStarted {
                track_id: "track-x".to_string()
            }
        ]
    );
}

#[test]
fn set_order_mode_rebuilds_play_order_without_changing_current_track() {
    let mut state = RuntimeState::new();
    state.apply_command(PlaybackCommand::QueuePlay(vec![
        "track-a".to_string(),
        "track-b".to_string(),
        "track-c".to_string(),
    ]));
    state.apply_command(PlaybackCommand::Next);

    let outcome = state.apply_command(PlaybackCommand::SetOrderMode("shuffle".to_string()));

    assert_eq!(state.snapshot.order_mode, OrderMode::Shuffle);
    assert_eq!(state.current_track.as_deref(), Some("track-b"));
    assert_eq!(state.snapshot.current_order_index, Some(0));
    assert_eq!(
        resolve_track_uid(&state.snapshot, Some(0)).as_deref(),
        Some("track-b")
    );
    assert!(outcome.persist_queue);
    assert!(outcome.events.is_empty());

    state.apply_command(PlaybackCommand::SetOrderMode("sequential".to_string()));

    assert_eq!(state.snapshot.order_mode, OrderMode::Sequential);
    assert_eq!(state.snapshot.current_order_index, Some(1));
    assert_eq!(state.current_track.as_deref(), Some("track-b"));
    assert_eq!(play_order_tracks(&state), vec!["track-a", "track-b", "track-c"]);
}

#[test]
fn set_repeat_mode_updates_queue_state_only() {
    let mut state = RuntimeState::new();
    state.apply_command(PlaybackCommand::QueuePlay(vec![
        "track-a".to_string(),
        "track-b".to_string(),
    ]));

    let outcome = state.apply_command(PlaybackCommand::SetRepeatMode("all".to_string()));

    assert_eq!(state.snapshot.repeat_mode, RepeatMode::All);
    assert_eq!(state.current_track.as_deref(), Some("track-a"));
    assert_eq!(state.playback_state, PlaybackState::QuietActive);
    assert!(outcome.persist_queue);
    assert!(!outcome.persist_history);
    assert!(outcome.events.is_empty());
}

#[test]
fn play_history_replaces_current_entry_and_preserves_following_queue() {
    let mut state = RuntimeState::new();
    state.apply_command(PlaybackCommand::QueuePlay(vec![
        "track-a".to_string(),
        "track-b".to_string(),
        "track-c".to_string(),
    ]));
    state.apply_command(PlaybackCommand::Next);
    state.snapshot.order_mode = OrderMode::Shuffle;
    state.snapshot.repeat_mode = RepeatMode::All;
    let play_order_before = state.snapshot.play_order.clone();
    let current_queue_entry_id = play_order_before[1].clone();
    let next_queue_entry_id = play_order_before[2].clone();
    let queue_len_before = state.snapshot.tracks.len();

    let outcome = state.apply_command(PlaybackCommand::PlayHistory("history-track".to_string()));

    assert_eq!(state.playback_state.as_str(), "quiet_active");
    assert_eq!(state.current_track.as_deref(), Some("history-track"));
    assert_eq!(state.snapshot.current_order_index, Some(1));
    assert_eq!(state.snapshot.play_order, play_order_before);
    assert_eq!(state.snapshot.tracks.len(), queue_len_before);
    assert_eq!(state.snapshot.order_mode, OrderMode::Shuffle);
    assert_eq!(state.snapshot.repeat_mode, RepeatMode::All);
    assert_eq!(
        state
            .snapshot
            .tracks
            .iter()
            .find(|entry| entry.queue_entry_id == current_queue_entry_id)
            .map(|entry| entry.track_uid.as_str()),
        Some("history-track")
    );
    assert_eq!(
        state
            .snapshot
            .tracks
            .iter()
            .find(|entry| entry.queue_entry_id == next_queue_entry_id)
            .map(|entry| entry.track_uid.as_str()),
        Some("track-c")
    );
    assert_eq!(state.history_log.entries[0].track_uid, "history-track");
    assert!(outcome.persist_queue);
    assert!(outcome.persist_history);
    assert_eq!(
        outcome.events,
        vec![
            PlaybackEvent::PlayRequestAccepted {
                track_id: "history-track".to_string()
            },
            PlaybackEvent::PlaybackStarted {
                track_id: "history-track".to_string()
            }
        ]
    );
}

#[test]
fn finished_track_advances_to_next_entry_and_records_history() {
    let mut state = RuntimeState::new();
    state.apply_command(PlaybackCommand::Play("track-a".to_string()));
    state.apply_command(PlaybackCommand::QueueAppend("track-b".to_string()));

    let action = state.finish_track_output("track-a", NOW);

    assert_eq!(
        action,
        TrackFinishAction::Start {
            track_id: "track-b".to_string()
        }
    );
    assert_eq!(state.playback_state.as_str(), "quiet_active");
    assert_eq!(state.current_track.as_deref(), Some("track-b"));
    assert_eq!(state.snapshot.current_order_index, Some(1));
    assert_eq!(state.history_log.entries[0].track_uid, "track-b");
}

#[test]
fn finished_track_stops_at_queue_end_when_repeat_is_off() {
    let mut state = RuntimeState::new();
    state.apply_command(PlaybackCommand::Play("track-a".to_string()));

    let action = state.finish_track_output("track-a", NOW);

    assert_eq!(
        action,
        TrackFinishAction::Stop {
            reason: "track_finished".to_string()
        }
    );
    assert_eq!(state.playback_state.as_str(), "stopped");
    assert_eq!(state.current_track.as_deref(), Some("track-a"));
}

#[test]
fn finished_track_wraps_to_queue_start_when_repeat_is_all() {
    let mut state = RuntimeState::new();
    state.apply_command(PlaybackCommand::Play("track-a".to_string()));
    state.apply_command(PlaybackCommand::QueueAppend("track-b".to_string()));
    state.apply_command(PlaybackCommand::Next);
    state.snapshot.repeat_mode = RepeatMode::All;

    let action = state.finish_track_output("track-b", NOW);

    assert_eq!(
        action,
        TrackFinishAction::Start {
            track_id: "track-a".to_string()
        }
    );
    assert_eq!(state.playback_state.as_str(), "quiet_active");
    assert_eq!(state.current_track.as_deref(), Some("track-a"));
    assert_eq!(state.snapshot.current_order_index, Some(0));
}

#[test]
fn parse_dsd_output_policy_accepts_native_dsd_dop_and_legacy_aliases() {
    assert_eq!(
        parse_dsd_output_policy_from_config("dsd_output_policy = \"native_dsd\""),
        Some(DsdOutputPolicy::NativeDsd)
    );
    assert_eq!(
        parse_dsd_output_policy_from_config("dsd_output_policy = \"native_dop\""),
        Some(DsdOutputPolicy::NativeDsd)
    );
    assert_eq!(
        parse_dsd_output_policy_from_config("dsd_output_policy = \"dop\""),
        Some(DsdOutputPolicy::Dop)
    );
    assert_eq!(
        parse_dsd_output_policy_from_config("dsd_output_policy = \"strict_native\""),
        Some(DsdOutputPolicy::NativeDsd)
    );
}

#[test]
fn parse_alsa_stream_capabilities_collects_unique_formats_and_rates() {
    let parsed = parse_alsa_stream_capabilities(
        r#"
Playback:
  Interface 2
    Altset 1
    Format: S16_LE
    Rates: 48000, 44100
  Interface 2
    Altset 2
    Format: DSD_U32_LE
    Rates: 88200
  Interface 2
    Altset 3
    Format: S32_LE
    Rates: 176400, 352800
    "#,
    );

    assert_eq!(
        parsed.formats,
        vec![
            "S16_LE".to_string(),
            "DSD_U32_LE".to_string(),
            "S32_LE".to_string()
        ]
    );
    assert_eq!(parsed.rates, vec![48000, 44100, 88200, 176400, 352800]);
}

#[test]
fn usb_audio_output_devices_from_cards_selects_usb_dac() {
    let devices = usb_audio_output_devices_from_cards(
        r#" 0 [rockchiphdmi   ]: rockchip_hdmi - rockchip,hdmi
                      rockchip,hdmi
 1 [realtekrt5651co]: realtek_rt5651- - realtek,rt5651-codec
                      realtek,rt5651-codec
 2 [iBassoDC04Pro  ]: USB-Audio - iBasso-DC04-Pro
                      ibasso iBasso-DC04-Pro at usb-xhci-hcd.0.auto-1, high speed
"#,
    );

    assert_eq!(devices.len(), 1);
    assert_eq!(devices[0].card_index, 2);
    assert_eq!(devices[0].card_id, "iBassoDC04Pro");
    assert_eq!(devices[0].name, "ibasso iBasso-DC04-Pro");
    assert_eq!(devices[0].alsa_device, "plughw:CARD=iBassoDC04Pro,DEV=0");
}

#[test]
fn select_unique_usb_audio_output_reports_no_dac() {
    let err = select_unique_usb_audio_output(
        r#" 0 [rockchiphdmi   ]: rockchip_hdmi - rockchip,hdmi
                      rockchip,hdmi
"#,
    )
    .expect_err("no USB DAC should be rejected");

    assert_eq!(err.code, "audio_output_unavailable");
}

#[test]
fn select_unique_usb_audio_output_reports_multiple_dacs() {
    let err = select_unique_usb_audio_output(
        r#" 1 [Audio          ]: USB-Audio - USB Audio
                      DAC One at usb-xhci-hcd.1.auto-1, high speed
 2 [Device         ]: USB-Audio - USB Audio Device
                      DAC Two at usb-xhci-hcd.1.auto-2, full speed
"#,
    )
    .expect_err("multiple USB DACs should be explicit");

    assert_eq!(err.code, "audio_output_ambiguous");
    assert!(err.reason.contains("DAC One"));
    assert!(err.reason.contains("DAC Two"));
}

#[test]
fn select_native_dsd_plan_prefers_native_transport() {
    let source = DsdSourceInfo {
        channels: 2,
        dsd_rate_hz: 2_822_400,
    };
    let capabilities = AlsaStreamCapabilities {
        formats: vec!["DSD_U32_LE".to_string(), "S32_LE".to_string()],
        rates: vec![88_200, 176_400],
    };

    let plan = select_native_dsd_plan(source, "plughw:CARD=Audio,DEV=0", &capabilities)
        .expect("native plan should exist");

    assert_eq!(plan.device, "hw:CARD=Audio,DEV=0");
    assert_eq!(plan.transport, DsdTransport::Native(AlsaDsdFormat::U32Le));
    assert_eq!(plan.sample_rate, 88_200);
}

#[test]
fn select_dop_plan_accepts_pcm_carrier_when_native_missing() {
    let source = DsdSourceInfo {
        channels: 2,
        dsd_rate_hz: 5_644_800,
    };
    let capabilities = AlsaStreamCapabilities {
        formats: vec!["S24_3LE".to_string()],
        rates: vec![352_800],
    };

    let plan = select_dop_plan(source, "plughw:CARD=Audio,DEV=0", &capabilities)
        .expect("dop plan should exist");

    assert_eq!(plan.device, "hw:CARD=Audio,DEV=0");
    assert_eq!(plan.transport, DsdTransport::Dop(DopPcmFormat::S24_3Le));
    assert_eq!(plan.sample_rate, 352_800);
}

#[test]
fn select_pcm_fallback_plan_uses_s16le_44k1() {
    let source = DsdSourceInfo {
        channels: 2,
        dsd_rate_hz: 2_822_400,
    };
    let capabilities = AlsaStreamCapabilities {
        formats: vec!["S16_LE".to_string(), "S24_3LE".to_string()],
        rates: vec![44_100, 48_000],
    };

    let plan = select_pcm_fallback_plan(source, "plughw:CARD=Audio,DEV=0", &capabilities)
        .expect("pcm fallback plan should exist");

    assert_eq!(plan.device, "hw:CARD=Audio,DEV=0");
    assert_eq!(plan.transport, DsdTransport::Pcm);
    assert_eq!(plan.sample_rate, 44_100);
}

#[test]
fn native_and_dop_packers_emit_expected_bytes() {
    let mut native = Vec::new();
    AlsaDsdFormat::U32Le.push_dsd_byte(0xA5, &mut native);
    assert_eq!(native, vec![0xA5, 0x00, 0x00, 0x00]);

    let mut dop = Vec::new();
    DopPcmFormat::S24_3Le.push_dop_sample(0x12, 0x34, 0x05, &mut dop);
    assert_eq!(dop, vec![0x12, 0x34, 0x05]);
    dop.clear();
    DopPcmFormat::S32Le.push_dop_sample(0x12, 0x34, 0xFA, &mut dop);
    assert_eq!(dop, vec![0x12, 0x34, 0xFA, 0x00]);
}

#[test]
fn history_log_is_capped_to_latest_limit() {
    let mut state = RuntimeState::new();

    for index in 0..(HISTORY_LIMIT + 5) {
        state.apply_command(PlaybackCommand::Play(format!("track-{index}")));
    }

    assert_eq!(state.history_log.entries.len(), HISTORY_LIMIT);
    assert_eq!(state.history_log.entries[0].track_uid, "track-104");
    assert_eq!(
        state.history_log.entries[HISTORY_LIMIT - 1].track_uid,
        "track-5"
    );
}

fn shuffled_snapshot() -> QueueSnapshot {
    QueueSnapshot {
        order_mode: OrderMode::Shuffle,
        repeat_mode: RepeatMode::All,
        current_order_index: Some(0),
        play_order: vec!["q2".to_string(), "q1".to_string()],
        tracks: vec![queue_entry("q1", "track-a"), queue_entry("q2", "track-b")],
    }
}

fn queue_entry(queue_entry_id: &str, track_uid: &str) -> QueueEntry {
    QueueEntry {
        queue_entry_id: queue_entry_id.to_string(),
        track_uid: track_uid.to_string(),
        volume_uuid: "vol-1".to_string(),
        relative_path: track_uid.to_string(),
        title: Some(track_uid.to_string()),
        duration_ms: None,
    }
}

fn resolved_track(
    track_uid: &str,
    volume_uuid: &str,
    relative_path: &str,
    title: Option<String>,
    duration_ms: Option<u64>,
    format: &str,
) -> ResolvedTrack {
    ResolvedTrack {
        track_uid: track_uid.to_string(),
        volume_uuid: volume_uuid.to_string(),
        relative_path: relative_path.to_string(),
        title,
        duration_ms,
        format: format.to_string(),
        absolute_path: format!("/tmp/{track_uid}.{format}"),
    }
}

fn queue_entry_id_by_track(state: &RuntimeState, track_uid: &str) -> String {
    state
        .snapshot
        .tracks
        .iter()
        .find(|entry| entry.track_uid == track_uid)
        .map(|entry| entry.queue_entry_id.clone())
        .unwrap()
}
