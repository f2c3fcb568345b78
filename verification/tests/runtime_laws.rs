use lumelo::alsa::raw_dsd_device;
use lumelo::protocol::{PlaybackCommand, PlaybackState};
use lumelo::runtime::RuntimeState;
use lumelo::session::dedupe_units;

const NOW: u64 = 1_700_000_000;

fn three_tracks() -> Vec<String> {
    vec!["a".to_string(), "b".to_string(), "c".to_string()]
}

#[test]
fn pause_then_play_same_track_resumes() {
    let mut state = RuntimeState::new();
    state.apply_command_at(PlaybackCommand::QueuePlay(three_tracks()), NOW, 7);
    state.apply_command_at(PlaybackCommand::Pause, NOW, 7);
    assert_eq!(state.playback_state, PlaybackState::Paused);
    let index = state.snapshot.current_order_index;
    state.apply_command_at(PlaybackCommand::Play("a".to_string()), NOW + 1, 7);
    assert_eq!(state.playback_state, PlaybackState::QuietActive);
    assert_eq!(state.current_track.as_deref(), Some("a"));
    assert_eq!(state.snapshot.current_order_index, index);
    assert_eq!(state.snapshot.tracks.len(), 3);
}

#[test]
fn shuffle_keeps_every_entry_once() {
    for nanos in [0u64, 1, 12_345, 987_654_321, u64::MAX] {
        let mut state = RuntimeState::new();
        state.apply_command_at(PlaybackCommand::QueuePlay(three_tracks()), NOW, nanos);
        state.apply_command_at(PlaybackCommand::Next, NOW, nanos);
        state.apply_command_at(PlaybackCommand::SetOrderMode("shuffle".to_string()), NOW, nanos);
        let mut order = state.snapshot.play_order.clone();
        order.sort();
        let mut ids: Vec<String> = state
            .snapshot
            .tracks
            .iter()
            .map(|entry| entry.queue_entry_id.clone())
            .collect();
        ids.sort();
        assert_eq!(order, ids);
        assert_eq!(state.current_track.as_deref(), Some("b"));
    }
}

#[test]
fn stop_then_next_moves_from_kept_position() {
    let mut state = RuntimeState::new();
    state.apply_command_at(PlaybackCommand::QueuePlay(three_tracks()), NOW, 0);
    state.apply_command_at(PlaybackCommand::Next, NOW, 0);
    state.apply_command_at(PlaybackCommand::Stop, NOW, 0);
    assert_eq!(state.snapshot.current_order_index, Some(1));
    state.apply_command_at(PlaybackCommand::Next, NOW, 0);
    assert_eq!(state.current_track.as_deref(), Some("c"));
}

#[test]
fn fresh_and_working_states_can_take_commands() {
    let mut state = RuntimeState::new();
    assert!(state.can_take(&PlaybackCommand::Ping));
    assert!(state.can_take(&PlaybackCommand::QueuePlay(three_tracks())));
    state.apply_command_at(PlaybackCommand::QueuePlay(three_tracks()), NOW, 0);
    state.apply_command_at(PlaybackCommand::QueueRemove("q2".to_string()), NOW, 0);
    assert!(state.can_take(&PlaybackCommand::Next));
}

#[test]
fn unknown_queue_entry_in_play_order_blocks_changing_commands() {
    let mut state = RuntimeState::new();
    state.apply_command_at(PlaybackCommand::QueuePlay(three_tracks()), NOW, 0);
    state.snapshot.play_order.push("ghost".to_string());
    assert!(!state.can_take(&PlaybackCommand::Next));
    assert!(!state.can_take(&PlaybackCommand::Play("a".to_string())));
    assert!(state.can_take(&PlaybackCommand::Ping));
    assert!(state.can_take(&PlaybackCommand::Status));
    assert!(state.can_take(&PlaybackCommand::QueueSnapshot));
}

#[test]
fn raw_dsd_device_is_idempotent() {
    for device in ["plughw:CARD=DAC,DEV=0", "hw:1,0", "default", "plughw:2"] {
        let once = raw_dsd_device(device);
        assert_eq!(raw_dsd_device(&once), once);
    }
    assert_eq!(raw_dsd_device("plughw:CARD=DAC,DEV=0"), "hw:CARD=DAC,DEV=0");
    assert_eq!(raw_dsd_device("default"), "default");
}

#[test]
fn dedupe_units_keeps_first_occurrence() {
    let units: Vec<String> = ["a.service", "b.service", "a.service", "c.service", "b.service"]
        .iter()
        .map(|unit| unit.to_string())
        .collect();
    assert_eq!(dedupe_units(units), vec!["a.service", "b.service", "c.service"]);
}

#[test]
fn from_saved_keeps_history_when_queue_is_empty() {
    let mut earlier = RuntimeState::new();
    earlier.apply_command_at(PlaybackCommand::Play("a".to_string()), NOW, 0);
    let history = earlier.history_log;
    let empty = RuntimeState::new().snapshot;
    let state = RuntimeState::from_saved(empty, history).unwrap();
    assert_eq!(state.playback_state, PlaybackState::Idle);
    assert_eq!(state.history_log.entries.len(), 1);
    assert!(state.snapshot.tracks.is_empty());
}

#[test]
fn from_saved_restores_stopped_queue() {
    let mut earlier = RuntimeState::new();
    earlier.apply_command_at(PlaybackCommand::QueuePlay(three_tracks()), NOW, 0);
    earlier.apply_command_at(PlaybackCommand::Next, NOW, 0);
    let state = RuntimeState::from_saved(earlier.snapshot, earlier.history_log).unwrap();
    assert_eq!(state.playback_state, PlaybackState::Stopped);
    assert_eq!(state.current_track.as_deref(), Some("b"));
}
