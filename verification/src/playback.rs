//! What happens around a command: restoring saved state, a finished track,
//! what was learned of a resolved track, and failures of the output side.

use vstd::prelude::*;
use crate::media_model::{
    entries, ids, opt_chars, EntryModel, HistoryLog, PlayModel, QueueEntry, QueueSnapshot,
};
use crate::protocol::{
    events_view, format_error_line, EventModel, PlaybackCommand, PlaybackEvent,
    PlaybackFailureClass, PlaybackState,
};
use crate::queue::{
    copy_opt, copy_string, find_entry, find_entry_index, lemma_find_entry_found,
    lemma_normalized_consistent, max_q, next_queue_entry_id, normalize_snapshot, normalized,
    resolve_entry, resolve_queue_entry, resolve_uid, same_text, track_ids,
};
use crate::runtime::{consistent, CommandOutcome, RuntimeState};
use crate::runtime_model::{
    action_for, current_entry_id, enrich_spec, failure_spec, finish_spec, next_after_finish,
    preflight_track, rollback_spec, sync_history, ActionModel, FinishModel, RuntimeModel,
    TrackModel,
};
use crate::text::{owned, push_str};

verus! {

/// A track found by the resolver: what the library knows of it and the file to play.
#[derive(Debug, PartialEq, Eq)]
pub struct ResolvedTrack {
    pub track_uid: String,
    pub volume_uuid: String,
    pub relative_path: String,
    pub title: Option<String>,
    pub duration_ms: Option<u64>,
    pub format: String,
    pub absolute_path: String,
}

impl View for ResolvedTrack {
    type V = TrackModel;

    open spec fn view(&self) -> TrackModel {
        TrackModel {
            track_uid: self.track_uid@,
            volume_uuid: self.volume_uuid@,
            relative_path: self.relative_path@,
            title: opt_chars(self.title),
            duration_ms: self.duration_ms,
        }
    }
}

/// Why playing a track failed.
#[derive(Debug, PartialEq, Eq)]
pub struct PlaybackOperationError {
    pub code: &'static str,
    pub reason: String,
    pub class: PlaybackFailureClass,
    pub recoverable: bool,
    pub keep_quiet: bool,
}

impl PlaybackOperationError {
    /// A failure of the content: recoverable, holding quiet mode when asked.
    pub fn content(code: &'static str, reason: &str, keep_quiet: bool) -> (r: Self)
        ensures
            r.code == code,
            r.reason@ == reason@,
            r.class == PlaybackFailureClass::Content,
            r.recoverable,
            r.keep_quiet == keep_quiet,
    {
        PlaybackOperationError {
            code,
            reason: owned(reason),
            class: PlaybackFailureClass::Content,
            recoverable: true,
            keep_quiet,
        }
    }

    /// A failure of the audio output: recoverable, never holding quiet mode.
    pub fn output(code: &'static str, reason: &str) -> (r: Self)
        ensures
            r.code == code,
            r.reason@ == reason@,
            r.class == PlaybackFailureClass::Output,
            r.recoverable,
            !r.keep_quiet,
    {
        PlaybackOperationError {
            code,
            reason: owned(reason),
            class: PlaybackFailureClass::Output,
            recoverable: true,
            keep_quiet: false,
        }
    }
}

/// What the output side does after a track finished.
#[derive(Debug, PartialEq, Eq)]
pub enum TrackFinishAction {
    Nothing,
    Stop { reason: String },
    Start { track_id: String },
}

impl View for TrackFinishAction {
    type V = FinishModel;

    open spec fn view(&self) -> FinishModel {
        match self {
            TrackFinishAction::Nothing => FinishModel::Nothing,
            TrackFinishAction::Stop { reason } => FinishModel::Stop(reason@),
            TrackFinishAction::Start { track_id } => FinishModel::Start(track_id@),
        }
    }
}

/// What the output side is asked to do after a command.
#[derive(Debug, PartialEq, Eq)]
pub enum OutputAction {
    Nothing,
    Start(String),
    Pause,
    Resume(String),
    Stop,
}

impl View for OutputAction {
    type V = ActionModel;

    open spec fn view(&self) -> ActionModel {
        match self {
            OutputAction::Nothing => ActionModel::Nothing,
            OutputAction::Start(t) => ActionModel::Start(t@),
            OutputAction::Pause => ActionModel::Pause,
            OutputAction::Resume(t) => ActionModel::Resume(t@),
            OutputAction::Stop => ActionModel::Stop,
        }
    }
}

/// The state restored from a saved queue and history: the queue made
/// consistent, stopped on its position (idle when empty), ids continuing
/// after the largest saved one.
pub open spec fn restored(q: crate::media_model::QueueModel, h: Seq<PlayModel>) -> RuntimeModel {
    let n = normalized(q);
    RuntimeModel {
        queue: n,
        history: h,
        state: if n.tracks.len() == 0 {
            PlaybackState::Idle
        } else {
            PlaybackState::Stopped
        },
        current_track: resolve_uid(n, n.current),
        last_command: None,
        next_id: (max_q(n.tracks) + 1) as u64,
    }
}

impl RuntimeState {
    /// The state restored from a saved queue and history. The restored queue is
    /// consistent whatever was saved.
    pub fn restore(snapshot: QueueSnapshot, history_log: HistoryLog) -> (r: Self)
        requires
            max_q(snapshot@.tracks) < u64::MAX,
        ensures
            r@ == restored(snapshot@, history_log@),
            consistent(r@.queue),
    {
        let ghost q = snapshot@;
        let snapshot = normalize_snapshot(snapshot);
        let playback_state = if snapshot.tracks.len() == 0 {
            PlaybackState::Idle
        } else {
            PlaybackState::Stopped
        };
        let current_track = crate::queue::resolve_track_uid(&snapshot, snapshot.current_order_index);
        let next = next_queue_entry_id(&snapshot);
        proof {
            assert forall|i: int| 0 <= i < snapshot@.order.len() implies track_ids(
                snapshot@.tracks,
            ).contains(#[trigger] snapshot@.order[i]) by {
                lemma_normalized_consistent(q, snapshot@.order[i]);
            }
            lemma_normalized_consistent(q, Seq::empty());
        }
        RuntimeState {
            snapshot,
            history_log,
            playback_state,
            current_track,
            last_command: None,
            next_queue_entry_id: next,
        }
    }

    /// The state the daemon starts in from what was saved: a fresh, idle state
    /// that keeps the saved history when the saved queue is empty, else the
    /// restored state; nothing when the saved queue entry numbers leave no
    /// room for another entry.
    pub fn from_saved(snapshot: QueueSnapshot, history_log: HistoryLog) -> (r: Option<Self>)
        ensures
            snapshot@.tracks.len() == 0 ==> (r matches Some(s) && s@ == (RuntimeModel {
                queue: crate::media_model::empty_queue(),
                history: history_log@,
                state: PlaybackState::Idle,
                current_track: None,
                last_command: None,
                next_id: 1,
            })),
            snapshot@.tracks.len() > 0 && max_q(snapshot@.tracks) < u64::MAX ==> (r matches Some(s) && s@
                == restored(snapshot@, history_log@)),
            snapshot@.tracks.len() > 0 && max_q(snapshot@.tracks) == u64::MAX ==> r is None,
    {
        if snapshot.tracks.len() == 0 {
            let mut state = RuntimeState::new();
            state.history_log = history_log;
            Some(state)
        } else if crate::queue::largest_queue_entry_number(&snapshot) == u64::MAX {
            None
        } else {
            Some(RuntimeState::restore(snapshot, history_log))
        }
    }

    /// The position played after the current track finishes.
    pub fn next_index_after_track_finish(&self) -> (r: Option<usize>)
        ensures
            r == next_after_finish(self@.queue),
    {
        let current = match self.snapshot.current_order_index {
            Some(i) => i,
            None => {
                return None;
            },
        };
        let len = self.snapshot.play_order.len();
        if len == 0 || current >= len {
            return None;
        }
        match self.snapshot.repeat_mode {
            crate::media_model::RepeatMode::Off => if current + 1 < len {
                Some(current + 1)
            } else {
                None
            },
            crate::media_model::RepeatMode::One => Some(current),
            crate::media_model::RepeatMode::All => Some((current + 1) % len),
        }
    }

    /// The output finished playing `track_id`: moves on by the repeat mode and
    /// records the next track, or stops at the end of the queue.
    pub fn finish_track_output(&mut self, track_id: &str, now: u64) -> (r: TrackFinishAction)
        ensures
            (final(self)@, r@) == finish_spec(old(self)@, track_id@, now),
    {
        let is_current = match &self.current_track {
            Some(c) => same_text(c.as_str(), track_id),
            None => false,
        };
        if !is_current || self.playback_state != PlaybackState::QuietActive {
            return TrackFinishAction::Nothing;
        }
        match self.next_index_after_track_finish() {
            Some(n) => {
                self.snapshot.current_order_index = Some(n);
                match self.resolved_current_track() {
                    None => {
                        self.playback_state = PlaybackState::Stopped;
                        self.current_track = None;
                        let mut last = owned("finished:");
                        push_str(&mut last, track_id);
                        push_str(&mut last, ":missing_next");
                        self.last_command = Some(last);
                        TrackFinishAction::Stop { reason: owned("track_finished") }
                    },
                    Some(next_track) => {
                        self.current_track = Some(copy_string(&next_track));
                        self.playback_state = PlaybackState::QuietActive;
                        let mut last = owned("auto_next:");
                        push_str(&mut last, next_track.as_str());
                        self.last_command = Some(last);
                        self.record_current_track_history(now);
                        TrackFinishAction::Start { track_id: next_track }
                    },
                }
            },
            None => {
                self.playback_state = PlaybackState::Stopped;
                let mut last = owned("finished:");
                push_str(&mut last, track_id);
                self.last_command = Some(last);
                TrackFinishAction::Stop { reason: owned("track_finished") }
            },
        }
    }

    /// Updates the most recent play with what was learned of its track, when
    /// it is a play of that track; whether anything changed.
    pub fn sync_recent_history_entry_from_track(&mut self, track: &ResolvedTrack) -> (r: bool)
        ensures
            final(self)@ == (RuntimeModel { history: sync_history(old(self)@.history, track@).0, ..old(self)@ }),
            r == (sync_history(old(self)@.history, track@).1),
    {
        if self.history_log.entries.len() == 0 {
            return false;
        }
        if !same_text(self.history_log.entries[0].track_uid.as_str(), track.track_uid.as_str()) {
            return false;
        }
        let ghost before = self@.history;
        let old_entry = &self.history_log.entries[0];
        let changed = !same_text(old_entry.volume_uuid.as_str(), track.volume_uuid.as_str())
            || !same_text(old_entry.relative_path.as_str(), track.relative_path.as_str())
            || !same_opt(&old_entry.title, &track.title) || old_entry.duration_ms != track.duration_ms;
        let updated = crate::media_model::HistoryEntry {
            played_at: old_entry.played_at,
            track_uid: copy_string(&old_entry.track_uid),
            volume_uuid: copy_string(&track.volume_uuid),
            relative_path: copy_string(&track.relative_path),
            title: copy_opt(&track.title),
            duration_ms: track.duration_ms,
        };
        self.history_log.entries.set(0, updated);
        assert(self@.history =~= sync_history(before, track@).0);
        changed
    }

    /// Updates the current entry with what was learned of its track, and the
    /// most recent play with it; whether the entry changed.
    pub fn enrich_current_track(&mut self, track: &ResolvedTrack) -> (r: bool)
        ensures
            (final(self)@, r) == enrich_spec(old(self)@, track@),
    {
        let id = match self.current_queue_entry_id() {
            Some(id) => id,
            None => {
                return false;
            },
        };
        let k = match find_entry_index(&self.snapshot.tracks, id.as_str()) {
            Some(k) => k,
            None => {
                return false;
            },
        };
        proof {
            lemma_find_entry_found(self@.queue.tracks, id@);
        }
        let ghost before = self@;
        let e = &self.snapshot.tracks[k];
        let changed = !same_text(e.track_uid.as_str(), track.track_uid.as_str())
            || !same_text(e.volume_uuid.as_str(), track.volume_uuid.as_str())
            || !same_text(e.relative_path.as_str(), track.relative_path.as_str())
            || !same_opt(&e.title, &track.title) || e.duration_ms != track.duration_ms;
        let updated = QueueEntry {
            queue_entry_id: copy_string(&e.queue_entry_id),
            track_uid: copy_string(&track.track_uid),
            volume_uuid: copy_string(&track.volume_uuid),
            relative_path: copy_string(&track.relative_path),
            title: copy_opt(&track.title),
            duration_ms: track.duration_ms,
        };
        self.snapshot.tracks.set(k, updated);
        assert(self@.queue.tracks =~= before.queue.tracks.update(k as int, updated@));
        let _ = self.sync_recent_history_entry_from_track(track);
        changed
    }

    /// Takes back the most recent play of `track_id` when it is a play of the
    /// current entry as it stands; whether it did.
    pub fn rollback_recent_history_for_track(&mut self, track_id: &str) -> (r: bool)
        ensures
            (final(self)@, r) == rollback_spec(old(self)@, track_id@),
    {
        if self.history_log.entries.len() == 0 {
            return false;
        }
        if !same_text(self.history_log.entries[0].track_uid.as_str(), track_id) {
            return false;
        }
        let current = match resolve_queue_entry(&self.snapshot, self.snapshot.current_order_index) {
            Some(e) => e,
            None => {
                return false;
            },
        };
        let first = &self.history_log.entries[0];
        if !same_text(first.volume_uuid.as_str(), current.volume_uuid.as_str()) || !same_text(
            first.relative_path.as_str(),
            current.relative_path.as_str(),
        ) || !same_opt(&first.title, &current.title) || first.duration_ms != current.duration_ms {
            return false;
        }
        let ghost before = self@.history;
        self.history_log.entries.remove(0);
        assert(self@.history =~= before.drop_first());
        true
    }

    /// Playing `track_id` failed: stops, or holds quiet mode for a content
    /// failure that asks for it; whether the state changed.
    pub fn apply_failure_state(&mut self, track_id: &str, err: &PlaybackOperationError) -> (r: bool)
        ensures
            (final(self)@, r) == failure_spec(old(self)@, track_id@, err.class, err.keep_quiet, err.reason@),
    {
        let is_current = match &self.current_track {
            Some(c) => same_text(c.as_str(), track_id),
            None => false,
        };
        if !is_current {
            return false;
        }
        if !(self.playback_state == PlaybackState::QuietActive || self.playback_state
            == PlaybackState::Paused) {
            return false;
        }
        self.playback_state = match err.class {
            PlaybackFailureClass::Output => PlaybackState::Stopped,
            PlaybackFailureClass::Content => if err.keep_quiet {
                PlaybackState::QuietErrorHold
            } else {
                PlaybackState::Stopped
            },
        };
        let mut last = owned("playback_failed:");
        push_str(&mut last, track_id);
        push_str(&mut last, ":");
        push_str(&mut last, err.reason.as_str());
        self.last_command = Some(last);
        true
    }
}

/// Whether two optional strings are equal.
fn same_opt(a: &Option<String>, b: &Option<String>) -> (r: bool)
    ensures
        r == (opt_chars(*a) == opt_chars(*b)),
{
    match (a, b) {
        (Some(x), Some(y)) => same_text(x.as_str(), y.as_str()),
        (None, None) => true,
        _ => false,
    }
}

/// The output action for a command's outcome: the first event that asks for one.
pub fn derive_output_action(state: &RuntimeState, outcome: &CommandOutcome) -> (r: OutputAction)
    ensures
        r@ == action_for(outcome@.events, state@.current_track),
{
    let ghost evs = outcome@.events;
    let mut i: usize = 0;
    assert(evs.skip(0) =~= evs);
    while i < outcome.events.len()
        invariant
            evs == outcome@.events,
            evs == events_view(outcome.events@),
            0 <= i <= outcome.events.len(),
            action_for(evs, state@.current_track) == action_for(evs.skip(i as int), state@.current_track),
        decreases outcome.events.len() - i,
    {
        let ghost rest = evs.skip(i as int);
        assert(rest[0] == evs[i as int]);
        assert(rest.drop_first() =~= evs.skip(i as int + 1));
        match &outcome.events[i] {
            PlaybackEvent::PlaybackStarted { track_id } => {
                return OutputAction::Start(copy_string(track_id));
            },
            PlaybackEvent::TrackChanged { track_id } => {
                return OutputAction::Start(copy_string(track_id));
            },
            PlaybackEvent::PlaybackPaused => {
                return OutputAction::Pause;
            },
            PlaybackEvent::PlaybackResumed => {
                match &state.current_track {
                    Some(t) => {
                        return OutputAction::Resume(copy_string(t));
                    },
                    None => {},
                }
            },
            PlaybackEvent::PlaybackStopped { .. } => {
                return OutputAction::Stop;
            },
            _ => {},
        }
        i = i + 1;
    }
    assert(evs.skip(outcome.events.len() as int) =~= Seq::<EventModel>::empty());
    OutputAction::Nothing
}

/// The track to check before a command plays it: none for a resume of the
/// paused track.
pub fn playback_track_id_for_preflight(state: &RuntimeState, command: &PlaybackCommand) -> (r: Option<String>)
    ensures
        opt_chars(r) == preflight_track(state@, command@),
{
    match command {
        PlaybackCommand::Play(t) => {
            let same = match &state.current_track {
                Some(c) => same_text(c.as_str(), t.as_str()),
                None => false,
            };
            if state.playback_state == PlaybackState::Paused && same {
                None
            } else {
                Some(copy_string(t))
            }
        },
        PlaybackCommand::PlayHistory(t) => Some(copy_string(t)),
        PlaybackCommand::QueuePlay(ts) => if ts.len() > 0 {
            Some(copy_string(&ts[0]))
        } else {
            None
        },
        _ => None,
    }
}

/// A command's output step failed: the state takes the failure for the track,
/// a play it recorded is taken back, and the outcome becomes the error with a
/// `PLAYBACK_FAILED` event and nothing recorded.
pub fn apply_operation_failure(
    state: &mut RuntimeState,
    outcome: &mut CommandOutcome,
    track_id: Option<String>,
    err: PlaybackOperationError,
)
    ensures
        ({
            let m1 = match track_id {
                Some(t) => {
                    let (a, _) = failure_spec(old(state)@, t@, err.class, err.keep_quiet, err.reason@);
                    if old(outcome).persist_history {
                        rollback_spec(a, t@).0
                    } else {
                        a
                    }
                },
                None => old(state)@,
            };
            final(state)@ == m1
        }),
        final(outcome)@.line == crate::protocol::error_line(err.code@, err.reason@),
        final(outcome)@.events == seq![
            EventModel::PlaybackFailed {
                reason: err.code@,
                class: err.class,
                recoverable: err.recoverable,
                keep_quiet: err.keep_quiet,
            },
        ],
        final(outcome)@.persist_queue == old(outcome)@.persist_queue,
        !final(outcome)@.persist_history,
{
    match &track_id {
        Some(t) => {
            let _ = state.apply_failure_state(t.as_str(), &err);
            if outcome.persist_history {
                let _ = state.rollback_recent_history_for_track(t.as_str());
            }
        },
        None => {},
    }
    outcome.response_line = format_error_line(err.code, err.reason.as_str());
    let mut events: Vec<PlaybackEvent> = Vec::new();
    events.push(
        PlaybackEvent::PlaybackFailed {
            reason: owned(err.code),
            class: err.class,
            recoverable: err.recoverable,
            keep_quiet: err.keep_quiet,
        },
    );
    assert(events_view(events@) =~= seq![
        EventModel::PlaybackFailed {
            reason: err.code@,
            class: err.class,
            recoverable: err.recoverable,
            keep_quiet: err.keep_quiet,
        },
    ]);
    outcome.events = events;
    outcome.persist_history = false;
}

} // verus!
