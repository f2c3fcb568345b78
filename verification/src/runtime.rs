//! The playback daemon's state and the commands that change it.

use vstd::prelude::*;
use crate::media_model::{
    entries, ids, opt_chars, EntryModel, HistoryEntry, HistoryLog, OrderMode, PlayModel,
    QueueEntry, QueueModel, QueueSnapshot, RepeatMode,
};
use crate::protocol::{
    events_view, format_ack_line, format_error_line, opt_as_str, opt_str, EventModel,
    PlaybackEvent, PlaybackState,
};
use crate::queue::{
    copy_entry, copy_opt, copy_string, find_entry, find_entry_index, lemma_find_entry_found,
    resolve_entry, resolve_queue_entry, resolve_track_uid, resolve_uid, track_ids,
};
use crate::runtime_model::{
    ack, active, add_entry, at, ensure_selected, entry_id, manual_entry, noted, outcome,
    play_of, push_one, record, refusal, resolved, with_queue, OutcomeModel,
    RuntimeModel, HISTORY_LIMIT,
};
use crate::snapshot::{HistorySnapshotView, QueueSnapshotView};
use crate::text::{append_chars, owned, push_str, u64_decimal};
use crate::runtime_model::{apply_spec, clear_spec, entry_view, entry_views_from, pause_spec};
use crate::protocol::{format_status_line, CommandModel, PlaybackCommand, PlaybackStatusSnapshot};
use crate::snapshot::{EntryViewModel, HistorySnapshotEntryView, QueueSnapshotEntryView};

verus! {

/// The daemon's state: the queue, the recent history, the playback state, the
/// current track, the last command handled, and the next queue entry number.
#[derive(Debug)]
pub struct RuntimeState {
    pub snapshot: QueueSnapshot,
    pub history_log: HistoryLog,
    pub playback_state: PlaybackState,
    pub current_track: Option<String>,
    pub last_command: Option<String>,
    pub next_queue_entry_id: u64,
}

impl View for RuntimeState {
    type V = RuntimeModel;

    open spec fn view(&self) -> RuntimeModel {
        RuntimeModel {
            queue: self.snapshot@,
            history: self.history_log@,
            state: self.playback_state,
            current_track: opt_chars(self.current_track),
            last_command: opt_chars(self.last_command),
            next_id: self.next_queue_entry_id,
        }
    }
}

/// What a command answers: the response line, the events to broadcast, and
/// what to save.
#[derive(Debug)]
pub struct CommandOutcome {
    pub response_line: String,
    pub events: Vec<PlaybackEvent>,
    pub persist_queue: bool,
    pub persist_history: bool,
}

impl View for CommandOutcome {
    type V = OutcomeModel;

    open spec fn view(&self) -> OutcomeModel {
        OutcomeModel {
            line: self.response_line@,
            events: events_view(self.events@),
            persist_queue: self.persist_queue,
            persist_history: self.persist_history,
        }
    }
}

/// Whether every play-order id names an entry and the position is inside the
/// play order: what a loaded queue is made to satisfy, and every command keeps.
pub open spec fn consistent(q: QueueModel) -> bool {
    &&& forall|i: int| 0 <= i < q.order.len() ==> track_ids(q.tracks).contains(#[trigger] q.order[i])
    &&& q.current matches Some(i) ==> i < q.order.len()
}

fn ack_of(action: &str, state: &RuntimeState) -> (r: String)
    ensures
        r@ == ack(action@, state@),
{
    format_ack_line(action, state.playback_state, opt_as_str(&state.current_track))
}

fn no_events() -> (r: Vec<PlaybackEvent>)
    ensures
        events_view(r@) == Seq::<EventModel>::empty(),
{
    let r: Vec<PlaybackEvent> = Vec::new();
    assert(events_view(r@) =~= Seq::<EventModel>::empty());
    r
}

fn one_event(e: PlaybackEvent) -> (r: Vec<PlaybackEvent>)
    ensures
        events_view(r@) == seq![e@],
{
    let mut r: Vec<PlaybackEvent> = Vec::new();
    r.push(e);
    assert(events_view(r@) =~= seq![e@]);
    r
}

fn two_events(a: PlaybackEvent, b: PlaybackEvent) -> (r: Vec<PlaybackEvent>)
    ensures
        events_view(r@) == seq![a@, b@],
{
    let mut r: Vec<PlaybackEvent> = Vec::new();
    r.push(a);
    r.push(b);
    assert(events_view(r@) =~= seq![a@, b@]);
    r
}

fn refused(code: &str, message: &str) -> (r: CommandOutcome)
    ensures
        r@ == refusal(code@, message@),
{
    CommandOutcome {
        response_line: format_error_line(code, message),
        events: no_events(),
        persist_queue: false,
        persist_history: false,
    }
}

/// `prefix` followed by `tail`.
fn joined(prefix: &str, tail: &str) -> (r: String)
    ensures
        r@ == prefix@ + tail@,
{
    let mut s = owned(prefix);
    push_str(&mut s, tail);
    s
}

/// The queue entry id for number `n`: `q` and its decimal digits.
pub fn entry_id_string(n: u64) -> (r: String)
    ensures
        r@ == entry_id(n),
{
    let mut s = owned("q");
    let d = u64_decimal(n);
    append_chars(&mut s, d.as_slice());
    proof {
        reveal_strlit("q");
        assert(seq!['q'] =~= "q"@);
    }
    s
}

fn manual(id: String, t: &str) -> (r: QueueEntry)
    ensures
        r@ == manual_entry(id@, t@),
{
    QueueEntry {
        queue_entry_id: id,
        track_uid: owned(t),
        volume_uuid: owned("manual"),
        relative_path: owned(t),
        title: Some(owned(t)),
        duration_ms: None,
    }
}

impl RuntimeState {
    /// A daemon with an empty queue and history, idle.
    pub fn new() -> (r: Self)
        ensures
            r@.queue == crate::media_model::empty_queue(),
            r@.history == Seq::<PlayModel>::empty(),
            r@.state == PlaybackState::Idle,
            r@.current_track is None,
            r@.last_command is None,
            r@.next_id == 1,
    {
        RuntimeState {
            snapshot: QueueSnapshot::empty(),
            history_log: HistoryLog::empty(),
            playback_state: PlaybackState::Idle,
            current_track: None,
            last_command: None,
            next_queue_entry_id: 1,
        }
    }

    /// Whether audio output is running or about to run.
    pub fn has_active_output(&self) -> (r: bool)
        ensures
            r == active(self.playback_state),
    {
        match self.playback_state {
            PlaybackState::PreQuiet => true,
            PlaybackState::QuietActive => true,
            _ => false,
        }
    }

    /// The track of the entry at the current position.
    pub fn resolved_current_track(&self) -> (r: Option<String>)
        ensures
            opt_chars(r) == resolved(self@),
    {
        resolve_track_uid(&self.snapshot, self.snapshot.current_order_index)
    }

    /// Adds an entry for `track_id` under the next queue entry id and returns
    /// that id; the play order is left alone.
    pub fn push_track_entry(&mut self, track_id: &str) -> (r: String)
        requires
            old(self).next_queue_entry_id < u64::MAX,
        ensures
            final(self)@ == add_entry(old(self)@, track_id@),
            r@ == entry_id(old(self)@.next_id),
    {
        let id = entry_id_string(self.next_queue_entry_id);
        let entry = manual(copy_string(&id), track_id);
        let ghost before = self.snapshot@.tracks;
        self.snapshot.tracks.push(entry);
        assert(self.snapshot@.tracks =~= before.push(manual_entry(id@, track_id@)));
        self.next_queue_entry_id = self.next_queue_entry_id + 1;
        id
    }

    fn push_one(&mut self, track_id: &str)
        requires
            old(self).next_queue_entry_id < u64::MAX,
        ensures
            final(self)@ == push_one(old(self)@, track_id@),
    {
        let id = self.push_track_entry(track_id);
        let ghost before = self.snapshot@.order;
        self.snapshot.play_order.push(id);
        assert(self.snapshot@.order =~= before.push(entry_id(old(self)@.next_id)));
    }

    /// Gives a non-empty queue a position and its track, stopping when no output
    /// runs; an empty queue leaves the daemon idle.
    pub fn ensure_selected_track_for_non_empty_queue(&mut self)
        ensures
            final(self)@ == ensure_selected(old(self)@),
    {
        if self.snapshot.play_order.len() == 0 {
            self.snapshot.current_order_index = None;
            self.current_track = None;
            self.playback_state = PlaybackState::Idle;
            return;
        }
        if self.snapshot.current_order_index.is_none() {
            self.snapshot.current_order_index = Some(0);
        }
        self.current_track = self.resolved_current_track();
        if !self.has_active_output() {
            self.playback_state = PlaybackState::Stopped;
        }
    }

    /// The play of the entry at the current position, at time `now`.
    pub fn current_history_entry(&self, now: u64) -> (r: Option<HistoryEntry>)
        ensures
            match r {
                Some(h) => match resolve_entry(self@.queue, self@.queue.current) {
                    Some(e) => h@ == play_of(e, now),
                    None => false,
                },
                None => resolve_entry(self@.queue, self@.queue.current) is None,
            },
    {
        match resolve_queue_entry(&self.snapshot, self.snapshot.current_order_index) {
            Some(e) => Some(
                HistoryEntry {
                    played_at: now,
                    track_uid: e.track_uid,
                    volume_uuid: e.volume_uuid,
                    relative_path: e.relative_path,
                    title: e.title,
                    duration_ms: e.duration_ms,
                },
            ),
            None => None,
        }
    }

    /// Records the entry at the current position as played at `now`.
    pub fn record_current_track_history(&mut self, now: u64)
        ensures
            final(self)@ == record(old(self)@, now),
    {
        match self.current_history_entry(now) {
            Some(h) => {
                self.history_log.push_recent(h, HISTORY_LIMIT);
            },
            None => {},
        }
    }
}

impl RuntimeState {
    fn note(&mut self, prefix: &str, tail: &str)
        ensures
            final(self)@ == noted(old(self)@, prefix@ + tail@),
    {
        self.last_command = Some(joined(prefix, tail));
    }

    fn is_current_track(&self, track_id: &str) -> (r: bool)
        ensures
            r == (self@.current_track == Some(track_id@)),
    {
        match &self.current_track {
            Some(c) => crate::queue::same_text(c.as_str(), track_id),
            None => false,
        }
    }

    /// `PLAY`: resumes the paused track when it is asked for again; otherwise
    /// queues the track last, starts it and records it in the history.
    pub fn play(&mut self, track_id: String, now: u64) -> (r: CommandOutcome)
        requires
            old(self).next_queue_entry_id < u64::MAX,
        ensures
            (final(self)@, r@) == crate::runtime_model::play_spec(old(self)@, track_id@, now),
    {
        if self.playback_state == PlaybackState::Paused && self.is_current_track(track_id.as_str()) {
            self.playback_state = PlaybackState::QuietActive;
            self.note("resume:", track_id.as_str());
            return CommandOutcome {
                response_line: ack_of("play", self),
                events: one_event(PlaybackEvent::PlaybackResumed),
                persist_queue: false,
                persist_history: false,
            };
        }
        self.push_one(track_id.as_str());
        assert(self@.queue.order.len() == old(self)@.queue.order.len() + 1);
        self.snapshot.current_order_index = Some(self.snapshot.play_order.len() - 1);
        self.playback_state = PlaybackState::QuietActive;
        self.current_track = self.resolved_current_track();
        self.note("play:", track_id.as_str());
        self.record_current_track_history(now);
        let line = format_ack_line("play", self.playback_state, Some(track_id.as_str()));
        let events = two_events(
            PlaybackEvent::PlayRequestAccepted { track_id: copy_string(&track_id) },
            PlaybackEvent::PlaybackStarted { track_id },
        );
        CommandOutcome {
            response_line: line,
            events,
            persist_queue: true,
            persist_history: true,
        }
    }

    /// `QUEUE_APPEND`: queues the track last.
    pub fn queue_append(&mut self, track_id: String) -> (r: CommandOutcome)
        requires
            old(self).next_queue_entry_id < u64::MAX,
        ensures
            (final(self)@, r@) == crate::runtime_model::append_spec(old(self)@, track_id@),
    {
        self.push_one(track_id.as_str());
        self.ensure_selected_track_for_non_empty_queue();
        self.note("queue_append:", track_id.as_str());
        CommandOutcome {
            response_line: ack_of("queue_append", self),
            events: no_events(),
            persist_queue: true,
            persist_history: false,
        }
    }

    /// `QUEUE_INSERT_NEXT`: queues the track right after the current position.
    pub fn queue_insert_next(&mut self, track_id: String) -> (r: CommandOutcome)
        requires
            old(self).next_queue_entry_id < u64::MAX,
            old(self)@.queue.current matches Some(i) ==> i < old(self)@.queue.order.len(),
        ensures
            (final(self)@, r@) == crate::runtime_model::insert_next_spec(old(self)@, track_id@),
    {
        let id = self.push_track_entry(track_id.as_str());
        let len = self.snapshot.play_order.len();
        let pos = match self.snapshot.current_order_index {
            Some(i) => if i + 1 < len {
                i + 1
            } else {
                len
            },
            None => len,
        };
        let ghost before = self.snapshot@.order;
        self.snapshot.play_order.insert(pos, id);
        assert(self.snapshot@.order =~= before.insert(pos as int, entry_id(old(self)@.next_id)));
        self.ensure_selected_track_for_non_empty_queue();
        self.note("queue_insert_next:", track_id.as_str());
        CommandOutcome {
            response_line: ack_of("queue_insert_next", self),
            events: no_events(),
            persist_queue: true,
            persist_history: false,
        }
    }

    /// `PAUSE`: pauses running output; refused when nothing plays.
    pub fn pause(&mut self) -> (r: CommandOutcome)
        ensures
            (final(self)@, r@) == crate::runtime_model::pause_spec(old(self)@),
    {
        if !self.has_active_output() {
            return refused("no_active_track", "nothing_is_playing");
        }
        self.playback_state = PlaybackState::Paused;
        self.last_command = Some(owned("pause"));
        CommandOutcome {
            response_line: ack_of("pause", self),
            events: one_event(PlaybackEvent::PlaybackPaused),
            persist_queue: false,
            persist_history: false,
        }
    }

    /// `STOP`: stops, keeping the position and its track.
    pub fn stop(&mut self) -> (r: CommandOutcome)
        ensures
            (final(self)@, r@) == crate::runtime_model::stop_spec(old(self)@),
    {
        self.playback_state = PlaybackState::Stopped;
        self.current_track = self.resolved_current_track();
        self.last_command = Some(owned("stop"));
        CommandOutcome {
            response_line: ack_of("stop", self),
            events: one_event(PlaybackEvent::PlaybackStopped { reason: owned("user_stop") }),
            persist_queue: false,
            persist_history: false,
        }
    }

    /// `NEXT` (`forward`) or `PREV`: moves one entry along and starts it; at
    /// either end of the queue, stops.
    pub fn step(&mut self, forward: bool, now: u64) -> (r: CommandOutcome)
        ensures
            (final(self)@, r@) == crate::runtime_model::step_spec(old(self)@, forward, now),
    {
        let name = if forward {
            "next"
        } else {
            "prev"
        };
        let len = self.snapshot.play_order.len();
        if len == 0 {
            return refused("empty_queue", "no_queue_entries");
        }
        let target = match self.snapshot.current_order_index {
            None => Some(0usize),
            Some(i) => if forward && i < len - 1 {
                Some(i + 1)
            } else if !forward && i > 0 {
                Some(i - 1)
            } else {
                None
            },
        };
        match target {
            None => {
                self.playback_state = PlaybackState::Stopped;
                self.current_track = self.resolved_current_track();
                self.last_command = Some(
                    if forward {
                        owned("next:queue_end")
                    } else {
                        owned("prev:queue_start")
                    },
                );
                let reason = if forward {
                    owned("queue_end")
                } else {
                    owned("queue_start")
                };
                CommandOutcome {
                    response_line: ack_of(name, self),
                    events: one_event(PlaybackEvent::PlaybackStopped { reason }),
                    persist_queue: false,
                    persist_history: false,
                }
            },
            Some(n) => {
                self.snapshot.current_order_index = Some(n);
                let track = match self.resolved_current_track() {
                    Some(t) => t,
                    None => owned("unknown_track"),
                };
                self.current_track = Some(copy_string(&track));
                self.playback_state = PlaybackState::QuietActive;
                let mut last = owned(name);
                push_str(&mut last, ":");
                push_str(&mut last, track.as_str());
                self.last_command = Some(last);
                self.record_current_track_history(now);
                CommandOutcome {
                    response_line: format_ack_line(name, self.playback_state, Some(track.as_str())),
                    events: one_event(PlaybackEvent::TrackChanged { track_id: track }),
                    persist_queue: true,
                    persist_history: true,
                }
            },
        }
    }

    /// `QUEUE_CLEAR`: empties the queue, stopping output that runs.
    pub fn queue_clear(&mut self) -> (r: CommandOutcome)
        ensures
            (final(self)@, r@) == crate::runtime_model::clear_spec(old(self)@),
    {
        let was_active = self.has_active_output();
        self.snapshot = QueueSnapshot::empty();
        self.next_queue_entry_id = 1;
        self.current_track = None;
        self.playback_state = PlaybackState::Idle;
        self.last_command = Some(owned("queue_clear"));
        CommandOutcome {
            response_line: format_ack_line("queue_clear", self.playback_state, None),
            events: if was_active {
                one_event(PlaybackEvent::PlaybackStopped { reason: owned("queue_cleared") })
            } else {
                no_events()
            },
            persist_queue: true,
            persist_history: false,
        }
    }
}

/// The wire name of an order mode.
pub fn order_mode_label(mode: OrderMode) -> (r: &'static str)
    ensures
        r@ == crate::runtime_model::order_label(mode),
{
    match mode {
        OrderMode::Sequential => "sequential",
        OrderMode::Shuffle => "shuffle",
    }
}

/// The wire name of a repeat mode.
pub fn repeat_mode_label(mode: RepeatMode) -> (r: &'static str)
    ensures
        r@ == crate::runtime_model::repeat_label(mode),
{
    match mode {
        RepeatMode::Off => "off",
        RepeatMode::One => "one",
        RepeatMode::All => "all",
    }
}

/// The order mode named by `raw`, surrounding whitespace ignored.
pub fn parse_order_mode_value(raw: &str) -> (r: Option<OrderMode>)
    ensures
        r == crate::runtime_model::order_from(raw@),
{
    let c = crate::text::chars_of(raw);
    let t = crate::text::trimmed(c.as_slice());
    if crate::text::eq_str(t.as_slice(), "sequential") {
        Some(OrderMode::Sequential)
    } else if crate::text::eq_str(t.as_slice(), "shuffle") {
        Some(OrderMode::Shuffle)
    } else {
        None
    }
}

/// The repeat mode named by `raw`, surrounding whitespace ignored.
pub fn parse_repeat_mode_value(raw: &str) -> (r: Option<RepeatMode>)
    ensures
        r == crate::runtime_model::repeat_from(raw@),
{
    let c = crate::text::chars_of(raw);
    let t = crate::text::trimmed(c.as_slice());
    if crate::text::eq_str(t.as_slice(), "off") {
        Some(RepeatMode::Off)
    } else if crate::text::eq_str(t.as_slice(), "one") {
        Some(RepeatMode::One)
    } else if crate::text::eq_str(t.as_slice(), "all") {
        Some(RepeatMode::All)
    } else {
        None
    }
}

/// `order` with the id `cur` moved to the front, when it holds it.
fn move_to_front(order: &mut Vec<String>, cur: &Option<String>)
    ensures
        ids(final(order)@) == crate::runtime_model::to_front(ids(old(order)@), opt_chars(*cur)),
{
    match cur {
        Some(c) => {
            match crate::queue::index_of_text(order, c.as_str()) {
                Some(i) => {
                    let ghost s = ids(order@);
                    proof {
                        s.index_of_first_ensures(c@);
                    }
                    let x = order.remove(i);
                    order.insert(0, x);
                    assert(ids(order@) =~= seq![s[i as int]] + s.remove(i as int));
                },
                None => {},
            }
        },
        None => {},
    }
}

impl RuntimeState {
    /// Rebuilds the play order from the entries for the order mode, keeping the
    /// entry `cur` current.
    pub fn rebuild_play_order_for_mode(&mut self, cur: Option<String>, clock_nanos: u64)
        ensures
            final(self)@ == with_queue(
                old(self)@,
                crate::runtime_model::rebuild(old(self)@.queue, opt_chars(cur), clock_nanos),
            ),
    {
        let mut order = crate::queue::entry_ids(&self.snapshot.tracks);
        if self.snapshot.order_mode == OrderMode::Shuffle {
            crate::queue::shuffle_queue_entry_ids(&mut order, clock_nanos);
            move_to_front(&mut order, &cur);
        }
        let found = match &cur {
            Some(c) => crate::queue::index_of_text(&order, c.as_str()),
            None => None,
        };
        let len = order.len();
        self.snapshot.play_order = order;
        self.snapshot.current_order_index = match found {
            Some(i) => Some(i),
            None => if len > 0 {
                Some(0)
            } else {
                None
            },
        };
    }

    /// The queue entry id at the current position.
    pub fn current_queue_entry_id(&self) -> (r: Option<String>)
        ensures
            opt_chars(r) == crate::runtime_model::current_entry_id(self@.queue),
    {
        match self.snapshot.current_order_index {
            Some(i) => if i < self.snapshot.play_order.len() {
                Some(copy_string(&self.snapshot.play_order[i]))
            } else {
                None
            },
            None => None,
        }
    }

    /// `SET_ORDER_MODE`: switches the order mode and rebuilds the play order,
    /// keeping the current entry current.
    pub fn set_order_mode(&mut self, raw_mode: &str, clock_nanos: u64) -> (r: CommandOutcome)
        ensures
            (final(self)@, r@) == crate::runtime_model::order_mode_spec(old(self)@, raw_mode@, clock_nanos),
    {
        let mode = match parse_order_mode_value(raw_mode) {
            Some(m) => m,
            None => {
                return refused("invalid_order_mode", "unsupported_order_mode");
            },
        };
        let cur = self.current_queue_entry_id();
        self.snapshot.order_mode = mode;
        self.rebuild_play_order_for_mode(cur, clock_nanos);
        self.current_track = self.resolved_current_track();
        self.note("set_order_mode:", order_mode_label(mode));
        CommandOutcome {
            response_line: ack_of("set_order_mode", self),
            events: no_events(),
            persist_queue: true,
            persist_history: false,
        }
    }

    /// `SET_REPEAT_MODE`: switches the repeat mode.
    pub fn set_repeat_mode(&mut self, raw_mode: &str) -> (r: CommandOutcome)
        ensures
            (final(self)@, r@) == crate::runtime_model::repeat_mode_spec(old(self)@, raw_mode@),
    {
        let mode = match parse_repeat_mode_value(raw_mode) {
            Some(m) => m,
            None => {
                return refused("invalid_repeat_mode", "unsupported_repeat_mode");
            },
        };
        self.snapshot.repeat_mode = mode;
        self.note("set_repeat_mode:", repeat_mode_label(mode));
        CommandOutcome {
            response_line: ack_of("set_repeat_mode", self),
            events: no_events(),
            persist_queue: true,
            persist_history: false,
        }
    }

    fn reset_queue(&mut self)
        ensures
            final(self)@ == crate::runtime_model::reset_queue(old(self)@),
    {
        let om = self.snapshot.order_mode;
        let rm = self.snapshot.repeat_mode;
        let mut q = QueueSnapshot::empty();
        q.order_mode = om;
        q.repeat_mode = rm;
        self.snapshot = q;
        self.next_queue_entry_id = 1;
    }

    fn push_all(&mut self, track_ids: &Vec<String>)
        requires
            old(self).next_queue_entry_id + track_ids.len() < u64::MAX,
        ensures
            final(self)@ == crate::runtime_model::push_all(old(self)@, ids(track_ids@)),
            final(self)@.queue.order.len() == old(self)@.queue.order.len() + track_ids.len(),
    {
        let ghost start = self@;
        let ghost ts = ids(track_ids@);
        let mut i: usize = 0;
        assert(ts.take(0) =~= Seq::<Seq<char>>::empty());
        while i < track_ids.len()
            invariant
                ts == ids(track_ids@),
                0 <= i <= track_ids.len(),
                self@ == crate::runtime_model::push_all(start, ts.take(i as int)),
                self.next_queue_entry_id == start.next_id + i,
                self@.queue.order.len() == start.queue.order.len() + i,
                start.next_id + track_ids.len() < u64::MAX,
            decreases track_ids.len() - i,
        {
            proof {
                assert(ts.take(i as int + 1).drop_last() =~= ts.take(i as int));
                assert(ts.take(i as int + 1).last() == ts[i as int]);
            }
            self.push_one(track_ids[i].as_str());
            i = i + 1;
        }
        assert(ts.take(track_ids.len() as int) =~= ts);
    }

    /// `QUEUE_PLAY`: replaces the queue with the tracks and starts the first;
    /// refused for an empty list.
    pub fn queue_play(&mut self, track_ids: Vec<String>, now: u64, clock_nanos: u64) -> (r: CommandOutcome)
        requires
            track_ids.len() + 1 < u64::MAX,
        ensures
            (final(self)@, r@) == crate::runtime_model::queue_play_spec(
                old(self)@,
                ids(track_ids@),
                now,
                clock_nanos,
            ),
    {
        if track_ids.len() == 0 {
            return refused("empty_queue", "no_track_ids");
        }
        self.reset_queue();
        self.push_all(&track_ids);
        self.snapshot.current_order_index = Some(0);
        let first = copy_string(&self.snapshot.play_order[0]);
        self.rebuild_play_order_for_mode(Some(first), clock_nanos);
        let track_id = copy_string(&track_ids[0]);
        self.playback_state = PlaybackState::QuietActive;
        self.current_track = self.resolved_current_track();
        self.note("queue_play:", track_id.as_str());
        self.record_current_track_history(now);
        let line = format_ack_line("queue_play", self.playback_state, Some(track_id.as_str()));
        let events = two_events(
            PlaybackEvent::PlayRequestAccepted { track_id: copy_string(&track_id) },
            PlaybackEvent::PlaybackStarted { track_id },
        );
        CommandOutcome {
            response_line: line,
            events,
            persist_queue: true,
            persist_history: true,
        }
    }

    /// `QUEUE_REPLACE`: replaces the queue with the tracks, stopped on the first,
    /// and stops output that runs.
    pub fn queue_replace(&mut self, track_ids: Vec<String>, clock_nanos: u64) -> (r: CommandOutcome)
        requires
            track_ids.len() + 1 < u64::MAX,
        ensures
            (final(self)@, r@) == crate::runtime_model::queue_replace_spec(
                old(self)@,
                ids(track_ids@),
                clock_nanos,
            ),
    {
        let was_active = self.has_active_output();
        self.reset_queue();
        self.push_all(&track_ids);
        if self.snapshot.play_order.len() == 0 {
            self.playback_state = PlaybackState::Idle;
            self.current_track = None;
        } else {
            self.snapshot.current_order_index = Some(0);
            let first = copy_string(&self.snapshot.play_order[0]);
            self.rebuild_play_order_for_mode(Some(first), clock_nanos);
            self.playback_state = PlaybackState::Stopped;
            self.current_track = self.resolved_current_track();
        }
        let n = crate::text::usize_decimal(self.snapshot.play_order.len());
        let mut last = owned("queue_replace:");
        append_chars(&mut last, n.as_slice());
        self.last_command = Some(last);
        CommandOutcome {
            response_line: ack_of("queue_replace", self),
            events: if was_active {
                one_event(PlaybackEvent::PlaybackStopped { reason: owned("queue_replaced") })
            } else {
                no_events()
            },
            persist_queue: true,
            persist_history: false,
        }
    }
}

/// The entries of `tracks` whose id is not `id`.
fn drop_entry(tracks: &Vec<QueueEntry>, id: &str) -> (r: Vec<QueueEntry>)
    ensures
        entries(r@) == entries(tracks@).filter(crate::runtime_model::other_than(id@)),
{
    let ghost o = entries(tracks@);
    let ghost p = crate::runtime_model::other_than(id@);
    let mut out: Vec<QueueEntry> = Vec::new();
    let mut i: usize = 0;
    proof {
        reveal(Seq::filter);
    }
    assert(o.take(0).filter(p) =~= Seq::<EntryModel>::empty());
    while i < tracks.len()
        invariant
            o == entries(tracks@),
            p == crate::runtime_model::other_than(id@),
            0 <= i <= tracks.len(),
            entries(out@) == o.take(i as int).filter(p),
        decreases tracks.len() - i,
    {
        let ghost t = o.take(i as int + 1);
        proof {
            reveal(Seq::filter);
            assert(t.drop_last() =~= o.take(i as int));
            assert(t.last() == o[i as int]);
        }
        let ghost before = entries(out@);
        if !crate::queue::same_text(tracks[i].queue_entry_id.as_str(), id) {
            out.push(copy_entry(&tracks[i]));
            assert(entries(out@) =~= before.push(o[i as int]));
        }
        i = i + 1;
    }
    assert(o.take(tracks.len() as int) =~= o);
    out
}

impl RuntimeState {
    fn after_removal(&mut self, r: usize, was_active: bool, now: u64) -> (out: (Vec<PlaybackEvent>, bool))
        ensures
            ({
                let (m1, ev, ph) = crate::runtime_model::after_removal(old(self)@, r as int, was_active, now);
                &&& final(self)@ == m1
                &&& events_view(out.0@) == ev
                &&& out.1 == ph
            }),
    {
        let len = self.snapshot.play_order.len();
        if len == 0 {
            self.snapshot.current_order_index = None;
            self.current_track = None;
            self.playback_state = PlaybackState::Idle;
            let events = if was_active {
                one_event(PlaybackEvent::PlaybackStopped { reason: owned("queue_item_removed") })
            } else {
                no_events()
            };
            return (events, false);
        }
        match self.snapshot.current_order_index {
            Some(i) => {
                if r < i {
                    self.snapshot.current_order_index = Some(i - 1);
                    self.current_track = self.resolved_current_track();
                    (no_events(), false)
                } else if r == i {
                    if was_active && r < len {
                        self.snapshot.current_order_index = Some(r);
                        self.current_track = self.resolved_current_track();
                        self.playback_state = PlaybackState::QuietActive;
                        self.record_current_track_history(now);
                        let events = match &self.current_track {
                            Some(t) => one_event(PlaybackEvent::TrackChanged { track_id: copy_string(t) }),
                            None => no_events(),
                        };
                        (events, true)
                    } else {
                        let f = if r < len {
                            r
                        } else {
                            len - 1
                        };
                        self.snapshot.current_order_index = Some(f);
                        self.current_track = self.resolved_current_track();
                        self.playback_state = PlaybackState::Stopped;
                        let events = if was_active {
                            one_event(
                                PlaybackEvent::PlaybackStopped { reason: owned("queue_item_removed") },
                            )
                        } else {
                            no_events()
                        };
                        (events, false)
                    }
                } else {
                    self.current_track = self.resolved_current_track();
                    (no_events(), false)
                }
            },
            None => {
                self.ensure_selected_track_for_non_empty_queue();
                (no_events(), false)
            },
        }
    }

    /// `QUEUE_REMOVE`: removes the entry with the given queue entry id,
    /// keeping the position on the same entry, or moving on from a removed
    /// current entry; refused for an unknown id.
    pub fn queue_remove(&mut self, queue_entry_id: &str, now: u64) -> (r: CommandOutcome)
        ensures
            (final(self)@, r@) == crate::runtime_model::remove_spec(old(self)@, queue_entry_id@, now),
    {
        let ghost m0 = self@;
        let r = match crate::queue::index_of_text(&self.snapshot.play_order, queue_entry_id) {
            Some(r) => r,
            None => {
                return refused("queue_entry_not_found", "queue_entry_id_not_found");
            },
        };
        proof {
            m0.queue.order.index_of_first_ensures(queue_entry_id@);
        }
        let was_active = self.has_active_output();
        let ghost before = self.snapshot@.order;
        self.snapshot.play_order.remove(r);
        assert(self.snapshot@.order =~= before.remove(r as int));
        let kept = drop_entry(&self.snapshot.tracks, queue_entry_id);
        self.snapshot.tracks = kept;
        let (events, ph) = self.after_removal(r, was_active, now);
        if !was_active && self.playback_state == PlaybackState::Idle && self.snapshot.play_order.len() > 0 {
            self.playback_state = PlaybackState::Stopped;
        }
        self.note("queue_remove:", queue_entry_id);
        CommandOutcome {
            response_line: ack_of("queue_remove", self),
            events,
            persist_queue: true,
            persist_history: ph,
        }
    }

    fn replace_current_queue_track(&mut self, track_id: &str)
        requires
            old(self).next_queue_entry_id < u64::MAX,
            consistent(old(self)@.queue),
        ensures
            final(self)@ == crate::runtime_model::replace_current(old(self)@, track_id@),
    {
        let len = self.snapshot.play_order.len();
        if len == 0 {
            self.push_one(track_id);
            self.snapshot.current_order_index = Some(0);
            return;
        }
        let target = match self.snapshot.current_order_index {
            Some(i) => if i < len {
                i
            } else {
                0
            },
            None => 0,
        };
        self.snapshot.current_order_index = Some(target);
        let id = copy_string(&self.snapshot.play_order[target]);
        proof {
            assert(track_ids(self@.queue.tracks).contains(self@.queue.order[target as int]));
            crate::queue::lemma_find_entry_present(self@.queue.tracks, id@);
        }
        let k = find_entry_index(&self.snapshot.tracks, id.as_str()).unwrap();
        proof {
            lemma_find_entry_found(self@.queue.tracks, id@);
        }
        let ghost before = self.snapshot@.tracks;
        let entry = manual(id, track_id);
        self.snapshot.tracks.set(k, entry);
        assert(self.snapshot@.tracks =~= before.update(k as int, entry@));
    }

    /// `PLAY_HISTORY`: plays a track from the history in place of the current
    /// entry and records it.
    pub fn play_history_now(&mut self, track_id: String, now: u64) -> (r: CommandOutcome)
        requires
            old(self).next_queue_entry_id < u64::MAX,
            consistent(old(self)@.queue),
        ensures
            (final(self)@, r@) == crate::runtime_model::play_history_spec(old(self)@, track_id@, now),
    {
        self.replace_current_queue_track(track_id.as_str());
        self.playback_state = PlaybackState::QuietActive;
        self.current_track = self.resolved_current_track();
        self.note("play_history:", track_id.as_str());
        self.record_current_track_history(now);
        let line = format_ack_line("play_history", self.playback_state, Some(track_id.as_str()));
        let events = two_events(
            PlaybackEvent::PlayRequestAccepted { track_id: copy_string(&track_id) },
            PlaybackEvent::PlaybackStarted { track_id },
        );
        CommandOutcome {
            response_line: line,
            events,
            persist_queue: true,
            persist_history: true,
        }
    }
}

/// Whether command `c` only reads the state: `PING`, `STATUS` and the
/// snapshots, which are answered in any state.
pub open spec fn read_only(c: CommandModel) -> bool {
    ||| c is Ping
    ||| c is Status
    ||| c is QueueSnapshot
    ||| c is HistorySnapshot
}

/// Whether the daemon can take command `c`: a command that only reads the
/// state always can; any other needs a consistent queue and queue entry
/// numbers that fit in a `u64`.
pub open spec fn ready(m: RuntimeModel, c: CommandModel) -> bool {
    read_only(c) || {
        &&& consistent(m.queue)
        &&& m.next_id < u64::MAX
        &&& match c {
            CommandModel::QueuePlay(ts) => ts.len() + 1 < u64::MAX,
            CommandModel::QueueReplace(ts) => ts.len() + 1 < u64::MAX,
            _ => true,
        }
    }
}

/// The number of seconds since the Unix epoch, from `SystemTime::now`; zero
/// when the clock reads before the epoch. Nothing is promised of its value.
#[verifier::external_body]
fn unix_timestamp_secs() -> (r: u64) {
    std::time::SystemTime::now().duration_since(std::time::UNIX_EPOCH).unwrap_or_default().as_secs()
}

/// The nanoseconds since the Unix epoch from `SystemTime::now`, cut to their
/// low 64 bits; zero when the clock reads before the epoch. Nothing is promised
/// of its value.
#[verifier::external_body]
fn clock_nanos() -> (r: u64) {
    std::time::SystemTime::now().duration_since(std::time::UNIX_EPOCH).unwrap_or_default().as_nanos() as u64
}

impl RuntimeState {
    /// The status reported by `STATUS`.
    pub fn status_snapshot(&self) -> (r: PlaybackStatusSnapshot)
        ensures
            r@ == crate::runtime_model::status_of(self@),
    {
        PlaybackStatusSnapshot {
            state: self.playback_state,
            order_mode: owned(order_mode_label(self.snapshot.order_mode)),
            repeat_mode: owned(repeat_mode_label(self.snapshot.repeat_mode)),
            current_track: copy_opt(&self.current_track),
            last_command: copy_opt(&self.last_command),
            queue_entries: self.snapshot.tracks.len(),
        }
    }

    /// The queue reported by `QUEUE_SNAPSHOT`: each play-order position whose
    /// id names an entry, with that entry and whether it is current.
    pub fn queue_snapshot_view(&self) -> (r: QueueSnapshotView)
        ensures
            r@ == crate::runtime_model::queue_view(self@.queue),
    {
        let ghost q = self@.queue;
        let mut out: Vec<QueueSnapshotEntryView> = Vec::new();
        let mut i: usize = 0;
        let n = self.snapshot.play_order.len();
        assert(entry_views_from(q, 0) =~= Seq::<EntryViewModel>::empty() + entry_views_from(q, 0));
        while i < n
            invariant
                q == self@.queue,
                n == q.order.len(),
                0 <= i <= n,
                out@.map_values(|e: QueueSnapshotEntryView| e@) + entry_views_from(q, i as int)
                    == entry_views_from(q, 0),
            decreases n - i,
        {
            let ghost before = out@.map_values(|e: QueueSnapshotEntryView| e@);
            let id = self.snapshot.play_order[i].as_str();
            match find_entry_index(&self.snapshot.tracks, id) {
                Some(k) => {
                    proof {
                        lemma_find_entry_found(q.tracks, id@);
                    }
                    let e = &self.snapshot.tracks[k];
                    let v = QueueSnapshotEntryView {
                        order_index: i,
                        queue_entry_id: copy_string(&e.queue_entry_id),
                        track_uid: copy_string(&e.track_uid),
                        volume_uuid: copy_string(&e.volume_uuid),
                        relative_path: copy_string(&e.relative_path),
                        title: copy_opt(&e.title),
                        duration_ms: e.duration_ms,
                        is_current: self.snapshot.current_order_index == Some(i),
                    };
                    assert(v@ == entry_view(q, i as int));
                    out.push(v);
                    assert(out@.map_values(|e: QueueSnapshotEntryView| e@) =~= before.push(
                        entry_view(q, i as int),
                    ));
                    assert(before.push(entry_view(q, i as int)) + entry_views_from(q, i as int + 1)
                        =~= before + entry_views_from(q, i as int));
                },
                None => {},
            }
            i = i + 1;
        }
        assert(entry_views_from(q, n as int) =~= Seq::<EntryViewModel>::empty());
        assert(out@.map_values(|e: QueueSnapshotEntryView| e@) =~= out@.map_values(
            |e: QueueSnapshotEntryView| e@,
        ) + entry_views_from(q, n as int));
        QueueSnapshotView {
            order_mode: owned(order_mode_label(self.snapshot.order_mode)),
            repeat_mode: owned(repeat_mode_label(self.snapshot.repeat_mode)),
            current_order_index: self.snapshot.current_order_index,
            entries: out,
        }
    }

    /// The history reported by `HISTORY_SNAPSHOT`, most recent first.
    pub fn history_snapshot_view(&self) -> (r: HistorySnapshotView)
        ensures
            r@ == self@.history,
    {
        let mut out: Vec<HistorySnapshotEntryView> = Vec::new();
        let mut i: usize = 0;
        let n = self.history_log.entries.len();
        while i < n
            invariant
                n == self.history_log.entries.len(),
                0 <= i <= n,
                out@.map_values(|e: HistorySnapshotEntryView| e@) =~= self@.history.take(i as int),
            decreases n - i,
        {
            let e = &self.history_log.entries[i];
            let ghost before = out@.map_values(|e: HistorySnapshotEntryView| e@);
            out.push(
                HistorySnapshotEntryView {
                    played_at: e.played_at,
                    track_uid: copy_string(&e.track_uid),
                    volume_uuid: copy_string(&e.volume_uuid),
                    relative_path: copy_string(&e.relative_path),
                    title: copy_opt(&e.title),
                    duration_ms: e.duration_ms,
                },
            );
            assert(out@.map_values(|e: HistorySnapshotEntryView| e@) =~= before.push(
                self@.history[i as int],
            ));
            assert(self@.history.take(i as int + 1) =~= self@.history.take(i as int).push(
                self@.history[i as int],
            ));
            i = i + 1;
        }
        assert(self@.history.take(n as int) =~= self@.history);
        HistorySnapshotView { entries: out }
    }

    /// Handles `command` with the clock readings `now` (seconds, for the
    /// history) and `clock_nanos` (for shuffling).
    pub fn apply_command_at(&mut self, command: PlaybackCommand, now: u64, clock_nanos: u64) -> (r: CommandOutcome)
        requires
            ready(old(self)@, command@),
        ensures
            (final(self)@, r@) == apply_spec(old(self)@, command@, now, clock_nanos),
    {
        match command {
            PlaybackCommand::Ping => CommandOutcome {
                response_line: ack_of("ping", self),
                events: no_events(),
                persist_queue: false,
                persist_history: false,
            },
            PlaybackCommand::Status => {
                let st = self.status_snapshot();
                CommandOutcome {
                    response_line: format_status_line(&st),
                    events: no_events(),
                    persist_queue: false,
                    persist_history: false,
                }
            },
            PlaybackCommand::QueueSnapshot => CommandOutcome {
                response_line: {
                    let view = self.queue_snapshot_view();
                    let json = crate::snapshot::queue_snapshot_json(&view);
                    crate::snapshot::format_queue_snapshot_line(json.as_str())
                },
                events: no_events(),
                persist_queue: false,
                persist_history: false,
            },
            PlaybackCommand::HistorySnapshot => CommandOutcome {
                response_line: {
                    let view = self.history_snapshot_view();
                    let json = crate::snapshot::history_snapshot_json(&view);
                    crate::snapshot::format_history_snapshot_line(json.as_str())
                },
                events: no_events(),
                persist_queue: false,
                persist_history: false,
            },
            PlaybackCommand::Play(t) => self.play(t, now),
            PlaybackCommand::QueuePlay(ts) => self.queue_play(ts, now, clock_nanos),
            PlaybackCommand::QueueAppend(t) => self.queue_append(t),
            PlaybackCommand::QueueInsertNext(t) => self.queue_insert_next(t),
            PlaybackCommand::QueueRemove(id) => self.queue_remove(id.as_str(), now),
            PlaybackCommand::QueueClear => self.queue_clear(),
            PlaybackCommand::QueueReplace(ts) => self.queue_replace(ts, clock_nanos),
            PlaybackCommand::SetOrderMode(m) => self.set_order_mode(m.as_str(), clock_nanos),
            PlaybackCommand::SetRepeatMode(m) => self.set_repeat_mode(m.as_str()),
            PlaybackCommand::PlayHistory(t) => self.play_history_now(t, now),
            PlaybackCommand::Pause => self.pause(),
            PlaybackCommand::Stop => self.stop(),
            PlaybackCommand::Next => self.step(true, now),
            PlaybackCommand::Prev => self.step(false, now),
        }
    }

    /// Whether the daemon can take `command`: always for a command that only
    /// reads the state; otherwise when every play-order id names a queue
    /// entry, the position is inside the play order, and the queue entry
    /// numbers the command may hand out fit in a `u64`. A state made by `new`
    /// or `restore` and changed only by commands keeps its play order and
    /// position in order (`lemma_apply_keeps_tidy`).
    pub fn can_take(&self, command: &PlaybackCommand) -> (r: bool)
        ensures
            r == ready(self@, command@),
    {
        match command {
            PlaybackCommand::Ping | PlaybackCommand::Status | PlaybackCommand::QueueSnapshot
            | PlaybackCommand::HistorySnapshot => {
                return true;
            },
            _ => {},
        }
        if self.next_queue_entry_id == u64::MAX {
            return false;
        }
        match self.snapshot.current_order_index {
            Some(i) => {
                if i >= self.snapshot.play_order.len() {
                    return false;
                }
            },
            None => {},
        }
        let ghost q = self@.queue;
        let n = self.snapshot.play_order.len();
        let mut i: usize = 0;
        while i < n
            invariant
                q == self@.queue,
                n == q.order.len(),
                i <= n,
                !read_only(command@),
                forall|j: int| 0 <= j < i ==> crate::queue::track_ids(q.tracks).contains(#[trigger] q.order[j]),
            decreases n - i,
        {
            let found = crate::queue::find_entry_index(&self.snapshot.tracks, self.snapshot.play_order[i].as_str());
            proof {
                crate::queue::lemma_find_entry_found(q.tracks, q.order[i as int]);
            }
            match found {
                Some(k) => {
                    assert(crate::queue::track_ids(q.tracks)[k as int] == q.order[i as int]);
                },
                None => {
                    proof {
                        if crate::queue::track_ids(q.tracks).contains(q.order[i as int]) {
                            crate::queue::lemma_find_entry_present(q.tracks, q.order[i as int]);
                        }
                    }
                    return false;
                },
            }
            i = i + 1;
        }
        match command {
            PlaybackCommand::QueuePlay(ts) => (ts.len() as u128) + 1 < u64::MAX as u128,
            PlaybackCommand::QueueReplace(ts) => (ts.len() as u128) + 1 < u64::MAX as u128,
            _ => true,
        }
    }

    /// Handles `command`, reading the clock for the history and for shuffling:
    /// the outcome is what `apply_command_at` gives for some clock readings.
    pub fn apply_command(&mut self, command: PlaybackCommand) -> (r: CommandOutcome)
        requires
            ready(old(self)@, command@),
        ensures
            exists|now: u64, nanos: u64| (final(self)@, r@) == apply_spec(old(self)@, command@, now, nanos),
    {
        let now = unix_timestamp_secs();
        let nanos = clock_nanos();
        self.apply_command_at(command, now, nanos)
    }
}

} // verus!
