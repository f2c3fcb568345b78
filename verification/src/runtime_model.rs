//! What the playback daemon's state is, and what each command does to it.

use vstd::prelude::*;
use crate::media_model::{
    empty_queue, push_recent_model, EntryModel, OrderMode, PlayModel, QueueModel, RepeatMode,
};
use crate::protocol::{
    ack_line, error_line, status_line, CommandModel, EventModel, PlaybackFailureClass,
    PlaybackState, StatusModel,
};
use crate::queue::{
    find_entry, resolve_entry, resolve_uid, shuffled, track_ids,
};
use crate::snapshot::{history_json, queue_json, snapshot_line, EntryViewModel, QueueViewModel};
use crate::text::{decimal, trim};

verus! {

/// How many plays the history keeps.
pub const HISTORY_LIMIT: usize = 100;

/// The value of the daemon's state.
pub struct RuntimeModel {
    pub queue: QueueModel,
    pub history: Seq<PlayModel>,
    pub state: PlaybackState,
    pub current_track: Option<Seq<char>>,
    pub last_command: Option<Seq<char>>,
    pub next_id: u64,
}

/// The value of a command's outcome.
pub struct OutcomeModel {
    pub line: Seq<char>,
    pub events: Seq<EventModel>,
    pub persist_queue: bool,
    pub persist_history: bool,
}

/// An outcome with a response line and events.
pub open spec fn outcome(line: Seq<char>, events: Seq<EventModel>, pq: bool, ph: bool) -> OutcomeModel {
    OutcomeModel { line, events, persist_queue: pq, persist_history: ph }
}

/// The outcome of a refused command: an error line, nothing else.
pub open spec fn refusal(code: Seq<char>, message: Seq<char>) -> OutcomeModel {
    outcome(error_line(code, message), Seq::empty(), false, false)
}

/// Whether audio output is running or about to run.
pub open spec fn active(s: PlaybackState) -> bool {
    s == PlaybackState::PreQuiet || s == PlaybackState::QuietActive
}

/// The queue entry id handed out for number `n`.
pub open spec fn entry_id(n: u64) -> Seq<char> {
    seq!['q'] + decimal(n as nat)
}

/// The entry queued for track `t` under `id`.
pub open spec fn manual_entry(id: Seq<char>, t: Seq<char>) -> EntryModel {
    EntryModel {
        id,
        track_uid: t,
        volume_uuid: "manual"@,
        relative_path: t,
        title: Some(t),
        duration_ms: None,
    }
}

/// The track at the current position.
pub open spec fn resolved(m: RuntimeModel) -> Option<Seq<char>> {
    resolve_uid(m.queue, m.queue.current)
}

/// `m` with `q` as its queue.
pub open spec fn with_queue(m: RuntimeModel, q: QueueModel) -> RuntimeModel {
    RuntimeModel { queue: q, ..m }
}

/// `q` with `c` as its current position.
pub open spec fn at(q: QueueModel, c: Option<usize>) -> QueueModel {
    QueueModel { current: c, ..q }
}

/// A new entry for `t` added to the entries (not to the play order), under the
/// next queue entry id.
pub open spec fn add_entry(m: RuntimeModel, t: Seq<char>) -> RuntimeModel {
    RuntimeModel {
        queue: QueueModel {
            tracks: m.queue.tracks.push(manual_entry(entry_id(m.next_id), t)),
            ..m.queue
        },
        next_id: (m.next_id + 1) as u64,
        ..m
    }
}

/// A new entry for `t` added and played last.
pub open spec fn push_one(m: RuntimeModel, t: Seq<char>) -> RuntimeModel {
    let id = entry_id(m.next_id);
    let m1 = add_entry(m, t);
    with_queue(m1, QueueModel { order: m1.queue.order.push(id), ..m1.queue })
}

/// New entries for each of `ts`, in order, each played after the ones before.
pub open spec fn push_all(m: RuntimeModel, ts: Seq<Seq<char>>) -> RuntimeModel
    decreases ts.len(),
{
    if ts.len() == 0 {
        m
    } else {
        push_one(push_all(m, ts.drop_last()), ts.last())
    }
}

/// A non-empty queue gets a position (the first, if it had none) and its
/// track; without output running the daemon is stopped. An empty queue has no
/// position and leaves the daemon idle.
pub open spec fn ensure_selected(m: RuntimeModel) -> RuntimeModel {
    if m.queue.order.len() == 0 {
        RuntimeModel {
            queue: at(m.queue, None),
            current_track: None,
            state: PlaybackState::Idle,
            ..m
        }
    } else {
        let c = match m.queue.current {
            None => Some(0usize),
            Some(i) => Some(i),
        };
        let q = at(m.queue, c);
        RuntimeModel {
            queue: q,
            current_track: resolve_uid(q, c),
            state: if !active(m.state) {
                PlaybackState::Stopped
            } else {
                m.state
            },
            ..m
        }
    }
}

/// The play recorded for entry `e` at time `now`.
pub open spec fn play_of(e: EntryModel, now: u64) -> PlayModel {
    PlayModel {
        played_at: now,
        track_uid: e.track_uid,
        volume_uuid: e.volume_uuid,
        relative_path: e.relative_path,
        title: e.title,
        duration_ms: e.duration_ms,
    }
}

/// The entry at the current position, recorded as played at `now`.
pub open spec fn record(m: RuntimeModel, now: u64) -> RuntimeModel {
    match resolve_entry(m.queue, m.queue.current) {
        Some(e) => RuntimeModel {
            history: push_recent_model(m.history, play_of(e, now), HISTORY_LIMIT),
            ..m
        },
        None => m,
    }
}

/// `m` with `c` as its last command.
pub open spec fn noted(m: RuntimeModel, c: Seq<char>) -> RuntimeModel {
    RuntimeModel { last_command: Some(c), ..m }
}

/// `s` moved to the front when it holds `cur`.
pub open spec fn to_front(s: Seq<Seq<char>>, cur: Option<Seq<char>>) -> Seq<Seq<char>> {
    match cur {
        Some(c) => match s.index_of_first(c) {
            Some(i) => seq![s[i]] + s.remove(i),
            None => s,
        },
        None => s,
    }
}

/// The play order rebuilt from the entries for the queue's order mode: entry
/// order, or shuffled with the entry `cur` first; the position follows `cur`,
/// else is the first when there is one.
pub open spec fn rebuild(q: QueueModel, cur: Option<Seq<char>>, clock_nanos: u64) -> QueueModel {
    let base = track_ids(q.tracks);
    let order = if q.order_mode == OrderMode::Shuffle {
        to_front(shuffled(base, clock_nanos), cur)
    } else {
        base
    };
    let found = match cur {
        Some(c) => match order.index_of_first(c) {
            Some(i) => Some(i as usize),
            None => None,
        },
        None => None,
    };
    let current = match found {
        Some(i) => Some(i),
        None => if order.len() > 0 {
            Some(0usize)
        } else {
            None
        },
    };
    QueueModel { order, current, ..q }
}

/// The queue entry id at the current position.
pub open spec fn current_entry_id(q: QueueModel) -> Option<Seq<char>> {
    match q.current {
        Some(i) => if i < q.order.len() {
            Some(q.order[i as int])
        } else {
            None
        },
        None => None,
    }
}

/// The wire name of an order mode.
pub open spec fn order_label(m: OrderMode) -> Seq<char> {
    match m {
        OrderMode::Sequential => "sequential"@,
        OrderMode::Shuffle => "shuffle"@,
    }
}

/// The wire name of a repeat mode.
pub open spec fn repeat_label(m: RepeatMode) -> Seq<char> {
    match m {
        RepeatMode::Off => "off"@,
        RepeatMode::One => "one"@,
        RepeatMode::All => "all"@,
    }
}

/// The order mode named by `raw`, surrounding whitespace ignored.
pub open spec fn order_from(raw: Seq<char>) -> Option<OrderMode> {
    let t = trim(raw);
    if t == "sequential"@ {
        Some(OrderMode::Sequential)
    } else if t == "shuffle"@ {
        Some(OrderMode::Shuffle)
    } else {
        None
    }
}

/// The repeat mode named by `raw`, surrounding whitespace ignored.
pub open spec fn repeat_from(raw: Seq<char>) -> Option<RepeatMode> {
    let t = trim(raw);
    if t == "off"@ {
        Some(RepeatMode::Off)
    } else if t == "one"@ {
        Some(RepeatMode::One)
    } else if t == "all"@ {
        Some(RepeatMode::All)
    } else {
        None
    }
}

/// The acknowledgement of `action` in state `m`.
pub open spec fn ack(action: Seq<char>, m: RuntimeModel) -> Seq<char> {
    ack_line(action, m.state, m.current_track)
}

/// The status reported for `m`.
pub open spec fn status_of(m: RuntimeModel) -> StatusModel {
    StatusModel {
        state: m.state,
        order_mode: order_label(m.queue.order_mode),
        repeat_mode: repeat_label(m.queue.repeat_mode),
        current_track: m.current_track,
        last_command: m.last_command,
        queue_entries: m.queue.tracks.len() as usize,
    }
}

/// The report of the entry at play-order position `i`.
pub open spec fn entry_view(q: QueueModel, i: int) -> EntryViewModel {
    let e = q.tracks[find_entry(q.tracks, q.order[i]).unwrap() as int];
    EntryViewModel {
        order_index: i as usize,
        queue_entry_id: e.id,
        track_uid: e.track_uid,
        volume_uuid: e.volume_uuid,
        relative_path: e.relative_path,
        title: e.title,
        duration_ms: e.duration_ms,
        is_current: q.current == Some(i as usize),
    }
}

/// The reports of the play-order positions from `from` on whose id names an entry.
pub open spec fn entry_views_from(q: QueueModel, from: int) -> Seq<EntryViewModel>
    decreases q.order.len() - from,
{
    if from >= q.order.len() || from < 0 {
        Seq::empty()
    } else {
        let rest = entry_views_from(q, from + 1);
        if find_entry(q.tracks, q.order[from]) is Some {
            seq![entry_view(q, from)] + rest
        } else {
            rest
        }
    }
}

/// The report of the queue.
pub open spec fn queue_view(q: QueueModel) -> QueueViewModel {
    QueueViewModel {
        order_mode: order_label(q.order_mode),
        repeat_mode: repeat_label(q.repeat_mode),
        current_order_index: q.current,
        entries: entry_views_from(q, 0),
    }
}

/// Play `t`: resume it when it is the paused track, else queue it last and
/// start it.
pub open spec fn play_spec(m: RuntimeModel, t: Seq<char>, now: u64) -> (RuntimeModel, OutcomeModel) {
    if m.state == PlaybackState::Paused && m.current_track == Some(t) {
        let m1 = noted(RuntimeModel { state: PlaybackState::QuietActive, ..m }, "resume:"@ + t);
        (m1, outcome(ack("play"@, m1), seq![EventModel::PlaybackResumed], false, false))
    } else {
        let m1 = push_one(m, t);
        let q = at(m1.queue, Some((m1.queue.order.len() - 1) as usize));
        let m2 = noted(
            RuntimeModel {
                queue: q,
                state: PlaybackState::QuietActive,
                current_track: resolve_uid(q, q.current),
                ..m1
            },
            "play:"@ + t,
        );
        let m3 = record(m2, now);
        (
            m3,
            outcome(
                ack_line("play"@, m3.state, Some(t)),
                seq![
                    EventModel::PlayRequestAccepted { track_id: t },
                    EventModel::PlaybackStarted { track_id: t },
                ],
                true,
                true,
            ),
        )
    }
}

/// Queue `t` last.
pub open spec fn append_spec(m: RuntimeModel, t: Seq<char>) -> (RuntimeModel, OutcomeModel) {
    let m1 = noted(ensure_selected(push_one(m, t)), "queue_append:"@ + t);
    (m1, outcome(ack("queue_append"@, m1), Seq::empty(), true, false))
}

/// Where `QUEUE_INSERT_NEXT` puts the new entry in the play order.
pub open spec fn insert_position(q: QueueModel) -> int {
    match q.current {
        Some(i) => if i + 1 < q.order.len() {
            i + 1
        } else {
            q.order.len() as int
        },
        None => q.order.len() as int,
    }
}

/// Queue `t` right after the current position.
pub open spec fn insert_next_spec(m: RuntimeModel, t: Seq<char>) -> (RuntimeModel, OutcomeModel) {
    let id = entry_id(m.next_id);
    let m1 = add_entry(m, t);
    let q = QueueModel { order: m1.queue.order.insert(insert_position(m1.queue), id), ..m1.queue };
    let m2 = noted(ensure_selected(with_queue(m1, q)), "queue_insert_next:"@ + t);
    (m2, outcome(ack("queue_insert_next"@, m2), Seq::empty(), true, false))
}

/// The queue emptied of entries and play order, modes kept, ids restarted.
pub open spec fn reset_queue(m: RuntimeModel) -> RuntimeModel {
    RuntimeModel {
        queue: QueueModel {
            order_mode: m.queue.order_mode,
            repeat_mode: m.queue.repeat_mode,
            current: None,
            order: Seq::empty(),
            tracks: Seq::empty(),
        },
        next_id: 1,
        ..m
    }
}

/// Replace the queue with `ts` and start the first.
pub open spec fn queue_play_spec(m: RuntimeModel, ts: Seq<Seq<char>>, now: u64, clock_nanos: u64) -> (
    RuntimeModel,
    OutcomeModel,
) {
    if ts.len() == 0 {
        (m, refusal("empty_queue"@, "no_track_ids"@))
    } else {
        let m1 = push_all(reset_queue(m), ts);
        let q = rebuild(at(m1.queue, Some(0usize)), Some(m1.queue.order[0]), clock_nanos);
        let m2 = noted(
            RuntimeModel {
                queue: q,
                state: PlaybackState::QuietActive,
                current_track: resolve_uid(q, q.current),
                ..m1
            },
            "queue_play:"@ + ts[0],
        );
        let m3 = record(m2, now);
        (
            m3,
            outcome(
                ack_line("queue_play"@, m3.state, Some(ts[0])),
                seq![
                    EventModel::PlayRequestAccepted { track_id: ts[0] },
                    EventModel::PlaybackStarted { track_id: ts[0] },
                ],
                true,
                true,
            ),
        )
    }
}

/// Replace the queue with `ts`, stopped on the first.
pub open spec fn queue_replace_spec(m: RuntimeModel, ts: Seq<Seq<char>>, clock_nanos: u64) -> (
    RuntimeModel,
    OutcomeModel,
) {
    let was_active = active(m.state);
    let m1 = push_all(reset_queue(m), ts);
    let m2 = if m1.queue.order.len() == 0 {
        RuntimeModel { state: PlaybackState::Idle, current_track: None, ..m1 }
    } else {
        let q = rebuild(at(m1.queue, Some(0usize)), Some(m1.queue.order[0]), clock_nanos);
        RuntimeModel {
            queue: q,
            state: PlaybackState::Stopped,
            current_track: resolve_uid(q, q.current),
            ..m1
        }
    };
    let m3 = noted(m2, "queue_replace:"@ + decimal(m2.queue.order.len()));
    (
        m3,
        outcome(
            ack("queue_replace"@, m3),
            if was_active {
                seq![EventModel::PlaybackStopped { reason: "queue_replaced"@ }]
            } else {
                Seq::empty()
            },
            true,
            false,
        ),
    )
}

/// Empty the queue.
pub open spec fn clear_spec(m: RuntimeModel) -> (RuntimeModel, OutcomeModel) {
    let m1 = RuntimeModel {
        queue: empty_queue(),
        next_id: 1,
        current_track: None,
        state: PlaybackState::Idle,
        last_command: Some("queue_clear"@),
        ..m
    };
    (
        m1,
        outcome(
            ack_line("queue_clear"@, PlaybackState::Idle, None),
            if active(m.state) {
                seq![EventModel::PlaybackStopped { reason: "queue_cleared"@ }]
            } else {
                Seq::empty()
            },
            true,
            false,
        ),
    )
}

/// The state after the entry at play-order position `r` was removed, before
/// the idle correction, with the events and whether history changed.
pub open spec fn after_removal(m: RuntimeModel, r: int, was_active: bool, now: u64) -> (
    RuntimeModel,
    Seq<EventModel>,
    bool,
) {
    let q = m.queue;
    let stopped = seq![EventModel::PlaybackStopped { reason: "queue_item_removed"@ }];
    if q.order.len() == 0 {
        (
            RuntimeModel {
                queue: at(q, None),
                current_track: None,
                state: PlaybackState::Idle,
                ..m
            },
            if was_active {
                stopped
            } else {
                Seq::empty()
            },
            false,
        )
    } else {
        match q.current {
            Some(i) => if r < i {
                let q1 = at(q, Some((i - 1) as usize));
                (RuntimeModel { queue: q1, current_track: resolve_uid(q1, q1.current), ..m }, Seq::empty(), false)
            } else if r == i {
                if was_active && r < q.order.len() {
                    let q1 = at(q, Some(r as usize));
                    let m1 = record(
                        RuntimeModel {
                            queue: q1,
                            current_track: resolve_uid(q1, q1.current),
                            state: PlaybackState::QuietActive,
                            ..m
                        },
                        now,
                    );
                    (
                        m1,
                        match m1.current_track {
                            Some(t) => seq![EventModel::TrackChanged { track_id: t }],
                            None => Seq::empty(),
                        },
                        true,
                    )
                } else {
                    let f = if r < q.order.len() {
                        r
                    } else {
                        q.order.len() - 1
                    };
                    let q1 = at(q, Some(f as usize));
                    (
                        RuntimeModel {
                            queue: q1,
                            current_track: resolve_uid(q1, q1.current),
                            state: PlaybackState::Stopped,
                            ..m
                        },
                        if was_active {
                            stopped
                        } else {
                            Seq::empty()
                        },
                        false,
                    )
                }
            } else {
                (RuntimeModel { current_track: resolve_uid(q, q.current), ..m }, Seq::empty(), false)
            },
            None => (ensure_selected(m), Seq::empty(), false),
        }
    }
}

/// The test of having an id other than `id`.
pub open spec fn other_than(id: Seq<char>) -> spec_fn(EntryModel) -> bool {
    |e: EntryModel| e.id != id
}

/// Remove the entry with queue entry id `id`.
pub open spec fn remove_spec(m: RuntimeModel, id: Seq<char>, now: u64) -> (RuntimeModel, OutcomeModel) {
    match m.queue.order.index_of_first(id) {
        None => (m, refusal("queue_entry_not_found"@, "queue_entry_id_not_found"@)),
        Some(r) => {
            let was_active = active(m.state);
            let q = QueueModel {
                order: m.queue.order.remove(r),
                tracks: m.queue.tracks.filter(other_than(id)),
                ..m.queue
            };
            let (m1, events, ph) = after_removal(with_queue(m, q), r, was_active, now);
            let m2 = if !was_active && m1.state == PlaybackState::Idle && m1.queue.order.len() > 0 {
                RuntimeModel { state: PlaybackState::Stopped, ..m1 }
            } else {
                m1
            };
            let m3 = noted(m2, "queue_remove:"@ + id);
            (m3, outcome(ack("queue_remove"@, m3), events, true, ph))
        },
    }
}

/// Switch the order mode named by `raw`, keeping the current entry current.
pub open spec fn order_mode_spec(m: RuntimeModel, raw: Seq<char>, clock_nanos: u64) -> (RuntimeModel, OutcomeModel) {
    match order_from(raw) {
        None => (m, refusal("invalid_order_mode"@, "unsupported_order_mode"@)),
        Some(mode) => {
            let cur = current_entry_id(m.queue);
            let q = rebuild(QueueModel { order_mode: mode, ..m.queue }, cur, clock_nanos);
            let m1 = noted(
                RuntimeModel { queue: q, current_track: resolve_uid(q, q.current), ..m },
                "set_order_mode:"@ + order_label(mode),
            );
            (m1, outcome(ack("set_order_mode"@, m1), Seq::empty(), true, false))
        },
    }
}

/// Switch the repeat mode named by `raw`.
pub open spec fn repeat_mode_spec(m: RuntimeModel, raw: Seq<char>) -> (RuntimeModel, OutcomeModel) {
    match repeat_from(raw) {
        None => (m, refusal("invalid_repeat_mode"@, "unsupported_repeat_mode"@)),
        Some(mode) => {
            let m1 = noted(
                with_queue(m, QueueModel { repeat_mode: mode, ..m.queue }),
                "set_repeat_mode:"@ + repeat_label(mode),
            );
            (m1, outcome(ack("set_repeat_mode"@, m1), Seq::empty(), true, false))
        },
    }
}

/// The play-order position `PLAY_HISTORY` overwrites: the current one, or the first.
pub open spec fn history_target(q: QueueModel) -> int {
    match q.current {
        Some(i) => if i < q.order.len() {
            i as int
        } else {
            0
        },
        None => 0,
    }
}

/// The entry at the current position made to play `t` instead; an empty queue
/// gets a first entry for `t`.
pub open spec fn replace_current(m: RuntimeModel, t: Seq<char>) -> RuntimeModel {
    if m.queue.order.len() == 0 {
        let m1 = push_one(m, t);
        with_queue(m1, at(m1.queue, Some(0usize)))
    } else {
        let target = history_target(m.queue);
        let id = m.queue.order[target];
        let k = find_entry(m.queue.tracks, id).unwrap();
        with_queue(
            m,
            QueueModel {
                current: Some(target as usize),
                tracks: m.queue.tracks.update(k as int, manual_entry(id, t)),
                ..m.queue
            },
        )
    }
}

/// Play `t` from the history in place of the current entry.
pub open spec fn play_history_spec(m: RuntimeModel, t: Seq<char>, now: u64) -> (RuntimeModel, OutcomeModel) {
    let m1 = replace_current(m, t);
    let m2 = noted(
        RuntimeModel { state: PlaybackState::QuietActive, current_track: resolved(m1), ..m1 },
        "play_history:"@ + t,
    );
    let m3 = record(m2, now);
    (
        m3,
        outcome(
            ack_line("play_history"@, m3.state, Some(t)),
            seq![
                EventModel::PlayRequestAccepted { track_id: t },
                EventModel::PlaybackStarted { track_id: t },
            ],
            true,
            true,
        ),
    )
}

/// Pause the running output.
pub open spec fn pause_spec(m: RuntimeModel) -> (RuntimeModel, OutcomeModel) {
    if !active(m.state) {
        (m, refusal("no_active_track"@, "nothing_is_playing"@))
    } else {
        let m1 = noted(RuntimeModel { state: PlaybackState::Paused, ..m }, "pause"@);
        (m1, outcome(ack("pause"@, m1), seq![EventModel::PlaybackPaused], false, false))
    }
}

/// Stop, keeping the position.
pub open spec fn stop_spec(m: RuntimeModel) -> (RuntimeModel, OutcomeModel) {
    let m1 = noted(
        RuntimeModel { state: PlaybackState::Stopped, current_track: resolved(m), ..m },
        "stop"@,
    );
    (
        m1,
        outcome(
            ack("stop"@, m1),
            seq![EventModel::PlaybackStopped { reason: "user_stop"@ }],
            false,
            false,
        ),
    )
}

/// The position a step moves to, if any.
pub open spec fn step_target(q: QueueModel, forward: bool) -> Option<usize> {
    match q.current {
        None => Some(0usize),
        Some(i) => if forward && i + 1 < q.order.len() {
            Some((i + 1) as usize)
        } else if !forward && i > 0 {
            Some((i - 1) as usize)
        } else {
            None
        },
    }
}

/// Move to the next (`forward`) or previous entry and start it; at either end
/// of the queue, stop.
pub open spec fn step_spec(m: RuntimeModel, forward: bool, now: u64) -> (RuntimeModel, OutcomeModel) {
    let name = if forward {
        "next"@
    } else {
        "prev"@
    };
    if m.queue.order.len() == 0 {
        (m, refusal("empty_queue"@, "no_queue_entries"@))
    } else {
        match step_target(m.queue, forward) {
            None => {
                let m1 = noted(
                    RuntimeModel { state: PlaybackState::Stopped, current_track: resolved(m), ..m },
                    if forward {
                        "next:queue_end"@
                    } else {
                        "prev:queue_start"@
                    },
                );
                (
                    m1,
                    outcome(
                        ack(name, m1),
                        seq![
                            EventModel::PlaybackStopped {
                                reason: if forward {
                                    "queue_end"@
                                } else {
                                    "queue_start"@
                                },
                            },
                        ],
                        false,
                        false,
                    ),
                )
            },
            Some(n) => {
                let q = at(m.queue, Some(n));
                let track = match resolve_uid(q, q.current) {
                    Some(t) => t,
                    None => "unknown_track"@,
                };
                let m1 = record(
                    noted(
                        RuntimeModel {
                            queue: q,
                            current_track: Some(track),
                            state: PlaybackState::QuietActive,
                            ..m
                        },
                        name + ":"@ + track,
                    ),
                    now,
                );
                (
                    m1,
                    outcome(
                        ack_line(name, m1.state, Some(track)),
                        seq![EventModel::TrackChanged { track_id: track }],
                        true,
                        true,
                    ),
                )
            },
        }
    }
}

/// What a command does to the daemon's state and what it answers, given the
/// clock reading in seconds `now` (for history) and in nanoseconds
/// `clock_nanos` (for shuffling).
pub open spec fn apply_spec(m: RuntimeModel, c: CommandModel, now: u64, clock_nanos: u64) -> (
    RuntimeModel,
    OutcomeModel,
) {
    match c {
        CommandModel::Ping => (m, outcome(ack("ping"@, m), Seq::empty(), false, false)),
        CommandModel::Status => (m, outcome(status_line(status_of(m)), Seq::empty(), false, false)),
        CommandModel::QueueSnapshot => (
            m,
            outcome(
                snapshot_line("queue_snapshot"@, queue_json(queue_view(m.queue))),
                Seq::empty(),
                false,
                false,
            ),
        ),
        CommandModel::HistorySnapshot => (
            m,
            outcome(snapshot_line("history_snapshot"@, history_json(m.history)), Seq::empty(), false, false),
        ),
        CommandModel::Play(t) => play_spec(m, t, now),
        CommandModel::QueuePlay(ts) => queue_play_spec(m, ts, now, clock_nanos),
        CommandModel::QueueAppend(t) => append_spec(m, t),
        CommandModel::QueueInsertNext(t) => insert_next_spec(m, t),
        CommandModel::QueueRemove(id) => remove_spec(m, id, now),
        CommandModel::QueueClear => clear_spec(m),
        CommandModel::QueueReplace(ts) => queue_replace_spec(m, ts, clock_nanos),
        CommandModel::SetOrderMode(raw) => order_mode_spec(m, raw, clock_nanos),
        CommandModel::SetRepeatMode(raw) => repeat_mode_spec(m, raw),
        CommandModel::PlayHistory(t) => play_history_spec(m, t, now),
        CommandModel::Pause => pause_spec(m),
        CommandModel::Stop => stop_spec(m),
        CommandModel::Next => step_spec(m, true, now),
        CommandModel::Prev => step_spec(m, false, now),
    }
}

/// What the output side does after a track finished: nothing, stop, or start
/// the next track.
pub enum FinishModel {
    Nothing,
    Stop(Seq<char>),
    Start(Seq<char>),
}

/// The position played after the current track finishes, by the repeat mode.
pub open spec fn next_after_finish(q: QueueModel) -> Option<usize> {
    match q.current {
        None => None,
        Some(i) => if q.order.len() == 0 || i >= q.order.len() {
            None
        } else {
            match q.repeat_mode {
                RepeatMode::Off => if i + 1 < q.order.len() {
                    Some((i + 1) as usize)
                } else {
                    None
                },
                RepeatMode::One => Some(i),
                RepeatMode::All => Some(((i + 1) % (q.order.len() as int)) as usize),
            }
        },
    }
}

/// The track `t` finished playing: move on by the repeat mode, or stop.
/// Nothing happens unless `t` is the current track and output is active.
pub open spec fn finish_spec(m: RuntimeModel, t: Seq<char>, now: u64) -> (RuntimeModel, FinishModel) {
    if m.current_track != Some(t) || m.state != PlaybackState::QuietActive {
        (m, FinishModel::Nothing)
    } else {
        match next_after_finish(m.queue) {
            Some(n) => {
                let q = at(m.queue, Some(n));
                match resolve_uid(q, Some(n)) {
                    None => (
                        noted(
                            RuntimeModel {
                                queue: q,
                                state: PlaybackState::Stopped,
                                current_track: None,
                                ..m
                            },
                            "finished:"@ + t + ":missing_next"@,
                        ),
                        FinishModel::Stop("track_finished"@),
                    ),
                    Some(nt) => (
                        record(
                            noted(
                                RuntimeModel {
                                    queue: q,
                                    current_track: Some(nt),
                                    state: PlaybackState::QuietActive,
                                    ..m
                                },
                                "auto_next:"@ + nt,
                            ),
                            now,
                        ),
                        FinishModel::Start(nt),
                    ),
                }
            },
            None => (
                noted(RuntimeModel { state: PlaybackState::Stopped, ..m }, "finished:"@ + t),
                FinishModel::Stop("track_finished"@),
            ),
        }
    }
}

/// What the library knows of a track that was resolved for playing.
pub struct TrackModel {
    pub track_uid: Seq<char>,
    pub volume_uuid: Seq<char>,
    pub relative_path: Seq<char>,
    pub title: Option<Seq<char>>,
    pub duration_ms: Option<u64>,
}

/// The most recent play updated with what was learned of its track, when it
/// is a play of that track; and whether anything changed.
pub open spec fn sync_history(h: Seq<PlayModel>, tr: TrackModel) -> (Seq<PlayModel>, bool) {
    if h.len() == 0 || h[0].track_uid != tr.track_uid {
        (h, false)
    } else {
        let p = h[0];
        (
            h.update(
                0,
                PlayModel {
                    volume_uuid: tr.volume_uuid,
                    relative_path: tr.relative_path,
                    title: tr.title,
                    duration_ms: tr.duration_ms,
                    ..p
                },
            ),
            p.volume_uuid != tr.volume_uuid || p.relative_path != tr.relative_path || p.title
                != tr.title || p.duration_ms != tr.duration_ms,
        )
    }
}

/// The current entry updated with what was learned of its track, and the most
/// recent play with it; whether the entry changed.
pub open spec fn enrich_spec(m: RuntimeModel, tr: TrackModel) -> (RuntimeModel, bool) {
    match current_entry_id(m.queue) {
        None => (m, false),
        Some(id) => match find_entry(m.queue.tracks, id) {
            None => (m, false),
            Some(k) => {
                let e = m.queue.tracks[k as int];
                let e2 = EntryModel {
                    id: e.id,
                    track_uid: tr.track_uid,
                    volume_uuid: tr.volume_uuid,
                    relative_path: tr.relative_path,
                    title: tr.title,
                    duration_ms: tr.duration_ms,
                };
                let changed = e.track_uid != tr.track_uid || e.volume_uuid != tr.volume_uuid
                    || e.relative_path != tr.relative_path || e.title != tr.title || e.duration_ms
                    != tr.duration_ms;
                (
                    RuntimeModel {
                        queue: QueueModel { tracks: m.queue.tracks.update(k as int, e2), ..m.queue },
                        history: sync_history(m.history, tr).0,
                        ..m
                    },
                    changed,
                )
            },
        },
    }
}

/// The most recent play of `t` taken back, when it is a play of the current
/// entry as it stands; whether it was.
pub open spec fn rollback_spec(m: RuntimeModel, t: Seq<char>) -> (RuntimeModel, bool) {
    if m.history.len() == 0 || m.history[0].track_uid != t {
        (m, false)
    } else {
        match resolve_entry(m.queue, m.queue.current) {
            None => (m, false),
            Some(e) => {
                let p = m.history[0];
                if p.volume_uuid != e.volume_uuid || p.relative_path != e.relative_path || p.title
                    != e.title || p.duration_ms != e.duration_ms {
                    (m, false)
                } else {
                    (RuntimeModel { history: m.history.drop_first(), ..m }, true)
                }
            },
        }
    }
}

/// The state after playing `t` failed: stopped, or held quiet for a content
/// failure that asks for it. Nothing changes unless `t` is the current track
/// and output is active or paused.
pub open spec fn failure_spec(
    m: RuntimeModel,
    t: Seq<char>,
    class: PlaybackFailureClass,
    keep_quiet: bool,
    reason: Seq<char>,
) -> (RuntimeModel, bool) {
    if m.current_track != Some(t) || !(m.state == PlaybackState::QuietActive || m.state
        == PlaybackState::Paused) {
        (m, false)
    } else {
        (
            noted(
                RuntimeModel {
                    state: match class {
                        PlaybackFailureClass::Output => PlaybackState::Stopped,
                        PlaybackFailureClass::Content => if keep_quiet {
                            PlaybackState::QuietErrorHold
                        } else {
                            PlaybackState::Stopped
                        },
                    },
                    ..m
                },
                "playback_failed:"@ + t + ":"@ + reason,
            ),
            true,
        )
    }
}

/// What the output side is asked to do.
pub enum ActionModel {
    Nothing,
    Start(Seq<char>),
    Pause,
    Resume(Seq<char>),
    Stop,
}

/// The output action for a command's events: the first event that asks for
/// one decides; a resume needs a current track.
pub open spec fn action_for(events: Seq<EventModel>, current: Option<Seq<char>>) -> ActionModel
    decreases events.len(),
{
    if events.len() == 0 {
        ActionModel::Nothing
    } else {
        match events[0] {
            EventModel::PlaybackStarted { track_id } => ActionModel::Start(track_id),
            EventModel::TrackChanged { track_id } => ActionModel::Start(track_id),
            EventModel::PlaybackPaused => ActionModel::Pause,
            EventModel::PlaybackResumed => match current {
                Some(t) => ActionModel::Resume(t),
                None => action_for(events.drop_first(), current),
            },
            EventModel::PlaybackStopped { .. } => ActionModel::Stop,
            _ => action_for(events.drop_first(), current),
        }
    }
}

/// The track that must be checked before a command plays it: none for a
/// resume of the paused track.
pub open spec fn preflight_track(m: RuntimeModel, c: CommandModel) -> Option<Seq<char>> {
    match c {
        CommandModel::Play(t) => if m.state == PlaybackState::Paused && m.current_track == Some(t) {
            None
        } else {
            Some(t)
        },
        CommandModel::PlayHistory(t) => Some(t),
        CommandModel::QueuePlay(ts) => if ts.len() > 0 {
            Some(ts[0])
        } else {
            None
        },
        _ => None,
    }
}

} // verus!
