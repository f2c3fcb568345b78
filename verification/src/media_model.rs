//! The queue and the recent-play history, as saved between runs.

use vstd::prelude::*;

verus! {

/// The order in which the queue is played.
#[derive(Debug, Clone, Copy, PartialEq, Eq, Structural)]
pub enum OrderMode {
    Sequential,
    Shuffle,
}

impl Default for OrderMode {
    fn default() -> (r: Self)
        ensures
            r == OrderMode::Sequential,
    {
        OrderMode::Sequential
    }
}

/// What happens when a track finishes.
#[derive(Debug, Clone, Copy, PartialEq, Eq, Structural)]
pub enum RepeatMode {
    Off,
    One,
    All,
}

impl Default for RepeatMode {
    fn default() -> (r: Self)
        ensures
            r == RepeatMode::Off,
    {
        RepeatMode::Off
    }
}

/// One entry of the queue.
#[derive(Debug, PartialEq, Eq)]
pub struct QueueEntry {
    pub queue_entry_id: String,
    pub track_uid: String,
    pub volume_uuid: String,
    pub relative_path: String,
    pub title: Option<String>,
    pub duration_ms: Option<u64>,
}

/// The value of a queue entry.
pub struct EntryModel {
    pub id: Seq<char>,
    pub track_uid: Seq<char>,
    pub volume_uuid: Seq<char>,
    pub relative_path: Seq<char>,
    pub title: Option<Seq<char>>,
    pub duration_ms: Option<u64>,
}

/// The view of an optional string.
pub open spec fn opt_chars(o: Option<String>) -> Option<Seq<char>> {
    match o {
        Some(s) => Some(s@),
        None => None,
    }
}

impl View for QueueEntry {
    type V = EntryModel;

    open spec fn view(&self) -> EntryModel {
        EntryModel {
            id: self.queue_entry_id@,
            track_uid: self.track_uid@,
            volume_uuid: self.volume_uuid@,
            relative_path: self.relative_path@,
            title: opt_chars(self.title),
            duration_ms: self.duration_ms,
        }
    }
}

/// The queue: its modes, the position being played, the play order as queue
/// entry ids, and the entries themselves in the order they were added.
#[derive(Debug, PartialEq, Eq)]
pub struct QueueSnapshot {
    pub order_mode: OrderMode,
    pub repeat_mode: RepeatMode,
    pub current_order_index: Option<usize>,
    pub play_order: Vec<String>,
    pub tracks: Vec<QueueEntry>,
}

/// The value of a queue.
pub struct QueueModel {
    pub order_mode: OrderMode,
    pub repeat_mode: RepeatMode,
    pub current: Option<usize>,
    pub order: Seq<Seq<char>>,
    pub tracks: Seq<EntryModel>,
}

/// The views of a sequence of strings.
pub open spec fn ids(v: Seq<String>) -> Seq<Seq<char>> {
    v.map_values(|s: String| s@)
}

/// The views of a sequence of queue entries.
pub open spec fn entries(v: Seq<QueueEntry>) -> Seq<EntryModel> {
    v.map_values(|e: QueueEntry| e@)
}

impl View for QueueSnapshot {
    type V = QueueModel;

    open spec fn view(&self) -> QueueModel {
        QueueModel {
            order_mode: self.order_mode,
            repeat_mode: self.repeat_mode,
            current: self.current_order_index,
            order: ids(self.play_order@),
            tracks: entries(self.tracks@),
        }
    }
}

/// The empty queue, played in order and without repeat.
pub open spec fn empty_queue() -> QueueModel {
    QueueModel {
        order_mode: OrderMode::Sequential,
        repeat_mode: RepeatMode::Off,
        current: None,
        order: Seq::empty(),
        tracks: Seq::empty(),
    }
}

impl QueueSnapshot {
    /// An empty queue, played in order and without repeat.
    pub fn empty() -> (r: Self)
        ensures
            r@ == empty_queue(),
    {
        let r = QueueSnapshot {
            order_mode: OrderMode::Sequential,
            repeat_mode: RepeatMode::Off,
            current_order_index: None,
            play_order: Vec::new(),
            tracks: Vec::new(),
        };
        assert(r@.order =~= Seq::<Seq<char>>::empty());
        assert(r@.tracks =~= Seq::<EntryModel>::empty());
        r
    }
}

impl Default for QueueSnapshot {
    fn default() -> (r: Self)
        ensures
            r@ == empty_queue(),
    {
        QueueSnapshot::empty()
    }
}

/// One play recorded in the history.
#[derive(Debug, PartialEq, Eq)]
pub struct HistoryEntry {
    pub played_at: u64,
    pub track_uid: String,
    pub volume_uuid: String,
    pub relative_path: String,
    pub title: Option<String>,
    pub duration_ms: Option<u64>,
}

/// The value of a history entry.
pub struct PlayModel {
    pub played_at: u64,
    pub track_uid: Seq<char>,
    pub volume_uuid: Seq<char>,
    pub relative_path: Seq<char>,
    pub title: Option<Seq<char>>,
    pub duration_ms: Option<u64>,
}

impl View for HistoryEntry {
    type V = PlayModel;

    open spec fn view(&self) -> PlayModel {
        PlayModel {
            played_at: self.played_at,
            track_uid: self.track_uid@,
            volume_uuid: self.volume_uuid@,
            relative_path: self.relative_path@,
            title: opt_chars(self.title),
            duration_ms: self.duration_ms,
        }
    }
}

/// The recent plays, most recent first.
#[derive(Debug, PartialEq, Eq)]
pub struct HistoryLog {
    pub entries: Vec<HistoryEntry>,
}

/// The views of a sequence of history entries.
pub open spec fn plays(v: Seq<HistoryEntry>) -> Seq<PlayModel> {
    v.map_values(|e: HistoryEntry| e@)
}

impl View for HistoryLog {
    type V = Seq<PlayModel>;

    open spec fn view(&self) -> Seq<PlayModel> {
        plays(self.entries@)
    }
}

/// `log` with `entry` put in front, keeping at most `limit` entries.
pub open spec fn push_recent_model(log: Seq<PlayModel>, entry: PlayModel, limit: usize) -> Seq<PlayModel> {
    let l = seq![entry] + log;
    if l.len() <= limit {
        l
    } else {
        l.take(limit as int)
    }
}

impl HistoryLog {
    /// An empty history.
    pub fn empty() -> (r: Self)
        ensures
            r@ == Seq::<PlayModel>::empty(),
    {
        let r = HistoryLog { entries: Vec::new() };
        assert(r@ =~= Seq::<PlayModel>::empty());
        r
    }

    /// Records `entry` as the most recent play and keeps at most `limit`
    /// entries, dropping the oldest.
    pub fn push_recent(&mut self, entry: HistoryEntry, limit: usize)
        ensures
            final(self)@ == push_recent_model(old(self)@, entry@, limit),
            final(self)@.len() <= limit,
            limit > 0 ==> final(self)@[0] == entry@,
    {
        let ghost e = entry@;
        let ghost before = self@;
        self.entries.insert(0, entry);
        assert(self@ =~= seq![e] + before);
        self.entries.truncate(limit);
        assert(self@ =~= push_recent_model(before, e, limit)) by {
            if (seq![e] + before).len() > limit {
                assert(plays(self.entries@) =~= (seq![e] + before).take(limit as int));
            }
        }
    }
}

impl Default for HistoryLog {
    fn default() -> (r: Self)
        ensures
            r@ == Seq::<PlayModel>::empty(),
    {
        HistoryLog::empty()
    }
}

} // verus!
