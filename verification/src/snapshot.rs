//! Queue and history snapshots, their JSON text, and the response lines that
//! carry it. The JSON objects list the fields in declaration order, with no
//! whitespace; strings are escaped as serde_json escapes them.

use vstd::prelude::*;
use crate::protocol::{
    err_lit, err_with, find_field, lookup, pairs, parse_response_line, push_sanitized, require,
    require_field, response_parts, sanitize, ErrorModel, ProtocolError,
};
use crate::media_model::{opt_chars, PlayModel};
use crate::json::{json_string_text, json_text_of_string};
use crate::text::{
    append_chars, chars_of, decimal, eq_str, join, join_chars, owned, push_str, string_from,
    u64_decimal, usize_decimal, views,
};

verus! {

/// A queue as reported by `QUEUE_SNAPSHOT`.
#[derive(Debug, PartialEq, Eq)]
pub struct QueueSnapshotView {
    pub order_mode: String,
    pub repeat_mode: String,
    pub current_order_index: Option<usize>,
    pub entries: Vec<QueueSnapshotEntryView>,
}

/// One entry of a reported queue, in play order.
#[derive(Debug, PartialEq, Eq)]
pub struct QueueSnapshotEntryView {
    pub order_index: usize,
    pub queue_entry_id: String,
    pub track_uid: String,
    pub volume_uuid: String,
    pub relative_path: String,
    pub title: Option<String>,
    pub duration_ms: Option<u64>,
    pub is_current: bool,
}

/// The recent history as reported by `HISTORY_SNAPSHOT`.
#[derive(Debug, PartialEq, Eq)]
pub struct HistorySnapshotView {
    pub entries: Vec<HistorySnapshotEntryView>,
}

/// One entry of the reported history, most recent first.
#[derive(Debug, PartialEq, Eq)]
pub struct HistorySnapshotEntryView {
    pub played_at: u64,
    pub track_uid: String,
    pub volume_uuid: String,
    pub relative_path: String,
    pub title: Option<String>,
    pub duration_ms: Option<u64>,
}

/// The value of a reported queue entry.
pub struct EntryViewModel {
    pub order_index: usize,
    pub queue_entry_id: Seq<char>,
    pub track_uid: Seq<char>,
    pub volume_uuid: Seq<char>,
    pub relative_path: Seq<char>,
    pub title: Option<Seq<char>>,
    pub duration_ms: Option<u64>,
    pub is_current: bool,
}

impl View for QueueSnapshotEntryView {
    type V = EntryViewModel;

    open spec fn view(&self) -> EntryViewModel {
        EntryViewModel {
            order_index: self.order_index,
            queue_entry_id: self.queue_entry_id@,
            track_uid: self.track_uid@,
            volume_uuid: self.volume_uuid@,
            relative_path: self.relative_path@,
            title: opt_chars(self.title),
            duration_ms: self.duration_ms,
            is_current: self.is_current,
        }
    }
}

/// The value of a reported queue.
pub struct QueueViewModel {
    pub order_mode: Seq<char>,
    pub repeat_mode: Seq<char>,
    pub current_order_index: Option<usize>,
    pub entries: Seq<EntryViewModel>,
}

impl View for QueueSnapshotView {
    type V = QueueViewModel;

    open spec fn view(&self) -> QueueViewModel {
        QueueViewModel {
            order_mode: self.order_mode@,
            repeat_mode: self.repeat_mode@,
            current_order_index: self.current_order_index,
            entries: self.entries@.map_values(|e: QueueSnapshotEntryView| e@),
        }
    }
}

impl View for HistorySnapshotEntryView {
    type V = PlayModel;

    open spec fn view(&self) -> PlayModel {
        PlayModel {
            played_at: self.played_at,
            track_uid: self.track_uid@,
            volume_uuid: self.volume_uuid@,
            relative_path: self.relative_path@,
            title: opt_chars(self.title),
            duration_ms: self.duration_ms,
        }
    }
}

impl View for HistorySnapshotView {
    type V = Seq<PlayModel>;

    open spec fn view(&self) -> Seq<PlayModel> {
        self.entries@.map_values(|e: HistorySnapshotEntryView| e@)
    }
}

/// `null`, or the JSON string of `o`.
pub open spec fn json_opt_text(o: Option<Seq<char>>) -> Seq<char> {
    match o {
        Some(s) => json_text_of_string(s),
        None => "null"@,
    }
}

/// `null`, or the decimal digits of `o`.
pub open spec fn json_opt_number(o: Option<u64>) -> Seq<char> {
    match o {
        Some(n) => decimal(n as nat),
        None => "null"@,
    }
}

/// `true` or `false`.
pub open spec fn json_bool(b: bool) -> Seq<char> {
    if b {
        "true"@
    } else {
        "false"@
    }
}

/// The JSON object of a reported queue entry.
pub open spec fn queue_entry_json(e: EntryViewModel) -> Seq<char> {
    "{\"order_index\":"@ + decimal(e.order_index as nat) + ",\"queue_entry_id\":"@ + json_text_of_string(
        e.queue_entry_id,
    ) + ",\"track_uid\":"@ + json_text_of_string(e.track_uid) + ",\"volume_uuid\":"@ + json_text_of_string(
        e.volume_uuid,
    ) + ",\"relative_path\":"@ + json_text_of_string(e.relative_path) + ",\"title\":"@ + json_opt_text(e.title)
        + ",\"duration_ms\":"@ + json_opt_number(e.duration_ms) + ",\"is_current\":"@ + json_bool(e.is_current)
        + "}"@
}

/// The JSON object of a reported queue.
pub open spec fn queue_json(q: QueueViewModel) -> Seq<char> {
    "{\"order_mode\":"@ + json_text_of_string(q.order_mode) + ",\"repeat_mode\":"@ + json_text_of_string(
        q.repeat_mode,
    ) + ",\"current_order_index\":"@ + json_opt_number(
        match q.current_order_index {
            Some(i) => Some(i as u64),
            None => None,
        },
    ) + ",\"entries\":["@ + join(q.entries.map_values(|e: EntryViewModel| queue_entry_json(e)), ","@)
        + "]}"@
}

/// The JSON object of a reported history entry.
pub open spec fn history_entry_json(p: PlayModel) -> Seq<char> {
    "{\"played_at\":"@ + decimal(p.played_at as nat) + ",\"track_uid\":"@ + json_text_of_string(p.track_uid)
        + ",\"volume_uuid\":"@ + json_text_of_string(p.volume_uuid) + ",\"relative_path\":"@
        + json_text_of_string(p.relative_path) + ",\"title\":"@ + json_opt_text(p.title) + ",\"duration_ms\":"@
        + json_opt_number(p.duration_ms) + "}"@
}

/// The JSON object of a reported history.
pub open spec fn history_json(h: Seq<PlayModel>) -> Seq<char> {
    "{\"entries\":["@ + join(h.map_values(|p: PlayModel| history_entry_json(p)), ","@) + "]}"@
}

fn push_json_text(out: &mut String, s: &str)
    ensures
        final(out)@ == old(out)@ + json_text_of_string(s@),
{
    let j = json_string_text(s);
    push_str(out, j.as_str());
}

fn push_json_opt_text(out: &mut String, o: &Option<String>)
    ensures
        final(out)@ == old(out)@ + json_opt_text(opt_chars(*o)),
{
    match o {
        Some(s) => push_json_text(out, s.as_str()),
        None => push_str(out, "null"),
    }
}

fn push_json_opt_number(out: &mut String, o: Option<u64>)
    ensures
        final(out)@ == old(out)@ + json_opt_number(o),
{
    match o {
        Some(n) => {
            let d = u64_decimal(n);
            append_chars(out, d.as_slice());
        },
        None => push_str(out, "null"),
    }
}

fn push_json_bool(out: &mut String, b: bool)
    ensures
        final(out)@ == old(out)@ + json_bool(b),
{
    if b {
        push_str(out, "true");
    } else {
        push_str(out, "false");
    }
}

/// The JSON object of a reported queue entry.
pub fn queue_entry_json_text(e: &QueueSnapshotEntryView) -> (r: String)
    ensures
        r@ == queue_entry_json(e@),
{
    let mut s = owned("{\"order_index\":");
    let d = usize_decimal(e.order_index);
    append_chars(&mut s, d.as_slice());
    push_str(&mut s, ",\"queue_entry_id\":");
    push_json_text(&mut s, e.queue_entry_id.as_str());
    push_str(&mut s, ",\"track_uid\":");
    push_json_text(&mut s, e.track_uid.as_str());
    push_str(&mut s, ",\"volume_uuid\":");
    push_json_text(&mut s, e.volume_uuid.as_str());
    push_str(&mut s, ",\"relative_path\":");
    push_json_text(&mut s, e.relative_path.as_str());
    push_str(&mut s, ",\"title\":");
    push_json_opt_text(&mut s, &e.title);
    push_str(&mut s, ",\"duration_ms\":");
    push_json_opt_number(&mut s, e.duration_ms);
    push_str(&mut s, ",\"is_current\":");
    push_json_bool(&mut s, e.is_current);
    push_str(&mut s, "}");
    s
}

/// The JSON object of a reported history entry.
pub fn history_entry_json_text(p: &HistorySnapshotEntryView) -> (r: String)
    ensures
        r@ == history_entry_json(p@),
{
    let mut s = owned("{\"played_at\":");
    let d = u64_decimal(p.played_at);
    append_chars(&mut s, d.as_slice());
    push_str(&mut s, ",\"track_uid\":");
    push_json_text(&mut s, p.track_uid.as_str());
    push_str(&mut s, ",\"volume_uuid\":");
    push_json_text(&mut s, p.volume_uuid.as_str());
    push_str(&mut s, ",\"relative_path\":");
    push_json_text(&mut s, p.relative_path.as_str());
    push_str(&mut s, ",\"title\":");
    push_json_opt_text(&mut s, &p.title);
    push_str(&mut s, ",\"duration_ms\":");
    push_json_opt_number(&mut s, p.duration_ms);
    push_str(&mut s, "}");
    s
}

/// The JSON text of a reported queue.
pub fn queue_snapshot_json(q: &QueueSnapshotView) -> (r: String)
    ensures
        r@ == queue_json(q@),
{
    let ghost es = q@.entries;
    let mut parts: Vec<Vec<char>> = Vec::new();
    let mut i: usize = 0;
    while i < q.entries.len()
        invariant
            i <= q.entries@.len(),
            es == q@.entries,
            views(parts@) =~= es.map_values(|e: EntryViewModel| queue_entry_json(e)).take(i as int),
        decreases q.entries@.len() - i,
    {
        let t = queue_entry_json_text(&q.entries[i]);
        let ghost before = views(parts@);
        parts.push(chars_of(t.as_str()));
        assert(es[i as int] == q.entries@[i as int]@);
        assert(views(parts@) =~= before.push(queue_entry_json(es[i as int])));
        assert(es.map_values(|e: EntryViewModel| queue_entry_json(e)).take(i + 1) =~= es.map_values(
            |e: EntryViewModel| queue_entry_json(e),
        ).take(i as int).push(queue_entry_json(es[i as int])));
        i = i + 1;
    }
    assert(es.map_values(|e: EntryViewModel| queue_entry_json(e)).take(i as int) =~= es.map_values(
        |e: EntryViewModel| queue_entry_json(e),
    ));
    let sep = chars_of(",");
    let joined = join_chars(&parts, sep.as_slice());
    let mut s = owned("{\"order_mode\":");
    push_json_text(&mut s, q.order_mode.as_str());
    push_str(&mut s, ",\"repeat_mode\":");
    push_json_text(&mut s, q.repeat_mode.as_str());
    push_str(&mut s, ",\"current_order_index\":");
    let idx: Option<u64> = match q.current_order_index {
        Some(i) => Some(i as u64),
        None => None,
    };
    push_json_opt_number(&mut s, idx);
    push_str(&mut s, ",\"entries\":[");
    append_chars(&mut s, joined.as_slice());
    push_str(&mut s, "]}");
    s
}

/// The JSON text of a reported history.
pub fn history_snapshot_json(h: &HistorySnapshotView) -> (r: String)
    ensures
        r@ == history_json(h@),
{
    let ghost es = h@;
    let mut parts: Vec<Vec<char>> = Vec::new();
    let mut i: usize = 0;
    while i < h.entries.len()
        invariant
            i <= h.entries@.len(),
            es == h@,
            views(parts@) =~= es.map_values(|p: PlayModel| history_entry_json(p)).take(i as int),
        decreases h.entries@.len() - i,
    {
        let t = history_entry_json_text(&h.entries[i]);
        let ghost before = views(parts@);
        parts.push(chars_of(t.as_str()));
        assert(es[i as int] == h.entries@[i as int]@);
        assert(views(parts@) =~= before.push(history_entry_json(es[i as int])));
        assert(es.map_values(|p: PlayModel| history_entry_json(p)).take(i + 1) =~= es.map_values(
            |p: PlayModel| history_entry_json(p),
        ).take(i as int).push(history_entry_json(es[i as int])));
        i = i + 1;
    }
    assert(es.map_values(|p: PlayModel| history_entry_json(p)).take(i as int) =~= es.map_values(
        |p: PlayModel| history_entry_json(p),
    ));
    let sep = chars_of(",");
    let joined = join_chars(&parts, sep.as_slice());
    let mut s = owned("{\"entries\":[");
    append_chars(&mut s, joined.as_slice());
    push_str(&mut s, "]}");
    s
}

/// The response line that carries a snapshot payload of the given kind.
pub open spec fn snapshot_line(kind: Seq<char>, payload: Seq<char>) -> Seq<char> {
    "OK\tkind="@ + kind + "\tpayload="@ + sanitize(payload)
}

/// The payload that a snapshot response line of the given kind carries, or the
/// error it is answered with.
pub open spec fn snapshot_payload(line: Seq<char>, kind: Seq<char>) -> Result<Seq<char>, ErrorModel> {
    match response_parts(line) {
        Err(e) => Err(e),
        Ok((k, fields)) => if k != "OK"@ {
            Err(ErrorModel { code: "unexpected_response"@, message: "response is not OK"@ })
        } else {
            match lookup(fields, "kind"@) {
                None => Err(ErrorModel { code: "missing_field"@, message: "missing kind field"@ }),
                Some(rk) => if rk != kind {
                    Err(
                        ErrorModel {
                            code: "unexpected_response"@,
                            message: "expected "@ + kind + " response, got "@ + rk,
                        },
                    )
                } else {
                    require(fields, "payload"@)
                },
            }
        },
    }
}

fn snapshot_frame(kind: &str, payload: &str) -> (r: String)
    ensures
        r@ == snapshot_line(kind@, payload@),
{
    let mut s = owned("OK\tkind=");
    crate::text::push_str(&mut s, kind);
    crate::text::push_str(&mut s, "\tpayload=");
    push_sanitized(&mut s, payload);
    s
}

fn snapshot_unframe(line: &str, kind: &'static str) -> (r: Result<String, ProtocolError>)
    ensures
        match r {
            Ok(p) => snapshot_payload(line@, kind@) == Ok::<Seq<char>, ErrorModel>(p@),
            Err(e) => snapshot_payload(line@, kind@) == Err::<Seq<char>, ErrorModel>(e@),
        },
{
    let lc = chars_of(line);
    let (k, fields) = parse_response_line(lc.as_slice())?;
    if !eq_str(k.as_slice(), "OK") {
        return Err(err_lit("unexpected_response", "response is not OK"));
    }
    let rk = match find_field(&fields, "kind") {
        Some(v) => v,
        None => {
            return Err(err_lit("missing_field", "missing kind field"));
        },
    };
    if !eq_str(rk.as_slice(), kind) {
        let mut m = owned("expected ");
        crate::text::push_str(&mut m, kind);
        crate::text::push_str(&mut m, " response, got ");
        crate::text::append_chars(&mut m, rk.as_slice());
        return Err(ProtocolError::new("unexpected_response", m));
    }
    let p = require_field(&fields, "payload")?;
    Ok(string_from(p.as_slice()))
}

/// The response line for a queue snapshot whose JSON text is `payload`.
pub fn format_queue_snapshot_line(payload: &str) -> (r: String)
    ensures
        r@ == snapshot_line("queue_snapshot"@, payload@),
{
    snapshot_frame("queue_snapshot", payload)
}

/// The response line for a history snapshot whose JSON text is `payload`.
pub fn format_history_snapshot_line(payload: &str) -> (r: String)
    ensures
        r@ == snapshot_line("history_snapshot"@, payload@),
{
    snapshot_frame("history_snapshot", payload)
}

/// The outcome of reading a queue snapshot payload: the snapshot, or an
/// `invalid_queue_snapshot` error that carries the JSON reader's message.
pub fn queue_snapshot_from_json(decoded: Result<QueueSnapshotView, String>) -> (r: Result<
    QueueSnapshotView,
    ProtocolError,
>)
    ensures
        match decoded {
            Ok(v) => r == Ok::<QueueSnapshotView, ProtocolError>(v),
            Err(m) => r matches Err(e) && e@ == ErrorModel {
                code: "invalid_queue_snapshot"@,
                message: "queue snapshot payload is invalid JSON: "@ + m@,
            },
        },
{
    match decoded {
        Ok(v) => Ok(v),
        Err(m) => {
            let mut message = owned("queue snapshot payload is invalid JSON: ");
            push_str(&mut message, m.as_str());
            Err(ProtocolError::new("invalid_queue_snapshot", message))
        },
    }
}

/// The outcome of reading a history snapshot payload: the snapshot, or an
/// `invalid_history_snapshot` error that carries the JSON reader's message.
pub fn history_snapshot_from_json(decoded: Result<HistorySnapshotView, String>) -> (r: Result<
    HistorySnapshotView,
    ProtocolError,
>)
    ensures
        match decoded {
            Ok(v) => r == Ok::<HistorySnapshotView, ProtocolError>(v),
            Err(m) => r matches Err(e) && e@ == ErrorModel {
                code: "invalid_history_snapshot"@,
                message: "history snapshot payload is invalid JSON: "@ + m@,
            },
        },
{
    match decoded {
        Ok(v) => Ok(v),
        Err(m) => {
            let mut message = owned("history snapshot payload is invalid JSON: ");
            push_str(&mut message, m.as_str());
            Err(ProtocolError::new("invalid_history_snapshot", message))
        },
    }
}

/// The JSON text carried by a queue snapshot response line; reading the
/// snapshot out of it is the caller's, with `queue_snapshot_from_json`.
pub fn parse_queue_snapshot_line(line: &str) -> (r: Result<String, ProtocolError>)
    ensures
        match r {
            Ok(p) => snapshot_payload(line@, "queue_snapshot"@) == Ok::<Seq<char>, ErrorModel>(p@),
            Err(e) => snapshot_payload(line@, "queue_snapshot"@) == Err::<Seq<char>, ErrorModel>(e@),
        },
{
    snapshot_unframe(line, "queue_snapshot")
}

/// The JSON text carried by a history snapshot response line; reading the
/// snapshot out of it is the caller's, with `history_snapshot_from_json`.
pub fn parse_history_snapshot_line(line: &str) -> (r: Result<String, ProtocolError>)
    ensures
        match r {
            Ok(p) => snapshot_payload(line@, "history_snapshot"@) == Ok::<Seq<char>, ErrorModel>(p@),
            Err(e) => snapshot_payload(line@, "history_snapshot"@) == Err::<Seq<char>, ErrorModel>(e@),
        },
{
    snapshot_unframe(line, "history_snapshot")
}

} // verus!
