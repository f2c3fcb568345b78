//! Lines written by the formatters read back as what was written.

use vstd::prelude::*;
use crate::protocol::{
    bool_from_text, bool_text, class_name, lemma_class_name_round_trip, event_from_line, event_line, prefixed_fields, require, EventModel,
    fields_of, lookup, optional_text, optional_value, response_parts, sanitize, state_from_name,
    state_name, status_from_line, status_line, ErrorModel, Fields, StatusModel,
    lemma_state_name_round_trip,
};
use crate::snapshot::{snapshot_line, snapshot_payload};
use crate::text::{
    decimal, is_ws, lemma_decimal_digits, lemma_index_of_first_at, lemma_index_of_first_none,
    lemma_parse_decimal, lemma_split_after_word, lemma_trim_fixed, parse_unsigned, split_on, trim,
};

verus! {

/// The text `key=value` of a field.
pub open spec fn field_text(f: (Seq<char>, Seq<char>)) -> Seq<char> {
    f.0 + seq!['='] + f.1
}

/// The fields written one after another, each after a tab.
pub open spec fn field_tail(fs: Fields) -> Seq<char>
    decreases fs.len(),
{
    if fs.len() == 0 {
        Seq::empty()
    } else {
        seq!['\t'] + field_text(fs[0]) + field_tail(fs.drop_first())
    }
}

/// Whether `c` does not occur in `s`.
pub open spec fn lacks(s: Seq<char>, c: char) -> bool {
    forall|i: int| 0 <= i < s.len() ==> s[i] != c
}

/// Fields that can be written on a line and split apart again: no tab anywhere,
/// and no `=` in a key.
pub open spec fn plain_fields(fs: Fields) -> bool {
    forall|i: int|
        0 <= i < fs.len() ==> lacks(#[trigger] fs[i].0, '\t') && lacks(fs[i].0, '=') && lacks(
            fs[i].1,
            '\t',
        )
}

proof fn lemma_field_text_lacks_tab(f: (Seq<char>, Seq<char>))
    requires
        lacks(f.0, '\t'),
        lacks(f.1, '\t'),
    ensures
        lacks(field_text(f), '\t'),
{
    let t = field_text(f);
    assert forall|i: int| 0 <= i < t.len() implies t[i] != '\t' by {
        if i < f.0.len() {
            assert(t[i] == f.0[i]);
        } else if i > f.0.len() {
            assert(t[i] == f.1[i - f.0.len() - 1]);
        }
    }
}

/// Splitting `head` and the fields after it at tabs gives `head` and the text
/// of each field.
proof fn lemma_split_fields(head: Seq<char>, fs: Fields)
    requires
        lacks(head, '\t'),
        plain_fields(fs),
    ensures
        split_on(head + field_tail(fs), '\t') == seq![head] + fs.map_values(
            |f: (Seq<char>, Seq<char>)| field_text(f),
        ),
    decreases fs.len(),
{
    let ft = fs.map_values(|f: (Seq<char>, Seq<char>)| field_text(f));
    if fs.len() == 0 {
        assert(head + field_tail(fs) =~= head);
        lemma_index_of_first_none(head, '\t');
        assert(seq![head] + ft =~= seq![head]);
    } else {
        let rest = fs.drop_first();
        let first = field_text(fs[0]);
        assert(plain_fields(rest)) by {
            assert forall|i: int| 0 <= i < rest.len() implies lacks(#[trigger] rest[i].0, '\t')
                && lacks(rest[i].0, '=') && lacks(rest[i].1, '\t') by {
                assert(rest[i] == fs[i + 1]);
            }
        }
        assert(lacks(fs[0].0, '\t') && lacks(fs[0].1, '\t'));
        lemma_field_text_lacks_tab(fs[0]);
        let s = head + field_tail(fs);
        let tail = first + field_tail(rest);
        assert(s =~= head + seq!['\t'] + tail);
        assert(s[head.len() as int] == '\t');
        assert forall|j: int| 0 <= j < head.len() implies s[j] != '\t' by {
            assert(s[j] == head[j]);
        }
        lemma_index_of_first_at(s, '\t', head.len() as int);
        assert(s.take(head.len() as int) =~= head);
        assert(s.skip(head.len() as int + 1) =~= tail);
        lemma_split_fields(first, rest);
        let rt = rest.map_values(|f: (Seq<char>, Seq<char>)| field_text(f));
        assert(ft =~= seq![first] + rt);
        assert(seq![head] + (seq![first] + rt) =~= seq![head] + ft);
    }
}

/// The texts of plain fields read back as those fields.
proof fn lemma_fields_of(fs: Fields, missing_eq: Seq<char>)
    requires
        plain_fields(fs),
    ensures
        fields_of(fs.map_values(|f: (Seq<char>, Seq<char>)| field_text(f)), missing_eq) == Ok::<
            Fields,
            ErrorModel,
        >(fs),
    decreases fs.len(),
{
    let ft = fs.map_values(|f: (Seq<char>, Seq<char>)| field_text(f));
    if fs.len() == 0 {
        assert(fs =~= Seq::<(Seq<char>, Seq<char>)>::empty());
    } else {
        let rest = fs.drop_first();
        assert(plain_fields(rest)) by {
            assert forall|i: int| 0 <= i < rest.len() implies lacks(#[trigger] rest[i].0, '\t')
                && lacks(rest[i].0, '=') && lacks(rest[i].1, '\t') by {
                assert(rest[i] == fs[i + 1]);
            }
        }
        assert(lacks(fs[0].0, '='));
        lemma_split_after_word(fs[0].0, '=', fs[0].1);
        lemma_fields_of(rest, missing_eq);
        assert(ft.drop_first() =~= rest.map_values(|f: (Seq<char>, Seq<char>)| field_text(f)));
        assert(ft[0] == field_text(fs[0]));
        assert(seq![(fs[0].0, fs[0].1)] + rest =~= fs);
    }
}

/// The fields of the status line for `s`.
pub open spec fn status_fields(s: StatusModel) -> Fields {
    seq![
        ("kind"@, "status"@),
        ("state"@, state_name(s.state)),
        ("order_mode"@, sanitize(s.order_mode)),
        ("repeat_mode"@, sanitize(s.repeat_mode)),
        ("current_track"@, optional_text(s.current_track)),
        ("last_command"@, optional_text(s.last_command)),
        ("queue_entries"@, decimal(s.queue_entries as nat)),
    ]
}

/// Text that a status or event field carries unchanged: no tab and no line break.
pub open spec fn wire_safe(s: Seq<char>) -> bool {
    forall|i: int| 0 <= i < s.len() ==> #[trigger] s[i] != '\t' && s[i] != '\r' && s[i] != '\n'
}

/// An optional field that reads back as itself: absent, or a wire-safe value
/// that is neither empty nor `-`.
pub open spec fn optional_safe(v: Option<Seq<char>>) -> bool {
    match v {
        None => true,
        Some(raw) => raw.len() > 0 && raw != "-"@ && wire_safe(raw),
    }
}

proof fn lemma_sanitize_safe(s: Seq<char>)
    requires
        wire_safe(s),
    ensures
        sanitize(s) == s,
        lacks(s, '\t'),
{
    assert(sanitize(s) =~= s);
}

proof fn lemma_optional_safe(v: Option<Seq<char>>)
    requires
        optional_safe(v),
    ensures
        optional_value(optional_text(v)) == v,
        lacks(optional_text(v), '\t'),
{
    reveal_strlit("-");
    match v {
        None => {},
        Some(raw) => lemma_sanitize_safe(raw),
    }
}

proof fn lemma_tail_step(f: (Seq<char>, Seq<char>), rest: Fields)
    ensures
        field_tail(seq![f] + rest) == seq!['\t'] + f.0 + seq!['='] + f.1 + field_tail(rest),
{
    assert((seq![f] + rest).drop_first() =~= rest);
    assert(seq!['\t'] + field_text(f) + field_tail(rest) =~= seq!['\t'] + f.0 + seq!['='] + f.1
        + field_tail(rest));
}

/// The status line is `OK` followed by the status fields.
#[verifier::rlimit(80)]
proof fn lemma_status_line_shape(s: StatusModel)
    ensures
        status_line(s) == "OK"@ + field_tail(status_fields(s)),
{
    reveal_strlit("OK");
    reveal_strlit("kind");
    reveal_strlit("status");
    reveal_strlit("state");
    reveal_strlit("order_mode");
    reveal_strlit("repeat_mode");
    reveal_strlit("current_track");
    reveal_strlit("last_command");
    reveal_strlit("queue_entries");
    reveal_strlit("OK\tkind=status\tstate=");
    reveal_strlit("\torder_mode=");
    reveal_strlit("\trepeat_mode=");
    reveal_strlit("\tcurrent_track=");
    reveal_strlit("\tlast_command=");
    reveal_strlit("\tqueue_entries=");
    let fs = status_fields(s);
    let f6 = seq![fs[6]];
    let f5 = seq![fs[5]] + f6;
    let f4 = seq![fs[4]] + f5;
    let f3 = seq![fs[3]] + f4;
    let f2 = seq![fs[2]] + f3;
    let f1 = seq![fs[1]] + f2;
    assert(fs =~= seq![fs[0]] + f1);
    assert(field_tail(Seq::<(Seq<char>, Seq<char>)>::empty()) == Seq::<char>::empty());
    assert(f6 =~= seq![fs[6]] + Seq::<(Seq<char>, Seq<char>)>::empty());
    lemma_tail_step(fs[6], Seq::empty());
    lemma_tail_step(fs[5], f6);
    lemma_tail_step(fs[4], f5);
    lemma_tail_step(fs[3], f4);
    lemma_tail_step(fs[2], f3);
    lemma_tail_step(fs[1], f2);
    lemma_tail_step(fs[0], f1);
    assert(status_line(s) =~= "OK"@ + field_tail(fs));
}

/// The first field named `name` is the one at `i`.
pub proof fn lemma_lookup_at(fs: Fields, name: Seq<char>, i: int)
    requires
        0 <= i < fs.len(),
        fs[i].0 == name,
        forall|j: int| 0 <= j < i ==> (#[trigger] fs[j]).0 != name,
    ensures
        lookup(fs, name) == Some(fs[i].1),
    decreases i,
{
    if i > 0 {
        let rest = fs.drop_first();
        assert forall|j: int| 0 <= j < i - 1 implies (#[trigger] rest[j]).0 != name by {
            assert(rest[j] == fs[j + 1]);
        }
        lemma_lookup_at(rest, name, i - 1);
    }
}

proof fn lemma_literal_lacks(s: Seq<char>, c: char)
    requires
        forall|i: int| 0 <= i < s.len() ==> ('a' <= #[trigger] s[i] <= 'z' || s[i] == '_' || 'A' <= s[i] <= 'Z'),
        c == '\t' || c == '=',
    ensures
        lacks(s, c),
{
}

proof fn lemma_status_fields_plain(s: StatusModel)
    requires
        wire_safe(s.order_mode),
        wire_safe(s.repeat_mode),
        optional_safe(s.current_track),
        optional_safe(s.last_command),
    ensures
        plain_fields(status_fields(s)),
{
    reveal_strlit("kind");
    reveal_strlit("status");
    reveal_strlit("state");
    reveal_strlit("order_mode");
    reveal_strlit("repeat_mode");
    reveal_strlit("current_track");
    reveal_strlit("last_command");
    reveal_strlit("queue_entries");
    reveal_strlit("idle");
    reveal_strlit("pre_quiet");
    reveal_strlit("quiet_active");
    reveal_strlit("paused");
    reveal_strlit("quiet_error_hold");
    reveal_strlit("stopped");
    let fs = status_fields(s);
    lemma_sanitize_safe(s.order_mode);
    lemma_sanitize_safe(s.repeat_mode);
    lemma_optional_safe(s.current_track);
    lemma_optional_safe(s.last_command);
    lemma_decimal_digits(s.queue_entries as nat);
    let q = decimal(s.queue_entries as nat);
    assert(lacks(q, '\t')) by {
        assert forall|i: int| 0 <= i < q.len() implies q[i] != '\t' by {
            assert(crate::text::is_digit(q[i]));
        }
    }
    let sn = state_name(s.state);
    lemma_literal_lacks(sn, '\t');
    assert forall|i: int| 0 <= i < fs.len() implies lacks(#[trigger] fs[i].0, '\t') && lacks(
        fs[i].0,
        '=',
    ) && lacks(fs[i].1, '\t') by {
        lemma_literal_lacks(fs[i].0, '\t');
        lemma_literal_lacks(fs[i].0, '=');
        if i == 0 {
            lemma_literal_lacks(fs[i].1, '\t');
        }
    }
}

/// A status whose text fields are wire-safe, and whose optional fields are
/// absent or neither empty nor `-`, reads back from its status line unchanged.
#[verifier::rlimit(80)]
pub proof fn lemma_status_round_trip(s: StatusModel)
    requires
        wire_safe(s.order_mode),
        wire_safe(s.repeat_mode),
        optional_safe(s.current_track),
        optional_safe(s.last_command),
    ensures
        status_from_line(status_line(s)) == Ok::<StatusModel, ErrorModel>(s),
{
    let fs = status_fields(s);
    let line = status_line(s);
    lemma_status_line_shape(s);
    lemma_status_fields_plain(s);
    reveal_strlit("OK");
    assert(lacks("OK"@, '\t'));
    lemma_split_fields("OK"@, fs);
    lemma_fields_of(fs, "response field is missing '=': "@);
    let q = decimal(s.queue_entries as nat);
    lemma_decimal_digits(s.queue_entries as nat);
    lemma_parse_decimal(s.queue_entries as nat, usize::MAX as nat);
    assert(crate::text::is_digit(q.last()));
    reveal_with_fuel(field_tail, 2);
    assert(line.last() == q.last());
    assert(line[0] == 'O');
    lemma_trim_fixed(line);
    let ft = fs.map_values(|f: (Seq<char>, Seq<char>)| field_text(f));
    assert((seq!["OK"@] + ft)[0] == "OK"@);
    assert((seq!["OK"@] + ft).drop_first() =~= ft);
    assert(response_parts(line) == Ok::<(Seq<char>, Fields), ErrorModel>(("OK"@, fs)));
    lemma_state_name_round_trip(s.state);
    lemma_optional_safe(s.current_track);
    lemma_optional_safe(s.last_command);
    lemma_sanitize_safe(s.order_mode);
    lemma_sanitize_safe(s.repeat_mode);
    reveal_strlit("kind");
    reveal_strlit("status");
    reveal_strlit("state");
    reveal_strlit("order_mode");
    reveal_strlit("repeat_mode");
    reveal_strlit("current_track");
    reveal_strlit("last_command");
    reveal_strlit("queue_entries");
    reveal_with_fuel(lookup, 8);
    assert(lookup(fs, "kind"@) == Some("status"@));
    assert(lookup(fs, "state"@) == Some(state_name(s.state)));
    assert("queue_entries"@[0] != "current_track"@[0]);
    lemma_lookup_at(fs, "queue_entries"@, 6);
    assert(lookup(fs, "order_mode"@) == Some(s.order_mode));
    assert(lookup(fs, "repeat_mode"@) == Some(s.repeat_mode));
    assert(lookup(fs, "current_track"@) == Some(optional_text(s.current_track)));
    lemma_lookup_at(fs, "last_command"@, 5);
}

/// The fields of the event line for `e`.
pub open spec fn event_fields(e: EventModel) -> Fields {
    match e {
        EventModel::PlayRequestAccepted { track_id } => seq![
            ("name"@, "PLAY_REQUEST_ACCEPTED"@),
            ("track_id"@, sanitize(track_id)),
        ],
        EventModel::PlaybackStarted { track_id } => seq![
            ("name"@, "PLAYBACK_STARTED"@),
            ("track_id"@, sanitize(track_id)),
        ],
        EventModel::PlaybackPaused => seq![("name"@, "PLAYBACK_PAUSED"@)],
        EventModel::PlaybackResumed => seq![("name"@, "PLAYBACK_RESUMED"@)],
        EventModel::PlaybackStopped { reason } => seq![
            ("name"@, "PLAYBACK_STOPPED"@),
            ("reason"@, sanitize(reason)),
        ],
        EventModel::TrackChanged { track_id } => seq![
            ("name"@, "TRACK_CHANGED"@),
            ("track_id"@, sanitize(track_id)),
        ],
        EventModel::PlaybackFailed { reason, class, recoverable, keep_quiet } => seq![
            ("name"@, "PLAYBACK_FAILED"@),
            ("reason"@, sanitize(reason)),
            ("class"@, class_name(class)),
            ("recoverable"@, bool_text(recoverable)),
            ("keep_quiet"@, bool_text(keep_quiet)),
        ],
    }
}

/// Text that an event field carries unchanged, at the end of a line too:
/// wire-safe, and not ending in whitespace.
pub open spec fn event_text_safe(t: Seq<char>) -> bool {
    wire_safe(t) && (t.len() == 0 || !is_ws(t.last()))
}

/// An event whose text fields are safe to carry.
pub open spec fn event_safe(e: EventModel) -> bool {
    match e {
        EventModel::PlayRequestAccepted { track_id } => event_text_safe(track_id),
        EventModel::PlaybackStarted { track_id } => event_text_safe(track_id),
        EventModel::PlaybackStopped { reason } => event_text_safe(reason),
        EventModel::TrackChanged { track_id } => event_text_safe(track_id),
        EventModel::PlaybackFailed { reason, .. } => wire_safe(reason),
        _ => true,
    }
}

proof fn lemma_two_fields(a: (Seq<char>, Seq<char>), b: (Seq<char>, Seq<char>))
    ensures
        field_tail(seq![a, b]) == seq!['\t'] + a.0 + seq!['='] + a.1 + (seq!['\t'] + b.0 + seq!['='] + b.1),
{
    lemma_tail_step(b, Seq::empty());
    assert(seq![b] =~= seq![b] + Seq::<(Seq<char>, Seq<char>)>::empty());
    assert(seq![a, b] =~= seq![a] + seq![b]);
    lemma_tail_step(a, seq![b]);
    assert(field_tail(Seq::<(Seq<char>, Seq<char>)>::empty()) == Seq::<char>::empty());
    assert(seq!['\t'] + b.0 + seq!['='] + b.1 + Seq::<char>::empty() =~= seq!['\t'] + b.0 + seq!['='] + b.1);
}

/// The event line is `EVENT` followed by the event's fields.
#[verifier::rlimit(80)]
proof fn lemma_event_line_shape(e: EventModel)
    ensures
        event_line(e) == "EVENT"@ + field_tail(event_fields(e)),
{
    reveal_strlit("EVENT");
    reveal_strlit("name");
    reveal_strlit("track_id");
    reveal_strlit("reason");
    reveal_strlit("class");
    reveal_strlit("recoverable");
    reveal_strlit("keep_quiet");
    let fs = event_fields(e);
    assert(field_tail(Seq::<(Seq<char>, Seq<char>)>::empty()) == Seq::<char>::empty());
    match e {
        EventModel::PlaybackPaused => {
            reveal_strlit("PLAYBACK_PAUSED");
            reveal_strlit("EVENT\tname=PLAYBACK_PAUSED");
            assert(fs =~= seq![fs[0]] + Seq::<(Seq<char>, Seq<char>)>::empty());
            lemma_tail_step(fs[0], Seq::empty());
            assert(event_line(e) =~= "EVENT"@ + field_tail(fs));
        },
        EventModel::PlaybackResumed => {
            reveal_strlit("PLAYBACK_RESUMED");
            reveal_strlit("EVENT\tname=PLAYBACK_RESUMED");
            assert(fs =~= seq![fs[0]] + Seq::<(Seq<char>, Seq<char>)>::empty());
            lemma_tail_step(fs[0], Seq::empty());
            assert(event_line(e) =~= "EVENT"@ + field_tail(fs));
        },
        EventModel::PlayRequestAccepted { track_id } => {
            reveal_strlit("PLAY_REQUEST_ACCEPTED");
            reveal_strlit("EVENT\tname=PLAY_REQUEST_ACCEPTED\ttrack_id=");
            lemma_two_fields(fs[0], fs[1]);
            assert(fs =~= seq![fs[0], fs[1]]);
            assert(event_line(e) =~= "EVENT"@ + field_tail(fs));
        },
        EventModel::PlaybackStarted { track_id } => {
            reveal_strlit("PLAYBACK_STARTED");
            reveal_strlit("EVENT\tname=PLAYBACK_STARTED\ttrack_id=");
            lemma_two_fields(fs[0], fs[1]);
            assert(fs =~= seq![fs[0], fs[1]]);
            assert(event_line(e) =~= "EVENT"@ + field_tail(fs));
        },
        EventModel::PlaybackStopped { reason } => {
            reveal_strlit("PLAYBACK_STOPPED");
            reveal_strlit("EVENT\tname=PLAYBACK_STOPPED\treason=");
            lemma_two_fields(fs[0], fs[1]);
            assert(fs =~= seq![fs[0], fs[1]]);
            assert(event_line(e) =~= "EVENT"@ + field_tail(fs));
        },
        EventModel::TrackChanged { track_id } => {
            reveal_strlit("TRACK_CHANGED");
            reveal_strlit("EVENT\tname=TRACK_CHANGED\ttrack_id=");
            lemma_two_fields(fs[0], fs[1]);
            assert(fs =~= seq![fs[0], fs[1]]);
            assert(event_line(e) =~= "EVENT"@ + field_tail(fs));
        },
        EventModel::PlaybackFailed { reason, class, recoverable, keep_quiet } => {
            reveal_strlit("PLAYBACK_FAILED");
            reveal_strlit("EVENT\tname=PLAYBACK_FAILED\treason=");
            reveal_strlit("\tclass=");
            reveal_strlit("\trecoverable=");
            reveal_strlit("\tkeep_quiet=");
            let f4 = seq![fs[4]];
            let f3 = seq![fs[3]] + f4;
            let f2 = seq![fs[2]] + f3;
            let f1 = seq![fs[1]] + f2;
            assert(fs =~= seq![fs[0]] + f1);
            assert(f4 =~= seq![fs[4]] + Seq::<(Seq<char>, Seq<char>)>::empty());
            lemma_tail_step(fs[4], Seq::empty());
            lemma_tail_step(fs[3], f4);
            lemma_tail_step(fs[2], f3);
            lemma_tail_step(fs[1], f2);
            lemma_tail_step(fs[0], f1);
            assert(event_line(e) =~= "EVENT"@ + field_tail(fs));
        },
    }
}

/// The last character of written fields: that of the last value, or the `=`
/// before it when it is empty.
proof fn lemma_tail_last(fs: Fields)
    requires
        fs.len() > 0,
    ensures
        field_tail(fs).len() > 0,
        field_tail(fs).last() == (if fs.last().1.len() == 0 {
            '='
        } else {
            fs.last().1.last()
        }),
    decreases fs.len(),
{
    let rest = fs.drop_first();
    if rest.len() == 0 {
        assert(field_tail(rest) == Seq::<char>::empty());
        assert(field_tail(fs) =~= seq!['\t'] + field_text(fs[0]));
    } else {
        lemma_tail_last(rest);
        assert(rest.last() == fs.last());
    }
}

proof fn lemma_sanitize_lacks_tab(t: Seq<char>)
    ensures
        lacks(sanitize(t), '\t'),
{
}

proof fn lemma_event_fields_plain(e: EventModel)
    ensures
        plain_fields(event_fields(e)),
{
    reveal_strlit("name");
    reveal_strlit("track_id");
    reveal_strlit("reason");
    reveal_strlit("class");
    reveal_strlit("recoverable");
    reveal_strlit("keep_quiet");
    reveal_strlit("PLAY_REQUEST_ACCEPTED");
    reveal_strlit("PLAYBACK_STARTED");
    reveal_strlit("PLAYBACK_PAUSED");
    reveal_strlit("PLAYBACK_RESUMED");
    reveal_strlit("PLAYBACK_STOPPED");
    reveal_strlit("TRACK_CHANGED");
    reveal_strlit("PLAYBACK_FAILED");
    reveal_strlit("output");
    reveal_strlit("content");
    reveal_strlit("true");
    reveal_strlit("false");
    let fs = event_fields(e);
    assert forall|i: int| 0 <= i < fs.len() implies lacks(#[trigger] fs[i].0, '\t') && lacks(
        fs[i].0,
        '=',
    ) && lacks(fs[i].1, '\t') by {
        lemma_literal_lacks(fs[i].0, '\t');
        lemma_literal_lacks(fs[i].0, '=');
        if i == 0 {
            lemma_literal_lacks(fs[i].1, '\t');
        } else {
            match e {
                EventModel::PlaybackFailed { reason, class, recoverable, keep_quiet } => {
                    if i == 1 {
                        lemma_sanitize_lacks_tab(reason);
                    } else {
                        lemma_literal_lacks(fs[i].1, '\t');
                    }
                },
                EventModel::PlayRequestAccepted { track_id } => lemma_sanitize_lacks_tab(track_id),
                EventModel::PlaybackStarted { track_id } => lemma_sanitize_lacks_tab(track_id),
                EventModel::PlaybackStopped { reason } => lemma_sanitize_lacks_tab(reason),
                EventModel::TrackChanged { track_id } => lemma_sanitize_lacks_tab(track_id),
                _ => {},
            }
        }
    }
}

proof fn lemma_bool_round_trip(b: bool)
    ensures
        bool_from_text(bool_text(b)) == Ok::<bool, ErrorModel>(b),
{
    reveal_strlit("true");
    reveal_strlit("false");
    assert("true"@.len() != "false"@.len());
}

proof fn lemma_failed_from_fields(
    line: Seq<char>,
    fs: Fields,
    reason: Seq<char>,
    class: crate::protocol::PlaybackFailureClass,
    recoverable: bool,
    keep_quiet: bool,
)
    requires
        prefixed_fields(line, "EVENT"@) == Ok::<Fields, ErrorModel>(fs),
        require(fs, "name"@) == Ok::<Seq<char>, ErrorModel>("PLAYBACK_FAILED"@),
        require(fs, "reason"@) == Ok::<Seq<char>, ErrorModel>(reason),
        require(fs, "class"@) == Ok::<Seq<char>, ErrorModel>(class_name(class)),
        require(fs, "recoverable"@) == Ok::<Seq<char>, ErrorModel>(bool_text(recoverable)),
        require(fs, "keep_quiet"@) == Ok::<Seq<char>, ErrorModel>(bool_text(keep_quiet)),
    ensures
        event_from_line(line) == Ok::<EventModel, ErrorModel>(
            EventModel::PlaybackFailed { reason, class, recoverable, keep_quiet },
        ),
{
    reveal_strlit("PLAY_REQUEST_ACCEPTED");
    reveal_strlit("PLAYBACK_STARTED");
    reveal_strlit("PLAYBACK_PAUSED");
    reveal_strlit("PLAYBACK_RESUMED");
    reveal_strlit("PLAYBACK_STOPPED");
    reveal_strlit("TRACK_CHANGED");
    reveal_strlit("PLAYBACK_FAILED");
    reveal_strlit("true");
    reveal_strlit("false");
    lemma_class_name_round_trip(class);
    assert("PLAYBACK_FAILED"@[9] != "PLAYBACK_PAUSED"@[9]);
    lemma_bool_round_trip(recoverable);
    lemma_bool_round_trip(keep_quiet);
}

/// An event whose text fields are wire-safe (and, at the end of the line, do
/// not end in whitespace) reads back from its event line unchanged.
#[verifier::rlimit(80)]
pub proof fn lemma_event_round_trip(e: EventModel)
    requires
        event_safe(e),
    ensures
        event_from_line(event_line(e)) == Ok::<EventModel, ErrorModel>(e),
{
    let fs = event_fields(e);
    let line = event_line(e);
    lemma_event_line_shape(e);
    lemma_event_fields_plain(e);
    reveal_strlit("EVENT");
    assert(lacks("EVENT"@, '\t'));
    lemma_split_fields("EVENT"@, fs);
    lemma_fields_of(fs, "field is missing '=': "@);
    lemma_tail_last(fs);
    reveal_strlit("PLAYBACK_PAUSED");
    reveal_strlit("PLAYBACK_RESUMED");
    reveal_strlit("true");
    reveal_strlit("false");
    match e {
        EventModel::PlayRequestAccepted { track_id } => lemma_sanitize_safe(track_id),
        EventModel::PlaybackStarted { track_id } => lemma_sanitize_safe(track_id),
        EventModel::PlaybackStopped { reason } => lemma_sanitize_safe(reason),
        EventModel::TrackChanged { track_id } => lemma_sanitize_safe(track_id),
        EventModel::PlaybackFailed { reason, .. } => lemma_sanitize_safe(reason),
        _ => {},
    }
    assert(!is_ws(line.last()));
    assert(line[0] == 'E');
    lemma_trim_fixed(line);
    let ft = fs.map_values(|f: (Seq<char>, Seq<char>)| field_text(f));
    assert((seq!["EVENT"@] + ft)[0] == "EVENT"@);
    assert((seq!["EVENT"@] + ft).drop_first() =~= ft);
    assert(prefixed_fields(line, "EVENT"@) == Ok::<Fields, ErrorModel>(fs));
    reveal_strlit("name");
    reveal_strlit("track_id");
    reveal_strlit("reason");
    reveal_strlit("class");
    reveal_strlit("recoverable");
    reveal_strlit("keep_quiet");
    reveal_strlit("PLAY_REQUEST_ACCEPTED");
    reveal_strlit("PLAYBACK_STARTED");
    reveal_strlit("PLAYBACK_STOPPED");
    reveal_strlit("TRACK_CHANGED");
    reveal_strlit("PLAYBACK_FAILED");
    lemma_lookup_at(fs, "name"@, 0);
    match e {
        EventModel::PlaybackFailed { reason, class, recoverable, keep_quiet } => {
            lemma_lookup_at(fs, "reason"@, 1);
            lemma_lookup_at(fs, "class"@, 2);
            lemma_lookup_at(fs, "recoverable"@, 3);
            assert(fs[0].0.len() != "keep_quiet"@.len());
            assert(fs[1].0.len() != "keep_quiet"@.len());
            assert(fs[2].0.len() != "keep_quiet"@.len());
            assert(fs[3].0.len() != "keep_quiet"@.len());
            lemma_lookup_at(fs, "keep_quiet"@, 4);
            lemma_class_name_round_trip(class);
            assert("PLAYBACK_FAILED"@[9] != "PLAYBACK_PAUSED"@[9]);
            lemma_failed_from_fields(line, fs, reason, class, recoverable, keep_quiet);
        },
        EventModel::PlayRequestAccepted { track_id } => {
            lemma_lookup_at(fs, "track_id"@, 1);
        },
        EventModel::PlaybackStarted { track_id } => {
            lemma_lookup_at(fs, "track_id"@, 1);
        },
        EventModel::PlaybackStopped { reason } => {
            lemma_lookup_at(fs, "reason"@, 1);
            assert("PLAYBACK_STOPPED"@[11] != "PLAYBACK_STARTED"@[11]);
        },
        EventModel::TrackChanged { track_id } => {
            lemma_lookup_at(fs, "track_id"@, 1);
        },
        EventModel::PlaybackPaused => {
        },
        EventModel::PlaybackResumed => {
            assert("PLAYBACK_RESUMED"@[9] != "PLAYBACK_STARTED"@[9]);
        },
    }
}

/// A snapshot payload framed into a response line reads back unchanged when it
/// is wire-safe and does not end in whitespace; `kind` is a word of lower-case
/// letters and underscores.
#[verifier::rlimit(40)]
pub proof fn lemma_snapshot_round_trip(kind: Seq<char>, payload: Seq<char>)
    requires
        kind.len() > 0,
        forall|i: int| 0 <= i < kind.len() ==> ('a' <= #[trigger] kind[i] <= 'z' || kind[i] == '_'),
        event_text_safe(payload),
    ensures
        snapshot_payload(snapshot_line(kind, payload), kind) == Ok::<Seq<char>, ErrorModel>(payload),
{
    reveal_strlit("OK");
    reveal_strlit("kind");
    reveal_strlit("payload");
    reveal_strlit("OK\tkind=");
    reveal_strlit("\tpayload=");
    let fs = seq![("kind"@, kind), ("payload"@, sanitize(payload))];
    let line = snapshot_line(kind, payload);
    lemma_two_fields(fs[0], fs[1]);
    assert(fs =~= seq![fs[0], fs[1]]);
    assert(line =~= "OK"@ + field_tail(fs));
    lemma_sanitize_safe(payload);
    lemma_literal_lacks(kind, '\t');
    assert(plain_fields(fs)) by {
        assert forall|i: int| 0 <= i < fs.len() implies lacks(#[trigger] fs[i].0, '\t') && lacks(
            fs[i].0,
            '=',
        ) && lacks(fs[i].1, '\t') by {
            lemma_literal_lacks(fs[i].0, '\t');
            lemma_literal_lacks(fs[i].0, '=');
        }
    }
    assert(lacks("OK"@, '\t'));
    lemma_split_fields("OK"@, fs);
    lemma_fields_of(fs, "response field is missing '=': "@);
    lemma_tail_last(fs);
    assert(!is_ws(line.last()));
    assert(line[0] == 'O');
    lemma_trim_fixed(line);
    let ft = fs.map_values(|f: (Seq<char>, Seq<char>)| field_text(f));
    assert((seq!["OK"@] + ft)[0] == "OK"@);
    assert((seq!["OK"@] + ft).drop_first() =~= ft);
    assert(response_parts(line) == Ok::<(Seq<char>, Fields), ErrorModel>(("OK"@, fs)));
    lemma_lookup_at(fs, "kind"@, 0);
    lemma_lookup_at(fs, "payload"@, 1);
}

} // verus!
