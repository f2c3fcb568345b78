//! The line protocol spoken on the playback command and event sockets.

use vstd::prelude::*;
use crate::json::{decode_string_list, json_string_list};
use crate::text::{
    append_chars, chars_of, copy_range, decimal, eq_str, owned, push_str, split_chars, split_on,
    parse_unsigned, parse_usize, split_once, split_once_chars, string_from, trim, trimmed,
    usize_decimal, views,
};

verus! {

/// The playback state reported in acknowledgements and status lines.
#[derive(Debug, Clone, Copy, PartialEq, Eq, Structural)]
pub enum PlaybackState {
    Idle,
    PreQuiet,
    QuietActive,
    Paused,
    QuietErrorHold,
    Stopped,
}

/// The wire name of a playback state.
pub open spec fn state_name(s: PlaybackState) -> Seq<char> {
    match s {
        PlaybackState::Idle => "idle"@,
        PlaybackState::PreQuiet => "pre_quiet"@,
        PlaybackState::QuietActive => "quiet_active"@,
        PlaybackState::Paused => "paused"@,
        PlaybackState::QuietErrorHold => "quiet_error_hold"@,
        PlaybackState::Stopped => "stopped"@,
    }
}

/// The playback state whose wire name is `raw`, if any.
pub open spec fn state_from_name(raw: Seq<char>) -> Option<PlaybackState> {
    if raw == "idle"@ {
        Some(PlaybackState::Idle)
    } else if raw == "pre_quiet"@ {
        Some(PlaybackState::PreQuiet)
    } else if raw == "quiet_active"@ {
        Some(PlaybackState::QuietActive)
    } else if raw == "paused"@ {
        Some(PlaybackState::Paused)
    } else if raw == "quiet_error_hold"@ {
        Some(PlaybackState::QuietErrorHold)
    } else if raw == "stopped"@ {
        Some(PlaybackState::Stopped)
    } else {
        None
    }
}

impl PlaybackState {
    pub fn as_str(&self) -> (r: &'static str)
        ensures
            r@ == state_name(*self),
    {
        match self {
            PlaybackState::Idle => "idle",
            PlaybackState::PreQuiet => "pre_quiet",
            PlaybackState::QuietActive => "quiet_active",
            PlaybackState::Paused => "paused",
            PlaybackState::QuietErrorHold => "quiet_error_hold",
            PlaybackState::Stopped => "stopped",
        }
    }

    pub fn parse(raw: &str) -> (r: Option<PlaybackState>)
        ensures
            r == state_from_name(raw@),
    {
        let c = chars_of(raw);
        Self::parse_chars(c.as_slice())
    }

    pub fn parse_chars(raw: &[char]) -> (r: Option<PlaybackState>)
        ensures
            r == state_from_name(raw@),
    {
        if eq_str(raw, "idle") {
            Some(PlaybackState::Idle)
        } else if eq_str(raw, "pre_quiet") {
            Some(PlaybackState::PreQuiet)
        } else if eq_str(raw, "quiet_active") {
            Some(PlaybackState::QuietActive)
        } else if eq_str(raw, "paused") {
            Some(PlaybackState::Paused)
        } else if eq_str(raw, "quiet_error_hold") {
            Some(PlaybackState::QuietErrorHold)
        } else if eq_str(raw, "stopped") {
            Some(PlaybackState::Stopped)
        } else {
            None
        }
    }
}

/// Reading back the wire name of a state gives the state, and no two states
/// share a wire name.
pub proof fn lemma_state_name_round_trip(s: PlaybackState)
    ensures
        state_from_name(state_name(s)) == Some(s),
        forall|t: PlaybackState| state_name(t) == state_name(s) ==> t == s,
{
    reveal_strlit("idle");
    reveal_strlit("pre_quiet");
    reveal_strlit("quiet_active");
    reveal_strlit("paused");
    reveal_strlit("quiet_error_hold");
    reveal_strlit("stopped");
    assert("idle"@.len() == 4);
    assert("pre_quiet"@.len() == 9);
    assert("quiet_active"@.len() == 12);
    assert("paused"@.len() == 6);
    assert("quiet_error_hold"@.len() == 16);
    assert("stopped"@.len() == 7);
}

/// Whether a playback failure lies with the audio output or with the content.
#[derive(Debug, Clone, Copy, PartialEq, Eq, Structural)]
pub enum PlaybackFailureClass {
    Output,
    Content,
}

pub open spec fn class_name(c: PlaybackFailureClass) -> Seq<char> {
    match c {
        PlaybackFailureClass::Output => "output"@,
        PlaybackFailureClass::Content => "content"@,
    }
}

pub open spec fn class_from_name(raw: Seq<char>) -> Option<PlaybackFailureClass> {
    if raw == "output"@ {
        Some(PlaybackFailureClass::Output)
    } else if raw == "content"@ {
        Some(PlaybackFailureClass::Content)
    } else {
        None
    }
}

impl PlaybackFailureClass {
    pub fn as_str(&self) -> (r: &'static str)
        ensures
            r@ == class_name(*self),
    {
        match self {
            PlaybackFailureClass::Output => "output",
            PlaybackFailureClass::Content => "content",
        }
    }

    pub fn parse(raw: &str) -> (r: Option<PlaybackFailureClass>)
        ensures
            r == class_from_name(raw@),
    {
        let c = chars_of(raw);
        Self::parse_chars(c.as_slice())
    }

    pub fn parse_chars(raw: &[char]) -> (r: Option<PlaybackFailureClass>)
        ensures
            r == class_from_name(raw@),
    {
        if eq_str(raw, "output") {
            Some(PlaybackFailureClass::Output)
        } else if eq_str(raw, "content") {
            Some(PlaybackFailureClass::Content)
        } else {
            None
        }
    }
}

/// Reading back the wire name of a failure class gives the class.
pub proof fn lemma_class_name_round_trip(c: PlaybackFailureClass)
    ensures
        class_from_name(class_name(c)) == Some(c),
{
    reveal_strlit("output");
    reveal_strlit("content");
    assert("output"@.len() == 6);
    assert("content"@.len() == 7);
}

/// The views of a sequence of strings.
pub open spec fn strs(v: Seq<String>) -> Seq<Seq<char>> {
    v.map_values(|s: String| s@)
}

/// The view of an optional string.
pub open spec fn opt_str(o: Option<String>) -> Option<Seq<char>> {
    match o {
        Some(s) => Some(s@),
        None => None,
    }
}

/// A protocol failure: a machine-readable code and a human-readable message.
#[derive(Debug, PartialEq, Eq)]
pub struct ProtocolError {
    pub code: &'static str,
    pub message: String,
}

/// The view of a protocol error: its code and its message.
pub struct ErrorModel {
    pub code: Seq<char>,
    pub message: Seq<char>,
}

impl View for ProtocolError {
    type V = ErrorModel;

    open spec fn view(&self) -> ErrorModel {
        ErrorModel { code: self.code@, message: self.message@ }
    }
}

pub open spec fn err_model(code: Seq<char>, message: Seq<char>) -> ErrorModel {
    ErrorModel { code, message }
}

impl ProtocolError {
    pub fn new(code: &'static str, message: String) -> (r: ProtocolError)
        ensures
            r@ == err_model(code@, message@),
    {
        ProtocolError { code, message }
    }

    /// The error as `code: message`, the form in which it is displayed.
    pub fn to_text(&self) -> (r: String)
        ensures
            r@ == self.code@ + ": "@ + self.message@,
    {
        let mut out = owned(self.code);
        push_str(&mut out, ": ");
        push_str(&mut out, self.message.as_str());
        out
    }
}

/// An error whose code and message are both literals.
pub(crate) fn err_lit(code: &'static str, message: &'static str) -> (r: ProtocolError)
    ensures
        r@ == err_model(code@, message@),
{
    ProtocolError { code, message: owned(message) }
}

/// An error whose message is a literal followed by the characters `tail`.
pub(crate) fn err_with(code: &'static str, message: &'static str, tail: &[char]) -> (r: ProtocolError)
    ensures
        r@ == err_model(code@, message@ + tail@),
{
    let mut m = owned(message);
    append_chars(&mut m, tail);
    ProtocolError { code, message: m }
}

/// A field value with tabs and line breaks replaced by spaces.
pub open spec fn sanitize(s: Seq<char>) -> Seq<char> {
    s.map_values(|c: char| if c == '\t' || c == '\r' || c == '\n' { ' ' } else { c })
}

/// `s` with tabs and line breaks replaced by spaces.
pub fn sanitize_chars(s: &[char]) -> (r: Vec<char>)
    ensures
        r@ == sanitize(s@),
{
    let mut out: Vec<char> = Vec::new();
    let mut i: usize = 0;
    while i < s.len()
        invariant
            i <= s@.len(),
            out@ == sanitize(s@.take(i as int)),
        decreases s@.len() - i,
    {
        let c = s[i];
        let d = if c == '\t' || c == '\r' || c == '\n' { ' ' } else { c };
        out.push(d);
        assert(sanitize(s@.take(i + 1)) =~= sanitize(s@.take(i as int)).push(d));
        i = i + 1;
    }
    assert(s@.take(s@.len() as int) =~= s@);
    out
}

/// The text written for an optional field: the sanitized value, or `-` when
/// the value is absent or empty.
pub open spec fn optional_text(v: Option<Seq<char>>) -> Seq<char> {
    match v {
        Some(raw) => if raw.len() > 0 {
            sanitize(raw)
        } else {
            "-"@
        },
        None => "-"@,
    }
}

/// The value read from an optional field: absent when it is `-`.
pub open spec fn optional_value(raw: Seq<char>) -> Option<Seq<char>> {
    if raw == "-"@ {
        None
    } else {
        Some(raw)
    }
}

pub(crate) fn push_sanitized(out: &mut String, s: &str)
    ensures
        final(out)@ == old(out)@ + sanitize(s@),
{
    let c = chars_of(s);
    let v = sanitize_chars(c.as_slice());
    append_chars(out, v.as_slice());
}

fn push_optional(out: &mut String, v: Option<&str>)
    ensures
        final(out)@ == old(out)@ + optional_text(match v {
            Some(s) => Some(s@),
            None => None,
        }),
{
    match v {
        Some(raw) => {
            if raw.unicode_len() > 0 {
                push_sanitized(out, raw);
            } else {
                push_str(out, "-");
            }
        },
        None => push_str(out, "-"),
    }
}

/// The acknowledgement line for `action`.
pub open spec fn ack_line(action: Seq<char>, state: PlaybackState, current: Option<Seq<char>>) -> Seq<char> {
    "OK\tkind=ack\taction="@ + sanitize(action) + "\tstate="@ + state_name(state)
        + "\tcurrent_track="@ + optional_text(current)
}

pub fn format_ack_line(action: &str, state: PlaybackState, current_track: Option<&str>) -> (r: String)
    ensures
        r@ == ack_line(action@, state, match current_track {
            Some(s) => Some(s@),
            None => None,
        }),
{
    let mut out = owned("OK\tkind=ack\taction=");
    push_sanitized(&mut out, action);
    push_str(&mut out, "\tstate=");
    push_str(&mut out, state.as_str());
    push_str(&mut out, "\tcurrent_track=");
    push_optional(&mut out, current_track);
    out
}

/// The error line for `code` and `message`.
pub open spec fn error_line(code: Seq<char>, message: Seq<char>) -> Seq<char> {
    "ERR\tcode="@ + sanitize(code) + "\tmessage="@ + sanitize(message)
}

pub fn format_error_line(code: &str, message: &str) -> (r: String)
    ensures
        r@ == error_line(code@, message@),
{
    let mut out = owned("ERR\tcode=");
    push_sanitized(&mut out, code);
    push_str(&mut out, "\tmessage=");
    push_sanitized(&mut out, message);
    out
}

} // verus!

verus! {

/// A snapshot of the playback status as reported on the command socket.
#[derive(Debug, PartialEq, Eq)]
pub struct PlaybackStatusSnapshot {
    pub state: PlaybackState,
    pub order_mode: String,
    pub repeat_mode: String,
    pub current_track: Option<String>,
    pub last_command: Option<String>,
    pub queue_entries: usize,
}

pub struct StatusModel {
    pub state: PlaybackState,
    pub order_mode: Seq<char>,
    pub repeat_mode: Seq<char>,
    pub current_track: Option<Seq<char>>,
    pub last_command: Option<Seq<char>>,
    pub queue_entries: usize,
}

impl View for PlaybackStatusSnapshot {
    type V = StatusModel;

    open spec fn view(&self) -> StatusModel {
        StatusModel {
            state: self.state,
            order_mode: self.order_mode@,
            repeat_mode: self.repeat_mode@,
            current_track: opt_str(self.current_track),
            last_command: opt_str(self.last_command),
            queue_entries: self.queue_entries,
        }
    }
}

impl Default for PlaybackStatusSnapshot {
    fn default() -> (r: Self)
        ensures
            r@ == (StatusModel {
                state: PlaybackState::Idle,
                order_mode: "sequential"@,
                repeat_mode: "off"@,
                current_track: None,
                last_command: None,
                queue_entries: 0,
            }),
    {
        PlaybackStatusSnapshot::default_status()
    }
}

impl PlaybackStatusSnapshot {
    /// The status of an idle player with an empty queue.
    pub fn default_status() -> (r: PlaybackStatusSnapshot)
        ensures
            r@ == (StatusModel {
                state: PlaybackState::Idle,
                order_mode: "sequential"@,
                repeat_mode: "off"@,
                current_track: None,
                last_command: None,
                queue_entries: 0,
            }),
    {
        PlaybackStatusSnapshot {
            state: PlaybackState::Idle,
            order_mode: owned("sequential"),
            repeat_mode: owned("off"),
            current_track: None,
            last_command: None,
            queue_entries: 0,
        }
    }
}

pub(crate) fn opt_as_str(o: &Option<String>) -> (r: Option<&str>)
    ensures
        match r {
            Some(s) => Some(s@),
            None => None::<Seq<char>>,
        } == opt_str(*o),
{
    match o {
        Some(s) => Some(s.as_str()),
        None => None,
    }
}

/// The status line for `s`.
pub open spec fn status_line(s: StatusModel) -> Seq<char> {
    "OK\tkind=status\tstate="@ + state_name(s.state) + "\torder_mode="@ + sanitize(s.order_mode)
        + "\trepeat_mode="@ + sanitize(s.repeat_mode) + "\tcurrent_track="@ + optional_text(
        s.current_track,
    ) + "\tlast_command="@ + optional_text(s.last_command) + "\tqueue_entries="@ + decimal(
        s.queue_entries as nat,
    )
}

pub fn format_status_line(status: &PlaybackStatusSnapshot) -> (r: String)
    ensures
        r@ == status_line(status@),
{
    let mut out = owned("OK\tkind=status\tstate=");
    push_str(&mut out, status.state.as_str());
    push_str(&mut out, "\torder_mode=");
    push_sanitized(&mut out, status.order_mode.as_str());
    push_str(&mut out, "\trepeat_mode=");
    push_sanitized(&mut out, status.repeat_mode.as_str());
    push_str(&mut out, "\tcurrent_track=");
    push_optional(&mut out, opt_as_str(&status.current_track));
    push_str(&mut out, "\tlast_command=");
    push_optional(&mut out, opt_as_str(&status.last_command));
    push_str(&mut out, "\tqueue_entries=");
    let d = usize_decimal(status.queue_entries);
    append_chars(&mut out, d.as_slice());
    out
}

/// An event broadcast to the subscribers of the event socket.
#[derive(Debug, PartialEq, Eq)]
pub enum PlaybackEvent {
    PlayRequestAccepted { track_id: String },
    PlaybackStarted { track_id: String },
    PlaybackPaused,
    PlaybackResumed,
    PlaybackStopped { reason: String },
    TrackChanged { track_id: String },
    PlaybackFailed {
        reason: String,
        class: PlaybackFailureClass,
        recoverable: bool,
        keep_quiet: bool,
    },
}

pub enum EventModel {
    PlayRequestAccepted { track_id: Seq<char> },
    PlaybackStarted { track_id: Seq<char> },
    PlaybackPaused,
    PlaybackResumed,
    PlaybackStopped { reason: Seq<char> },
    TrackChanged { track_id: Seq<char> },
    PlaybackFailed {
        reason: Seq<char>,
        class: PlaybackFailureClass,
        recoverable: bool,
        keep_quiet: bool,
    },
}

impl View for PlaybackEvent {
    type V = EventModel;

    open spec fn view(&self) -> EventModel {
        match self {
            PlaybackEvent::PlayRequestAccepted { track_id } => EventModel::PlayRequestAccepted {
                track_id: track_id@,
            },
            PlaybackEvent::PlaybackStarted { track_id } => EventModel::PlaybackStarted {
                track_id: track_id@,
            },
            PlaybackEvent::PlaybackPaused => EventModel::PlaybackPaused,
            PlaybackEvent::PlaybackResumed => EventModel::PlaybackResumed,
            PlaybackEvent::PlaybackStopped { reason } => EventModel::PlaybackStopped {
                reason: reason@,
            },
            PlaybackEvent::TrackChanged { track_id } => EventModel::TrackChanged {
                track_id: track_id@,
            },
            PlaybackEvent::PlaybackFailed { reason, class, recoverable, keep_quiet } =>
                EventModel::PlaybackFailed {
                reason: reason@,
                class: *class,
                recoverable: *recoverable,
                keep_quiet: *keep_quiet,
            },
        }
    }
}

/// The views of a sequence of events.
pub open spec fn events_view(v: Seq<PlaybackEvent>) -> Seq<EventModel> {
    v.map_values(|e: PlaybackEvent| e@)
}

/// How a boolean is written on the wire.
pub open spec fn bool_text(b: bool) -> Seq<char> {
    if b {
        "true"@
    } else {
        "false"@
    }
}

fn push_bool(out: &mut String, b: bool)
    ensures
        final(out)@ == old(out)@ + bool_text(b),
{
    if b {
        push_str(out, "true");
    } else {
        push_str(out, "false");
    }
}

/// The event line for `e`.
pub open spec fn event_line(e: EventModel) -> Seq<char> {
    match e {
        EventModel::PlayRequestAccepted { track_id } => "EVENT\tname=PLAY_REQUEST_ACCEPTED\ttrack_id="@
            + sanitize(track_id),
        EventModel::PlaybackStarted { track_id } => "EVENT\tname=PLAYBACK_STARTED\ttrack_id="@
            + sanitize(track_id),
        EventModel::PlaybackPaused => "EVENT\tname=PLAYBACK_PAUSED"@,
        EventModel::PlaybackResumed => "EVENT\tname=PLAYBACK_RESUMED"@,
        EventModel::PlaybackStopped { reason } => "EVENT\tname=PLAYBACK_STOPPED\treason="@
            + sanitize(reason),
        EventModel::TrackChanged { track_id } => "EVENT\tname=TRACK_CHANGED\ttrack_id="@
            + sanitize(track_id),
        EventModel::PlaybackFailed { reason, class, recoverable, keep_quiet } =>
            "EVENT\tname=PLAYBACK_FAILED\treason="@ + sanitize(reason) + "\tclass="@ + class_name(
            class,
        ) + "\trecoverable="@ + bool_text(recoverable) + "\tkeep_quiet="@ + bool_text(
            keep_quiet,
        ),
    }
}

pub fn format_event_line(event: &PlaybackEvent) -> (r: String)
    ensures
        r@ == event_line(event@),
{
    match event {
        PlaybackEvent::PlayRequestAccepted { track_id } => {
            let mut out = owned("EVENT\tname=PLAY_REQUEST_ACCEPTED\ttrack_id=");
            push_sanitized(&mut out, track_id.as_str());
            out
        },
        PlaybackEvent::PlaybackStarted { track_id } => {
            let mut out = owned("EVENT\tname=PLAYBACK_STARTED\ttrack_id=");
            push_sanitized(&mut out, track_id.as_str());
            out
        },
        PlaybackEvent::PlaybackPaused => owned("EVENT\tname=PLAYBACK_PAUSED"),
        PlaybackEvent::PlaybackResumed => owned("EVENT\tname=PLAYBACK_RESUMED"),
        PlaybackEvent::PlaybackStopped { reason } => {
            let mut out = owned("EVENT\tname=PLAYBACK_STOPPED\treason=");
            push_sanitized(&mut out, reason.as_str());
            out
        },
        PlaybackEvent::TrackChanged { track_id } => {
            let mut out = owned("EVENT\tname=TRACK_CHANGED\ttrack_id=");
            push_sanitized(&mut out, track_id.as_str());
            out
        },
        PlaybackEvent::PlaybackFailed { reason, class, recoverable, keep_quiet } => {
            let mut out = owned("EVENT\tname=PLAYBACK_FAILED\treason=");
            push_sanitized(&mut out, reason.as_str());
            push_str(&mut out, "\tclass=");
            push_str(&mut out, class.as_str());
            push_str(&mut out, "\trecoverable=");
            push_bool(&mut out, *recoverable);
            push_str(&mut out, "\tkeep_quiet=");
            push_bool(&mut out, *keep_quiet);
            out
        },
    }
}

} // verus!

verus! {

/// The `key=value` fields of a line, in order.
pub type Fields = Seq<(Seq<char>, Seq<char>)>;

/// The views of parsed fields.
pub open spec fn pairs(v: Seq<(Vec<char>, Vec<char>)>) -> Fields {
    v.map_values(|p: (Vec<char>, Vec<char>)| (p.0@, p.1@))
}

/// The fields spelled by `tokens`: each token split at its first `=`; the first
/// token without one is an `invalid_field` error whose message is `missing_eq`
/// followed by the token.
pub open spec fn fields_of(tokens: Seq<Seq<char>>, missing_eq: Seq<char>) -> Result<Fields, ErrorModel>
    decreases tokens.len(),
{
    if tokens.len() == 0 {
        Ok(Seq::empty())
    } else {
        match split_once(tokens[0], '=') {
            None => Err(err_model("invalid_field"@, missing_eq + tokens[0])),
            Some(p) => match fields_of(tokens.drop_first(), missing_eq) {
                Ok(rest) => Ok(seq![p] + rest),
                Err(e) => Err(e),
            },
        }
    }
}

/// `acc` followed by the fields of `r`, or the error of `r`.
pub open spec fn prepend_fields(acc: Fields, r: Result<Fields, ErrorModel>) -> Result<Fields, ErrorModel> {
    match r {
        Ok(rest) => Ok(acc + rest),
        Err(e) => Err(e),
    }
}

/// The value of the first field named `name`.
pub open spec fn lookup(fields: Fields, name: Seq<char>) -> Option<Seq<char>>
    decreases fields.len(),
{
    if fields.len() == 0 {
        None
    } else if fields[0].0 == name {
        Some(fields[0].1)
    } else {
        lookup(fields.drop_first(), name)
    }
}

/// The value of the field `name`, or a `missing_field` error.
pub open spec fn require(fields: Fields, name: Seq<char>) -> Result<Seq<char>, ErrorModel> {
    match lookup(fields, name) {
        Some(v) => Ok(v),
        None => Err(err_model("missing_field"@, "missing field: "@ + name)),
    }
}

fn parse_fields(tokens: &Vec<Vec<char>>, from: usize, missing_eq: &'static str) -> (r: Result<
    Vec<(Vec<char>, Vec<char>)>,
    ProtocolError,
>)
    requires
        from <= tokens@.len(),
    ensures
        match r {
            Ok(v) => fields_of(views(tokens@).skip(from as int), missing_eq@) == Ok::<
                Fields,
                ErrorModel,
            >(pairs(v@)),
            Err(e) => fields_of(views(tokens@).skip(from as int), missing_eq@) == Err::<
                Fields,
                ErrorModel,
            >(e@),
        },
{
    let ghost vs = views(tokens@);
    let mut acc: Vec<(Vec<char>, Vec<char>)> = Vec::new();
    let mut i = from;
    while i < tokens.len()
        invariant
            from <= i <= tokens@.len(),
            vs == views(tokens@),
            fields_of(vs.skip(from as int), missing_eq@) == prepend_fields(
                pairs(acc@),
                fields_of(vs.skip(i as int), missing_eq@),
            ),
        decreases tokens@.len() - i,
    {
        let tok = &tokens[i];
        assert(vs.skip(i as int)[0] == tok@);
        assert(vs.skip(i as int).drop_first() =~= vs.skip(i + 1));
        match split_once_chars(tok.as_slice(), '=') {
            Some(p) => {
                let ghost before = acc@;
                acc.push(p);
                assert(pairs(acc@) =~= pairs(before).push((p.0@, p.1@)));
                proof {
                    match fields_of(vs.skip(i + 1), missing_eq@) {
                        Ok(rest) => {
                            assert(pairs(before) + (seq![(p.0@, p.1@)] + rest) =~= pairs(acc@)
                                + rest);
                        },
                        Err(e) => {},
                    }
                }
            },
            None => {
                return Err(err_with("invalid_field", missing_eq, tok.as_slice()));
            },
        }
        i = i + 1;
    }
    assert(vs.skip(i as int).len() == 0);
    assert(pairs(acc@) + Seq::<(Seq<char>, Seq<char>)>::empty() =~= pairs(acc@));
    Ok(acc)
}

/// The value of the first field named `name`.
pub fn find_field(fields: &Vec<(Vec<char>, Vec<char>)>, name: &str) -> (r: Option<Vec<char>>)
    ensures
        match r {
            Some(v) => lookup(pairs(fields@), name@) == Some(v@),
            None => lookup(pairs(fields@), name@) is None,
        },
{
    let ghost ps = pairs(fields@);
    let mut i: usize = 0;
    assert(ps.skip(0) =~= ps);
    while i < fields.len()
        invariant
            i <= fields@.len(),
            ps == pairs(fields@),
            lookup(ps, name@) == lookup(ps.skip(i as int), name@),
        decreases fields@.len() - i,
    {
        assert(ps.skip(i as int)[0] == (fields@[i as int].0@, fields@[i as int].1@));
        assert(ps.skip(i as int).drop_first() =~= ps.skip(i + 1));
        if eq_str(fields[i].0.as_slice(), name) {
            let v = copy_range(fields[i].1.as_slice(), 0, fields[i].1.len());
            assert(v@ =~= fields@[i as int].1@);
            return Some(v);
        }
        i = i + 1;
    }
    None
}

/// The value of the field `name`, or a `missing_field` error.
pub fn require_field(fields: &Vec<(Vec<char>, Vec<char>)>, name: &str) -> (r: Result<Vec<char>, ProtocolError>)
    ensures
        match r {
            Ok(v) => require(pairs(fields@), name@) == Ok::<Seq<char>, ErrorModel>(v@),
            Err(e) => require(pairs(fields@), name@) == Err::<Seq<char>, ErrorModel>(e@),
        },
{
    match find_field(fields, name) {
        Some(v) => Ok(v),
        None => {
            let n = chars_of(name);
            Err(err_with("missing_field", "missing field: ", n.as_slice()))
        },
    }
}

/// The kind and fields of a response line.
pub open spec fn response_parts(line: Seq<char>) -> Result<(Seq<char>, Fields), ErrorModel> {
    let t = trim(line);
    if t.len() == 0 {
        Err(err_model("empty_response"@, "response line is empty"@))
    } else {
        let parts = split_on(t, '\t');
        let kind = parts[0];
        if kind != "OK"@ && kind != "ERR"@ {
            Err(err_model("invalid_response"@, "unsupported response prefix: "@ + kind))
        } else {
            match fields_of(parts.drop_first(), "response field is missing '=': "@) {
                Ok(f) => Ok((kind, f)),
                Err(e) => Err(e),
            }
        }
    }
}

pub(crate) fn parse_response_line(line: &[char]) -> (r: Result<(Vec<char>, Vec<(Vec<char>, Vec<char>)>), ProtocolError>)
    ensures
        match r {
            Ok(p) => response_parts(line@) == Ok::<(Seq<char>, Fields), ErrorModel>((p.0@, pairs(p.1@))),
            Err(e) => response_parts(line@) == Err::<(Seq<char>, Fields), ErrorModel>(e@),
        },
{
    let t = trimmed(line);
    if t.len() == 0 {
        return Err(err_lit("empty_response", "response line is empty"));
    }
    let parts = split_chars(t.as_slice(), '\t');
    let kind = copy_range(parts[0].as_slice(), 0, parts[0].len());
    assert(kind@ =~= split_on(trim(line@), '\t')[0]);
    if !eq_str(kind.as_slice(), "OK") && !eq_str(kind.as_slice(), "ERR") {
        return Err(err_with("invalid_response", "unsupported response prefix: ", kind.as_slice()));
    }
    assert(views(parts@).skip(1) =~= split_on(trim(line@), '\t').drop_first());
    let fields = parse_fields(&parts, 1, "response field is missing '=': ")?;
    Ok((kind, fields))
}

/// The fields of a line that begins with `prefix`.
pub open spec fn prefixed_fields(line: Seq<char>, prefix: Seq<char>) -> Result<Fields, ErrorModel> {
    let t = trim(line);
    if t.len() == 0 {
        Err(err_model("empty_line"@, "line is empty"@))
    } else {
        let parts = split_on(t, '\t');
        if parts[0] != prefix {
            Err(err_model("invalid_prefix"@, "expected prefix "@ + prefix + ", got "@ + parts[0]))
        } else {
            fields_of(parts.drop_first(), "field is missing '=': "@)
        }
    }
}

fn parse_prefixed_fields(line: &[char], expected_prefix: &str) -> (r: Result<Vec<(Vec<char>, Vec<char>)>, ProtocolError>)
    ensures
        match r {
            Ok(v) => prefixed_fields(line@, expected_prefix@) == Ok::<Fields, ErrorModel>(pairs(v@)),
            Err(e) => prefixed_fields(line@, expected_prefix@) == Err::<Fields, ErrorModel>(e@),
        },
{
    let t = trimmed(line);
    if t.len() == 0 {
        return Err(err_lit("empty_line", "line is empty"));
    }
    let parts = split_chars(t.as_slice(), '\t');
    let prefix = parts[0].as_slice();
    if !eq_str(prefix, expected_prefix) {
        let mut m = owned("expected prefix ");
        push_str(&mut m, expected_prefix);
        push_str(&mut m, ", got ");
        append_chars(&mut m, prefix);
        return Err(ProtocolError::new("invalid_prefix", m));
    }
    assert(views(parts@).skip(1) =~= split_on(trim(line@), '\t').drop_first());
    parse_fields(&parts, 1, "field is missing '=': ")
}

} // verus!

verus! {

/// The status that a status response line reports, or the error it is answered with.
pub open spec fn status_from_line(line: Seq<char>) -> Result<StatusModel, ErrorModel> {
    match response_parts(line) {
        Err(e) => Err(e),
        Ok((kind, fields)) => if kind != "OK"@ {
            Err(err_model("unexpected_response"@, "response is not OK"@))
        } else {
            match lookup(fields, "kind"@) {
                None => Err(err_model("missing_field"@, "missing kind field"@)),
                Some(rk) => if rk != "status"@ {
                    Err(err_model("unexpected_response"@, "expected status response, got "@ + rk))
                } else {
                    match require(fields, "state"@) {
                        Err(e) => Err(e),
                        Ok(sv) => match state_from_name(sv) {
                            None => Err(err_model("invalid_state"@, "state field is invalid"@)),
                            Some(state) => match require(fields, "queue_entries"@) {
                                Err(e) => Err(e),
                                Ok(qv) => match parse_unsigned(qv, usize::MAX as nat) {
                                    None => Err(
                                        err_model(
                                            "invalid_queue_entries"@,
                                            "queue_entries is not a number"@,
                                        ),
                                    ),
                                    Some(q) => match require(fields, "order_mode"@) {
                                        Err(e) => Err(e),
                                        Ok(om) => match require(fields, "repeat_mode"@) {
                                            Err(e) => Err(e),
                                            Ok(rm) => match require(fields, "current_track"@) {
                                                Err(e) => Err(e),
                                                Ok(ct) => match require(fields, "last_command"@) {
                                                    Err(e) => Err(e),
                                                    Ok(lc) => Ok(
                                                        StatusModel {
                                                            state,
                                                            order_mode: om,
                                                            repeat_mode: rm,
                                                            current_track: optional_value(ct),
                                                            last_command: optional_value(lc),
                                                            queue_entries: q as usize,
                                                        },
                                                    ),
                                                },
                                            },
                                        },
                                    },
                                },
                            },
                        },
                    }
                },
            }
        },
    }
}

fn string_of(v: &Vec<char>) -> (r: String)
    ensures
        r@ == v@,
{
    string_from(v.as_slice())
}

fn optional_value_string(v: &Vec<char>) -> (r: Option<String>)
    ensures
        opt_str(r) == optional_value(v@),
{
    if eq_str(v.as_slice(), "-") {
        None
    } else {
        Some(string_of(v))
    }
}

pub fn parse_status_line(line: &str) -> (r: Result<PlaybackStatusSnapshot, ProtocolError>)
    ensures
        match r {
            Ok(s) => status_from_line(line@) == Ok::<StatusModel, ErrorModel>(s@),
            Err(e) => status_from_line(line@) == Err::<StatusModel, ErrorModel>(e@),
        },
{
    let lc = chars_of(line);
    let (kind, fields) = parse_response_line(lc.as_slice())?;
    if !eq_str(kind.as_slice(), "OK") {
        return Err(err_lit("unexpected_response", "response is not OK"));
    }
    let response_kind = match find_field(&fields, "kind") {
        Some(k) => k,
        None => {
            return Err(err_lit("missing_field", "missing kind field"));
        },
    };
    if !eq_str(response_kind.as_slice(), "status") {
        return Err(
            err_with("unexpected_response", "expected status response, got ", response_kind.as_slice()),
        );
    }
    let sv = require_field(&fields, "state")?;
    let state = match PlaybackState::parse_chars(sv.as_slice()) {
        Some(s) => s,
        None => {
            return Err(err_lit("invalid_state", "state field is invalid"));
        },
    };
    let qv = require_field(&fields, "queue_entries")?;
    let queue_entries = match parse_usize(qv.as_slice()) {
        Some(q) => q,
        None => {
            return Err(err_lit("invalid_queue_entries", "queue_entries is not a number"));
        },
    };
    let om = require_field(&fields, "order_mode")?;
    let rm = require_field(&fields, "repeat_mode")?;
    let ct = require_field(&fields, "current_track")?;
    let lcmd = require_field(&fields, "last_command")?;
    Ok(
        PlaybackStatusSnapshot {
            state,
            order_mode: string_of(&om),
            repeat_mode: string_of(&rm),
            current_track: optional_value_string(&ct),
            last_command: optional_value_string(&lcmd),
            queue_entries,
        },
    )
}

/// The boolean spelled `raw`, or an `invalid_bool` error.
pub open spec fn bool_from_text(raw: Seq<char>) -> Result<bool, ErrorModel> {
    if raw == "true"@ {
        Ok(true)
    } else if raw == "false"@ {
        Ok(false)
    } else {
        Err(err_model("invalid_bool"@, "invalid boolean value: "@ + raw))
    }
}

fn parse_bool_field(raw: &[char]) -> (r: Result<bool, ProtocolError>)
    ensures
        match r {
            Ok(b) => bool_from_text(raw@) == Ok::<bool, ErrorModel>(b),
            Err(e) => bool_from_text(raw@) == Err::<bool, ErrorModel>(e@),
        },
{
    if eq_str(raw, "true") {
        Ok(true)
    } else if eq_str(raw, "false") {
        Ok(false)
    } else {
        Err(err_with("invalid_bool", "invalid boolean value: ", raw))
    }
}

/// The event that an event line reports, or the error it is answered with.
pub open spec fn event_from_line(line: Seq<char>) -> Result<EventModel, ErrorModel> {
    match prefixed_fields(line, "EVENT"@) {
        Err(e) => Err(e),
        Ok(fields) => match require(fields, "name"@) {
            Err(e) => Err(e),
            Ok(name) => if name == "PLAY_REQUEST_ACCEPTED"@ {
                match require(fields, "track_id"@) {
                    Ok(v) => Ok(EventModel::PlayRequestAccepted { track_id: v }),
                    Err(e) => Err(e),
                }
            } else if name == "PLAYBACK_STARTED"@ {
                match require(fields, "track_id"@) {
                    Ok(v) => Ok(EventModel::PlaybackStarted { track_id: v }),
                    Err(e) => Err(e),
                }
            } else if name == "PLAYBACK_PAUSED"@ {
                Ok(EventModel::PlaybackPaused)
            } else if name == "PLAYBACK_RESUMED"@ {
                Ok(EventModel::PlaybackResumed)
            } else if name == "PLAYBACK_STOPPED"@ {
                match require(fields, "reason"@) {
                    Ok(v) => Ok(EventModel::PlaybackStopped { reason: v }),
                    Err(e) => Err(e),
                }
            } else if name == "TRACK_CHANGED"@ {
                match require(fields, "track_id"@) {
                    Ok(v) => Ok(EventModel::TrackChanged { track_id: v }),
                    Err(e) => Err(e),
                }
            } else if name == "PLAYBACK_FAILED"@ {
                match require(fields, "reason"@) {
                    Err(e) => Err(e),
                    Ok(reason) => match require(fields, "class"@) {
                        Err(e) => Err(e),
                        Ok(cv) => match class_from_name(cv) {
                            None => Err(err_model("invalid_class"@, "invalid failure class"@)),
                            Some(class) => match require(fields, "recoverable"@) {
                                Err(e) => Err(e),
                                Ok(rv) => match bool_from_text(rv) {
                                    Err(e) => Err(e),
                                    Ok(recoverable) => match require(fields, "keep_quiet"@) {
                                        Err(e) => Err(e),
                                        Ok(kv) => match bool_from_text(kv) {
                                            Err(e) => Err(e),
                                            Ok(keep_quiet) => Ok(
                                                EventModel::PlaybackFailed {
                                                    reason,
                                                    class,
                                                    recoverable,
                                                    keep_quiet,
                                                },
                                            ),
                                        },
                                    },
                                },
                            },
                        },
                    },
                }
            } else {
                Err(err_model("unknown_event"@, "unsupported event name: "@ + name))
            },
        },
    }
}

pub fn parse_event_line(line: &str) -> (r: Result<PlaybackEvent, ProtocolError>)
    ensures
        match r {
            Ok(e) => event_from_line(line@) == Ok::<EventModel, ErrorModel>(e@),
            Err(e) => event_from_line(line@) == Err::<EventModel, ErrorModel>(e@),
        },
{
    let lc = chars_of(line);
    let fields = parse_prefixed_fields(lc.as_slice(), "EVENT")?;
    let name = require_field(&fields, "name")?;
    let n = name.as_slice();
    if eq_str(n, "PLAY_REQUEST_ACCEPTED") {
        let v = require_field(&fields, "track_id")?;
        Ok(PlaybackEvent::PlayRequestAccepted { track_id: string_of(&v) })
    } else if eq_str(n, "PLAYBACK_STARTED") {
        let v = require_field(&fields, "track_id")?;
        Ok(PlaybackEvent::PlaybackStarted { track_id: string_of(&v) })
    } else if eq_str(n, "PLAYBACK_PAUSED") {
        Ok(PlaybackEvent::PlaybackPaused)
    } else if eq_str(n, "PLAYBACK_RESUMED") {
        Ok(PlaybackEvent::PlaybackResumed)
    } else if eq_str(n, "PLAYBACK_STOPPED") {
        let v = require_field(&fields, "reason")?;
        Ok(PlaybackEvent::PlaybackStopped { reason: string_of(&v) })
    } else if eq_str(n, "TRACK_CHANGED") {
        let v = require_field(&fields, "track_id")?;
        Ok(PlaybackEvent::TrackChanged { track_id: string_of(&v) })
    } else if eq_str(n, "PLAYBACK_FAILED") {
        let reason = require_field(&fields, "reason")?;
        let cv = require_field(&fields, "class")?;
        let class = match PlaybackFailureClass::parse_chars(cv.as_slice()) {
            Some(c) => c,
            None => {
                return Err(err_lit("invalid_class", "invalid failure class"));
            },
        };
        let rv = require_field(&fields, "recoverable")?;
        let recoverable = parse_bool_field(rv.as_slice())?;
        let kv = require_field(&fields, "keep_quiet")?;
        let keep_quiet = parse_bool_field(kv.as_slice())?;
        Ok(PlaybackEvent::PlaybackFailed { reason: string_of(&reason), class, recoverable, keep_quiet })
    } else {
        Err(err_with("unknown_event", "unsupported event name: ", n))
    }
}

} // verus!

verus! {

/// A command sent to the playback daemon.
#[derive(Debug, PartialEq, Eq)]
pub enum PlaybackCommand {
    Ping,
    Status,
    QueueSnapshot,
    HistorySnapshot,
    Play(String),
    QueuePlay(Vec<String>),
    QueueAppend(String),
    QueueInsertNext(String),
    QueueRemove(String),
    QueueClear,
    QueueReplace(Vec<String>),
    Pause,
    Stop,
    Next,
    Prev,
    PlayHistory(String),
    SetOrderMode(String),
    SetRepeatMode(String),
}

pub enum CommandModel {
    Ping,
    Status,
    QueueSnapshot,
    HistorySnapshot,
    Play(Seq<char>),
    QueuePlay(Seq<Seq<char>>),
    QueueAppend(Seq<char>),
    QueueInsertNext(Seq<char>),
    QueueRemove(Seq<char>),
    QueueClear,
    QueueReplace(Seq<Seq<char>>),
    Pause,
    Stop,
    Next,
    Prev,
    PlayHistory(Seq<char>),
    SetOrderMode(Seq<char>),
    SetRepeatMode(Seq<char>),
}

impl View for PlaybackCommand {
    type V = CommandModel;

    open spec fn view(&self) -> CommandModel {
        match self {
            PlaybackCommand::Ping => CommandModel::Ping,
            PlaybackCommand::Status => CommandModel::Status,
            PlaybackCommand::QueueSnapshot => CommandModel::QueueSnapshot,
            PlaybackCommand::HistorySnapshot => CommandModel::HistorySnapshot,
            PlaybackCommand::Play(s) => CommandModel::Play(s@),
            PlaybackCommand::QueuePlay(v) => CommandModel::QueuePlay(strs(v@)),
            PlaybackCommand::QueueAppend(s) => CommandModel::QueueAppend(s@),
            PlaybackCommand::QueueInsertNext(s) => CommandModel::QueueInsertNext(s@),
            PlaybackCommand::QueueRemove(s) => CommandModel::QueueRemove(s@),
            PlaybackCommand::QueueClear => CommandModel::QueueClear,
            PlaybackCommand::QueueReplace(v) => CommandModel::QueueReplace(strs(v@)),
            PlaybackCommand::Pause => CommandModel::Pause,
            PlaybackCommand::Stop => CommandModel::Stop,
            PlaybackCommand::Next => CommandModel::Next,
            PlaybackCommand::Prev => CommandModel::Prev,
            PlaybackCommand::PlayHistory(s) => CommandModel::PlayHistory(s@),
            PlaybackCommand::SetOrderMode(s) => CommandModel::SetOrderMode(s@),
            PlaybackCommand::SetRepeatMode(s) => CommandModel::SetRepeatMode(s@),
        }
    }
}

/// The trimmed payload of a command, empty when there is none.
pub open spec fn payload_text(payload: Option<Seq<char>>) -> Seq<char> {
    trim(
        match payload {
            Some(p) => p,
            None => Seq::empty(),
        },
    )
}

/// A single-value argument: the trimmed payload, or the given error when it is empty.
pub open spec fn text_arg(payload: Option<Seq<char>>, code: Seq<char>, message: Seq<char>) -> Result<Seq<char>, ErrorModel> {
    let v = payload_text(payload);
    if v.len() == 0 {
        Err(err_model(code, message))
    } else {
        Ok(v)
    }
}

/// The order mode argument of `SET_ORDER_MODE`.
pub open spec fn order_mode_arg(payload: Option<Seq<char>>) -> Result<Seq<char>, ErrorModel> {
    let v = payload_text(payload);
    if v.len() == 0 {
        Err(err_model("missing_order_mode"@, "order mode is required"@))
    } else if v == "sequential"@ || v == "shuffle"@ {
        Ok(v)
    } else {
        Err(err_model("invalid_order_mode"@, "unsupported order mode: "@ + v))
    }
}

/// The repeat mode argument of `SET_REPEAT_MODE`.
pub open spec fn repeat_mode_arg(payload: Option<Seq<char>>) -> Result<Seq<char>, ErrorModel> {
    let v = payload_text(payload);
    if v.len() == 0 {
        Err(err_model("missing_repeat_mode"@, "repeat mode is required"@))
    } else if v == "off"@ || v == "one"@ || v == "all"@ {
        Ok(v)
    } else {
        Err(err_model("invalid_repeat_mode"@, "unsupported repeat mode: "@ + v))
    }
}

/// Whether some id in `list` is empty once trimmed.
pub open spec fn has_blank(list: Seq<Seq<char>>) -> bool {
    exists|i: int| #![trigger trim(list[i])] 0 <= i < list.len() && trim(list[i]).len() == 0
}

/// The track list that a JSON reading outcome gives: the list when it was read
/// and no id in it is blank.
pub open spec fn track_list_from(parsed: Result<Seq<Seq<char>>, Seq<char>>) -> Result<Seq<Seq<char>>, ErrorModel> {
    match parsed {
        Err(m) => Err(
            err_model("invalid_track_list"@, "track list must be a JSON array of strings: "@ + m),
        ),
        Ok(list) => if has_blank(list) {
            Err(err_model("invalid_track_id"@, "track list contains an empty track id"@))
        } else {
            Ok(list)
        },
    }
}

/// The track list argument of `QUEUE_PLAY` and `QUEUE_REPLACE`.
pub open spec fn track_list_arg(payload: Option<Seq<char>>) -> Result<Seq<Seq<char>>, ErrorModel> {
    let v = payload_text(payload);
    if v.len() == 0 {
        Err(err_model("missing_track_list"@, "track list is required"@))
    } else {
        track_list_from(json_string_list(v))
    }
}

pub open spec fn with_text(r: Result<Seq<char>, ErrorModel>, k: int) -> Result<CommandModel, ErrorModel> {
    match r {
        Err(e) => Err(e),
        Ok(v) => Ok(
            if k == 0 {
                CommandModel::Play(v)
            } else if k == 1 {
                CommandModel::QueueAppend(v)
            } else if k == 2 {
                CommandModel::QueueInsertNext(v)
            } else if k == 3 {
                CommandModel::QueueRemove(v)
            } else if k == 4 {
                CommandModel::PlayHistory(v)
            } else if k == 5 {
                CommandModel::SetOrderMode(v)
            } else {
                CommandModel::SetRepeatMode(v)
            },
        ),
    }
}

pub open spec fn with_list(r: Result<Seq<Seq<char>>, ErrorModel>, replace: bool) -> Result<CommandModel, ErrorModel> {
    match r {
        Err(e) => Err(e),
        Ok(v) => Ok(
            if replace {
                CommandModel::QueueReplace(v)
            } else {
                CommandModel::QueuePlay(v)
            },
        ),
    }
}

/// The verb and the trimmed payload of a trimmed command line.
pub open spec fn verb_and_payload(t: Seq<char>) -> (Seq<char>, Option<Seq<char>>) {
    match split_once(t, ' ') {
        Some((v, p)) => (v, Some(trim(p))),
        None => (t, None),
    }
}

/// The command that a command line spells, or the error it is answered with.
pub open spec fn command_from_line(line: Seq<char>) -> Result<CommandModel, ErrorModel> {
    let t = trim(line);
    if t.len() == 0 {
        Err(err_model("empty_command"@, "command line is empty"@))
    } else {
        let (verb, payload) = verb_and_payload(t);
        if verb == "PING"@ {
            Ok(CommandModel::Ping)
        } else if verb == "STATUS"@ {
            Ok(CommandModel::Status)
        } else if verb == "QUEUE_SNAPSHOT"@ {
            Ok(CommandModel::QueueSnapshot)
        } else if verb == "HISTORY_SNAPSHOT"@ {
            Ok(CommandModel::HistorySnapshot)
        } else if verb == "QUEUE_CLEAR"@ {
            Ok(CommandModel::QueueClear)
        } else if verb == "PAUSE"@ {
            Ok(CommandModel::Pause)
        } else if verb == "STOP"@ {
            Ok(CommandModel::Stop)
        } else if verb == "NEXT"@ {
            Ok(CommandModel::Next)
        } else if verb == "PREV"@ {
            Ok(CommandModel::Prev)
        } else if verb == "PLAY"@ {
            with_text(text_arg(payload, "missing_track_id"@, "track id is required"@), 0)
        } else if verb == "QUEUE_PLAY"@ {
            with_list(track_list_arg(payload), false)
        } else if verb == "QUEUE_APPEND"@ {
            with_text(text_arg(payload, "missing_track_id"@, "track id is required"@), 1)
        } else if verb == "QUEUE_INSERT_NEXT"@ {
            with_text(text_arg(payload, "missing_track_id"@, "track id is required"@), 2)
        } else if verb == "QUEUE_REMOVE"@ {
            with_text(
                text_arg(payload, "missing_queue_entry_id"@, "queue entry id is required"@),
                3,
            )
        } else if verb == "QUEUE_REPLACE"@ {
            with_list(track_list_arg(payload), true)
        } else if verb == "PLAY_HISTORY"@ {
            with_text(text_arg(payload, "missing_track_id"@, "track id is required"@), 4)
        } else if verb == "SET_ORDER_MODE"@ {
            with_text(order_mode_arg(payload), 5)
        } else if verb == "SET_REPEAT_MODE"@ {
            with_text(repeat_mode_arg(payload), 6)
        } else {
            Err(err_model("unknown_command"@, "unsupported command verb: "@ + verb))
        }
    }
}

fn payload_chars(payload: &Option<Vec<char>>) -> (r: Vec<char>)
    ensures
        r@ == payload_text(match payload {
            Some(p) => Some(p@),
            None => None,
        }),
{
    match payload {
        Some(p) => trimmed(p.as_slice()),
        None => {
            let e: Vec<char> = Vec::new();
            assert(trim(e@) =~= e@);
            e
        },
    }
}

fn parse_text_arg(payload: &Option<Vec<char>>, code: &'static str, message: &'static str) -> (r: Result<String, ProtocolError>)
    ensures
        match r {
            Ok(s) => text_arg(match payload {
                Some(p) => Some(p@),
                None => None,
            }, code@, message@) == Ok::<Seq<char>, ErrorModel>(s@),
            Err(e) => text_arg(match payload {
                Some(p) => Some(p@),
                None => None,
            }, code@, message@) == Err::<Seq<char>, ErrorModel>(e@),
        },
{
    let v = payload_chars(payload);
    if v.len() == 0 {
        Err(err_lit(code, message))
    } else {
        Ok(string_from(v.as_slice()))
    }
}

fn parse_order_mode_command(payload: &Option<Vec<char>>) -> (r: Result<String, ProtocolError>)
    ensures
        match r {
            Ok(s) => order_mode_arg(match payload {
                Some(p) => Some(p@),
                None => None,
            }) == Ok::<Seq<char>, ErrorModel>(s@),
            Err(e) => order_mode_arg(match payload {
                Some(p) => Some(p@),
                None => None,
            }) == Err::<Seq<char>, ErrorModel>(e@),
        },
{
    let v = payload_chars(payload);
    if v.len() == 0 {
        return Err(err_lit("missing_order_mode", "order mode is required"));
    }
    if eq_str(v.as_slice(), "sequential") || eq_str(v.as_slice(), "shuffle") {
        Ok(string_from(v.as_slice()))
    } else {
        Err(err_with("invalid_order_mode", "unsupported order mode: ", v.as_slice()))
    }
}

fn parse_repeat_mode_command(payload: &Option<Vec<char>>) -> (r: Result<String, ProtocolError>)
    ensures
        match r {
            Ok(s) => repeat_mode_arg(match payload {
                Some(p) => Some(p@),
                None => None,
            }) == Ok::<Seq<char>, ErrorModel>(s@),
            Err(e) => repeat_mode_arg(match payload {
                Some(p) => Some(p@),
                None => None,
            }) == Err::<Seq<char>, ErrorModel>(e@),
        },
{
    let v = payload_chars(payload);
    if v.len() == 0 {
        return Err(err_lit("missing_repeat_mode", "repeat mode is required"));
    }
    if eq_str(v.as_slice(), "off") || eq_str(v.as_slice(), "one") || eq_str(v.as_slice(), "all") {
        Ok(string_from(v.as_slice()))
    } else {
        Err(err_with("invalid_repeat_mode", "unsupported repeat mode: ", v.as_slice()))
    }
}

/// A JSON reading outcome taken by its views.
pub open spec fn outcome_view(parsed: Result<Vec<String>, String>) -> Result<Seq<Seq<char>>, Seq<char>> {
    match parsed {
        Ok(l) => Ok(strs(l@)),
        Err(m) => Err(m@),
    }
}

/// The track list for a JSON reading outcome: the list, unless reading failed
/// or an id in it is blank.
pub fn track_list_from_json(parsed: Result<Vec<String>, String>) -> (r: Result<Vec<String>, ProtocolError>)
    ensures
        match r {
            Ok(v) => track_list_from(outcome_view(parsed)) == Ok::<Seq<Seq<char>>, ErrorModel>(strs(v@)),
            Err(e) => track_list_from(outcome_view(parsed)) == Err::<Seq<Seq<char>>, ErrorModel>(e@),
        },
{
    let ghost pv = outcome_view(parsed);
    match parsed {
        Err(m) => {
            let mut msg = owned("track list must be a JSON array of strings: ");
            push_str(&mut msg, m.as_str());
            Err(ProtocolError::new("invalid_track_list", msg))
        },
        Ok(list) => {
            let mut i: usize = 0;
            while i < list.len()
                invariant
                    i <= list@.len(),
                    pv == Ok::<Seq<Seq<char>>, Seq<char>>(strs(list@)),
                    pv == outcome_view(parsed),
                    forall|j: int| 0 <= j < i ==> #[trigger] trim(strs(list@)[j]).len() != 0,
                decreases list@.len() - i,
            {
                let c = chars_of(list[i].as_str());
                let t = trimmed(c.as_slice());
                if t.len() == 0 {
                    assert(trim(strs(list@)[i as int]).len() == 0);
                    assert(has_blank(strs(list@)));
                    return Err(err_lit("invalid_track_id", "track list contains an empty track id"));
                }
                i = i + 1;
            }
            Ok(list)
        },
    }
}

fn parse_track_list_command(payload: &Option<Vec<char>>) -> (r: Result<Vec<String>, ProtocolError>)
    ensures
        match r {
            Ok(v) => track_list_arg(match payload {
                Some(p) => Some(p@),
                None => None,
            }) == Ok::<Seq<Seq<char>>, ErrorModel>(strs(v@)),
            Err(e) => track_list_arg(match payload {
                Some(p) => Some(p@),
                None => None,
            }) == Err::<Seq<Seq<char>>, ErrorModel>(e@),
        },
{
    let v = payload_chars(payload);
    if v.len() == 0 {
        return Err(err_lit("missing_track_list", "track list is required"));
    }
    let text = string_from(v.as_slice());
    let parsed = decode_string_list(text.as_str());
    track_list_from_json(parsed)
}

pub fn parse_command_line(line: &str) -> (r: Result<PlaybackCommand, ProtocolError>)
    ensures
        match r {
            Ok(c) => command_from_line(line@) == Ok::<CommandModel, ErrorModel>(c@),
            Err(e) => command_from_line(line@) == Err::<CommandModel, ErrorModel>(e@),
        },
{
    let lc = chars_of(line);
    let t = trimmed(lc.as_slice());
    if t.len() == 0 {
        return Err(err_lit("empty_command", "command line is empty"));
    }
    let (verb, payload): (Vec<char>, Option<Vec<char>>) = match split_once_chars(t.as_slice(), ' ') {
        Some((v, p)) => (v, Some(trimmed(p.as_slice()))),
        None => (t, None),
    };
    let vs = verb.as_slice();
    if eq_str(vs, "PING") {
        Ok(PlaybackCommand::Ping)
    } else if eq_str(vs, "STATUS") {
        Ok(PlaybackCommand::Status)
    } else if eq_str(vs, "QUEUE_SNAPSHOT") {
        Ok(PlaybackCommand::QueueSnapshot)
    } else if eq_str(vs, "HISTORY_SNAPSHOT") {
        Ok(PlaybackCommand::HistorySnapshot)
    } else if eq_str(vs, "QUEUE_CLEAR") {
        Ok(PlaybackCommand::QueueClear)
    } else if eq_str(vs, "PAUSE") {
        Ok(PlaybackCommand::Pause)
    } else if eq_str(vs, "STOP") {
        Ok(PlaybackCommand::Stop)
    } else if eq_str(vs, "NEXT") {
        Ok(PlaybackCommand::Next)
    } else if eq_str(vs, "PREV") {
        Ok(PlaybackCommand::Prev)
    } else if eq_str(vs, "PLAY") {
        let a = parse_text_arg(&payload, "missing_track_id", "track id is required")?;
        Ok(PlaybackCommand::Play(a))
    } else if eq_str(vs, "QUEUE_PLAY") {
        let l = parse_track_list_command(&payload)?;
        Ok(PlaybackCommand::QueuePlay(l))
    } else if eq_str(vs, "QUEUE_APPEND") {
        let a = parse_text_arg(&payload, "missing_track_id", "track id is required")?;
        Ok(PlaybackCommand::QueueAppend(a))
    } else if eq_str(vs, "QUEUE_INSERT_NEXT") {
        let a = parse_text_arg(&payload, "missing_track_id", "track id is required")?;
        Ok(PlaybackCommand::QueueInsertNext(a))
    } else if eq_str(vs, "QUEUE_REMOVE") {
        let a = parse_text_arg(&payload, "missing_queue_entry_id", "queue entry id is required")?;
        Ok(PlaybackCommand::QueueRemove(a))
    } else if eq_str(vs, "QUEUE_REPLACE") {
        let l = parse_track_list_command(&payload)?;
        Ok(PlaybackCommand::QueueReplace(l))
    } else if eq_str(vs, "PLAY_HISTORY") {
        let a = parse_text_arg(&payload, "missing_track_id", "track id is required")?;
        Ok(PlaybackCommand::PlayHistory(a))
    } else if eq_str(vs, "SET_ORDER_MODE") {
        let a = parse_order_mode_command(&payload)?;
        Ok(PlaybackCommand::SetOrderMode(a))
    } else if eq_str(vs, "SET_REPEAT_MODE") {
        let a = parse_repeat_mode_command(&payload)?;
        Ok(PlaybackCommand::SetRepeatMode(a))
    } else {
        Err(err_with("unknown_command", "unsupported command verb: ", vs))
    }
}

} // verus!
