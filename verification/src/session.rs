//! Quiet mode: which services and mDNS announcements are silenced while music
//! plays, decided from the playback events.

use vstd::prelude::*;
use crate::library::{chars_lt, lemma_lex_irreflexive, lemma_lex_transitive, lex_lt};
use crate::protocol::{EventModel, PlaybackEvent};
use crate::text::{
    chars_of, eq_str, join, owned, push_str, split_words, string_from, views, words,
};

verus! {

/// The whitespace-separated entries of `raw`.
pub fn parse_service_list(raw: &str) -> (r: Vec<String>)
    ensures
        names_of(r@) == words(raw@),
{
    let c = chars_of(raw);
    let ws = split_words(c.as_slice());
    let mut out: Vec<String> = Vec::new();
    let mut i: usize = 0;
    while i < ws.len()
        invariant
            views(ws@) == words(raw@),
            0 <= i <= ws.len(),
            names_of(out@) =~= views(ws@).take(i as int),
        decreases ws.len() - i,
    {
        let ghost before = names_of(out@);
        out.push(string_from(ws[i].as_slice()));
        assert(names_of(out@) =~= before.push(ws@[i as int]@));
        i = i + 1;
    }
    assert(views(ws@).take(ws.len() as int) =~= views(ws@));
    out
}

/// The views of a list of strings.
pub open spec fn names_of(v: Seq<String>) -> Seq<Seq<char>> {
    v.map_values(|s: String| s@)
}

/// A list of units written out: `-` when empty, else joined by spaces.
pub open spec fn printable(units: Seq<Seq<char>>) -> Seq<char> {
    if units.len() == 0 {
        "-"@
    } else {
        join(units, " "@)
    }
}

/// A list of units written out.
pub fn printable_units(units: &Vec<String>) -> (r: String)
    ensures
        r@ == printable(names_of(units@)),
{
    if units.len() == 0 {
        return owned("-");
    }
    let mut parts: Vec<Vec<char>> = Vec::new();
    let mut i: usize = 0;
    while i < units.len()
        invariant
            0 <= i <= units.len(),
            views(parts@) =~= names_of(units@).take(i as int),
        decreases units.len() - i,
    {
        let ghost before = views(parts@);
        parts.push(chars_of(units[i].as_str()));
        assert(views(parts@) =~= before.push(units@[i as int]@));
        i = i + 1;
    }
    assert(names_of(units@).take(units.len() as int) =~= names_of(units@));
    let sep = chars_of(" ");
    let joined = crate::text::join_chars(&parts, sep.as_slice());
    string_from(joined.as_slice())
}

/// `units` with later repeats dropped, in first-seen order.
pub open spec fn deduped(units: Seq<Seq<char>>) -> Seq<Seq<char>>
    decreases units.len(),
{
    if units.len() == 0 {
        units
    } else {
        crate::alsa::add_unique(deduped(units.drop_last()), units.last())
    }
}

/// `units` with later repeats dropped, in first-seen order.
pub fn dedupe_units(units: Vec<String>) -> (r: Vec<String>)
    ensures
        names_of(r@) == deduped(names_of(units@)),
{
    let ghost u = names_of(units@);
    let mut out: Vec<String> = Vec::new();
    let mut i: usize = 0;
    assert(u.take(0) =~= Seq::<Seq<char>>::empty());
    assert(names_of(out@) =~= Seq::<Seq<char>>::empty());
    while i < units.len()
        invariant
            u == names_of(units@),
            0 <= i <= units.len(),
            names_of(out@) == deduped(u.take(i as int)),
        decreases units.len() - i,
    {
        proof {
            assert(u.take(i as int + 1).drop_last() =~= u.take(i as int));
            assert(u.take(i as int + 1).last() == u[i as int]);
        }
        let present = crate::queue::contains_text(&out, units[i].as_str());
        proof {
            assert(crate::media_model::ids(out@) =~= names_of(out@));
        }
        if !present {
            let ghost before = names_of(out@);
            out.push(units[i].clone());
            assert(names_of(out@) =~= before.push(u[i as int]));
        }
        i = i + 1;
    }
    assert(u.take(units.len() as int) =~= u);
    out
}

/// Dropping repeats leaves no repeats and the same units.
pub proof fn lemma_deduped(units: Seq<Seq<char>>)
    ensures
        deduped(units).no_duplicates(),
        forall|x: Seq<char>| #[trigger] deduped(units).contains(x) <==> units.contains(x),
    decreases units.len(),
{
    if units.len() > 0 {
        let rest = units.drop_last();
        lemma_deduped(rest);
        let d = deduped(rest);
        let x0 = units.last();
        if !d.contains(x0) {
            let t = d.push(x0);
            assert forall|i: int, j: int| 0 <= i < t.len() && 0 <= j < t.len() && i != j implies t[i] != t[j] by {
                if i == d.len() {
                    assert(d.contains(t[j]));
                } else if j == d.len() {
                    assert(d.contains(t[i]));
                }
            }
        }
        assert forall|x: Seq<char>| #[trigger] deduped(units).contains(x) <==> units.contains(x) by {
            assert(units =~= rest.push(x0));
            if units.contains(x) && x != x0 {
                let j = choose|j: int| 0 <= j < units.len() && units[j] == x;
                assert(rest[j] == x);
            }
            if rest.contains(x) {
                let j = choose|j: int| 0 <= j < rest.len() && rest[j] == x;
                assert(units[j] == x);
            }
            if x == x0 {
                assert(units[units.len() - 1] == x);
            }
            if !d.contains(x0) {
                if d.push(x0).contains(x) && x != x0 {
                    let j = choose|j: int| 0 <= j < d.push(x0).len() && d.push(x0)[j] == x;
                    assert(d[j] == x);
                }
                if d.contains(x) {
                    let j = choose|j: int| 0 <= j < d.len() && d[j] == x;
                    assert(d.push(x0)[j] == x);
                }
                if x == x0 {
                    assert(d.push(x0)[d.len() as int] == x);
                }
            }
        }
    }
}

/// Appends copies of the strings of `src` to `dst`.
fn append_all(dst: &mut Vec<String>, src: &Vec<String>)
    ensures
        names_of(final(dst)@) == names_of(old(dst)@) + names_of(src@),
{
    let ghost start = names_of(dst@);
    let mut k: usize = 0;
    while k < src.len()
        invariant
            0 <= k <= src.len(),
            names_of(dst@) =~= start + names_of(src@).take(k as int),
        decreases src.len() - k,
    {
        let ghost before = names_of(dst@);
        dst.push(src[k].clone());
        assert(names_of(dst@) =~= before.push(src@[k as int]@));
        assert(names_of(src@).take(k as int + 1) =~= names_of(src@).take(k as int).push(src@[k as int]@));
        k = k + 1;
    }
    assert(names_of(src@).take(src.len() as int) =~= names_of(src@));
}

/// The first unit Quiet Mode would manage (quiet-stop units, then quiet-start
/// units, then freezable units) that is protected.
pub open spec fn first_protected(protected: Seq<Seq<char>>, managed: Seq<Seq<char>>) -> Option<Seq<char>>
    decreases managed.len(),
{
    if managed.len() == 0 {
        None
    } else if protected.contains(managed[0]) {
        Some(managed[0])
    } else {
        first_protected(protected, managed.drop_first())
    }
}

/// Refuses a configuration in which Quiet Mode would stop, start or freeze a
/// protected unit, naming the first such unit.
pub fn validate_protected_units(
    protected_units: &Vec<String>,
    quiet_stop_units: &Vec<String>,
    quiet_start_units: &Vec<String>,
    freezable_units: &Vec<String>,
) -> (r: Result<(), String>)
    ensures
        ({
            let managed = names_of(quiet_stop_units@) + names_of(quiet_start_units@) + names_of(
                freezable_units@,
            );
            match r {
                Ok(()) => first_protected(names_of(protected_units@), managed) is None,
                Err(m) => match first_protected(names_of(protected_units@), managed) {
                    Some(u) => m@ == "protected unit "@ + u + " cannot be managed by Quiet Mode"@,
                    None => false,
                },
            }
        }),
{
    let mut all: Vec<String> = Vec::new();
    append_all(&mut all, quiet_stop_units);
    append_all(&mut all, quiet_start_units);
    append_all(&mut all, freezable_units);
    assert(names_of(all@) =~= names_of(quiet_stop_units@) + names_of(quiet_start_units@) + names_of(
        freezable_units@,
    ));
    let ghost managed = names_of(all@);
    let ghost prot = names_of(protected_units@);
    let mut i: usize = 0;
    assert(managed.skip(0) =~= managed);
    while i < all.len()
        invariant
            managed == names_of(all@),
            managed == names_of(quiet_stop_units@) + names_of(quiet_start_units@) + names_of(
                freezable_units@,
            ),
            prot == names_of(protected_units@),
            0 <= i <= all.len(),
            first_protected(prot, managed) == first_protected(prot, managed.skip(i as int)),
        decreases all.len() - i,
    {
        let ghost rest = managed.skip(i as int);
        assert(rest[0] == managed[i as int]);
        assert(rest.drop_first() =~= managed.skip(i as int + 1));
        let hit = crate::queue::contains_text(protected_units, all[i].as_str());
        proof {
            assert(crate::media_model::ids(protected_units@) =~= prot);
        }
        if hit {
            let mut m = owned("protected unit ");
            push_str(&mut m, all[i].as_str());
            push_str(&mut m, " cannot be managed by Quiet Mode");
            return Err(m);
        }
        i = i + 1;
    }
    assert(managed.skip(all.len() as int) =~= Seq::<Seq<char>>::empty());
    Ok(())
}

/// Where Quiet Mode stands.
#[derive(Debug, Clone, Copy, PartialEq, Eq, Structural)]
pub enum QuietModeState {
    Off,
    Prepare,
    Active,
    ErrorHold,
}

/// The name of a quiet-mode state, as written to the quiet flag.
pub open spec fn quiet_name(s: QuietModeState) -> Seq<char> {
    match s {
        QuietModeState::Off => "off"@,
        QuietModeState::Prepare => "prepare"@,
        QuietModeState::Active => "active"@,
        QuietModeState::ErrorHold => "error_hold"@,
    }
}

impl QuietModeState {
    /// The name of this state.
    pub fn as_str(&self) -> (r: &'static str)
        ensures
            r@ == quiet_name(*self),
    {
        match self {
            QuietModeState::Off => "off",
            QuietModeState::Prepare => "prepare",
            QuietModeState::Active => "active",
            QuietModeState::ErrorHold => "error_hold",
        }
    }
}

/// The quiet-mode state after an event: a play request prepares, playback
/// activates, a track change prepares from off and activates otherwise, a pause
/// or stop turns quiet mode off, and a failure holds it only when asked to.
pub open spec fn next_quiet(current: QuietModeState, e: EventModel) -> QuietModeState {
    match e {
        EventModel::PlayRequestAccepted { .. } => QuietModeState::Prepare,
        EventModel::PlaybackStarted { .. } => QuietModeState::Active,
        EventModel::PlaybackResumed => QuietModeState::Active,
        EventModel::TrackChanged { .. } => if current == QuietModeState::Off {
            QuietModeState::Prepare
        } else {
            QuietModeState::Active
        },
        EventModel::PlaybackPaused => QuietModeState::Off,
        EventModel::PlaybackStopped { .. } => QuietModeState::Off,
        EventModel::PlaybackFailed { keep_quiet, .. } => if keep_quiet {
            QuietModeState::ErrorHold
        } else {
            QuietModeState::Off
        },
    }
}

/// The quiet-mode state after `event`.
pub fn next_quiet_state(current: QuietModeState, event: &PlaybackEvent) -> (r: QuietModeState)
    ensures
        r == next_quiet(current, event@),
{
    match event {
        PlaybackEvent::PlayRequestAccepted { .. } => QuietModeState::Prepare,
        PlaybackEvent::PlaybackStarted { .. } => QuietModeState::Active,
        PlaybackEvent::PlaybackResumed => QuietModeState::Active,
        PlaybackEvent::TrackChanged { .. } => match current {
            QuietModeState::Off => QuietModeState::Prepare,
            _ => QuietModeState::Active,
        },
        PlaybackEvent::PlaybackPaused => QuietModeState::Off,
        PlaybackEvent::PlaybackStopped { .. } => QuietModeState::Off,
        PlaybackEvent::PlaybackFailed { keep_quiet, .. } => if *keep_quiet {
            QuietModeState::ErrorHold
        } else {
            QuietModeState::Off
        },
    }
}

/// Whether services are held quiet in a state: in every state but off.
pub fn quiet_service_mode(state: QuietModeState) -> (r: bool)
    ensures
        r == (state != QuietModeState::Off),
{
    match state {
        QuietModeState::Off => false,
        _ => true,
    }
}

/// What handling an event does: the next state, and the service mode to
/// reconcile to when it changes.
pub fn quiet_transition(current: QuietModeState, event: &PlaybackEvent) -> (r: (QuietModeState, Option<bool>))
    ensures
        r.0 == next_quiet(current, event@),
        r.1 == (if (current != QuietModeState::Off) != (r.0 != QuietModeState::Off) {
            Some(r.0 != QuietModeState::Off)
        } else {
            None
        }),
{
    let next = next_quiet_state(current, event);
    let before = quiet_service_mode(current);
    let after = quiet_service_mode(next);
    if before != after {
        (next, Some(after))
    } else {
        (next, None)
    }
}

/// What the quiet flag file holds in a state: nothing (the file is removed)
/// when off, else the state's name and a line break.
pub fn quiet_flag_contents(state: QuietModeState) -> (r: Option<String>)
    ensures
        match r {
            None => state == QuietModeState::Off,
            Some(c) => state != QuietModeState::Off && c@ == quiet_name(state) + "\n"@,
        },
{
    match state {
        QuietModeState::Off => None,
        _ => {
            let mut s = owned(state.as_str());
            push_str(&mut s, "\n");
            Some(s)
        },
    }
}

/// Music starting or resuming always puts quiet mode on, whatever the state
/// before, and quiet mode on silences the services.
pub proof fn lemma_play_enters_quiet(current: QuietModeState, track_id: Seq<char>)
    ensures
        next_quiet(current, EventModel::PlaybackStarted { track_id }) == QuietModeState::Active,
        next_quiet(current, EventModel::PlaybackResumed) == QuietModeState::Active,
        QuietModeState::Active != QuietModeState::Off,
{
}

/// A pause or stop always ends quiet mode, whatever the state before.
pub proof fn lemma_stop_ends_quiet(current: QuietModeState, reason: Seq<char>)
    ensures
        next_quiet(current, EventModel::PlaybackPaused) == QuietModeState::Off,
        next_quiet(current, EventModel::PlaybackStopped { reason }) == QuietModeState::Off,
{
}

/// Which interfaces have their mDNS announcements silenced.
#[derive(Debug, PartialEq, Eq)]
pub enum MdnsInterfaceConfig {
    Disabled,
    Auto,
    Interfaces(Vec<String>),
}

/// The value of an mDNS interface setting.
pub enum MdnsModel {
    Disabled,
    Auto,
    Interfaces(Seq<Seq<char>>),
}

impl View for MdnsInterfaceConfig {
    type V = MdnsModel;

    open spec fn view(&self) -> MdnsModel {
        match self {
            MdnsInterfaceConfig::Disabled => MdnsModel::Disabled,
            MdnsInterfaceConfig::Auto => MdnsModel::Auto,
            MdnsInterfaceConfig::Interfaces(v) => MdnsModel::Interfaces(names_of(v@)),
        }
    }
}

/// The setting spelled by `raw`: off when it names nothing or has `off`
/// among its entries, else automatic when it has `auto`, else the interfaces
/// it lists.
pub open spec fn mdns_from(raw: Seq<char>) -> MdnsModel {
    let e = words(raw);
    if e.len() == 0 || e.contains("off"@) {
        MdnsModel::Disabled
    } else if e.contains("auto"@) {
        MdnsModel::Auto
    } else {
        MdnsModel::Interfaces(e)
    }
}

impl MdnsInterfaceConfig {
    /// The setting spelled by `raw`.
    pub fn parse(raw: &str) -> (r: Self)
        ensures
            r@ == mdns_from(raw@),
    {
        let entries = parse_service_list(raw);
        proof {
            assert(crate::media_model::ids(entries@) =~= names_of(entries@));
        }
        if entries.len() == 0 || crate::queue::contains_text(&entries, "off") {
            MdnsInterfaceConfig::Disabled
        } else if crate::queue::contains_text(&entries, "auto") {
            MdnsInterfaceConfig::Auto
        } else {
            MdnsInterfaceConfig::Interfaces(entries)
        }
    }

    /// The setting written out: `-`, `auto`, or the interfaces.
    pub fn describe(&self) -> (r: String)
        ensures
            r@ == match self@ {
                MdnsModel::Disabled => "-"@,
                MdnsModel::Auto => "auto"@,
                MdnsModel::Interfaces(v) => printable(v),
            },
    {
        match self {
            MdnsInterfaceConfig::Disabled => owned("-"),
            MdnsInterfaceConfig::Auto => owned("auto"),
            MdnsInterfaceConfig::Interfaces(v) => printable_units(v),
        }
    }
}

/// The names of `names` other than the loopback interface, in their order.
pub open spec fn non_loopback(names: Seq<Seq<char>>) -> Seq<Seq<char>>
    decreases names.len(),
{
    if names.len() == 0 {
        Seq::empty()
    } else {
        let rest = non_loopback(names.drop_last());
        if names.last() == "lo"@ {
            rest
        } else {
            rest.push(names.last())
        }
    }
}

/// Whether `names` is in name order.
pub open spec fn in_name_order(names: Seq<Seq<char>>) -> bool {
    forall|i: int, j: int| 0 <= i < j < names.len() ==> !lex_lt(#[trigger] names[j], #[trigger] names[i])
}

/// The interfaces silenced when the setting is automatic, given the names of
/// the machine's network interfaces: all but the loopback, in name order.
pub fn auto_mdns_interfaces(names: &Vec<String>) -> (r: Vec<String>)
    ensures
        in_name_order(names_of(r@)),
        names_of(r@).to_multiset() == non_loopback(names_of(names@)).to_multiset(),
{
    let ghost all = names_of(names@);
    let mut r: Vec<String> = Vec::new();
    let mut j: usize = 0;
    assert(names_of(r@) =~= Seq::<Seq<char>>::empty());
    assert(non_loopback(all.take(0)) =~= Seq::<Seq<char>>::empty());
    while j < names.len()
        invariant
            j <= names@.len(),
            all == names_of(names@),
            in_name_order(names_of(r@)),
            names_of(r@).to_multiset() == non_loopback(all.take(j as int)).to_multiset(),
        decreases names@.len() - j,
    {
        let xc = chars_of(names[j].as_str());
        assert(all.take(j + 1).drop_last() =~= all.take(j as int));
        assert(all.take(j + 1).last() == xc@);
        if !eq_str(xc.as_slice(), "lo") {
            let n = r.len();
            let mut i: usize = 0;
            while i < n
                invariant
                    n == r@.len(),
                    i <= n,
                    in_name_order(names_of(r@)),
                    forall|k: int| 0 <= k < i ==> !lex_lt(xc@, #[trigger] names_of(r@)[k]),
                ensures
                    i <= n,
                    forall|k: int| 0 <= k < i ==> !lex_lt(xc@, #[trigger] names_of(r@)[k]),
                    i < n ==> lex_lt(xc@, names_of(r@)[i as int]),
                decreases n - i,
            {
                let rc = chars_of(r[i].as_str());
                assert(names_of(r@)[i as int] == rc@);
                if chars_lt(xc.as_slice(), rc.as_slice()) {
                    break;
                }
                i = i + 1;
            }
            let ghost before = names_of(r@);
            let ghost x = xc@;
            let s = string_from(xc.as_slice());
            r.insert(i, s);
            proof {
                assert(names_of(r@) =~= before.insert(i as int, x));
                vstd::seq_lib::to_multiset_insert(before, i as int, x);
                vstd::seq_lib::to_multiset_build(non_loopback(all.take(j as int)), x);
                let t = names_of(r@);
                assert forall|a: int, b: int| 0 <= a < b < t.len() implies !lex_lt(
                    #[trigger] t[b],
                    #[trigger] t[a],
                ) by {
                    if b < i {
                        assert(t[a] == before[a] && t[b] == before[b]);
                        assert(!lex_lt(before[b], before[a]));
                    } else if b == i {
                        assert(t[a] == before[a] && t[b] == x);
                        assert(!lex_lt(x, before[a]));
                    } else if a == i {
                        assert(t[a] == x && t[b] == before[b - 1]);
                        if lex_lt(before[b - 1], x) {
                            assert(lex_lt(x, before[i as int]));
                            lemma_lex_transitive(before[b - 1], x, before[i as int]);
                            if b - 1 == i {
                                lemma_lex_irreflexive(before[i as int]);
                            } else {
                                assert(!lex_lt(before[b - 1], before[i as int]));
                            }
                        }
                    } else if a < i {
                        assert(t[a] == before[a] && t[b] == before[b - 1]);
                        assert(!lex_lt(before[b - 1], before[a]));
                    } else {
                        assert(t[a] == before[a - 1] && t[b] == before[b - 1]);
                        assert(!lex_lt(before[b - 1], before[a - 1]));
                    }
                }
            }
        }
        j = j + 1;
    }
    assert(all.take(names@.len() as int) =~= all);
    r
}

/// The last of the whitespace-separated tokens of `resolvectl mdns` output
/// that is a mode (`yes`, `no` or `resolve`).
pub open spec fn last_mode(tokens: Seq<Seq<char>>) -> Option<Seq<char>>
    decreases tokens.len(),
{
    if tokens.len() == 0 {
        None
    } else {
        let t = tokens.last();
        if t == "yes"@ || t == "no"@ || t == "resolve"@ {
            Some(t)
        } else {
            last_mode(tokens.drop_last())
        }
    }
}

/// The mDNS mode reported by `resolvectl mdns` output.
pub fn parse_resolvectl_mdns_mode(output: &str) -> (r: Option<String>)
    ensures
        crate::paths::opt_view(r) == last_mode(words(output@)),
{
    let c = chars_of(output);
    let ws = split_words(c.as_slice());
    let ghost w = views(ws@);
    let mut i: usize = ws.len();
    assert(w.take(w.len() as int) =~= w);
    while i > 0
        invariant
            w == views(ws@),
            w == words(output@),
            0 <= i <= ws.len(),
            last_mode(w) == last_mode(w.take(i as int)),
        decreases i,
    {
        let t = ws[i - 1].as_slice();
        assert(w.take(i as int).last() == w[i - 1]);
        assert(w.take(i as int).drop_last() =~= w.take(i - 1));
        if eq_str(t, "yes") || eq_str(t, "no") || eq_str(t, "resolve") {
            return Some(string_from(t));
        }
        i = i - 1;
    }
    None
}

/// The units Quiet Mode stops: the quiet-stop units, then the freezable ones,
/// each once; and those it may have to start again: those, then the
/// quiet-start units, each once.
pub fn quiet_unit_plan(
    quiet_stop_units: Vec<String>,
    quiet_start_units: Vec<String>,
    freezable_units: Vec<String>,
) -> (r: (Vec<String>, Vec<String>))
    ensures
        names_of(r.0@) == deduped(names_of(quiet_stop_units@) + names_of(freezable_units@)),
        names_of(r.1@) == deduped(names_of(r.0@) + names_of(quiet_start_units@)),
{
    let mut a: Vec<String> = Vec::new();
    append_all(&mut a, &quiet_stop_units);
    append_all(&mut a, &freezable_units);
    assert(names_of(a@) =~= names_of(quiet_stop_units@) + names_of(freezable_units@));
    let stop_units = dedupe_units(a);
    let mut b: Vec<String> = Vec::new();
    append_all(&mut b, &stop_units);
    append_all(&mut b, &quiet_start_units);
    assert(names_of(b@) =~= names_of(stop_units@) + names_of(quiet_start_units@));
    let restore = dedupe_units(b);
    (stop_units, restore)
}

/// The units among `stop_units` that were active: the ones entering quiet
/// mode stops.
pub fn units_to_stop(stop_units: &Vec<String>, active_units: &Vec<String>) -> (r: Vec<String>)
    ensures
        names_of(r@) == names_of(stop_units@).filter(crate::queue::known_in(names_of(active_units@))),
{
    let ghost k = names_of(active_units@);
    let ghost o = names_of(stop_units@);
    let mut out: Vec<String> = Vec::new();
    let mut i: usize = 0;
    proof {
        reveal(Seq::filter);
    }
    assert(o.take(0).filter(crate::queue::known_in(k)) =~= Seq::<Seq<char>>::empty());
    while i < stop_units.len()
        invariant
            k == names_of(active_units@),
            o == names_of(stop_units@),
            0 <= i <= stop_units.len(),
            names_of(out@) == o.take(i as int).filter(crate::queue::known_in(k)),
        decreases stop_units.len() - i,
    {
        let ghost t = o.take(i as int + 1);
        proof {
            reveal(Seq::filter);
            assert(t.drop_last() =~= o.take(i as int));
            assert(t.last() == o[i as int]);
            assert(crate::media_model::ids(active_units@) =~= k);
        }
        let ghost before = names_of(out@);
        if crate::queue::contains_text(active_units, stop_units[i].as_str()) {
            out.push(stop_units[i].clone());
            assert(names_of(out@) =~= before.push(o[i as int]));
        }
        i = i + 1;
    }
    assert(o.take(stop_units.len() as int) =~= o);
    out
}

} // verus!
