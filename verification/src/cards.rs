//! Finding the USB DAC among the sound cards listed in `/proc/asound/cards`,
//! and reading ALSA device names.

use vstd::prelude::*;
use crate::alsa::DsdOutputPolicy;
use crate::playback::{PlaybackOperationError, ResolvedTrack};
use crate::protocol::PlaybackFailureClass;
use crate::text::{
    append_chars, chars_of, copy_range, eq_str, find_chars, find_sub, lemma_find_sub_occurs,
    lines, lines_of, lower, owned, parse_unsigned, parse_usize, push_str, split_chars, split_on,
    split_once, split_once_chars, split_once_sub, split_once_sub_chars, strip_prefix,
    strip_prefix_chars, string_from, to_ascii_lower, trim, trim_start, trim_start_chars, trimmed,
    views,
};

verus! {

/// The index, id, driver and name of a card line such as
/// ` 2 [iBassoDC04Pro  ]: USB-Audio - iBasso-DC04-Pro`.
pub open spec fn card_fields(line: Seq<char>) -> Option<(usize, Seq<char>, Seq<char>, Seq<char>)> {
    match split_once(trim_start(line), '[') {
        None => None,
        Some((it, ai)) => match parse_unsigned(trim(it), usize::MAX as nat) {
            None => None,
            Some(ci) => match split_once(ai, ']') {
                None => None,
                Some((cid, ac)) => match strip_prefix(trim_start(ac), ":"@) {
                    None => None,
                    Some(x) => match split_once_sub(trim_start(x), " - "@) {
                        None => None,
                        Some((d, n)) => Some((ci as usize, trim(cid), trim(d), trim(n))),
                    },
                },
            },
        },
    }
}

/// The index, id, driver and name of a card line, when it is one.
pub fn parse_alsa_card_line(line: &str) -> (r: Option<(usize, String, String, String)>)
    ensures
        match r {
            Some((i, id, d, n)) => card_fields(line@) == Some((i, id@, d@, n@)),
            None => card_fields(line@) is None,
        },
{
    let lc = chars_of(line);
    let t = trim_start_chars(lc.as_slice());
    let (it, ai) = match split_once_chars(t.as_slice(), '[') {
        Some(p) => p,
        None => {
            return None;
        },
    };
    let itt = trimmed(it.as_slice());
    let ci = match parse_usize(itt.as_slice()) {
        Some(n) => n,
        None => {
            return None;
        },
    };
    let (cid, ac) = match split_once_chars(ai.as_slice(), ']') {
        Some(p) => p,
        None => {
            return None;
        },
    };
    let act = trim_start_chars(ac.as_slice());
    let x = match strip_prefix_chars(act.as_slice(), ":") {
        Some(x) => x,
        None => {
            return None;
        },
    };
    let xt = trim_start_chars(x.as_slice());
    let (d, n) = match split_once_sub_chars(xt.as_slice(), " - ") {
        Some(p) => p,
        None => {
            return None;
        },
    };
    Some(
        (
            ci,
            string_from(trimmed(cid.as_slice()).as_slice()),
            string_from(trimmed(d.as_slice()).as_slice()),
            string_from(trimmed(n.as_slice()).as_slice()),
        ),
    )
}

/// Whether a card is a USB audio device: its driver is `usb-audio`, or its
/// detail line says it sits on a USB bus (case ignored).
pub open spec fn usb_card(driver: Seq<char>, detail: Seq<char>) -> bool {
    lower(trim(driver)) == "usb-audio"@ || find_sub(lower(trim(detail)), " at usb-"@) is Some
}

/// Whether a card is a USB audio device.
pub fn is_usb_audio_card(driver: &str, detail: &str) -> (r: bool)
    ensures
        r == usb_card(driver@, detail@),
{
    let dc = chars_of(driver);
    let d = to_ascii_lower(trimmed(dc.as_slice()).as_slice());
    let tc = chars_of(detail);
    let t = to_ascii_lower(trimmed(tc.as_slice()).as_slice());
    let marker = chars_of(" at usb-");
    eq_str(d.as_slice(), "usb-audio") || find_chars(t.as_slice(), marker.as_slice()).is_some()
}

/// The part of `d` before `marker`, trimmed, when it holds `marker`.
pub open spec fn before_marker(d: Seq<char>, marker: Seq<char>) -> Option<Seq<char>> {
    match find_sub(d, marker) {
        Some(i) => Some(trim(d.take(i))),
        None => None,
    }
}

/// The name shown for a DAC: its detail line up to ` at usb-` (else up to
/// ` at `), when that leaves something; else the card's name.
pub open spec fn display_name(name: Seq<char>, detail: Seq<char>) -> Seq<char> {
    let d = trim(detail);
    let shown = match before_marker(d, " at usb-"@) {
        Some(x) => x,
        None => match before_marker(d, " at "@) {
            Some(x) => x,
            None => d,
        },
    };
    if d.len() > 0 && shown.len() > 0 {
        shown
    } else {
        trim(name)
    }
}

fn before_marker_chars(d: &[char], marker: &str) -> (r: Option<Vec<char>>)
    ensures
        match r {
            Some(v) => before_marker(d@, marker@) == Some(v@),
            None => before_marker(d@, marker@) is None,
        },
{
    let m = chars_of(marker);
    match find_chars(d, m.as_slice()) {
        Some(i) => {
            proof {
                lemma_find_sub_occurs(d@, m@);
            }
            let head = copy_range(d, 0, i);
            Some(trimmed(head.as_slice()))
        },
        None => None,
    }
}

/// The name shown for a DAC.
pub fn decoder_display_name(name: &str, detail: &str) -> (r: String)
    ensures
        r@ == display_name(name@, detail@),
{
    let dc = chars_of(detail);
    let d = trimmed(dc.as_slice());
    if d.len() > 0 {
        let shown = match before_marker_chars(d.as_slice(), " at usb-") {
            Some(x) => x,
            None => match before_marker_chars(d.as_slice(), " at ") {
                Some(x) => x,
                None => copy_range(d.as_slice(), 0, d.len()),
            },
        };
        assert(d@.subrange(0, d@.len() as int) =~= d@);
        if shown.len() > 0 {
            return string_from(shown.as_slice());
        }
    }
    let nc = chars_of(name);
    string_from(trimmed(nc.as_slice()).as_slice())
}

/// A USB DAC found among the sound cards.
#[derive(Debug, PartialEq, Eq)]
pub struct UsbAudioOutputDevice {
    pub card_index: usize,
    pub card_id: String,
    pub name: String,
    pub alsa_device: String,
}

/// The value of a found DAC.
pub struct DeviceModel {
    pub card_index: usize,
    pub card_id: Seq<char>,
    pub name: Seq<char>,
    pub alsa_device: Seq<char>,
}

impl View for UsbAudioOutputDevice {
    type V = DeviceModel;

    open spec fn view(&self) -> DeviceModel {
        DeviceModel {
            card_index: self.card_index,
            card_id: self.card_id@,
            name: self.name@,
            alsa_device: self.alsa_device@,
        }
    }
}

/// The detail line of the card on line `i`: the next line, trimmed, unless it
/// is itself a card line.
pub open spec fn detail_at(ls: Seq<Seq<char>>, i: int) -> Seq<char> {
    if i + 1 < ls.len() && card_fields(ls[i + 1]) is None {
        trim(ls[i + 1])
    } else {
        Seq::empty()
    }
}

/// The DAC on line `i`, when that line is a USB audio card.
pub open spec fn device_at(ls: Seq<Seq<char>>, i: int) -> Option<DeviceModel> {
    match card_fields(ls[i]) {
        None => None,
        Some((ci, id, driver, name)) => {
            let detail = detail_at(ls, i);
            if !usb_card(driver, detail) {
                None
            } else {
                Some(
                    DeviceModel {
                        card_index: ci,
                        card_id: id,
                        name: display_name(name, detail),
                        alsa_device: "plughw:CARD="@ + id + ",DEV=0"@,
                    },
                )
            }
        },
    }
}

/// The DACs on lines `i` and after, in order.
pub open spec fn devices_from(ls: Seq<Seq<char>>, i: int) -> Seq<DeviceModel>
    decreases ls.len() - i,
{
    if i < 0 || i >= ls.len() {
        Seq::empty()
    } else {
        match device_at(ls, i) {
            Some(d) => seq![d] + devices_from(ls, i + 1),
            None => devices_from(ls, i + 1),
        }
    }
}

/// The views of found DACs.
pub open spec fn devices_view(v: Seq<UsbAudioOutputDevice>) -> Seq<DeviceModel> {
    v.map_values(|d: UsbAudioOutputDevice| d@)
}

/// The USB DACs in a `/proc/asound/cards` listing, in order.
pub fn usb_audio_output_devices_from_cards(cards: &str) -> (r: Vec<UsbAudioOutputDevice>)
    ensures
        devices_view(r@) == devices_from(lines(cards@), 0),
{
    let ls = lines_of(cards);
    let ghost lv = views(ls@);
    let n = ls.len();
    let mut out: Vec<UsbAudioOutputDevice> = Vec::new();
    let mut i: usize = 0;
    assert(devices_view(out@) + devices_from(lv, 0) =~= devices_from(lv, 0));
    while i < n
        invariant
            lv == views(ls@),
            lv == lines(cards@),
            n == ls.len(),
            0 <= i <= n,
            devices_view(out@) + devices_from(lv, i as int) == devices_from(lv, 0),
        decreases n - i,
    {
        let ghost before = devices_view(out@);
        let line = string_from(ls[i].as_slice());
        match parse_alsa_card_line(line.as_str()) {
            None => {},
            Some((ci, id, driver, name)) => {
                let detail = if i + 1 < n {
                    let next = string_from(ls[i + 1].as_slice());
                    if parse_alsa_card_line(next.as_str()).is_none() {
                        string_from(trimmed(ls[i + 1].as_slice()).as_slice())
                    } else {
                        String::new()
                    }
                } else {
                    String::new()
                };
                assert(detail@ == detail_at(lv, i as int));
                if is_usb_audio_card(driver.as_str(), detail.as_str()) {
                    let mut dev = owned("plughw:CARD=");
                    push_str(&mut dev, id.as_str());
                    push_str(&mut dev, ",DEV=0");
                    let shown = decoder_display_name(name.as_str(), detail.as_str());
                    let d = UsbAudioOutputDevice { card_index: ci, card_id: id, name: shown, alsa_device: dev };
                    assert(Some(d@) == device_at(lv, i as int));
                    out.push(d);
                    assert(devices_view(out@) =~= before.push(d@));
                    assert(before.push(d@) + devices_from(lv, i as int + 1) =~= before + devices_from(lv, i as int));
                }
            },
        }
        i = i + 1;
    }
    assert(devices_from(lv, n as int) =~= Seq::<DeviceModel>::empty());
    assert(devices_view(out@) + devices_from(lv, n as int) =~= devices_view(out@));
    out
}

/// How a found DAC is named in an error: `name (device)`.
pub open spec fn device_label(d: DeviceModel) -> Seq<char> {
    d.name + " ("@ + d.alsa_device + ")"@
}

/// The one USB DAC in a cards listing; an `audio_output_unavailable` error
/// when there is none, and an `audio_output_ambiguous` error naming them all
/// when there are several.
pub fn select_unique_usb_audio_output(cards: &str) -> (r: Result<UsbAudioOutputDevice, PlaybackOperationError>)
    ensures
        ({
            let ds = devices_from(lines(cards@), 0);
            match r {
                Ok(d) => ds.len() == 1 && d@ == ds[0],
                Err(e) => {
                    &&& ds.len() != 1
                    &&& e.class == PlaybackFailureClass::Output
                    &&& e.recoverable
                    &&& !e.keep_quiet
                    &&& ds.len() == 0 ==> e.code@ == "audio_output_unavailable"@ && e.reason@
                        == "no USB Audio DAC found in /proc/asound/cards"@
                    &&& ds.len() > 1 ==> e.code@ == "audio_output_ambiguous"@ && e.reason@
                        == "multiple USB Audio DACs connected: "@ + crate::text::join(
                        ds.map_values(|d: DeviceModel| device_label(d)),
                        ", "@,
                    )
                },
            }
        }),
{
    let mut devices = usb_audio_output_devices_from_cards(cards);
    let ghost ds = devices_view(devices@);
    if devices.len() == 0 {
        return Err(
            PlaybackOperationError::output(
                "audio_output_unavailable",
                "no USB Audio DAC found in /proc/asound/cards",
            ),
        );
    }
    if devices.len() == 1 {
        let d = devices.remove(0);
        return Ok(d);
    }
    let mut labels: Vec<Vec<char>> = Vec::new();
    let mut i: usize = 0;
    while i < devices.len()
        invariant
            ds == devices_view(devices@),
            0 <= i <= devices.len(),
            views(labels@) =~= ds.map_values(|d: DeviceModel| device_label(d)).take(i as int),
        decreases devices.len() - i,
    {
        let mut l = owned(devices[i].name.as_str());
        push_str(&mut l, " (");
        push_str(&mut l, devices[i].alsa_device.as_str());
        push_str(&mut l, ")");
        let ghost before = views(labels@);
        labels.push(chars_of(l.as_str()));
        assert(views(labels@) =~= before.push(device_label(ds[i as int])));
        i = i + 1;
    }
    let sep = chars_of(", ");
    let joined = crate::text::join_chars(&labels, sep.as_slice());
    let mut reason = owned("multiple USB Audio DACs connected: ");
    append_chars(&mut reason, joined.as_slice());
    assert(views(labels@) =~= ds.map_values(|d: DeviceModel| device_label(d)));
    Err(PlaybackOperationError::output("audio_output_ambiguous", reason.as_str()))
}

/// The text after the first `p` in `s`, up to the next `p`: the second piece
/// of `s.split(p)`.
pub open spec fn second_piece(s: Seq<char>, p: Seq<char>) -> Option<Seq<char>> {
    match split_once_sub(s, p) {
        None => None,
        Some((_, rest)) => Some(
            match find_sub(rest, p) {
                Some(j) => rest.take(j),
                None => rest,
            },
        ),
    }
}

fn second_piece_chars(s: &[char], p: &str) -> (r: Option<Vec<char>>)
    ensures
        match r {
            Some(v) => second_piece(s@, p@) == Some(v@),
            None => second_piece(s@, p@) is None,
        },
{
    match split_once_sub_chars(s, p) {
        None => None,
        Some((_a, rest)) => {
            let pc = chars_of(p);
            match find_chars(rest.as_slice(), pc.as_slice()) {
                Some(j) => {
                    proof {
                        lemma_find_sub_occurs(rest@, pc@);
                    }
                    Some(copy_range(rest.as_slice(), 0, j))
                },
                None => {
                    assert(rest@.subrange(0, rest@.len() as int) =~= rest@);
                    Some(copy_range(rest.as_slice(), 0, rest.len()))
                },
            }
        },
    }
}

/// The card of an ALSA device name: what follows `CARD=` up to a comma, else
/// the part after the colon up to a comma when it is not empty.
pub open spec fn card_token(device: Seq<char>) -> Option<Seq<char>> {
    match second_piece(device, "CARD="@) {
        Some(v) => Some(split_on(v, ',')[0]),
        None => {
            let parts = split_on(device, ':');
            if parts.len() > 1 && split_on(parts[1], ',')[0].len() > 0 {
                Some(split_on(parts[1], ',')[0])
            } else {
                None
            }
        },
    }
}

/// The card of an ALSA device name.
pub fn parse_card_token(device: &str) -> (r: Option<String>)
    ensures
        crate::paths::opt_view(r) == card_token(device@),
{
    let dc = chars_of(device);
    match second_piece_chars(dc.as_slice(), "CARD=") {
        Some(v) => {
            let pieces = split_chars(v.as_slice(), ',');
            Some(string_from(pieces[0].as_slice()))
        },
        None => {
            let parts = split_chars(dc.as_slice(), ':');
            if parts.len() > 1 {
                let q = split_chars(parts[1].as_slice(), ',');
                if q[0].len() > 0 {
                    return Some(string_from(q[0].as_slice()));
                }
            }
            None
        },
    }
}

/// The device number of an ALSA device name: what follows `DEV=` up to a
/// comma when it reads as a number, else the second comma-separated field
/// after the colon when it does.
pub open spec fn device_number(device: Seq<char>) -> Option<nat> {
    let by_key = match second_piece(device, "DEV="@) {
        Some(v) => parse_unsigned(split_on(v, ',')[0], usize::MAX as nat),
        None => None,
    };
    match by_key {
        Some(n) => Some(n),
        None => {
            let parts = split_on(device, ':');
            if parts.len() > 1 && split_on(parts[1], ',').len() > 1 {
                parse_unsigned(split_on(parts[1], ',')[1], usize::MAX as nat)
            } else {
                None
            }
        },
    }
}

/// The device number of an ALSA device name.
pub fn parse_device_index(device: &str) -> (r: Option<usize>)
    ensures
        match r {
            Some(n) => device_number(device@) == Some(n as nat),
            None => device_number(device@) is None,
        },
{
    let dc = chars_of(device);
    if let Some(v) = second_piece_chars(dc.as_slice(), "DEV=") {
        let pieces = split_chars(v.as_slice(), ',');
        if let Some(n) = parse_usize(pieces[0].as_slice()) {
            return Some(n);
        }
    }
    let parts = split_chars(dc.as_slice(), ':');
    if parts.len() > 1 {
        let q = split_chars(parts[1].as_slice(), ',');
        if q.len() > 1 {
            return parse_usize(q[1].as_slice());
        }
    }
    None
}

/// The `/proc/asound` directory of a card given by its number: a token of
/// ASCII digits only (the empty token included) names `card<token>`.
pub open spec fn card_dir_by_number(token: Seq<char>) -> Option<Seq<char>> {
    if forall|i: int| 0 <= i < token.len() ==> crate::text::is_digit(#[trigger] token[i]) {
        Some("/proc/asound/card"@ + token)
    } else {
        None
    }
}

/// The `/proc/asound` directory of a card given by its number; none for a
/// card given by its id, which has to be looked up.
pub fn proc_card_dir_by_number(token: &str) -> (r: Option<String>)
    ensures
        crate::paths::opt_view(r) == card_dir_by_number(token@),
{
    let tc = chars_of(token);
    let mut i: usize = 0;
    while i < tc.len()
        invariant
            tc@ == token@,
            0 <= i <= tc.len(),
            forall|j: int| 0 <= j < i ==> crate::text::is_digit(#[trigger] tc@[j]),
        decreases tc.len() - i,
    {
        if !('0' <= tc[i] && tc[i] <= '9') {
            assert(!crate::text::is_digit(token@[i as int]));
            return None;
        }
        i = i + 1;
    }
    let mut s = owned("/proc/asound/card");
    push_str(&mut s, token);
    Some(s)
}

/// The format named by a path's extension, in lower case; empty without one.
pub open spec fn format_of_path(path: Seq<char>) -> Seq<char> {
    match crate::paths::path_extension(path) {
        Some(e) => lower(e),
        None => Seq::empty(),
    }
}

/// The format named by a path's extension, in lower case.
pub fn detect_format(path: &str) -> (r: String)
    ensures
        r@ == format_of_path(path@),
{
    match crate::paths::extension_of(path) {
        Some(e) => {
            let c = chars_of(e.as_str());
            string_from(to_ascii_lower(c.as_slice()).as_slice())
        },
        None => String::new(),
    }
}

/// A track's format: the library's when it has one, else its file's extension.
pub open spec fn track_format(format: Seq<char>, path: Seq<char>) -> Seq<char> {
    if format.len() > 0 {
        format
    } else {
        format_of_path(path)
    }
}

/// A resolved track's format.
pub fn resolved_format(track: &ResolvedTrack) -> (r: String)
    ensures
        r@ == track_format(track.format@, track.absolute_path@),
{
    if !track.format.as_str().is_empty() {
        return crate::queue::copy_string(&track.format);
    }
    detect_format(track.absolute_path.as_str())
}

/// Whether a resolved track is DSD: its format is `dff`, `dsf` or `dsd`.
pub fn is_dsd_format(track: &ResolvedTrack) -> (r: bool)
    ensures
        r == (track_format(track.format@, track.absolute_path@) == "dff"@ || track_format(
            track.format@,
            track.absolute_path@,
        ) == "dsf"@ || track_format(track.format@, track.absolute_path@) == "dsd"@),
{
    let f = resolved_format(track);
    let c = chars_of(f.as_str());
    eq_str(c.as_slice(), "dff") || eq_str(c.as_slice(), "dsf") || eq_str(c.as_slice(), "dsd")
}

/// `value`, or `(unknown)` when it is empty.
pub fn empty_label(value: &str) -> (r: &str)
    ensures
        r@ == (if value@.len() == 0 {
            "(unknown)"@
        } else {
            value@
        }),
{
    if value.is_empty() {
        "(unknown)"
    } else {
        value
    }
}

} // verus!
