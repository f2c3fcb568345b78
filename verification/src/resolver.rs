//! Finding the file to play for a track id: a path given directly, when that
//! is allowed, or the row the library holds for the track.

use vstd::prelude::*;
use crate::cards::format_of_path;
use crate::paths::{file_name_of, join, join_path, opt_view, path_file_name};
use crate::playback::{PlaybackOperationError, ResolvedTrack};
use crate::protocol::PlaybackFailureClass;
use crate::text::{chars_of, eq_str, lower, owned, push_str, to_ascii_lower, trim, trimmed};

verus! {

/// Whether the value of `LUMELO_PLAYBACK_ALLOW_ABSOLUTE_PATHS` turns path
/// playback on: `1`, `true`, `yes` or `on`, in any case, around whitespace.
pub open spec fn flag_enabled(v: Option<Seq<char>>) -> bool {
    match v {
        Some(s) => {
            let t = lower(trim(s));
            t == "1"@ || t == "true"@ || t == "yes"@ || t == "on"@
        },
        None => false,
    }
}

/// Whether path playback is on, given the value of
/// `LUMELO_PLAYBACK_ALLOW_ABSOLUTE_PATHS`.
pub fn absolute_path_playback_enabled(value: Option<String>) -> (r: bool)
    ensures
        r == flag_enabled(opt_view(value)),
{
    match value {
        Some(v) => {
            let c = chars_of(v.as_str());
            let t = trimmed(c.as_slice());
            let l = to_ascii_lower(t.as_slice());
            eq_str(l.as_slice(), "1") || eq_str(l.as_slice(), "true") || eq_str(l.as_slice(), "yes") || eq_str(
                l.as_slice(),
                "on",
            )
        },
        None => false,
    }
}

/// Whether a path is absolute: on Unix, whether it starts at the root.
pub open spec fn is_absolute(p: Seq<char>) -> bool {
    p.len() > 0 && p[0] == '/'
}

/// Whether `path` is absolute.
pub fn is_absolute_path(path: &str) -> (r: bool)
    ensures
        r == is_absolute(path@),
{
    let c = chars_of(path);
    c.len() > 0 && c[0] == '/'
}

/// Whether `e` is the failure `code` of the content, with `reason`.
pub open spec fn content_error(e: PlaybackOperationError, code: Seq<char>, reason: Seq<char>, keep_quiet: bool) -> bool {
    &&& e.code@ == code
    &&& e.reason@ == reason
    &&& e.class == PlaybackFailureClass::Content
    &&& e.recoverable
    &&& e.keep_quiet == keep_quiet
}

/// Whether `t` is the track played straight from the file `path`.
pub open spec fn path_track(t: ResolvedTrack, path: Seq<char>) -> bool {
    &&& t.track_uid@ == path
    &&& t.volume_uuid@ == "manual-path"@
    &&& t.relative_path@ == path
    &&& opt_view(t.title) == Some(
        match path_file_name(path) {
            Some(n) => n,
            None => path,
        },
    )
    &&& t.duration_ms is None
    &&& t.format@ == format_of_path(path)
    &&& t.absolute_path@ == path
}

/// The track for an id that is an absolute path: refused when path playback
/// is off; nothing when the id is not an absolute path or no file is there
/// (`exists` says whether one is); else the file itself.
pub fn resolve_path_track(track_id: &str, allow_absolute_paths: bool, exists: bool) -> (r: Result<Option<ResolvedTrack>, PlaybackOperationError>)
    ensures
        !is_absolute(track_id@) ==> r matches Ok(None),
        is_absolute(track_id@) && !allow_absolute_paths ==> (r matches Err(e) && content_error(
            e,
            "absolute_path_playback_disabled"@,
            "absolute path playback is disabled; use a library track uid"@,
            false,
        )),
        is_absolute(track_id@) && allow_absolute_paths && !exists ==> r matches Ok(None),
        is_absolute(track_id@) && allow_absolute_paths && exists ==> (r matches Ok(Some(t)) && path_track(t, track_id@)),
{
    if !is_absolute_path(track_id) {
        return Ok(None);
    }
    if !allow_absolute_paths {
        return Err(
            PlaybackOperationError::content(
                "absolute_path_playback_disabled",
                "absolute path playback is disabled; use a library track uid",
                false,
            ),
        );
    }
    if !exists {
        return Ok(None);
    }
    let title = match file_name_of(track_id) {
        Some(n) => n,
        None => owned(track_id),
    };
    Ok(
        Some(
            ResolvedTrack {
                track_uid: owned(track_id),
                volume_uuid: owned("manual-path"),
                relative_path: owned(track_id),
                title: Some(title),
                duration_ms: None,
                format: crate::cards::detect_format(track_id),
                absolute_path: owned(track_id),
            },
        ),
    )
}

/// What the library holds for a track: its identity, its title (or file
/// name), duration and format, whether its volume is mounted, and where.
#[derive(Debug)]
pub struct LibraryTrackRow {
    pub track_uid: String,
    pub volume_uuid: String,
    pub relative_path: String,
    pub title: Option<String>,
    pub duration_ms: Option<i64>,
    pub format: String,
    pub is_available: bool,
    pub mount_path: String,
}

/// Whether `t` is the track the row `row` describes: a negative duration is
/// dropped, and the file lies at the relative path under the mount path.
pub open spec fn row_track(t: ResolvedTrack, row: LibraryTrackRow) -> bool {
    &&& t.track_uid@ == row.track_uid@
    &&& t.volume_uuid@ == row.volume_uuid@
    &&& t.relative_path@ == row.relative_path@
    &&& opt_view(t.title) == opt_view(row.title)
    &&& t.duration_ms == match row.duration_ms {
        Some(d) => if d >= 0 {
            Some(d as u64)
        } else {
            None
        },
        None => None,
    }
    &&& t.format@ == row.format@
    &&& t.absolute_path@ == join_path(row.mount_path@, row.relative_path@)
}

/// The track for `track_id` from the library's row for it: not found without
/// a row, refused while its volume is offline, else the row's track.
pub fn track_from_row(track_id: &str, row: Option<LibraryTrackRow>) -> (r: Result<ResolvedTrack, PlaybackOperationError>)
    ensures
        match row {
            None => r matches Err(e) && content_error(e, "track_not_found"@, "track is not present in library.db: "@ + track_id@, true),
            Some(w) => if w.is_available {
                r matches Ok(t) && row_track(t, w)
            } else {
                r matches Err(e) && content_error(e, "track_volume_unavailable"@, "track volume is offline: "@ + w.volume_uuid@, false)
            },
        },
{
    match row {
        None => {
            let mut reason = owned("track is not present in library.db: ");
            push_str(&mut reason, track_id);
            Err(PlaybackOperationError::content("track_not_found", reason.as_str(), true))
        },
        Some(w) => {
            if !w.is_available {
                let mut reason = owned("track volume is offline: ");
                push_str(&mut reason, w.volume_uuid.as_str());
                return Err(PlaybackOperationError::content("track_volume_unavailable", reason.as_str(), false));
            }
            let duration_ms = match w.duration_ms {
                Some(d) => if d >= 0 {
                    Some(d as u64)
                } else {
                    None
                },
                None => None,
            };
            let absolute_path = join(w.mount_path.as_str(), w.relative_path.as_str());
            Ok(
                ResolvedTrack {
                    track_uid: w.track_uid,
                    volume_uuid: w.volume_uuid,
                    relative_path: w.relative_path,
                    title: w.title,
                    duration_ms,
                    format: w.format,
                    absolute_path,
                },
            )
        },
    }
}

/// A play request passes when its track's file is there (`exists` says
/// whether it is); else it fails before the queue changes.
pub fn preflight_track_file(track: &ResolvedTrack, exists: bool) -> (r: Result<(), PlaybackOperationError>)
    ensures
        exists ==> r is Ok,
        !exists ==> (r matches Err(e) && content_error(
            e,
            "track_file_missing"@,
            "resolved media path is missing: "@ + track.absolute_path@,
            false,
        )),
{
    if exists {
        return Ok(());
    }
    let mut reason = owned("resolved media path is missing: ");
    push_str(&mut reason, track.absolute_path.as_str());
    Err(PlaybackOperationError::content("track_file_missing", reason.as_str(), false))
}

} // verus!
