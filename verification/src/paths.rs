//! Where the services keep their sockets, flags and state files.
//!
//! The directories can be moved by environment variables. Reading the
//! environment is left to the caller, which hands over what it read.

use vstd::prelude::*;
use crate::text::{owned, push_str};

verus! {

pub const LUMELO_RUNTIME_DIR: &'static str = "/run/lumelo";
pub const LUMELO_STATE_DIR: &'static str = "/var/lib/lumelo";
pub const LUMELO_CACHE_DIR: &'static str = "/var/cache/lumelo";
pub const PLAYBACK_CMD_SOCKET: &'static str = "/run/lumelo/playback_cmd.sock";
pub const PLAYBACK_EVT_SOCKET: &'static str = "/run/lumelo/playback_evt.sock";
pub const QUIET_MODE_FLAG_PATH: &'static str = "/run/lumelo/quiet_mode";
pub const PLAYBACK_QUEUE_STATE_PATH: &'static str = "/var/lib/lumelo/queue.json";
pub const PLAYBACK_HISTORY_STATE_PATH: &'static str = "/var/lib/lumelo/history.json";
pub const PRODUCT_STATE_DIR: &'static str = "/var/lib/lumelo";

/// `base` with `part` joined onto it, as `PathBuf::join` does on Unix: an
/// absolute `part` replaces the path; otherwise a `/` separates the two unless
/// `base` is empty or already ends with one.
pub open spec fn join_path(base: Seq<char>, part: Seq<char>) -> Seq<char> {
    if part.len() > 0 && part[0] == '/' {
        part
    } else if base.len() == 0 || base.last() == '/' {
        base + part
    } else {
        base + seq!['/'] + part
    }
}

/// `base` joined with `part`.
pub fn join(base: &str, part: &str) -> (r: String)
    ensures
        r@ == join_path(base@, part@),
{
    let pl = crate::text::chars_of(part);
    if pl.len() > 0 && pl[0] == '/' {
        return owned(part);
    }
    let bl = crate::text::chars_of(base);
    let mut r = owned(base);
    if bl.len() > 0 && bl[bl.len() - 1] != '/' {
        crate::text::push_char(&mut r, '/');
    }
    push_str(&mut r, part);
    r
}

/// The first of the environment values read that is set and not empty, or
/// the fallback.
pub open spec fn env_choice(values: Seq<Option<Seq<char>>>, fallback: Seq<char>) -> Seq<char>
    decreases values.len(),
{
    if values.len() == 0 {
        fallback
    } else {
        match values[0] {
            Some(v) => if v.len() > 0 {
                v
            } else {
                env_choice(values.drop_first(), fallback)
            },
            None => env_choice(values.drop_first(), fallback),
        }
    }
}

/// The first value that is set and not empty, or `fallback`.
fn first_set(first: Option<String>, second: Option<String>, fallback: &str) -> (r: String)
    ensures
        r@ == env_choice(seq![opt_view(first), opt_view(second)], fallback@),
{
    let ghost vals = seq![opt_view(first), opt_view(second)];
    proof {
        reveal_with_fuel(env_choice, 3);
    }
    assert(vals.drop_first() =~= seq![opt_view(second)]);
    assert(vals.drop_first().drop_first() =~= Seq::<Option<Seq<char>>>::empty());
    if let Some(v) = first {
        if !v.as_str().is_empty() {
            return v;
        }
    }
    if let Some(v) = second {
        if !v.as_str().is_empty() {
            return v;
        }
    }
    owned(fallback)
}

/// The view of an optional string.
pub open spec fn opt_view(o: Option<String>) -> Option<Seq<char>> {
    match o {
        Some(s) => Some(s@),
        None => None,
    }
}

/// The runtime directory, given the values of `LUMELO_RUNTIME_DIR` and
/// `PRODUCT_RUNTIME_DIR`.
pub fn runtime_dir_path(lumelo: Option<String>, product: Option<String>) -> (r: String)
    ensures
        r@ == env_choice(seq![opt_view(lumelo), opt_view(product)], LUMELO_RUNTIME_DIR@),
{
    first_set(lumelo, product, LUMELO_RUNTIME_DIR)
}

/// The state directory, given the values of `LUMELO_STATE_DIR` and
/// `PRODUCT_STATE_DIR`.
pub fn state_dir_path(lumelo: Option<String>, product: Option<String>) -> (r: String)
    ensures
        r@ == env_choice(seq![opt_view(lumelo), opt_view(product)], LUMELO_STATE_DIR@),
{
    first_set(lumelo, product, LUMELO_STATE_DIR)
}

/// The cache directory, given the values of `LUMELO_CACHE_DIR` and
/// `PRODUCT_CACHE_DIR`.
pub fn cache_dir_path(lumelo: Option<String>, product: Option<String>) -> (r: String)
    ensures
        r@ == env_choice(seq![opt_view(lumelo), opt_view(product)], LUMELO_CACHE_DIR@),
{
    first_set(lumelo, product, LUMELO_CACHE_DIR)
}

/// The path set by an environment variable, or `name` inside `dir`.
pub open spec fn path_or_default(set: Option<Seq<char>>, dir: Seq<char>, name: Seq<char>) -> Seq<char> {
    match set {
        Some(v) => v,
        None => join_path(dir, name),
    }
}

fn set_or_join(set: Option<String>, dir: &str, name: &str) -> (r: String)
    ensures
        r@ == path_or_default(opt_view(set), dir@, name@),
{
    match set {
        Some(v) => v,
        None => join(dir, name),
    }
}

/// The command socket: `PLAYBACK_CMD_SOCKET_PATH` when it is set, else
/// `playback_cmd.sock` in the runtime directory.
pub fn command_socket_path_from_env(set: Option<String>, runtime_dir: &str) -> (r: String)
    ensures
        r@ == path_or_default(opt_view(set), runtime_dir@, "playback_cmd.sock"@),
{
    set_or_join(set, runtime_dir, "playback_cmd.sock")
}

/// The event socket: `PLAYBACK_EVT_SOCKET_PATH` when it is set, else
/// `playback_evt.sock` in the runtime directory.
pub fn event_socket_path_from_env(set: Option<String>, runtime_dir: &str) -> (r: String)
    ensures
        r@ == path_or_default(opt_view(set), runtime_dir@, "playback_evt.sock"@),
{
    set_or_join(set, runtime_dir, "playback_evt.sock")
}

/// The quiet-mode flag: `QUIET_MODE_FLAG_PATH` when it is set, else
/// `quiet_mode` in the runtime directory.
pub fn quiet_mode_flag_path_from_env(set: Option<String>, runtime_dir: &str) -> (r: String)
    ensures
        r@ == path_or_default(opt_view(set), runtime_dir@, "quiet_mode"@),
{
    set_or_join(set, runtime_dir, "quiet_mode")
}

/// The saved queue: `PLAYBACK_QUEUE_STATE_PATH` when it is set, else
/// `queue.json` in the state directory.
pub fn queue_state_path_from_env(set: Option<String>, state_dir: &str) -> (r: String)
    ensures
        r@ == path_or_default(opt_view(set), state_dir@, "queue.json"@),
{
    set_or_join(set, state_dir, "queue.json")
}

/// The saved history: `PLAYBACK_HISTORY_STATE_PATH` when it is set, else
/// `history.json` in the state directory.
pub fn history_state_path_from_env(set: Option<String>, state_dir: &str) -> (r: String)
    ensures
        r@ == path_or_default(opt_view(set), state_dir@, "history.json"@),
{
    set_or_join(set, state_dir, "history.json")
}

/// The library database: `LIBRARY_DB_PATH` when it is set, else
/// `library.db` in the state directory.
pub fn library_db_path_from_env(set: Option<String>, state_dir: &str) -> (r: String)
    ensures
        r@ == path_or_default(opt_view(set), state_dir@, "library.db"@),
{
    set_or_join(set, state_dir, "library.db")
}

/// The artwork cache: `ARTWORK_CACHE_DIR` when it is set, else `artwork`
/// in the cache directory.
pub fn artwork_cache_dir_from_env(set: Option<String>, cache_dir: &str) -> (r: String)
    ensures
        r@ == path_or_default(opt_view(set), cache_dir@, "artwork"@),
{
    set_or_join(set, cache_dir, "artwork")
}

/// The extension that `std::path::Path::extension` finds in `path`: the text
/// after the last dot of the file name, when there is one that does not start
/// the name.
pub uninterp spec fn path_extension(path: Seq<char>) -> Option<Seq<char>>;

/// Calls `std::path::Path::extension` on `path` and turns the result into a
/// `String`. The contract says only that the result is the one named by
/// `path_extension` for this path; the rules that find the extension are the
/// standard library's.
#[verifier::external_body]
pub(crate) fn extension_of(path: &str) -> (r: Option<String>)
    ensures
        opt_view(r) == path_extension(path@),
{
    match std::path::Path::new(path).extension() {
        Some(e) => e.to_str().map(|v| v.to_string()),
        None => None,
    }
}

/// The last component that `std::path::Path::file_name` finds in `path`.
pub uninterp spec fn path_file_name(path: Seq<char>) -> Option<Seq<char>>;

/// Calls `std::path::Path::file_name` on `path` and turns the result into a
/// `String`. The contract says only that the result is the one named by
/// `path_file_name` for this path.
#[verifier::external_body]
pub(crate) fn file_name_of(path: &str) -> (r: Option<String>)
    ensures
        opt_view(r) == path_file_name(path@),
{
    match std::path::Path::new(path).file_name() {
        Some(n) => n.to_str().map(|v| v.to_string()),
        None => None,
    }
}

/// The path without its last component, as `std::path::Path::parent` gives it.
pub uninterp spec fn path_parent(path: Seq<char>) -> Option<Seq<char>>;

/// Calls `std::path::Path::parent` on `path` and turns the result into a
/// `String`. The contract says only that the result is the one named by
/// `path_parent` for this path.
#[verifier::external_body]
pub(crate) fn parent_of(path: &str) -> (r: Option<String>)
    ensures
        opt_view(r) == path_parent(path@),
{
    match std::path::Path::new(path).parent() {
        Some(p) => p.to_str().map(|v| v.to_string()),
        None => None,
    }
}

} // verus!
