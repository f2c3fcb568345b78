//! Library indexing rules: text normalisation, stable identifiers, names and
//! numbers read from paths, and the order in which names are kept.

use vstd::prelude::*;
use crate::text::{
    append_chars, chars_eq, chars_of, collapse_ws, copy_range, decimal, digits_value, eq_str,
    is_digit, lower, parse_i64_nonneg, parse_unsigned, push_char, push_str, string_from,
    strip_prefix, strip_prefix_chars, to_ascii_lower, trim, trimmed, u64_decimal, views,
};
use crate::paths::{extension_of, file_name_of, opt_view, parent_of, path_extension, path_file_name, path_parent};

verus! {

/// Where the library database lives unless `LIBRARY_DB_PATH` says otherwise.
pub const DEFAULT_LIBRARY_DB_PATH: &'static str = "/var/lib/lumelo/library.db";

/// The schema version written into a new library database.
pub const LIBRARY_SCHEMA_VERSION: &'static str = "1";

/// The artist name used when no tag names one.
pub const UNKNOWN_ARTIST: &'static str = "Unknown Artist";

/// The version mixed into every stable identifier of scanned content.
pub const CACHE_VERSION: u32 = 1;

/// The longest edge of a generated thumbnail, in pixels.
pub const THUMB_MAX_EDGE_PX: u32 = 320;

/// The JPEG quality of generated thumbnails.
pub const THUMB_JPEG_QUALITY: u8 = 85;

/// `value` with whitespace runs collapsed to one space and the ends trimmed.
pub fn collapse_whitespace(value: &str) -> (r: String)
    ensures
        r@ == collapse_ws(value@),
{
    let cs = chars_of(value);
    let c = crate::text::collapse_whitespace(cs.as_slice());
    string_from(c.as_slice())
}

/// The form in which names are compared: whitespace collapsed, ASCII lowered.
pub open spec fn normalized(s: Seq<char>) -> Seq<char> {
    lower(collapse_ws(s))
}

/// `value` in the form in which names are compared.
pub fn normalize_text(value: &str) -> (r: String)
    ensures
        r@ == normalized(value@),
{
    let cs = chars_of(value);
    let c = crate::text::collapse_whitespace(cs.as_slice());
    let l = to_ascii_lower(c.as_slice());
    string_from(l.as_slice())
}

/// A tag value with its whitespace collapsed, or nothing when that leaves it empty.
pub open spec fn clean_text(v: Option<Seq<char>>) -> Option<Seq<char>> {
    match v {
        Some(s) => if collapse_ws(s).len() > 0 {
            Some(collapse_ws(s))
        } else {
            None
        },
        None => None,
    }
}

/// A tag value with its whitespace collapsed, or `None` when nothing is left.
pub fn clean_optional_text(value: &Option<String>) -> (r: Option<String>)
    ensures
        opt_view(r) == clean_text(opt_view(*value)),
{
    match value {
        Some(s) => {
            let cs = chars_of(s.as_str());
            let c = crate::text::collapse_whitespace(cs.as_slice());
            if c.len() > 0 {
                Some(string_from(c.as_slice()))
            } else {
                None
            }
        },
        None => None,
    }
}

/// The 64-bit FNV-1a hash of `bytes`.
pub open spec fn fnv1a(bytes: Seq<u8>) -> u64
    decreases bytes.len(),
{
    if bytes.len() == 0 {
        0xcbf29ce484222325u64
    } else {
        vstd::wrapping::u64_specs::wrapping_mul(
            fnv1a(bytes.drop_last()) ^ (bytes.last() as u64),
            0x100000001b3u64,
        )
    }
}

/// The hexadecimal digit for `d`, lower case.
pub open spec fn hex_digit(d: nat) -> char {
    if d < 10 {
        (48 + d) as char
    } else {
        (87 + d) as char
    }
}

/// The last `width` hexadecimal digits of `n`, zero padded.
pub open spec fn hex_digits(n: nat, width: nat) -> Seq<char>
    decreases width,
{
    if width == 0 {
        Seq::empty()
    } else {
        hex_digits(n / 16, (width - 1) as nat).push(hex_digit(n % 16))
    }
}

/// The stable identifier of a text: the FNV-1a hash of its UTF-8 bytes as 16
/// lower-case hexadecimal digits.
pub open spec fn stable_id_of(s: Seq<char>) -> Seq<char> {
    hex_digits(fnv1a(vstd::utf8::encode_utf8(s)) as nat, 16)
}

fn hex16(h: u64) -> (r: Vec<char>)
    ensures
        r@ == hex_digits(h as nat, 16),
{
    let mut acc: Vec<char> = Vec::new();
    let mut m: u64 = h;
    let mut k: usize = 0;
    while k < 16
        invariant
            k <= 16,
            hex_digits(h as nat, 16) == hex_digits(m as nat, (16 - k) as nat) + acc@,
        decreases 16 - k,
    {
        let d: u8 = (m % 16) as u8;
        let ch: char = if d < 10 {
            (48u8 + d) as char
        } else {
            (87u8 + d) as char
        };
        assert(ch == hex_digit((m % 16) as nat));
        let ghost before = acc@;
        assert(hex_digits(m as nat, (16 - k) as nat) == hex_digits((m / 16) as nat, (16 - k - 1) as nat).push(ch));
        acc.insert(0, ch);
        assert(hex_digits((m / 16) as nat, (16 - k - 1) as nat).push(ch) + before
            =~= hex_digits((m / 16) as nat, (16 - k - 1) as nat) + acc@);
        m = m / 16;
        k = k + 1;
    }
    assert(hex_digits(m as nat, 0) + acc@ =~= acc@);
    acc
}

/// The stable identifier of `input`.
pub fn stable_id(input: &str) -> (r: String)
    ensures
        r@ == stable_id_of(input@),
{
    let bytes = input.as_bytes();
    let mut hash: u64 = 0xcbf29ce484222325u64;
    let mut i: usize = 0;
    while i < bytes.len()
        invariant
            i <= bytes@.len(),
            bytes@ == vstd::utf8::encode_utf8(input@),
            hash == fnv1a(bytes@.take(i as int)),
        decreases bytes@.len() - i,
    {
        assert(bytes@.take(i + 1).drop_last() =~= bytes@.take(i as int));
        hash = hash ^ (bytes[i] as u64);
        hash = hash.wrapping_mul(0x100000001b3u64);
        i = i + 1;
    }
    assert(bytes@.take(bytes@.len() as int) =~= bytes@);
    let h = hex16(hash);
    string_from(h.as_slice())
}

/// The decimal representation of a signed integer, as `Display` writes it.
pub open spec fn signed_decimal(i: int) -> Seq<char> {
    if i < 0 {
        seq!['-'] + decimal((-i) as nat)
    } else {
        decimal(i as nat)
    }
}

fn push_i64(out: &mut String, v: i64)
    ensures
        final(out)@ == old(out)@ + signed_decimal(v as int),
{
    if v < 0 {
        let m: u64 = if v == i64::MIN {
            9223372036854775808u64
        } else {
            (-v) as u64
        };
        push_char(out, '-');
        let d = u64_decimal(m);
        append_chars(out, d.as_slice());
        assert(old(out)@.push('-') + decimal(m as nat) =~= old(out)@ + (seq!['-'] + decimal(m as nat)));
    } else {
        let d = u64_decimal(v as u64);
        append_chars(out, d.as_slice());
    }
}

fn push_u64(out: &mut String, v: u64)
    ensures
        final(out)@ == old(out)@ + decimal(v as nat),
{
    let d = u64_decimal(v);
    append_chars(out, d.as_slice());
}

/// The text hashed into the identifier of a scanned file of kind `kind`:
/// the kind, the volume, the relative path, the modification time, the size,
/// a zero and the cache version, one per line.
pub open spec fn content_key(kind: Seq<char>, volume_uuid: Seq<char>, relative_path: Seq<char>, mtime: int, size: nat) -> Seq<char> {
    kind + seq!['\n'] + volume_uuid + seq!['\n'] + relative_path + seq!['\n'] + signed_decimal(mtime)
        + seq!['\n'] + decimal(size) + seq!['\n', '0', '\n'] + decimal(CACHE_VERSION as nat)
}

fn content_key_text(kind: &str, volume_uuid: &str, relative_path: &str, mtime: i64, size: u64) -> (r: String)
    ensures
        r@ == content_key(kind@, volume_uuid@, relative_path@, mtime as int, size as nat),
{
    let mut out = String::new();
    push_str(&mut out, kind);
    push_char(&mut out, '\n');
    push_str(&mut out, volume_uuid);
    push_char(&mut out, '\n');
    push_str(&mut out, relative_path);
    push_char(&mut out, '\n');
    push_i64(&mut out, mtime);
    push_char(&mut out, '\n');
    push_u64(&mut out, size);
    push_char(&mut out, '\n');
    push_char(&mut out, '0');
    push_char(&mut out, '\n');
    push_u64(&mut out, CACHE_VERSION as u64);
    assert(out@ =~= content_key(kind@, volume_uuid@, relative_path@, mtime as int, size as nat));
    out
}

/// The identifier of an artwork file found in a directory.
pub fn stable_artwork_ref_id(volume_uuid: &str, source_file_relative_path: &str, file_mtime: i64, file_size: u64) -> (r: String)
    ensures
        r@ == stable_id_of(content_key("directory_file"@, volume_uuid@, source_file_relative_path@, file_mtime as int, file_size as nat)),
{
    let key = content_key_text("directory_file", volume_uuid, source_file_relative_path, file_mtime, file_size);
    stable_id(key.as_str())
}

/// The identifier of a scanned track file.
pub fn stable_track_uid(volume_uuid: &str, relative_path: &str, file_mtime: i64, file_size: u64) -> (r: String)
    ensures
        r@ == stable_id_of(content_key("file"@, volume_uuid@, relative_path@, file_mtime as int, file_size as nat)),
{
    let key = content_key_text("file", volume_uuid, relative_path, file_mtime, file_size);
    stable_id(key.as_str())
}

/// The MIME type of an artwork file with the given extension.
pub open spec fn artwork_mime(extension: Seq<char>) -> Option<Seq<char>> {
    if extension == "jpg"@ || extension == "jpeg"@ {
        Some("image/jpeg"@)
    } else if extension == "png"@ {
        Some("image/png"@)
    } else {
        None
    }
}

/// The MIME type of an artwork file with the given extension, when it is one
/// that artwork is read from.
pub fn artwork_mime_type(extension: &str) -> (r: Option<&'static str>)
    ensures
        match r {
            Some(m) => artwork_mime(extension@) == Some(m@),
            None => artwork_mime(extension@) is None,
        },
{
    let e = chars_of(extension);
    if eq_str(e.as_slice(), "jpg") || eq_str(e.as_slice(), "jpeg") {
        Some("image/jpeg")
    } else if eq_str(e.as_slice(), "png") {
        Some("image/png")
    } else {
        None
    }
}

/// A duration in whole milliseconds as stored, or `None` when it is zero;
/// durations beyond `i64::MAX` milliseconds are capped there.
pub fn duration_to_millis(millis: u128) -> (r: Option<i64>)
    ensures
        millis == 0 ==> r is None,
        millis > 0 && millis <= i64::MAX ==> r == Some(millis as i64),
        millis > i64::MAX ==> r == Some(i64::MAX),
{
    if millis == 0 {
        None
    } else if millis > i64::MAX as u128 {
        Some(i64::MAX)
    } else {
        Some(millis as i64)
    }
}

/// Whether a directory entry is hidden: its name starts with a dot.
pub fn should_skip_name(name: &str) -> (r: bool)
    ensures
        r == (name@.len() > 0 && name@[0] == '.'),
{
    let cs = chars_of(name);
    cs.len() > 0 && cs[0] == '.'
}

/// Whether `extension`, already lowered, is one of the audio formats indexed.
pub open spec fn audio_extension(e: Seq<char>) -> bool {
    ||| e == "aac"@
    ||| e == "aif"@
    ||| e == "aiff"@
    ||| e == "alac"@
    ||| e == "ape"@
    ||| e == "dff"@
    ||| e == "dsf"@
    ||| e == "flac"@
    ||| e == "m4a"@
    ||| e == "mp3"@
    ||| e == "ogg"@
    ||| e == "opus"@
    ||| e == "wav"@
    ||| e == "wma"@
}

fn is_audio_extension(e: &[char]) -> (r: bool)
    ensures
        r == audio_extension(e@),
{
    eq_str(e, "aac") || eq_str(e, "aif") || eq_str(e, "aiff") || eq_str(e, "alac") || eq_str(e, "ape")
        || eq_str(e, "dff") || eq_str(e, "dsf") || eq_str(e, "flac") || eq_str(e, "m4a")
        || eq_str(e, "mp3") || eq_str(e, "ogg") || eq_str(e, "opus") || eq_str(e, "wav")
        || eq_str(e, "wma")
}

/// Whether the file at `path` has an audio extension, in any case.
pub fn is_audio_file(path: &str) -> (r: bool)
    ensures
        r == (match path_extension(path@) {
            Some(e) => audio_extension(lower(e)),
            None => false,
        }),
{
    match extension_of(path) {
        Some(e) => {
            let ec = chars_of(e.as_str());
            let l = to_ascii_lower(ec.as_slice());
            is_audio_extension(l.as_slice())
        },
        None => false,
    }
}

/// The lowered extension of the file at `path`, or nothing.
pub open spec fn lowered_extension(path: Seq<char>) -> Seq<char> {
    match path_extension(path) {
        Some(e) => lower(e),
        None => Seq::empty(),
    }
}

/// The extension of the file at `path`, lowered; empty when it has none.
pub fn file_extension(path: &str) -> (r: String)
    ensures
        r@ == lowered_extension(path@),
{
    match extension_of(path) {
        Some(e) => {
            let ec = chars_of(e.as_str());
            let l = to_ascii_lower(ec.as_slice());
            string_from(l.as_slice())
        },
        None => String::new(),
    }
}

/// Whether `head` holds the bytes `magic` at `offset`.
pub open spec fn bytes_at(head: Seq<u8>, offset: int, magic: Seq<u8>) -> bool {
    &&& offset + magic.len() <= head.len()
    &&& head.subrange(offset, offset + magic.len()) == magic
}

/// Whether a file with the lowered extension `ext`, whose first bytes are
/// `head`, starts as its container says: `RIFF` and `WAVE` for WAV, `FRM8`
/// for DSDIFF, `DSD ` for DSF.
pub open spec fn known_header(ext: Seq<char>, head: Seq<u8>) -> bool {
    if ext == "wav"@ {
        bytes_at(head, 0, seq![0x52u8, 0x49u8, 0x46u8, 0x46u8]) && bytes_at(
            head,
            8,
            seq![0x57u8, 0x41u8, 0x56u8, 0x45u8],
        )
    } else if ext == "dff"@ {
        bytes_at(head, 0, seq![0x46u8, 0x52u8, 0x4du8, 0x38u8])
    } else if ext == "dsf"@ || ext == "dsd"@ {
        bytes_at(head, 0, seq![0x44u8, 0x53u8, 0x44u8, 0x20u8])
    } else {
        false
    }
}

fn has_bytes_at(head: &[u8], offset: usize, magic: &[u8]) -> (r: bool)
    requires
        offset <= 8,
        magic@.len() == 4,
    ensures
        r == bytes_at(head@, offset as int, magic@),
{
    if head.len() < offset + 4 {
        return false;
    }
    let mut i: usize = 0;
    while i < 4
        invariant
            i <= 4,
            offset + 4 <= head.len(),
            offset <= 8,
            magic@.len() == 4,
            forall|j: int| 0 <= j < i ==> head@[offset + j] == magic@[j],
        decreases 4 - i,
    {
        if head[offset + i] != magic[i] {
            assert(head@.subrange(offset as int, offset + 4)[i as int] != magic@[i as int]);
            return false;
        }
        i = i + 1;
    }
    assert(head@.subrange(offset as int, offset + 4) =~= magic@);
    true
}

/// How many bytes of a file `known_audio_header` looks at.
pub const AUDIO_HEADER_LEN: usize = 12;

/// Whether the file at `path`, whose first bytes are `head`, carries the
/// header of its container; the files that no tag reader can open are still
/// indexed when this holds.
pub fn known_audio_header(path: &str, head: &[u8]) -> (r: bool)
    ensures
        r == known_header(lowered_extension(path@), head@),
{
    let ext = file_extension(path);
    let e = chars_of(ext.as_str());
    let riff: [u8; 4] = [0x52, 0x49, 0x46, 0x46];
    let wave: [u8; 4] = [0x57, 0x41, 0x56, 0x45];
    let frm8: [u8; 4] = [0x46, 0x52, 0x4d, 0x38];
    let dsd: [u8; 4] = [0x44, 0x53, 0x44, 0x20];
    proof {
        assert(riff@ =~= seq![0x52u8, 0x49u8, 0x46u8, 0x46u8]);
        assert(wave@ =~= seq![0x57u8, 0x41u8, 0x56u8, 0x45u8]);
        assert(frm8@ =~= seq![0x46u8, 0x52u8, 0x4du8, 0x38u8]);
        assert(dsd@ =~= seq![0x44u8, 0x53u8, 0x44u8, 0x20u8]);
    }
    if eq_str(e.as_slice(), "wav") {
        has_bytes_at(head, 0, riff.as_slice()) && has_bytes_at(head, 8, wave.as_slice())
    } else if eq_str(e.as_slice(), "dff") {
        has_bytes_at(head, 0, frm8.as_slice())
    } else if eq_str(e.as_slice(), "dsf") || eq_str(e.as_slice(), "dsd") {
        has_bytes_at(head, 0, dsd.as_slice())
    } else {
        false
    }
}

/// `s` with every backslash turned into a slash.
pub open spec fn slashes(s: Seq<char>) -> Seq<char> {
    s.map_values(|c: char| if c == '\\' { '/' } else { c })
}

fn to_slashes(s: &[char]) -> (r: Vec<char>)
    ensures
        r@ == slashes(s@),
{
    let mut out: Vec<char> = Vec::new();
    let mut i: usize = 0;
    while i < s.len()
        invariant
            i <= s@.len(),
            out@ == slashes(s@.take(i as int)),
        decreases s@.len() - i,
    {
        let c = s[i];
        out.push(if c == '\\' { '/' } else { c });
        assert(slashes(s@.take(i + 1)) =~= slashes(s@.take(i as int)).push(
            if s@[i as int] == '\\' { '/' } else { s@[i as int] },
        ));
        i = i + 1;
    }
    assert(s@.take(s@.len() as int) =~= s@);
    out
}

/// The parent directory of a relative path, with slashes, when it names one.
pub open spec fn parent_relative(rel: Seq<char>) -> Option<Seq<char>> {
    match path_parent(rel) {
        Some(p) => if slashes(p).len() > 0 && slashes(p) != seq!['.'] {
            Some(slashes(p))
        } else {
            None
        },
        None => None,
    }
}

/// The parent directory of a relative path, with slashes; `None` for a path
/// at the top of the volume.
pub fn parent_relative_path(relative_path: &str) -> (r: Option<String>)
    ensures
        opt_view(r) == parent_relative(relative_path@),
{
    match parent_of(relative_path) {
        Some(p) => {
            let pc = chars_of(p.as_str());
            let q = to_slashes(pc.as_slice());
            if q.len() > 0 && !(q.len() == 1 && q[0] == '.') {
                proof {
                    if q@ == seq!['.'] {
                        assert(q@.len() == 1 && q@[0] == '.');
                    }
                }
                Some(string_from(q.as_slice()))
            } else {
                proof {
                    if q@.len() == 1 && q@[0] == '.' {
                        assert(q@ =~= seq!['.']);
                    }
                }
                None
            }
        },
        None => None,
    }
}

/// A name read from the last component of `path`, or `fallback` when there
/// is none or it is empty.
pub open spec fn last_name_or(path: Seq<char>, fallback: Seq<char>) -> Seq<char> {
    match path_file_name(path) {
        Some(n) => if n.len() > 0 {
            n
        } else {
            fallback
        },
        None => fallback,
    }
}

fn last_name_or_text(path: &str, fallback: &str) -> (r: String)
    ensures
        r@ == last_name_or(path@, fallback@),
{
    match file_name_of(path) {
        Some(n) => {
            let nc = chars_of(n.as_str());
            if nc.len() > 0 {
                n
            } else {
                fallback.to_owned()
            }
        },
        None => fallback.to_owned(),
    }
}

/// The name shown for a directory: its last component, or the whole path.
pub fn display_name_from_relative_path(relative_path: &str) -> (r: String)
    ensures
        r@ == last_name_or(relative_path@, relative_path@),
{
    last_name_or_text(relative_path, relative_path)
}

/// The album title a directory gives when no tag names one: the directory's
/// name, or the volume's label for the top of the volume.
pub open spec fn root_album_title(album_root_dir_hint: Seq<char>, volume_label: Seq<char>) -> Seq<char> {
    if album_root_dir_hint.len() == 0 {
        volume_label
    } else {
        last_name_or(album_root_dir_hint, volume_label)
    }
}

/// The album title taken from the album's directory.
pub fn album_title_for_root(album_root_dir_hint: &str, volume_label: &str) -> (r: String)
    ensures
        r@ == root_album_title(album_root_dir_hint@, volume_label@),
{
    let h = chars_of(album_root_dir_hint);
    if h.len() == 0 {
        return volume_label.to_owned();
    }
    last_name_or_text(album_root_dir_hint, volume_label)
}

/// The character classes that names are trimmed by: digits, everything but
/// digits, and the separators that follow a track number.
pub open spec fn in_class(c: char, class: u8) -> bool {
    if class == 0 {
        is_digit(c)
    } else if class == 1 {
        !is_digit(c)
    } else {
        c == ' ' || c == '-' || c == '_' || c == '.'
    }
}

/// `s` without its leading characters of `class`.
pub open spec fn drop_class(s: Seq<char>, class: u8) -> Seq<char>
    decreases s.len(),
{
    if s.len() > 0 && in_class(s[0], class) {
        drop_class(s.drop_first(), class)
    } else {
        s
    }
}

/// The leading digits of `s`.
pub open spec fn digit_prefix(s: Seq<char>) -> Seq<char>
    decreases s.len(),
{
    if s.len() > 0 && is_digit(s[0]) {
        seq![s[0]] + digit_prefix(s.drop_first())
    } else {
        Seq::empty()
    }
}

fn class_char(c: char, class: u8) -> (r: bool)
    ensures
        r == in_class(c, class),
{
    if class == 0 {
        '0' <= c && c <= '9'
    } else if class == 1 {
        !('0' <= c && c <= '9')
    } else {
        c == ' ' || c == '-' || c == '_' || c == '.'
    }
}

fn drop_class_chars(s: &[char], class: u8) -> (r: Vec<char>)
    ensures
        r@ == drop_class(s@, class),
{
    let n = s.len();
    let mut i: usize = 0;
    assert(s@.skip(0) =~= s@);
    while i < n && class_char(s[i], class)
        invariant
            n == s@.len(),
            i <= n,
            drop_class(s@, class) == drop_class(s@.skip(i as int), class),
        decreases n - i,
    {
        assert(s@.skip(i as int).drop_first() =~= s@.skip(i + 1));
        i = i + 1;
    }
    let r = copy_range(s, i, n);
    assert(r@ =~= s@.skip(i as int));
    r
}

fn digit_prefix_chars(s: &[char]) -> (r: Vec<char>)
    ensures
        r@ == digit_prefix(s@),
{
    let n = s.len();
    let mut i: usize = 0;
    assert(s@.skip(0) =~= s@);
    while i < n && '0' <= s[i] && s[i] <= '9'
        invariant
            n == s@.len(),
            i <= n,
            digit_prefix(s@) == s@.take(i as int) + digit_prefix(s@.skip(i as int)),
        decreases n - i,
    {
        assert(s@.skip(i as int).drop_first() =~= s@.skip(i + 1));
        assert(s@.take(i + 1) =~= s@.take(i as int) + seq![s@[i as int]]);
        i = i + 1;
    }
    assert(digit_prefix(s@.skip(i as int)) =~= Seq::<char>::empty());
    let r = copy_range(s, 0, i);
    assert(r@ =~= s@.take(i as int));
    r
}

/// The track number a file name starts with, if it starts with digits that
/// fit in an `i64`.
pub open spec fn track_number(stem: Seq<char>) -> Option<nat> {
    parse_unsigned(digit_prefix(stem), i64::MAX as nat)
}

/// The track number at the start of a file name.
pub fn parse_track_number(stem: &str) -> (r: Option<i64>)
    ensures
        match r {
            Some(v) => v >= 0 && track_number(stem@) == Some(v as nat),
            None => track_number(stem@) is None,
        },
{
    let s = chars_of(stem);
    let d = digit_prefix_chars(s.as_slice());
    parse_i64_nonneg(d.as_slice())
}

/// The disc number after `prefix` in a lowered directory name: the first run
/// of digits after the prefix.
pub open spec fn disc_after(lowered: Seq<char>, prefix: Seq<char>) -> Option<nat> {
    match strip_prefix(lowered, prefix) {
        Some(rest) => parse_unsigned(digit_prefix(drop_class(rest, 1)), i64::MAX as nat),
        None => None,
    }
}

/// The disc number a directory name gives, trying `disc`, `disk` and `cd` in
/// turn, in any case.
pub open spec fn disc_number(name: Seq<char>) -> Option<nat> {
    let l = lower(name);
    match disc_after(l, "disc"@) {
        Some(d) => Some(d),
        None => match disc_after(l, "disk"@) {
            Some(d) => Some(d),
            None => disc_after(l, "cd"@),
        },
    }
}

fn disc_after_chars(lowered: &[char], prefix: &str) -> (r: Option<i64>)
    ensures
        match r {
            Some(v) => v >= 0 && disc_after(lowered@, prefix@) == Some(v as nat),
            None => disc_after(lowered@, prefix@) is None,
        },
{
    match strip_prefix_chars(lowered, prefix) {
        Some(rest) => {
            let skipped = drop_class_chars(rest.as_slice(), 1);
            let d = digit_prefix_chars(skipped.as_slice());
            parse_i64_nonneg(d.as_slice())
        },
        None => None,
    }
}

/// The disc number a directory name such as `Disc 2` or `CD1` gives.
pub fn parse_disc_number(name: &str) -> (r: Option<i64>)
    ensures
        match r {
            Some(v) => v >= 0 && disc_number(name@) == Some(v as nat),
            None => disc_number(name@) is None,
        },
{
    let cs = chars_of(name);
    let l = to_ascii_lower(cs.as_slice());
    match disc_after_chars(l.as_slice(), "disc") {
        Some(d) => Some(d),
        None => match disc_after_chars(l.as_slice(), "disk") {
            Some(d) => Some(d),
            None => disc_after_chars(l.as_slice(), "cd"),
        },
    }
}

/// The album directory and disc number of a file's directory: a last
/// component that names a disc moves the album to its parent.
pub open spec fn album_root_disc(parent: Seq<char>) -> (Seq<char>, int) {
    if parent.len() == 0 {
        (Seq::empty(), 1)
    } else {
        let last = match path_file_name(parent) {
            Some(n) => n,
            None => parent,
        };
        match disc_number(last) {
            Some(d) => (
                match parent_relative(parent) {
                    Some(q) => q,
                    None => parent,
                },
                d as int,
            ),
            None => (parent, 1),
        }
    }
}

/// The album directory and disc number for files in `parent_relative_path`.
pub fn album_root_and_disc_no(parent_relative_path: &str) -> (r: (String, i64))
    ensures
        (r.0@, r.1 as int) == album_root_disc(parent_relative_path@),
{
    let pc = chars_of(parent_relative_path);
    if pc.len() == 0 {
        return (String::new(), 1);
    }
    let last = match file_name_of(parent_relative_path) {
        Some(n) => n,
        None => parent_relative_path.to_owned(),
    };
    assert(last@ == (match path_file_name(parent_relative_path@) {
        Some(n) => n,
        None => parent_relative_path@,
    }));
    assert(parent_relative_path@.len() > 0);
    match parse_disc_number(last.as_str()) {
        Some(d) => {
            let root = match self::parent_relative_path(parent_relative_path) {
                Some(q) => q,
                None => parent_relative_path.to_owned(),
            };
            (root, d)
        },
        None => (parent_relative_path.to_owned(), 1),
    }
}

/// `s` with every underscore turned into a space.
pub open spec fn underscores_to_spaces(s: Seq<char>) -> Seq<char> {
    s.map_values(|c: char| if c == '_' { ' ' } else { c })
}

fn replace_underscores(s: &[char]) -> (r: Vec<char>)
    ensures
        r@ == underscores_to_spaces(s@),
{
    let mut out: Vec<char> = Vec::new();
    let mut i: usize = 0;
    while i < s.len()
        invariant
            i <= s@.len(),
            out@ == underscores_to_spaces(s@.take(i as int)),
        decreases s@.len() - i,
    {
        let c = s[i];
        out.push(if c == '_' { ' ' } else { c });
        assert(underscores_to_spaces(s@.take(i + 1)) =~= underscores_to_spaces(s@.take(i as int)).push(
            if s@[i as int] == '_' { ' ' } else { s@[i as int] },
        ));
        i = i + 1;
    }
    assert(s@.take(s@.len() as int) =~= s@);
    out
}

/// The title a file name gives: the name trimmed, without its leading track
/// number and the separators after it, underscores read as spaces and
/// whitespace collapsed; the whole trimmed name when nothing else is left.
pub open spec fn track_title_from_stem(stem: Seq<char>) -> Seq<char> {
    let t = trim(stem);
    let candidate = collapse_ws(underscores_to_spaces(drop_class(drop_class(t, 0), 2)));
    if candidate.len() == 0 {
        collapse_ws(t)
    } else {
        candidate
    }
}

/// The title derived from a file name without its extension.
pub fn derive_track_title(stem: &str) -> (r: String)
    ensures
        r@ == track_title_from_stem(stem@),
{
    let s = chars_of(stem);
    let t = trimmed(s.as_slice());
    let a = drop_class_chars(t.as_slice(), 0);
    let b = drop_class_chars(a.as_slice(), 2);
    let c = replace_underscores(b.as_slice());
    let d = crate::text::collapse_whitespace(c.as_slice());
    if d.len() == 0 {
        let e = crate::text::collapse_whitespace(t.as_slice());
        string_from(e.as_slice())
    } else {
        string_from(d.as_slice())
    }
}

/// The order of names: code point by code point, a proper prefix first. It is
/// the order of `String`, whose byte order in UTF-8 follows the code points.
pub open spec fn lex_lt(a: Seq<char>, b: Seq<char>) -> bool
    decreases a.len(),
{
    if a.len() == 0 {
        b.len() > 0
    } else if b.len() == 0 {
        false
    } else if a[0] != b[0] {
        a[0] < b[0]
    } else {
        lex_lt(a.drop_first(), b.drop_first())
    }
}

/// No name comes before itself.
pub proof fn lemma_lex_irreflexive(a: Seq<char>)
    ensures
        !lex_lt(a, a),
    decreases a.len(),
{
    if a.len() > 0 {
        lemma_lex_irreflexive(a.drop_first());
    }
}

/// The order of names is transitive.
pub proof fn lemma_lex_transitive(a: Seq<char>, b: Seq<char>, c: Seq<char>)
    requires
        lex_lt(a, b),
        lex_lt(b, c),
    ensures
        lex_lt(a, c),
    decreases a.len(),
{
    if a.len() > 0 && b.len() > 0 && c.len() > 0 && a[0] == b[0] && b[0] == c[0] {
        lemma_lex_transitive(a.drop_first(), b.drop_first(), c.drop_first());
    }
}

/// Of two different names, one comes before the other.
pub proof fn lemma_lex_total(a: Seq<char>, b: Seq<char>)
    requires
        a != b,
    ensures
        lex_lt(a, b) || lex_lt(b, a),
    decreases a.len(),
{
    if a.len() > 0 && b.len() > 0 && a[0] == b[0] {
        if a.drop_first() == b.drop_first() {
            assert(a =~= seq![a[0]] + a.drop_first());
            assert(b =~= seq![b[0]] + b.drop_first());
        }
        lemma_lex_total(a.drop_first(), b.drop_first());
    } else if a.len() == 0 && b.len() == 0 {
        assert(a =~= b);
    }
}

/// Whether `a` comes before `b`.
pub fn chars_lt(a: &[char], b: &[char]) -> (r: bool)
    ensures
        r == lex_lt(a@, b@),
{
    let mut i: usize = 0;
    assert(a@.skip(0) =~= a@);
    assert(b@.skip(0) =~= b@);
    loop
        invariant
            i <= a@.len(),
            i <= b@.len(),
            lex_lt(a@, b@) == lex_lt(a@.skip(i as int), b@.skip(i as int)),
        decreases a@.len() - i,
    {
        if i == a.len() {
            return i < b.len();
        }
        if i == b.len() {
            return false;
        }
        if a[i] != b[i] {
            return a[i] < b[i];
        }
        assert(a@.skip(i as int).drop_first() =~= a@.skip(i + 1));
        assert(b@.skip(i as int).drop_first() =~= b@.skip(i + 1));
        i = i + 1;
    }
}

/// Whether each name comes before every later one.
pub open spec fn strictly_sorted(s: Seq<Seq<char>>) -> bool {
    forall|i: int, j: int| 0 <= i < j < s.len() ==> lex_lt(#[trigger] s[i], #[trigger] s[j])
}

/// Puts `x` into its place in the sorted list `v`, unless it is there already.
pub fn insert_sorted(v: &mut Vec<Vec<char>>, x: Vec<char>)
    requires
        strictly_sorted(views(old(v)@)),
    ensures
        strictly_sorted(views(final(v)@)),
        forall|y: Seq<char>| views(final(v)@).contains(y) <==> (views(old(v)@).contains(y) || y == x@),
{
    let ghost xs = x@;
    let n = v.len();
    let mut i: usize = 0;
    while i < n && chars_lt(v[i].as_slice(), x.as_slice())
        invariant
            n == v@.len(),
            i <= n,
            x@ == xs,
            strictly_sorted(views(v@)),
            forall|k: int| 0 <= k < i ==> lex_lt(#[trigger] views(v@)[k], xs),
        decreases n - i,
    {
        i = i + 1;
    }
    if i < n && chars_eq(v[i].as_slice(), x.as_slice()) {
        assert(views(v@)[i as int] == xs);
        assert forall|y: Seq<char>| views(v@).contains(y) <==> (views(v@).contains(y) || y == xs) by {
            if y == xs {
                assert(views(v@)[i as int] == y);
            }
        }
        return;
    }
    let ghost old_views = views(v@);
    proof {
        assert forall|k: int| i <= k < n implies lex_lt(xs, #[trigger] old_views[k]) by {
            assert(!lex_lt(old_views[i as int], xs));
            assert(old_views[i as int] != xs);
            lemma_lex_total(old_views[i as int], xs);
            if k > i {
                lemma_lex_transitive(xs, old_views[i as int], old_views[k]);
            }
        }
    }
    v.insert(i, x);
    proof {
        let nv = views(v@);
        assert(nv =~= old_views.insert(i as int, xs));
        assert forall|p: int, q: int| 0 <= p < q < nv.len() implies lex_lt(#[trigger] nv[p], #[trigger] nv[q]) by {
            if q < i {
                assert(nv[p] == old_views[p] && nv[q] == old_views[q]);
            } else if q == i {
                assert(nv[p] == old_views[p]);
            } else if p < i {
                assert(nv[p] == old_views[p] && nv[q] == old_views[q - 1]);
                lemma_lex_transitive(old_views[p], xs, old_views[q - 1]);
            } else if p == i {
                assert(nv[q] == old_views[q - 1]);
            } else {
                assert(nv[p] == old_views[p - 1] && nv[q] == old_views[q - 1]);
            }
        }
        assert forall|y: Seq<char>| nv.contains(y) <==> (old_views.contains(y) || y == xs) by {
            if nv.contains(y) {
                let k = choose|k: int| 0 <= k < nv.len() && nv[k] == y;
                if k < i {
                    assert(old_views[k] == y);
                } else if k > i {
                    assert(old_views[k - 1] == y);
                }
            }
            if old_views.contains(y) {
                let k = choose|k: int| 0 <= k < old_views.len() && old_views[k] == y;
                if k < i {
                    assert(nv[k] == y);
                } else {
                    assert(nv[k + 1] == y);
                }
            }
            if y == xs {
                assert(nv[i as int] == y);
            }
        }
    }
}

/// Whether `c` separates the values of a genre tag.
pub open spec fn is_genre_sep(c: char) -> bool {
    c == ';' || c == '/'
}

/// The pieces of a genre tag between separators, as `str::split([';', '/'])`
/// yields them.
pub open spec fn genre_pieces(s: Seq<char>) -> Seq<Seq<char>>
    decreases s.len(),
{
    if s.len() == 0 {
        seq![Seq::empty()]
    } else {
        let p = genre_pieces(s.drop_last());
        if is_genre_sep(s.last()) {
            p.push(Seq::empty())
        } else {
            p.update(p.len() - 1, p.last().push(s.last()))
        }
    }
}

proof fn lemma_genre_pieces_len(s: Seq<char>)
    ensures
        genre_pieces(s).len() >= 1,
    decreases s.len(),
{
    if s.len() > 0 {
        lemma_genre_pieces_len(s.drop_last());
    }
}

/// Whether `g` is one of the genres of the tag `raw`: a piece with its
/// whitespace collapsed, not empty.
pub open spec fn is_genre_of(raw: Seq<char>, g: Seq<char>) -> bool {
    g.len() > 0 && exists|k: int| 0 <= k < genre_pieces(raw).len() && #[trigger] collapse_ws(genre_pieces(raw)[k]) == g
}

/// The genres of a tag whose pieces hold none: the whole tag with its
/// whitespace collapsed, unless that is empty.
pub open spec fn genre_fallback(raw: Seq<char>) -> Seq<Seq<char>> {
    if collapse_ws(raw).len() == 0 {
        Seq::empty()
    } else {
        seq![collapse_ws(raw)]
    }
}

/// The genres of a tag: the distinct non-empty pieces between `;` and `/`,
/// whitespace collapsed, sorted by name; when there are none, the whole tag.
pub fn split_genres(raw: &str) -> (r: Vec<String>)
    ensures
        (exists|g: Seq<char>| is_genre_of(raw@, g)) ==> strictly_sorted(crate::protocol::strs(r@))
            && forall|g: Seq<char>| crate::protocol::strs(r@).contains(g) <==> is_genre_of(raw@, g),
        !(exists|g: Seq<char>| is_genre_of(raw@, g)) ==> crate::protocol::strs(r@) == genre_fallback(raw@),
{
    let s = chars_of(raw);
    let n = s.len();
    let mut out: Vec<Vec<char>> = Vec::new();
    let mut cur: Vec<char> = Vec::new();
    let ghost mut done: Seq<Seq<char>> = Seq::empty();
    let mut i: usize = 0;
    assert(s@.take(0) =~= Seq::<char>::empty());
    assert(views(out@) =~= Seq::<Seq<char>>::empty());
    while i < n
        invariant
            n == s@.len(),
            s@ == raw@,
            i <= n,
            genre_pieces(s@.take(i as int)) == done.push(cur@),
            strictly_sorted(views(out@)),
            forall|g: Seq<char>| views(out@).contains(g) <==> (g.len() > 0 && exists|k: int| 0 <= k < done.len() && #[trigger] collapse_ws(done[k]) == g),
        decreases n - i,
    {
        let c = s[i];
        assert(s@.take(i + 1).drop_last() =~= s@.take(i as int));
        assert(s@.take(i + 1).last() == c);
        if c == ';' || c == '/' {
            let normalized = crate::text::collapse_whitespace(cur.as_slice());
            let ghost before = views(out@);
            if normalized.len() > 0 {
                insert_sorted(&mut out, normalized);
            }
            proof {
                let nd = done.push(cur@);
                assert forall|g: Seq<char>| views(out@).contains(g) <==> (g.len() > 0 && exists|k: int| 0 <= k < nd.len() && #[trigger] collapse_ws(nd[k]) == g) by {
                    if g.len() > 0 && exists|k: int| 0 <= k < nd.len() && #[trigger] collapse_ws(nd[k]) == g {
                        let k = choose|k: int| 0 <= k < nd.len() && #[trigger] collapse_ws(nd[k]) == g;
                        if k < done.len() {
                            assert(nd[k] == done[k]);
                        }
                    }
                    if before.contains(g) {
                        let k = choose|k: int| 0 <= k < done.len() && #[trigger] collapse_ws(done[k]) == g;
                        assert(nd[k] == done[k]);
                    }
                    if g == collapse_ws(cur@) && g.len() > 0 {
                        assert(nd[done.len() as int] == cur@);
                    }
                }
                done = nd;
            }
            cur = Vec::new();
            assert(genre_pieces(s@.take(i + 1)) =~= done.push(cur@));
        } else {
            let ghost prev = cur@;
            cur.push(c);
            assert(genre_pieces(s@.take(i + 1)) =~= done.push(cur@));
        }
        i = i + 1;
    }
    assert(s@.take(n as int) =~= s@);
    let normalized = crate::text::collapse_whitespace(cur.as_slice());
    let ghost before = views(out@);
    if normalized.len() > 0 {
        insert_sorted(&mut out, normalized);
    }
    let ghost pieces = genre_pieces(raw@);
    proof {
        assert(pieces == done.push(cur@));
        assert forall|g: Seq<char>| views(out@).contains(g) <==> is_genre_of(raw@, g) by {
            if is_genre_of(raw@, g) {
                let k = choose|k: int| 0 <= k < pieces.len() && #[trigger] collapse_ws(pieces[k]) == g;
                if k < done.len() {
                    assert(pieces[k] == done[k]);
                }
            }
            if before.contains(g) {
                let k = choose|k: int| 0 <= k < done.len() && #[trigger] collapse_ws(done[k]) == g;
                assert(pieces[k] == done[k]);
            }
            if g == collapse_ws(cur@) && g.len() > 0 {
                assert(pieces[done.len() as int] == cur@);
            }
        }
    }
    if out.len() == 0 {
        proof {
            assert forall|g: Seq<char>| !is_genre_of(raw@, g) by {
                if is_genre_of(raw@, g) {
                    assert(views(out@).contains(g));
                }
            }
        }
        let whole = crate::text::collapse_whitespace(s.as_slice());
        let mut r: Vec<String> = Vec::new();
        if whole.len() > 0 {
            r.push(string_from(whole.as_slice()));
        }
        assert(crate::protocol::strs(r@) =~= genre_fallback(raw@));
        return r;
    }
    proof {
        assert(views(out@).contains(views(out@)[0]));
        assert(is_genre_of(raw@, views(out@)[0]));
    }
    let mut r: Vec<String> = Vec::new();
    let mut j: usize = 0;
    while j < out.len()
        invariant
            j <= out@.len(),
            crate::protocol::strs(r@) == views(out@).take(j as int),
        decreases out@.len() - j,
    {
        let t = string_from(out[j].as_slice());
        assert(t@ == views(out@)[j as int]);
        let ghost before = r@;
        r.push(t);
        assert(crate::protocol::strs(r@) =~= crate::protocol::strs(before).push(t@));
        assert(crate::protocol::strs(r@) =~= views(out@).take(j + 1));
        j = j + 1;
    }
    assert(views(out@).take(out@.len() as int) =~= views(out@));
    r
}

/// The volume a scan reads.
#[derive(Debug)]
pub struct VolumeDescriptor {
    pub volume_uuid: String,
    pub label: String,
    pub mount_path: String,
    pub fs_type: Option<String>,
}

/// The tags and stream facts read from one audio file.
#[derive(Debug)]
pub struct ParsedAudioMetadata {
    pub title: Option<String>,
    pub artist: Option<String>,
    pub album_artist: Option<String>,
    pub album_title: Option<String>,
    pub track_no: Option<i64>,
    pub disc_no: Option<i64>,
    pub year: Option<i64>,
    pub genres: Vec<String>,
    pub duration_ms: Option<i64>,
    pub sample_rate: Option<i64>,
    pub bit_depth: Option<i64>,
}

impl Default for ParsedAudioMetadata {
    fn default() -> (r: Self)
        ensures
            r.title is None,
            r.artist is None,
            r.album_artist is None,
            r.album_title is None,
            r.track_no is None,
            r.disc_no is None,
            r.year is None,
            r.genres@.len() == 0,
            r.duration_ms is None,
            r.sample_rate is None,
            r.bit_depth is None,
    {
        ParsedAudioMetadata {
            title: None,
            artist: None,
            album_artist: None,
            album_title: None,
            track_no: None,
            disc_no: None,
            year: None,
            genres: Vec::new(),
            duration_ms: None,
            sample_rate: None,
            bit_depth: None,
        }
    }
}

/// One audio file found by a scan, with what its path and tags say.
#[derive(Debug)]
pub struct FileScanRecord {
    pub relative_path: String,
    pub filename: String,
    pub derived_title: String,
    pub derived_track_no: Option<i64>,
    pub directory_disc_no: i64,
    pub format: String,
    pub file_mtime: i64,
    pub indexed_at: i64,
    pub size: u64,
    pub album_root_dir_hint: String,
    pub metadata: ParsedAudioMetadata,
}

/// The album that a group of files in one directory belongs to.
#[derive(Debug)]
pub struct GroupAlbumContext {
    pub album_title: String,
    pub album_artist: String,
    pub source_mode: String,
    pub year: Option<i64>,
}

/// What the library records of one track.
#[derive(Debug)]
pub struct ResolvedTrackRecord {
    pub album_uid: String,
    pub album_title: String,
    pub album_artist: String,
    pub album_root_dir_hint: String,
    pub source_mode: String,
    pub year: Option<i64>,
    pub title: String,
    pub artist: String,
    pub track_no: Option<i64>,
    pub disc_no: i64,
    pub duration_ms: Option<i64>,
    pub sample_rate: Option<i64>,
    pub bit_depth: Option<i64>,
    pub genres: Vec<String>,
}

/// A copy of a list of strings.
pub fn copy_strings(v: &Vec<String>) -> (r: Vec<String>)
    ensures
        crate::protocol::strs(r@) == crate::protocol::strs(v@),
{
    let mut out: Vec<String> = Vec::new();
    let mut i: usize = 0;
    while i < v.len()
        invariant
            i <= v@.len(),
            crate::protocol::strs(out@) == crate::protocol::strs(v@).take(i as int),
        decreases v@.len() - i,
    {
        let t = v[i].clone();
        let ghost before = out@;
        out.push(t);
        assert(crate::protocol::strs(out@) =~= crate::protocol::strs(before).push(t@));
        assert(crate::protocol::strs(out@) =~= crate::protocol::strs(v@).take(i + 1));
        i = i + 1;
    }
    assert(crate::protocol::strs(v@).take(v@.len() as int) =~= crate::protocol::strs(v@));
    out
}

/// The key by which files of one directory are grouped into albums: the
/// normalised album artist and title when the file names an album, else its
/// directory.
pub open spec fn grouping_key(f: FileScanRecord) -> Seq<char> {
    match clean_text(opt_view(f.metadata.album_title)) {
        Some(t) => "tag:"@ + normalized(
            match clean_text(opt_view(f.metadata.album_artist)) {
                Some(a) => a,
                None => Seq::empty(),
            },
        ) + seq![':'] + normalized(t),
        None => "fallback:"@ + f.album_root_dir_hint@,
    }
}

/// The key by which `file` is grouped into an album.
pub fn file_grouping_key(file: &FileScanRecord) -> (r: String)
    ensures
        r@ == grouping_key(*file),
{
    match clean_optional_text(&file.metadata.album_title) {
        Some(t) => {
            let artist = match clean_optional_text(&file.metadata.album_artist) {
                Some(a) => a,
                None => String::new(),
            };
            let mut out = String::new();
            push_str(&mut out, "tag:");
            let na = normalize_text(artist.as_str());
            push_str(&mut out, na.as_str());
            push_char(&mut out, ':');
            let nt = normalize_text(t.as_str());
            push_str(&mut out, nt.as_str());
            assert(out@ =~= grouping_key(*file));
            out
        },
        None => {
            let mut out = String::new();
            push_str(&mut out, "fallback:");
            push_str(&mut out, file.album_root_dir_hint.as_str());
            out
        },
    }
}

/// The album a file's tags name: its title, and its album artist or else its
/// artist, each cleaned; nothing unless both are there.
pub open spec fn album_tag(m: ParsedAudioMetadata) -> Option<(Seq<char>, Seq<char>)> {
    let t = clean_text(opt_view(m.album_title));
    let a = match clean_text(opt_view(m.album_artist)) {
        Some(x) => Some(x),
        None => clean_text(opt_view(m.artist)),
    };
    match (t, a) {
        (Some(t), Some(a)) => Some((t, a)),
        _ => None,
    }
}

/// The key under which a file's tagged album is counted: the normalised
/// artist, then the normalised title.
pub open spec fn file_key(f: FileScanRecord) -> Option<(Seq<char>, Seq<char>)> {
    match album_tag(f.metadata) {
        Some(p) => Some((normalized(p.1), normalized(p.0))),
        None => None,
    }
}

/// How many of `fs` carry the album key `k`.
pub open spec fn key_count(fs: Seq<FileScanRecord>, k: (Seq<char>, Seq<char>)) -> nat
    decreases fs.len(),
{
    if fs.len() == 0 {
        0
    } else {
        key_count(fs.drop_last(), k) + if file_key(fs.last()) == Some(k) {
            1nat
        } else {
            0nat
        }
    }
}

/// The first year given by a file of `fs` with the album key `k`.
pub open spec fn key_year(fs: Seq<FileScanRecord>, k: (Seq<char>, Seq<char>)) -> Option<i64>
    decreases fs.len(),
{
    if fs.len() == 0 {
        None
    } else {
        let y = key_year(fs.drop_last(), k);
        if y is Some {
            y
        } else if file_key(fs.last()) == Some(k) {
            fs.last().metadata.year
        } else {
            None
        }
    }
}

/// The order of album keys: by artist, then by title.
pub open spec fn key_lt(a: (Seq<char>, Seq<char>), b: (Seq<char>, Seq<char>)) -> bool {
    lex_lt(a.0, b.0) || (a.0 == b.0 && lex_lt(a.1, b.1))
}

/// Whether the album of file `j` ranks above that of file `i`: more files,
/// or as many and a later key.
pub open spec fn outranks(fs: Seq<FileScanRecord>, j: int, i: int) -> bool {
    let kj = file_key(fs[j]).unwrap();
    let ki = file_key(fs[i]).unwrap();
    key_count(fs, kj) > key_count(fs, ki) || (key_count(fs, kj) == key_count(fs, ki) && key_lt(ki, kj))
}

/// Whether file `i` is the first file of the album that ranks highest.
pub open spec fn chosen_album_file(fs: Seq<FileScanRecord>, i: int) -> bool {
    &&& 0 <= i < fs.len()
    &&& file_key(fs[i]) is Some
    &&& forall|j: int| 0 <= j < i ==> file_key(#[trigger] fs[j]) != file_key(fs[i])
    &&& forall|j: int| 0 <= j < fs.len() && file_key(#[trigger] fs[j]) is Some ==> !outranks(fs, j, i)
}

proof fn lemma_key_lt_irreflexive(a: (Seq<char>, Seq<char>))
    ensures
        !key_lt(a, a),
{
    lemma_lex_irreflexive(a.0);
    lemma_lex_irreflexive(a.1);
}

proof fn lemma_key_lt_transitive(a: (Seq<char>, Seq<char>), b: (Seq<char>, Seq<char>), c: (Seq<char>, Seq<char>))
    requires
        key_lt(a, b),
        key_lt(b, c),
    ensures
        key_lt(a, c),
{
    if lex_lt(a.0, b.0) && lex_lt(b.0, c.0) {
        lemma_lex_transitive(a.0, b.0, c.0);
    } else if lex_lt(a.0, b.0) {
    } else if lex_lt(b.0, c.0) {
    } else {
        lemma_lex_transitive(a.1, b.1, c.1);
    }
}

proof fn lemma_key_lt_total(a: (Seq<char>, Seq<char>), b: (Seq<char>, Seq<char>))
    requires
        a != b,
    ensures
        key_lt(a, b) || key_lt(b, a),
{
    if a.0 != b.0 {
        lemma_lex_total(a.0, b.0);
    } else {
        assert(a.1 != b.1);
        lemma_lex_total(a.1, b.1);
    }
}

/// The cleaned album tag of a file, with its key, as text.
struct TagEntry {
    key_artist: Vec<char>,
    key_title: Vec<char>,
    title: String,
    artist: String,
}

fn tag_entry(m: &ParsedAudioMetadata) -> (r: Option<TagEntry>)
    ensures
        match r {
            Some(e) => album_tag(*m) == Some((e.title@, e.artist@)) && (e.key_artist@, e.key_title@) == (normalized(e.artist@), normalized(e.title@)),
            None => album_tag(*m) is None,
        },
{
    let t = clean_optional_text(&m.album_title);
    let a = match clean_optional_text(&m.album_artist) {
        Some(x) => Some(x),
        None => clean_optional_text(&m.artist),
    };
    match (t, a) {
        (Some(t), Some(a)) => {
            let ac = chars_of(a.as_str());
            let acol = crate::text::collapse_whitespace(ac.as_slice());
            let key_artist = to_ascii_lower(acol.as_slice());
            let tc = chars_of(t.as_str());
            let tcol = crate::text::collapse_whitespace(tc.as_slice());
            let key_title = to_ascii_lower(tcol.as_slice());
            Some(TagEntry { key_artist, key_title, title: t, artist: a })
        },
        _ => None,
    }
}

fn keys_eq(a: &TagEntry, b: &TagEntry) -> (r: bool)
    ensures
        r == ((a.key_artist@, a.key_title@) == (b.key_artist@, b.key_title@)),
{
    chars_eq(a.key_artist.as_slice(), b.key_artist.as_slice()) && chars_eq(a.key_title.as_slice(), b.key_title.as_slice())
}

fn key_before(a: &TagEntry, b: &TagEntry) -> (r: bool)
    ensures
        r == key_lt((a.key_artist@, a.key_title@), (b.key_artist@, b.key_title@)),
{
    chars_lt(a.key_artist.as_slice(), b.key_artist.as_slice()) || (chars_eq(
        a.key_artist.as_slice(),
        b.key_artist.as_slice(),
    ) && chars_lt(a.key_title.as_slice(), b.key_title.as_slice()))
}

/// The key of an entry, when there is one.
spec fn entry_key(e: Option<TagEntry>) -> Option<(Seq<char>, Seq<char>)> {
    match e {
        Some(t) => Some((t.key_artist@, t.key_title@)),
        None => None,
    }
}

/// Whether `ctx` is the album of the group `files`: the tagged album that
/// most of the files name (the later key among equals), with the first year
/// any of its files gives; else the directory's name by an unknown artist.
pub open spec fn group_context_of(ctx: GroupAlbumContext, files: Seq<FileScanRecord>, volume_label: Seq<char>, album_root_dir_hint: Seq<char>) -> bool {
    &&& (exists|i: int| 0 <= i < files.len() && file_key(#[trigger] files[i]) is Some) ==> exists|i: int|
        #[trigger] chosen_album_file(files, i) && album_tag(files[i].metadata) == Some((ctx.album_title@, ctx.album_artist@))
            && ctx.source_mode@ == "tag"@ && ctx.year == key_year(files, file_key(files[i]).unwrap())
    &&& !(exists|i: int| 0 <= i < files.len() && file_key(#[trigger] files[i]) is Some) ==> {
        &&& ctx.album_title@ == root_album_title(album_root_dir_hint, volume_label)
        &&& ctx.album_artist@ == UNKNOWN_ARTIST@
        &&& ctx.source_mode@ == "directory_fallback"@
        &&& ctx.year is None
    }
}

/// The album a group of files belongs to: the tagged album that most of the
/// files name (the later key among equals), with the first year any of its
/// files gives; else the directory's name by an unknown artist.
pub fn resolve_group_album_context(files: &[FileScanRecord], volume_label: &str, album_root_dir_hint: &str) -> (r: GroupAlbumContext)
    ensures
        group_context_of(r, files@, volume_label@, album_root_dir_hint@),
{
    let n = files.len();
    let ghost fs = files@;
    let mut tags: Vec<Option<TagEntry>> = Vec::new();
    let mut k: usize = 0;
    while k < n
        invariant
            n == fs.len(),
            fs == files@,
            k <= n,
            tags@.len() == k,
            forall|j: int| 0 <= j < k ==> entry_key(#[trigger] tags@[j]) == file_key(fs[j]),
            forall|j: int| 0 <= j < k ==> match #[trigger] tags@[j] {
                Some(e) => album_tag(fs[j].metadata) == Some((e.title@, e.artist@)),
                None => true,
            },
        decreases n - k,
    {
        let e = tag_entry(&files[k].metadata);
        tags.push(e);
        k = k + 1;
    }
    let mut best: Option<usize> = None;
    let mut best_count: usize = 0;
    let mut i: usize = 0;
    while i < n
        invariant
            n == fs.len(),
            fs == files@,
            tags@.len() == n,
            i <= n,
            forall|j: int| 0 <= j < n ==> entry_key(#[trigger] tags@[j]) == file_key(fs[j]),
            match best {
                Some(b) => {
                    &&& b < i
                    &&& file_key(fs[b as int]) is Some
                    &&& best_count == key_count(fs, file_key(fs[b as int]).unwrap())
                    &&& forall|j: int| 0 <= j < i && file_key(#[trigger] fs[j]) is Some ==> !outranks(fs, j, b as int)
                    &&& forall|j: int| 0 <= j < b && file_key(#[trigger] fs[j]) is Some ==> outranks(fs, b as int, j)
                },
                None => forall|j: int| 0 <= j < i ==> file_key(#[trigger] fs[j]) is None,
            },
        decreases n - i,
    {
        if tags[i].is_some() {
            let ghost ki = file_key(fs[i as int]).unwrap();
            let mut count: usize = 0;
            let mut j: usize = 0;
            while j < n
                invariant
                    n == fs.len(),
                    tags@.len() == n,
                    i < n,
                    j <= n,
                    tags@[i as int] is Some,
                    forall|q: int| 0 <= q < n ==> entry_key(#[trigger] tags@[q]) == file_key(fs[q]),
                    ki == file_key(fs[i as int]).unwrap(),
                    count == key_count(fs.take(j as int), ki),
                    count <= j,
                decreases n - j,
            {
                assert(fs.take(j + 1).drop_last() =~= fs.take(j as int));
                assert(fs.take(j + 1).last() == fs[j as int]);
                let same = match (&tags[j], &tags[i]) {
                    (Some(a), Some(b)) => keys_eq(a, b),
                    _ => false,
                };
                if same {
                    count = count + 1;
                }
                j = j + 1;
            }
            assert(fs.take(n as int) =~= fs);
            let better = match best {
                None => true,
                Some(b) => {
                    if count > best_count {
                        true
                    } else if count == best_count {
                        match (&tags[b], &tags[i]) {
                            (Some(x), Some(y)) => key_before(x, y),
                            _ => false,
                        }
                    } else {
                        false
                    }
                },
            };
            proof {
                match best {
                    Some(b) => {
                        assert(better == outranks(fs, i as int, b as int));
                    },
                    None => {},
                }
            }
            if better {
                proof {
                    match best {
                        Some(b) => {
                            let kb = file_key(fs[b as int]).unwrap();
                            assert forall|j: int| 0 <= j < i + 1 && file_key(#[trigger] fs[j]) is Some implies !outranks(fs, j, i as int) by {
                                let kj = file_key(fs[j]).unwrap();
                                if j == i {
                                    lemma_key_lt_irreflexive(ki);
                                } else {
                                    assert(!outranks(fs, j, b as int));
                                    if key_count(fs, kj) == key_count(fs, kb) && key_lt(kb, kj) {
                                        lemma_key_lt_irreflexive(kb);
                                    }
                                    if outranks(fs, j, i as int) && key_count(fs, kj) == key_count(fs, ki) && key_count(fs, ki) == key_count(fs, kb) {
                                        lemma_key_lt_transitive(kb, ki, kj);
                                    }
                                }
                            }
                            assert forall|j: int| 0 <= j < i && file_key(#[trigger] fs[j]) is Some implies outranks(fs, i as int, j) by {
                                let kj = file_key(fs[j]).unwrap();
                                assert(!outranks(fs, j, b as int));
                                if kj == kb {
                                } else {
                                    lemma_key_lt_total(kj, kb);
                                    if key_count(fs, kj) == key_count(fs, kb) && key_count(fs, kb) == key_count(fs, ki) {
                                        lemma_key_lt_transitive(kj, kb, ki);
                                    }
                                }
                            }
                        },
                        None => {
                            assert forall|j: int| 0 <= j < i + 1 && file_key(#[trigger] fs[j]) is Some implies !outranks(fs, j, i as int) by {
                                lemma_key_lt_irreflexive(ki);
                            }
                        },
                    }
                }
                best = Some(i);
                best_count = count;
            } else {
                proof {
                    let b = best.unwrap();
                    let kb = file_key(fs[b as int]).unwrap();
                    if ki != kb {
                        lemma_key_lt_total(ki, kb);
                    }
                }
            }
        }
        i = i + 1;
    }
    match best {
        Some(b) => {
            let ghost kb = file_key(fs[b as int]).unwrap();
            proof {
                assert forall|j: int| 0 <= j < b implies file_key(#[trigger] fs[j]) != file_key(fs[b as int]) by {
                    if file_key(fs[j]) == file_key(fs[b as int]) {
                        assert(outranks(fs, b as int, j));
                        lemma_key_lt_irreflexive(kb);
                    }
                }
                assert(chosen_album_file(fs, b as int));
            }
            let mut year: Option<i64> = None;
            let mut j: usize = 0;
            while j < n
                invariant
                    n == fs.len(),
                    fs == files@,
                    tags@.len() == n,
                    b < n,
                    j <= n,
                    tags@[b as int] is Some,
                    forall|q: int| 0 <= q < n ==> entry_key(#[trigger] tags@[q]) == file_key(fs[q]),
                    kb == file_key(fs[b as int]).unwrap(),
                    year == key_year(fs.take(j as int), kb),
                decreases n - j,
            {
                assert(fs.take(j + 1).drop_last() =~= fs.take(j as int));
                assert(fs.take(j + 1).last() == fs[j as int]);
                if year.is_none() {
                    let same = match (&tags[j], &tags[b]) {
                        (Some(x), Some(y)) => keys_eq(x, y),
                        _ => false,
                    };
                    if same {
                        year = files[j].metadata.year;
                    }
                }
                j = j + 1;
            }
            assert(fs.take(n as int) =~= fs);
            match &tags[b] {
                Some(e) => {
                    let r = GroupAlbumContext {
                        album_title: e.title.clone(),
                        album_artist: e.artist.clone(),
                        source_mode: "tag".to_owned(),
                        year,
                    };
                    assert(chosen_album_file(files@, b as int));
                    r
                },
                None => {
                    assert(false);
                    GroupAlbumContext {
                        album_title: String::new(),
                        album_artist: String::new(),
                        source_mode: String::new(),
                        year: None,
                    }
                },
            }
        },
        None => {
            GroupAlbumContext {
                album_title: album_title_for_root(album_root_dir_hint, volume_label),
                album_artist: UNKNOWN_ARTIST.to_owned(),
                source_mode: "directory_fallback".to_owned(),
                year: None,
            }
        },
    }
}

/// The text hashed into an album's identifier: the volume, the normalised
/// album artist and title, and the album's directory, one per line.
pub open spec fn album_key(volume_uuid: Seq<char>, album_artist: Seq<char>, album_title: Seq<char>, album_root_dir_hint: Seq<char>) -> Seq<char> {
    volume_uuid + seq!['\n'] + normalized(album_artist) + seq!['\n'] + normalized(album_title) + seq!['\n']
        + album_root_dir_hint
}

/// The artist of a track: its own tag, else the album artist when the album
/// came from tags, else the unknown artist.
pub open spec fn track_artist(f: FileScanRecord, ctx: GroupAlbumContext) -> Seq<char> {
    match clean_text(opt_view(f.metadata.artist)) {
        Some(a) => a,
        None => if ctx.source_mode@ == "tag"@ {
            ctx.album_artist@
        } else {
            UNKNOWN_ARTIST@
        },
    }
}

/// The title of a track: its tag, else the title derived from its file name.
pub open spec fn track_title(f: FileScanRecord) -> Seq<char> {
    match clean_text(opt_view(f.metadata.title)) {
        Some(t) => t,
        None => f.derived_title@,
    }
}

/// The disc of a track: its tag, else its directory's, and at least one.
pub open spec fn track_disc(f: FileScanRecord) -> i64 {
    let d = match f.metadata.disc_no {
        Some(d) => d,
        None => f.directory_disc_no,
    };
    if d < 1 {
        1
    } else {
        d
    }
}

/// The first of two optional values that is there.
pub open spec fn or_else<T>(a: Option<T>, b: Option<T>) -> Option<T> {
    match a {
        Some(x) => Some(x),
        None => b,
    }
}

/// Whether `r` is what the library records of `f`, a file of the volume
/// `volume_uuid` and a member of the album `ctx`.
pub open spec fn resolved_as(r: ResolvedTrackRecord, volume_uuid: Seq<char>, f: FileScanRecord, ctx: GroupAlbumContext) -> bool {
    &&& r.album_uid@ == stable_id_of(album_key(volume_uuid, ctx.album_artist@, ctx.album_title@, f.album_root_dir_hint@))
    &&& r.album_title@ == ctx.album_title@
    &&& r.album_artist@ == ctx.album_artist@
    &&& r.album_root_dir_hint@ == f.album_root_dir_hint@
    &&& r.source_mode@ == ctx.source_mode@
    &&& r.year == or_else(f.metadata.year, ctx.year)
    &&& r.title@ == track_title(f)
    &&& r.artist@ == track_artist(f, ctx)
    &&& r.track_no == or_else(f.metadata.track_no, f.derived_track_no)
    &&& r.disc_no == track_disc(f)
    &&& r.duration_ms == f.metadata.duration_ms
    &&& r.sample_rate == f.metadata.sample_rate
    &&& r.bit_depth == f.metadata.bit_depth
    &&& crate::protocol::strs(r.genres@) == crate::protocol::strs(f.metadata.genres@)
}

/// What the library records of `file`, a member of the album `group_context`.
pub fn resolve_track_record(volume: &VolumeDescriptor, file: &FileScanRecord, group_context: &GroupAlbumContext) -> (r: ResolvedTrackRecord)
    ensures
        resolved_as(r, volume.volume_uuid@, *file, *group_context),
{
    let artist = match clean_optional_text(&file.metadata.artist) {
        Some(a) => a,
        None => {
            let mode = chars_of(group_context.source_mode.as_str());
            if eq_str(mode.as_slice(), "tag") {
                group_context.album_artist.clone()
            } else {
                UNKNOWN_ARTIST.to_owned()
            }
        },
    };
    let title = match clean_optional_text(&file.metadata.title) {
        Some(t) => t,
        None => file.derived_title.clone(),
    };
    let d = match file.metadata.disc_no {
        Some(d) => d,
        None => file.directory_disc_no,
    };
    let disc_no = if d < 1 {
        1
    } else {
        d
    };
    let track_no = match file.metadata.track_no {
        Some(t) => Some(t),
        None => file.derived_track_no,
    };
    let mut key = String::new();
    push_str(&mut key, volume.volume_uuid.as_str());
    push_char(&mut key, '\n');
    let na = normalize_text(group_context.album_artist.as_str());
    push_str(&mut key, na.as_str());
    push_char(&mut key, '\n');
    let nt = normalize_text(group_context.album_title.as_str());
    push_str(&mut key, nt.as_str());
    push_char(&mut key, '\n');
    push_str(&mut key, file.album_root_dir_hint.as_str());
    assert(key@ =~= album_key(volume.volume_uuid@, group_context.album_artist@, group_context.album_title@, file.album_root_dir_hint@));
    let album_uid = stable_id(key.as_str());
    let year = match file.metadata.year {
        Some(y) => Some(y),
        None => group_context.year,
    };
    ResolvedTrackRecord {
        album_uid,
        album_title: group_context.album_title.clone(),
        album_artist: group_context.album_artist.clone(),
        album_root_dir_hint: file.album_root_dir_hint.clone(),
        source_mode: group_context.source_mode.clone(),
        year,
        title,
        artist,
        track_no,
        disc_no,
        duration_ms: file.metadata.duration_ms,
        sample_rate: file.metadata.sample_rate,
        bit_depth: file.metadata.bit_depth,
        genres: copy_strings(&file.metadata.genres),
    }
}

/// The parts that are not blank once trimmed, in order.
pub open spec fn nonblank(parts: Seq<Seq<char>>) -> Seq<Seq<char>>
    decreases parts.len(),
{
    if parts.len() == 0 {
        Seq::empty()
    } else if trim(parts.last()).len() > 0 {
        nonblank(parts.drop_last()).push(parts.last())
    } else {
        nonblank(parts.drop_last())
    }
}

/// The texts a track is found by: its title, artist, album artist and album
/// title, its file name, path and album directory, then its genres.
pub open spec fn search_parts(f: FileScanRecord, r: ResolvedTrackRecord) -> Seq<Seq<char>> {
    seq![r.title@, r.artist@, r.album_artist@, r.album_title@, f.filename@, f.relative_path@, f.album_root_dir_hint@]
        + crate::protocol::strs(r.genres@)
}

fn keep_nonblank(out: &mut Vec<Vec<char>>, part: &str)
    ensures
        views(final(out)@) == nonblank_step(views(old(out)@), part@),
{
    let pc = chars_of(part);
    let t = trimmed(pc.as_slice());
    if t.len() > 0 {
        let ghost before = views(out@);
        out.push(pc);
        assert(views(out@) =~= before.push(part@));
    }
}

proof fn lemma_nonblank_take(parts: Seq<Seq<char>>, k: int)
    requires
        0 <= k < parts.len(),
    ensures
        nonblank(parts.take(k + 1)) == nonblank_step(nonblank(parts.take(k)), parts[k]),
{
    assert(parts.take(k + 1).drop_last() =~= parts.take(k));
    assert(parts.take(k + 1).last() == parts[k]);
}

/// `kept` with `part` added when it is not blank.
pub open spec fn nonblank_step(kept: Seq<Seq<char>>, part: Seq<char>) -> Seq<Seq<char>> {
    if trim(part).len() > 0 {
        kept.push(part)
    } else {
        kept
    }
}

/// The search text of a track: the non-blank parts it is found by, joined by
/// spaces.
pub fn build_track_search_content(file: &FileScanRecord, resolved: &ResolvedTrackRecord) -> (r: String)
    ensures
        r@ == crate::text::join(nonblank(search_parts(*file, *resolved)), seq![' ']),
{
    let ghost parts = search_parts(*file, *resolved);
    let mut kept: Vec<Vec<char>> = Vec::new();
    assert(parts.take(0) =~= Seq::<Seq<char>>::empty());
    assert(views(kept@) =~= nonblank(parts.take(0)));
    keep_nonblank(&mut kept, resolved.title.as_str());
    proof {
        lemma_nonblank_take(parts, 0);
    }
    keep_nonblank(&mut kept, resolved.artist.as_str());
    proof {
        lemma_nonblank_take(parts, 1);
    }
    keep_nonblank(&mut kept, resolved.album_artist.as_str());
    proof {
        lemma_nonblank_take(parts, 2);
    }
    keep_nonblank(&mut kept, resolved.album_title.as_str());
    proof {
        lemma_nonblank_take(parts, 3);
    }
    keep_nonblank(&mut kept, file.filename.as_str());
    proof {
        lemma_nonblank_take(parts, 4);
    }
    keep_nonblank(&mut kept, file.relative_path.as_str());
    proof {
        lemma_nonblank_take(parts, 5);
    }
    keep_nonblank(&mut kept, file.album_root_dir_hint.as_str());
    proof {
        lemma_nonblank_take(parts, 6);
    }
    let mut i: usize = 0;
    while i < resolved.genres.len()
        invariant
            parts == search_parts(*file, *resolved),
            i <= resolved.genres@.len(),
            parts.len() == 7 + resolved.genres@.len(),
            views(kept@) == nonblank(parts.take(7 + i)),
        decreases resolved.genres@.len() - i,
    {
        keep_nonblank(&mut kept, resolved.genres[i].as_str());
        assert(parts[7 + i as int] == resolved.genres@[i as int]@);
        proof {
            lemma_nonblank_take(parts, 7 + i as int);
        }
        i = i + 1;
    }
    assert(parts.take(parts.len() as int) =~= parts);
    let sep = vec![' '];
    assert(sep@ =~= seq![' ']);
    let joined = crate::text::join_chars(&kept, sep.as_slice());
    string_from(joined.as_slice())
}

/// What the indexer is asked to do.
#[derive(Debug)]
pub enum MediaIndexCommand {
    EnsureSchema,
    SeedDemo,
    ScanDir { scan_root: String },
}

/// The value of a command.
pub enum CommandModel {
    EnsureSchema,
    SeedDemo,
    ScanDir(Seq<char>),
}

impl View for MediaIndexCommand {
    type V = CommandModel;

    open spec fn view(&self) -> CommandModel {
        match self {
            MediaIndexCommand::EnsureSchema => CommandModel::EnsureSchema,
            MediaIndexCommand::SeedDemo => CommandModel::SeedDemo,
            MediaIndexCommand::ScanDir { scan_root } => CommandModel::ScanDir(scan_root@),
        }
    }
}

impl MediaIndexCommand {
    /// The name of the command, as it is given on the command line.
    pub fn as_str(&self) -> (r: &'static str)
        ensures
            r@ == (match self@ {
                CommandModel::EnsureSchema => "ensure-schema"@,
                CommandModel::SeedDemo => "seed-demo"@,
                CommandModel::ScanDir(_) => "scan-dir"@,
            }),
    {
        match self {
            MediaIndexCommand::EnsureSchema => "ensure-schema",
            MediaIndexCommand::SeedDemo => "seed-demo",
            MediaIndexCommand::ScanDir { .. } => "scan-dir",
        }
    }
}

/// The command named by the first argument, and how many arguments it takes.
pub open spec fn named_command(args: Seq<Seq<char>>) -> Result<(CommandModel, nat), Seq<char>>
    recommends
        args.len() > 0,
{
    let first = args[0];
    if first == "ensure-schema"@ {
        Ok((CommandModel::EnsureSchema, 1nat))
    } else if first == "seed-demo"@ {
        Ok((CommandModel::SeedDemo, 1nat))
    } else if first == "scan-dir"@ {
        if args.len() >= 2 {
            Ok((CommandModel::ScanDir(args[1]), 2nat))
        } else {
            Err("scan-dir requires a directory path"@)
        }
    } else {
        Err("unsupported command: "@ + first + " (expected ensure-schema, seed-demo, or scan-dir)"@)
    }
}

/// The command that the arguments after the program's name ask for: none
/// means `ensure-schema`; an unknown command, a missing directory or an
/// extra argument is an error.
pub open spec fn command_from_args(args: Seq<Seq<char>>) -> Result<CommandModel, Seq<char>> {
    if args.len() == 0 {
        Ok(CommandModel::EnsureSchema)
    } else {
        match named_command(args) {
            Err(e) => Err(e),
            Ok((c, used)) => if args.len() > used {
                Err("unexpected extra argument: "@ + args[used as int])
            } else {
                Ok(c)
            },
        }
    }
}

/// The command that `args`, the arguments after the program's name, ask for.
pub fn parse_command(args: &Vec<String>) -> (r: Result<MediaIndexCommand, String>)
    ensures
        match r {
            Ok(c) => command_from_args(crate::protocol::strs(args@)) == Ok::<CommandModel, Seq<char>>(c@),
            Err(e) => command_from_args(crate::protocol::strs(args@)) == Err::<CommandModel, Seq<char>>(e@),
        },
{
    let ghost a = crate::protocol::strs(args@);
    if args.len() == 0 {
        return Ok(MediaIndexCommand::EnsureSchema);
    }
    assert(a[0] == args@[0]@);
    let first = chars_of(args[0].as_str());
    let (command, used): (MediaIndexCommand, usize) = if eq_str(first.as_slice(), "ensure-schema") {
        (MediaIndexCommand::EnsureSchema, 1)
    } else if eq_str(first.as_slice(), "seed-demo") {
        (MediaIndexCommand::SeedDemo, 1)
    } else if eq_str(first.as_slice(), "scan-dir") {
        if args.len() >= 2 {
            assert(a[1] == args@[1]@);
            (MediaIndexCommand::ScanDir { scan_root: args[1].clone() }, 2)
        } else {
            return Err("scan-dir requires a directory path".to_owned());
        }
    } else {
        let mut e = String::new();
        push_str(&mut e, "unsupported command: ");
        push_str(&mut e, args[0].as_str());
        push_str(&mut e, " (expected ensure-schema, seed-demo, or scan-dir)");
        return Err(e);
    };
    if args.len() > used {
        assert(a[used as int] == args@[used as int]@);
        let mut e = String::new();
        push_str(&mut e, "unexpected extra argument: ");
        push_str(&mut e, args[used].as_str());
        return Err(e);
    }
    Ok(command)
}

/// The files of one album directory that share a grouping key.
#[derive(Debug)]
pub struct ScanGroup {
    pub album_root_dir_hint: String,
    pub grouping_key: String,
    pub files: Vec<FileScanRecord>,
}

/// The album directory and grouping key of a file.
pub open spec fn group_pair(f: FileScanRecord) -> (Seq<char>, Seq<char>) {
    (f.album_root_dir_hint@, grouping_key(f))
}

/// The album directory and grouping key of a group.
pub open spec fn pair_of(g: ScanGroup) -> (Seq<char>, Seq<char>) {
    (g.album_root_dir_hint@, g.grouping_key@)
}

/// The files of `fs` with the directory and key `p`, in order.
pub open spec fn files_with(fs: Seq<FileScanRecord>, p: (Seq<char>, Seq<char>)) -> Seq<FileScanRecord>
    decreases fs.len(),
{
    if fs.len() == 0 {
        Seq::empty()
    } else if group_pair(fs.last()) == p {
        files_with(fs.drop_last(), p).push(fs.last())
    } else {
        files_with(fs.drop_last(), p)
    }
}

proof fn lemma_files_with_none(fs: Seq<FileScanRecord>, p: (Seq<char>, Seq<char>))
    requires
        forall|j: int| 0 <= j < fs.len() ==> group_pair(#[trigger] fs[j]) != p,
    ensures
        files_with(fs, p) == Seq::<FileScanRecord>::empty(),
    decreases fs.len(),
{
    if fs.len() > 0 {
        lemma_files_with_none(fs.drop_last(), p);
    }
}

/// Whether groups come in the order of their directory and key, each once.
pub open spec fn groups_sorted(gs: Seq<ScanGroup>) -> bool {
    forall|i: int, j: int| 0 <= i < j < gs.len() ==> key_lt(pair_of(#[trigger] gs[i]), pair_of(#[trigger] gs[j]))
}

/// Whether one of `gs` has the directory and key `p`.
pub open spec fn has_group(gs: Seq<ScanGroup>, p: (Seq<char>, Seq<char>)) -> bool {
    exists|i: int| 0 <= i < gs.len() && #[trigger] pair_of(gs[i]) == p
}

/// Whether every file of `fs` has a group among `gs`.
pub open spec fn groups_cover(gs: Seq<ScanGroup>, fs: Seq<FileScanRecord>) -> bool {
    forall|j: int| 0 <= j < fs.len() ==> has_group(gs, group_pair(#[trigger] fs[j]))
}

/// The files of a scan grouped by album directory and grouping key: the
/// groups in the order of directory, then key; the files of each group in the
/// order they came in.
pub fn group_scan_files(files: Vec<FileScanRecord>) -> (r: Vec<ScanGroup>)
    ensures
        groups_sorted(r@),
        forall|i: int| 0 <= i < r@.len() ==> (#[trigger] r@[i]).files@ == files_with(files@, pair_of(r@[i]))
            && r@[i].files@.len() > 0,
        groups_cover(r@, files@),
{
    let ghost orig = files@;
    let mut rest = files;
    let mut groups: Vec<ScanGroup> = Vec::new();
    let ghost mut done: Seq<FileScanRecord> = Seq::empty();
    while rest.len() > 0
        invariant
            orig == done + rest@,
            groups_sorted(groups@),
            forall|i: int| 0 <= i < groups@.len() ==> (#[trigger] groups@[i]).files@ == files_with(done, pair_of(groups@[i]))
                && groups@[i].files@.len() > 0,
            groups_cover(groups@, done),
        decreases rest@.len(),
    {
        let f = rest.remove(0);
        let hint = f.album_root_dir_hint.clone();
        let key = file_grouping_key(&f);
        let ghost p = group_pair(f);
        assert((hint@, key@) == p);
        let hc = chars_of(hint.as_str());
        let kc = chars_of(key.as_str());
        let n = groups.len();
        let mut k: usize = 0;
        loop
            invariant
                n == groups@.len(),
                k <= n,
                (hc@, kc@) == p,
                groups_sorted(groups@),
                forall|q: int| 0 <= q < k ==> key_lt(pair_of(#[trigger] groups@[q]), p),
            ensures
                k <= n,
                forall|q: int| 0 <= q < k ==> key_lt(pair_of(#[trigger] groups@[q]), p),
                k == n || !key_lt(pair_of(groups@[k as int]), p),
            decreases n - k,
        {
            if k == n {
                break;
            }
            let gh = chars_of(groups[k].album_root_dir_hint.as_str());
            let gk = chars_of(groups[k].grouping_key.as_str());
            let before = chars_lt(gh.as_slice(), hc.as_slice()) || (chars_eq(gh.as_slice(), hc.as_slice()) && chars_lt(
                gk.as_slice(),
                kc.as_slice(),
            ));
            assert(before == key_lt(pair_of(groups@[k as int]), p));
            if !before {
                break;
            }
            k = k + 1;
        }
        let ghost old_groups = groups@;
        let ghost nd = done.push(f);
        proof {
            assert(nd.drop_last() =~= done);
            assert(nd.last() == f);
        }
        let same = if k < n {
            let gh = chars_of(groups[k].album_root_dir_hint.as_str());
            let gk = chars_of(groups[k].grouping_key.as_str());
            chars_eq(gh.as_slice(), hc.as_slice()) && chars_eq(gk.as_slice(), kc.as_slice())
        } else {
            false
        };
        if same {
            assert(pair_of(old_groups[k as int]) == p);
            let mut g = groups.remove(k);
            g.files.push(f);
            groups.insert(k, g);
            proof {
                assert forall|i: int| 0 <= i < groups@.len() implies (#[trigger] groups@[i]).files@ == files_with(nd, pair_of(groups@[i]))
                    && groups@[i].files@.len() > 0 by {
                    if i != k {
                        assert(groups@[i] == old_groups[i]);
                        assert(pair_of(old_groups[i]) != p) by {
                            if i < k {
                                lemma_key_lt_irreflexive(p);
                            } else {
                                lemma_key_lt_irreflexive(p);
                            }
                        }
                    }
                }
                assert(groups@ =~= old_groups.update(k as int, g));
                assert forall|j: int| 0 <= j < nd.len() implies has_group(groups@, group_pair(#[trigger] nd[j])) by {
                    if j < done.len() {
                        assert(nd[j] == done[j]);
                        assert(has_group(old_groups, group_pair(done[j])));
                        let i = choose|i: int| 0 <= i < old_groups.len() && #[trigger] pair_of(old_groups[i]) == group_pair(done[j]);
                        assert(pair_of(groups@[i]) == pair_of(old_groups[i]));
                    } else {
                        assert(pair_of(groups@[k as int]) == group_pair(nd[j]));
                    }
                }
            }
        } else {
            proof {
                if k < n {
                    assert(pair_of(old_groups[k as int]) != p);
                    lemma_key_lt_total(pair_of(old_groups[k as int]), p);
                }
                assert forall|q: int| k <= q < n implies key_lt(p, #[trigger] pair_of(old_groups[q])) by {
                    lemma_key_lt_total(pair_of(old_groups[k as int]), p);
                    if q > k {
                        lemma_key_lt_transitive(p, pair_of(old_groups[k as int]), pair_of(old_groups[q]));
                    }
                }
                assert forall|j: int| 0 <= j < done.len() implies group_pair(#[trigger] done[j]) != p by {
                    assert(has_group(old_groups, group_pair(done[j])));
                    let i = choose|i: int| 0 <= i < old_groups.len() && #[trigger] pair_of(old_groups[i]) == group_pair(done[j]);
                    if i < k {
                        lemma_key_lt_irreflexive(p);
                    } else {
                        lemma_key_lt_irreflexive(p);
                    }
                }
                lemma_files_with_none(done, p);
            }
            let mut fl: Vec<FileScanRecord> = Vec::new();
            fl.push(f);
            let g = ScanGroup { album_root_dir_hint: hint, grouping_key: key, files: fl };
            groups.insert(k, g);
            proof {
                assert(groups@ =~= old_groups.insert(k as int, g));
                assert forall|a: int, b: int| 0 <= a < b < groups@.len() implies key_lt(pair_of(#[trigger] groups@[a]), pair_of(#[trigger] groups@[b])) by {
                    if b < k {
                        assert(groups@[a] == old_groups[a] && groups@[b] == old_groups[b]);
                    } else if b == k {
                        assert(groups@[a] == old_groups[a]);
                    } else if a < k {
                        assert(groups@[a] == old_groups[a] && groups@[b] == old_groups[b - 1]);
                        lemma_key_lt_transitive(pair_of(old_groups[a]), p, pair_of(old_groups[b - 1]));
                    } else if a == k {
                        assert(groups@[b] == old_groups[b - 1]);
                    } else {
                        assert(groups@[a] == old_groups[a - 1] && groups@[b] == old_groups[b - 1]);
                    }
                }
                assert forall|i: int| 0 <= i < groups@.len() implies (#[trigger] groups@[i]).files@ == files_with(nd, pair_of(groups@[i]))
                    && groups@[i].files@.len() > 0 by {
                    if i < k {
                        assert(groups@[i] == old_groups[i]);
                        lemma_key_lt_irreflexive(p);
                    } else if i > k {
                        assert(groups@[i] == old_groups[i - 1]);
                        lemma_key_lt_irreflexive(p);
                    } else {
                        assert(g.files@ =~= Seq::<FileScanRecord>::empty().push(f));
                    }
                }
                assert forall|j: int| 0 <= j < nd.len() implies has_group(groups@, group_pair(#[trigger] nd[j])) by {
                    if j < done.len() {
                        assert(nd[j] == done[j]);
                        assert(has_group(old_groups, group_pair(done[j])));
                        let i = choose|i: int| 0 <= i < old_groups.len() && #[trigger] pair_of(old_groups[i]) == group_pair(done[j]);
                        if i < k {
                            assert(groups@[i] == old_groups[i]);
                        } else {
                            assert(groups@[i + 1] == old_groups[i]);
                        }
                    } else {
                        assert(pair_of(groups@[k as int]) == group_pair(nd[j]));
                    }
                }
            }
        }
        proof {
            done = nd;
        }
    }
    assert(done =~= orig);
    assert(groups_cover(groups@, orig));
    groups
}

/// The label of a scanned volume: `MEDIA_INDEX_VOLUME_LABEL` when it is set,
/// else the name of the scanned directory, else `Scanned Library`.
pub open spec fn volume_label_of(mount_path: Seq<char>, env_label: Option<Seq<char>>) -> Seq<char> {
    match env_label {
        Some(l) => l,
        None => last_name_or(mount_path, "Scanned Library"@),
    }
}

/// The identifier of a scanned volume: `MEDIA_INDEX_VOLUME_UUID` when it is
/// set, else `scan-` and the stable identifier of its path.
pub open spec fn volume_uuid_of(mount_path: Seq<char>, env_uuid: Option<Seq<char>>) -> Seq<char> {
    match env_uuid {
        Some(u) => u,
        None => "scan-"@ + stable_id_of(mount_path),
    }
}

/// The volume scanned at `mount_path`, given the values of
/// `MEDIA_INDEX_VOLUME_LABEL`, `MEDIA_INDEX_VOLUME_UUID` and
/// `MEDIA_INDEX_FS_TYPE`.
pub fn build_volume_descriptor(mount_path: &str, env_label: Option<String>, env_uuid: Option<String>, fs_type: Option<String>) -> (r: VolumeDescriptor)
    ensures
        r.mount_path@ == mount_path@,
        r.label@ == volume_label_of(mount_path@, opt_view(env_label)),
        r.volume_uuid@ == volume_uuid_of(mount_path@, opt_view(env_uuid)),
        opt_view(r.fs_type) == opt_view(fs_type),
{
    let label = match env_label {
        Some(l) => l,
        None => last_name_or_text(mount_path, "Scanned Library"),
    };
    let volume_uuid = match env_uuid {
        Some(u) => u,
        None => {
            let mut out = String::new();
            push_str(&mut out, "scan-");
            let id = stable_id(mount_path);
            push_str(&mut out, id.as_str());
            out
        },
    };
    VolumeDescriptor { volume_uuid, label, mount_path: mount_path.to_owned(), fs_type }
}

/// The position of the first of `names` that is `target` in any case.
pub open spec fn first_named(names: Seq<Seq<char>>, target: Seq<char>) -> Option<int>
    decreases names.len(),
{
    if names.len() == 0 {
        None
    } else {
        match first_named(names.drop_last(), target) {
            Some(i) => Some(i),
            None => if lower(names.last()) == target {
                Some(names.len() - 1)
            } else {
                None
            },
        }
    }
}

/// The artwork chosen in a directory: `folder.jpg`, else `cover.jpg`, in any
/// case; the first such file when several differ only in case.
pub open spec fn preferred_cover(names: Seq<Seq<char>>) -> Option<int> {
    match first_named(names, "folder.jpg"@) {
        Some(i) => Some(i),
        None => first_named(names, "cover.jpg"@),
    }
}

fn first_named_index(names: &Vec<String>, target: &str) -> (r: Option<usize>)
    ensures
        match r {
            Some(i) => first_named(crate::protocol::strs(names@), target@) == Some(i as int),
            None => first_named(crate::protocol::strs(names@), target@) is None,
        },
{
    let ghost ns = crate::protocol::strs(names@);
    let mut i: usize = 0;
    assert(ns.take(0) =~= Seq::<Seq<char>>::empty());
    while i < names.len()
        invariant
            ns == crate::protocol::strs(names@),
            i <= names@.len(),
            first_named(ns.take(i as int), target@) is None,
        decreases names@.len() - i,
    {
        let nc = chars_of(names[i].as_str());
        let l = to_ascii_lower(nc.as_slice());
        assert(ns.take(i + 1).drop_last() =~= ns.take(i as int));
        assert(ns.take(i + 1).last() == ns[i as int]);
        if eq_str(l.as_slice(), target) {
            proof {
                assert(first_named(ns.take(i + 1), target@) == Some(i as int));
                lemma_first_named_prefix(ns, i as int + 1, target@);
            }
            return Some(i);
        }
        i = i + 1;
    }
    assert(ns.take(names@.len() as int) =~= ns);
    None
}

proof fn lemma_first_named_prefix(names: Seq<Seq<char>>, k: int, t: Seq<char>)
    requires
        0 <= k <= names.len(),
        first_named(names.take(k), t) is Some,
    ensures
        first_named(names, t) == first_named(names.take(k), t),
    decreases names.len() - k,
{
    if k < names.len() {
        assert(names.take(k + 1).drop_last() =~= names.take(k));
        assert(first_named(names.take(k + 1), t) == first_named(names.take(k), t));
        lemma_first_named_prefix(names, k + 1, t);
    } else {
        assert(names.take(k) =~= names);
    }
}

/// The position, among the names of the regular files of a directory in the
/// order they were read, of the artwork to use.
pub fn preferred_cover_index(names: &Vec<String>) -> (r: Option<usize>)
    ensures
        match r {
            Some(i) => preferred_cover(crate::protocol::strs(names@)) == Some(i as int),
            None => preferred_cover(crate::protocol::strs(names@)) is None,
        },
{
    match first_named_index(names, "folder.jpg") {
        Some(i) => Some(i),
        None => first_named_index(names, "cover.jpg"),
    }
}

} // verus!
