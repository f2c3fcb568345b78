//! JSON text: the lists of track ids carried by `QUEUE_PLAY` and
//! `QUEUE_REPLACE`, and the strings of snapshot payloads.

use vstd::prelude::*;
use crate::protocol::strs;
use crate::text::{chars_of, push_char};

verus! {

/// What `serde_json::from_str::<Vec<String>>` gives for `text`: the strings of
/// the JSON array, or the text of the error it reports.
pub uninterp spec fn json_string_list(text: Seq<char>) -> Result<Seq<Seq<char>>, Seq<char>>;

/// The JSON text that `serde_json::to_string` writes for a list of strings.
pub uninterp spec fn json_text_of_strings(list: Seq<Seq<char>>) -> Seq<char>;

/// A lower-case hexadecimal digit.
pub open spec fn hex_digit(n: u32) -> char {
    if n < 10 {
        (48 + n) as char
    } else {
        (87 + n) as char
    }
}

/// How serde_json writes `c` inside a JSON string: `"` and `\` behind a
/// backslash; backspace, tab, line feed, form feed and carriage return as
/// `\b`, `\t`, `\n`, `\f` and `\r`; the other control characters below
/// U+0020 as `\u00` and two lower-case hex digits; everything else as is.
pub open spec fn json_escape_char(c: char) -> Seq<char> {
    if c == '"' {
        seq!['\\', '"']
    } else if c == '\\' {
        seq!['\\', '\\']
    } else if c == '\u{8}' {
        seq!['\\', 'b']
    } else if c == '\t' {
        seq!['\\', 't']
    } else if c == '\n' {
        seq!['\\', 'n']
    } else if c == '\u{c}' {
        seq!['\\', 'f']
    } else if c == '\r' {
        seq!['\\', 'r']
    } else if (c as u32) < 0x20 {
        seq!['\\', 'u', '0', '0', hex_digit((c as u32) / 16), hex_digit((c as u32) % 16)]
    } else {
        seq![c]
    }
}

/// The characters of `s`, each written as `json_escape_char` says.
pub open spec fn json_escaped(s: Seq<char>) -> Seq<char>
    decreases s.len(),
{
    if s.len() == 0 {
        Seq::empty()
    } else {
        json_escaped(s.drop_last()) + json_escape_char(s.last())
    }
}

/// The JSON string literal that `serde_json::to_string` writes for `s`
/// (serde_json's `format_escaped_str`): `s` escaped, in double quotes.
pub open spec fn json_text_of_string(s: Seq<char>) -> Seq<char> {
    seq!['"'] + json_escaped(s) + seq!['"']
}

/// The successful outcome of reading `list`.
pub open spec fn list_read(list: Seq<Seq<char>>) -> Result<Seq<Seq<char>>, Seq<char>> {
    Ok(list)
}

/// The failed outcome of reading, with the error's text.
pub open spec fn list_read_error(message: Seq<char>) -> Result<Seq<Seq<char>>, Seq<char>> {
    Err(message)
}

/// Calls `serde_json::from_str::<Vec<String>>` on `text` and keeps the error's
/// `Display` text. The contract says only that the outcome is the one named by
/// `json_string_list` for this text; what JSON it accepts is serde_json's.
#[verifier::external_body]
pub(crate) fn decode_string_list(text: &str) -> (r: Result<Vec<String>, String>)
    ensures
        match r {
            Ok(v) => json_string_list(text@) == list_read(strs(v@)),
            Err(m) => json_string_list(text@) == list_read_error(m@),
        },
{
    serde_json::from_str::<Vec<String>>(text).map_err(|err| err.to_string())
}

/// Calls `serde_json::to_string` on a list of strings. Serialising a list of
/// strings cannot fail. The contract claims that the text is the one named by
/// `json_text_of_strings`, that it is a JSON array (it begins with `[` and ends
/// with `]`), and that `serde_json::from_str` reads the same list back from it.
#[verifier::external_body]
pub(crate) fn encode_string_list(list: &Vec<String>) -> (r: String)
    ensures
        r@ == json_text_of_strings(strs(list@)),
        json_string_list(r@) == list_read(strs(list@)),
        r@.len() >= 2,
        r@[0] == '[',
        r@.last() == ']',
{
    serde_json::to_string(list).expect("a list of strings always serializes as JSON")
}

fn push_hex_digit(out: &mut String, n: u32)
    requires
        n < 16,
    ensures
        final(out)@ == old(out)@.push(hex_digit(n)),
{
    let d = n as u8;
    let c: char = if d < 10 {
        (48u8 + d) as char
    } else {
        (87u8 + d) as char
    };
    push_char(out, c);
}

/// The JSON string literal for `s`, written as serde_json writes it.
pub fn json_string_text(s: &str) -> (r: String)
    ensures
        r@ == json_text_of_string(s@),
{
    let cs = chars_of(s);
    let mut out = String::new();
    push_char(&mut out, '"');
    let mut i: usize = 0;
    while i < cs.len()
        invariant
            i <= cs@.len(),
            out@ == seq!['"'] + json_escaped(cs@.take(i as int)),
        decreases cs@.len() - i,
    {
        let c = cs[i];
        let ghost before = out@;
        let v = c as u32;
        if c == '"' {
            push_char(&mut out, '\\');
            push_char(&mut out, '"');
        } else if c == '\\' {
            push_char(&mut out, '\\');
            push_char(&mut out, '\\');
        } else if c == '\u{8}' {
            push_char(&mut out, '\\');
            push_char(&mut out, 'b');
        } else if c == '\t' {
            push_char(&mut out, '\\');
            push_char(&mut out, 't');
        } else if c == '\n' {
            push_char(&mut out, '\\');
            push_char(&mut out, 'n');
        } else if c == '\u{c}' {
            push_char(&mut out, '\\');
            push_char(&mut out, 'f');
        } else if c == '\r' {
            push_char(&mut out, '\\');
            push_char(&mut out, 'r');
        } else if v < 0x20 {
            push_char(&mut out, '\\');
            push_char(&mut out, 'u');
            push_char(&mut out, '0');
            push_char(&mut out, '0');
            push_hex_digit(&mut out, v / 16);
            push_hex_digit(&mut out, v % 16);
        } else {
            push_char(&mut out, c);
        }
        assert(out@ =~= before + json_escape_char(c));
        assert(cs@.take(i + 1).drop_last() =~= cs@.take(i as int));
        i = i + 1;
    }
    assert(cs@.take(cs@.len() as int) =~= cs@);
    push_char(&mut out, '"');
    assert(out@ =~= json_text_of_string(s@));
    out
}

} // verus!
