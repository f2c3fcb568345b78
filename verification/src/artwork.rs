//! Where cached cover art lives: two bucket directories taken from the first
//! bytes of the cover's reference id, then the file.

use vstd::prelude::*;
use vstd::utf8::{char_is_scalar, encode_scalar, encode_utf8};
use crate::paths::{join, join_path};
use crate::text::{chars_of, copy_range, lower, owned, push_char, push_str, string_from, to_ascii_lower};

verus! {

/// The number of bytes of the UTF-8 encoding of `s`.
pub open spec fn byte_len(s: Seq<char>) -> nat {
    encode_utf8(s).len()
}

/// `n` zero digits.
pub open spec fn zeros(n: nat) -> Seq<char> {
    Seq::new(n, |i: int| '0')
}

/// `id` padded with `0` until its encoding is at least four bytes long.
pub open spec fn padded_id(id: Seq<char>) -> Seq<char> {
    if byte_len(id) < 4 {
        id + zeros((4 - byte_len(id)) as nat)
    } else {
        id
    }
}

/// Whether the first `k` characters of `s` take exactly `b` bytes.
pub open spec fn splits_at(s: Seq<char>, k: int, b: nat) -> bool {
    0 <= k <= s.len() && byte_len(s.take(k)) == b
}

/// Whether byte offsets 2 and 4 of the padded id fall between characters, so
/// that the two buckets can be cut out of it.
pub open spec fn bucket_ok(id: Seq<char>) -> bool {
    (exists|k: int| splits_at(padded_id(id), k, 2)) && (exists|k: int| splits_at(padded_id(id), k, 4))
}

/// The UTF-8 encoding of a concatenation is the concatenation of the encodings.
pub proof fn lemma_encode_concat(a: Seq<char>, b: Seq<char>)
    ensures
        encode_utf8(a + b) == encode_utf8(a) + encode_utf8(b),
    decreases a.len(),
{
    if a.len() == 0 {
        assert(a + b =~= b);
        assert(encode_utf8(a) + encode_utf8(b) =~= encode_utf8(b));
    } else {
        lemma_encode_concat(a.drop_first(), b);
        assert((a + b).drop_first() =~= a.drop_first() + b);
        assert((a + b)[0] == a[0]);
        assert(encode_scalar(a[0] as u32) + (encode_utf8(a.drop_first()) + encode_utf8(b))
            =~= encode_scalar(a[0] as u32) + encode_utf8(a.drop_first()) + encode_utf8(b));
    }
}

proof fn lemma_encode_one(c: char)
    ensures
        encode_utf8(seq![c]) == encode_scalar(c as u32),
{
    assert(seq![c].drop_first() =~= Seq::<char>::empty());
    assert(seq![c][0] == c);
    assert(encode_utf8(Seq::<char>::empty()) =~= Seq::<u8>::empty());
    assert(encode_scalar(c as u32) + Seq::<u8>::empty() =~= encode_scalar(c as u32));
}

proof fn lemma_zeros_len(n: nat)
    ensures
        byte_len(zeros(n)) == n,
    decreases n,
{
    if n > 0 {
        lemma_zeros_len((n - 1) as nat);
        assert(zeros(n) =~= zeros((n - 1) as nat) + seq!['0']);
        lemma_encode_concat(zeros((n - 1) as nat), seq!['0']);
        lemma_encode_one('0');
    } else {
        assert(zeros(n) =~= Seq::<char>::empty());
    }
}

proof fn lemma_take_step(s: Seq<char>, i: int)
    requires
        0 <= i < s.len(),
    ensures
        byte_len(s.take(i + 1)) == byte_len(s.take(i)) + encode_scalar(s[i] as u32).len(),
{
    assert(s.take(i + 1) =~= s.take(i) + seq![s[i]]);
    lemma_encode_concat(s.take(i), seq![s[i]]);
    lemma_encode_one(s[i]);
}

/// Taking more characters never takes fewer bytes, and taking strictly more
/// takes strictly more bytes.
proof fn lemma_byte_len_mono(s: Seq<char>, k: int, j: int)
    requires
        0 <= k <= j <= s.len(),
    ensures
        byte_len(s.take(k)) <= byte_len(s.take(j)),
        k < j ==> byte_len(s.take(k)) < byte_len(s.take(j)),
    decreases j - k,
{
    if k < j {
        lemma_byte_len_mono(s, k, j - 1);
        lemma_take_step(s, j - 1);
    }
}

/// The number of characters of `p` that take exactly `b` bytes.
fn char_index_at_byte(p: &Vec<char>, b: usize) -> (r: usize)
    requires
        b <= 4,
        exists|k: int| splits_at(p@, k, b as nat),
    ensures
        splits_at(p@, r as int, b as nat),
{
    let mut i: usize = 0;
    let mut bytes: usize = 0;
    while i < p.len() && bytes < b
        invariant
            0 <= i <= p.len(),
            b <= 4,
            bytes == byte_len(p@.take(i as int)),
            forall|k: int| 0 <= k < i ==> byte_len(#[trigger] p@.take(k)) < b,
        decreases p.len() - i,
    {
        let w = utf8_width(p[i]);
        proof {
            lemma_take_step(p@, i as int);
        }
        bytes = bytes + w;
        i = i + 1;
    }
    proof {
        let k = choose|k: int| splits_at(p@, k, b as nat);
        if k < i {
            assert(byte_len(p@.take(k)) < b);
        } else if k > i {
            lemma_byte_len_mono(p@, i as int, k);
        }
    }
    i
}

/// The number of bytes in the UTF-8 encoding of `c`.
fn utf8_width(c: char) -> (r: usize)
    ensures
        r == encode_scalar(c as u32).len(),
        1 <= r <= 4,
{
    proof {
        char_is_scalar(c);
    }
    let v = c as u32;
    if v <= 0x7F {
        1
    } else if v <= 0x7FF {
        2
    } else if v <= 0xFFFF {
        3
    } else {
        4
    }
}

/// How many bytes the encoding of `s` falls short of four.
fn short_bytes(s: &str) -> (r: usize)
    ensures
        r == (if byte_len(s@) < 4 {
            (4 - byte_len(s@)) as nat
        } else {
            0
        }),
{
    let p = chars_of(s);
    let mut i: usize = 0;
    let mut bytes: usize = 0;
    while i < p.len() && bytes < 4
        invariant
            0 <= i <= p.len(),
            bytes == byte_len(p@.take(i as int)),
            bytes < 8,
        decreases p.len() - i,
    {
        let w = utf8_width(p[i]);
        proof {
            lemma_take_step(p@, i as int);
        }
        bytes = bytes + w;
        i = i + 1;
    }
    proof {
        assert(p@.take(p@.len() as int) =~= p@);
        lemma_byte_len_mono(p@, i as int, p@.len() as int);
    }
    if bytes < 4 {
        4 - bytes
    } else {
        0
    }
}

/// Whether some first characters of `p` take exactly `b` bytes.
fn splits_somewhere(p: &Vec<char>, b: usize) -> (r: bool)
    requires
        b <= 4,
    ensures
        r == exists|k: int| splits_at(p@, k, b as nat),
{
    let mut i: usize = 0;
    let mut bytes: usize = 0;
    while i < p.len() && bytes < b
        invariant
            0 <= i <= p.len(),
            b <= 4,
            bytes == byte_len(p@.take(i as int)),
            forall|k: int| 0 <= k < i ==> byte_len(#[trigger] p@.take(k)) < b,
        decreases p.len() - i,
    {
        let w = utf8_width(p[i]);
        proof {
            lemma_take_step(p@, i as int);
        }
        bytes = bytes + w;
        i = i + 1;
    }
    if bytes == b {
        assert(splits_at(p@, i as int, b as nat));
        true
    } else {
        assert forall|k: int| !splits_at(p@, k, b as nat) by {
            if 0 <= k <= p@.len() {
                if k < i {
                    assert(byte_len(p@.take(k)) < b);
                } else if k > i {
                    lemma_byte_len_mono(p@, i as int, k);
                    if bytes < b {
                        assert(i == p@.len());
                    }
                }
            }
        }
        false
    }
}

/// Whether the buckets of the cover id `cover_ref_id` can be cut out of it:
/// what `bucket_segments`, `thumb_path` and `source_path` need.
pub fn bucket_id_ok(cover_ref_id: &str) -> (r: bool)
    ensures
        r == bucket_ok(cover_ref_id@),
{
    let ghost id = cover_ref_id@;
    let short = short_bytes(cover_ref_id);
    let mut padded = owned(cover_ref_id);
    let mut n: usize = 0;
    while n < short
        invariant
            padded@ == id + zeros(n as nat),
            n <= short,
            short <= 4,
        decreases short - n,
    {
        proof {
            assert(id + zeros((n + 1) as nat) =~= (id + zeros(n as nat)).push('0'));
        }
        push_char(&mut padded, '0');
        n = n + 1;
    }
    proof {
        assert(padded@ == padded_id(id));
    }
    let p = chars_of(padded.as_str());
    splits_somewhere(&p, 2) && splits_somewhere(&p, 4)
}

/// The two bucket directory names for a cover: the first two and the next two
/// bytes of its id, padded with `0` to four bytes.
pub fn bucket_segments(cover_ref_id: &str) -> (r: (String, String))
    requires
        bucket_ok(cover_ref_id@),
    ensures
        exists|k2: int, k4: int|
            splits_at(padded_id(cover_ref_id@), k2, 2) && splits_at(padded_id(cover_ref_id@), k4, 4)
                && r.0@ == padded_id(cover_ref_id@).subrange(0, k2) && r.1@ == padded_id(
                cover_ref_id@,
            ).subrange(k2, k4),
{
    let ghost id = cover_ref_id@;
    let short = short_bytes(cover_ref_id);
    let mut padded = owned(cover_ref_id);
    let mut n: usize = 0;
    while n < short
        invariant
            padded@ == id + zeros(n as nat),
            n <= short,
            short <= 4,
        decreases short - n,
    {
        proof {
            assert(id + zeros((n + 1) as nat) =~= (id + zeros(n as nat)).push('0'));
        }
        push_char(&mut padded, '0');
        n = n + 1;
    }
    proof {
        assert(padded@ == padded_id(id));
    }
    let p = chars_of(padded.as_str());
    let k2 = char_index_at_byte(&p, 2);
    let k4 = char_index_at_byte(&p, 4);
    proof {
        if k4 < k2 {
            lemma_byte_len_mono(p@, k4 as int, k2 as int);
        }
    }
    let first = copy_range(p.as_slice(), 0, k2);
    let second = copy_range(p.as_slice(), k2, k4);
    (string_from(first.as_slice()), string_from(second.as_slice()))
}

/// The path of a cover's 320-pixel thumbnail under `root`.
pub open spec fn thumb_path_of(root: Seq<char>, id: Seq<char>, first: Seq<char>, second: Seq<char>) -> Seq<char> {
    join_path(
        join_path(join_path(join_path(join_path(root, "thumb"@), "320"@), first), second),
        id + ".jpg"@,
    )
}

/// `s` without its leading dots, as `trim_start_matches('.')` gives it.
pub open spec fn strip_dots(s: Seq<char>) -> Seq<char>
    decreases s.len(),
{
    if s.len() > 0 && s[0] == '.' {
        strip_dots(s.drop_first())
    } else {
        s
    }
}

/// The path of a cover's source image under `root`.
pub open spec fn source_path_of(
    root: Seq<char>,
    id: Seq<char>,
    ext: Seq<char>,
    first: Seq<char>,
    second: Seq<char>,
) -> Seq<char> {
    join_path(
        join_path(join_path(join_path(root, "source"@), first), second),
        id + seq!['.'] + lower(strip_dots(ext)),
    )
}

/// Whether `first` and `second` are the buckets of `id`.
pub open spec fn buckets_of(id: Seq<char>, first: Seq<char>, second: Seq<char>) -> bool {
    exists|k2: int, k4: int|
        splits_at(padded_id(id), k2, 2) && splits_at(padded_id(id), k4, 4) && first == padded_id(
            id,
        ).subrange(0, k2) && second == padded_id(id).subrange(k2, k4)
}

/// `s` without its leading dots.
fn strip_leading_dots(s: &[char]) -> (r: Vec<char>)
    ensures
        r@ == strip_dots(s@),
{
    let mut i: usize = 0;
    assert(s@.skip(0) =~= s@);
    while i < s.len() && s[i] == '.'
        invariant
            0 <= i <= s.len(),
            strip_dots(s@) == strip_dots(s@.skip(i as int)),
        decreases s.len() - i,
    {
        assert(s@.skip(i as int).drop_first() =~= s@.skip(i as int + 1));
        i = i + 1;
    }
    let r = copy_range(s, i, s.len());
    assert(r@ =~= s@.skip(i as int));
    r
}

/// The path of a cover's 320-pixel JPEG thumbnail under `root`:
/// `root/thumb/320/<first>/<second>/<id>.jpg`.
pub fn thumb_path(root: &str, cover_ref_id: &str) -> (r: String)
    requires
        bucket_ok(cover_ref_id@),
    ensures
        exists|first: Seq<char>, second: Seq<char>|
            buckets_of(cover_ref_id@, first, second) && r@ == thumb_path_of(
                root@,
                cover_ref_id@,
                first,
                second,
            ),
{
    let (first, second) = bucket_segments(cover_ref_id);
    let a = join(root, "thumb");
    let b = join(a.as_str(), "320");
    let c = join(b.as_str(), first.as_str());
    let d = join(c.as_str(), second.as_str());
    let mut name = owned(cover_ref_id);
    push_str(&mut name, ".jpg");
    let r = join(d.as_str(), name.as_str());
    assert(buckets_of(cover_ref_id@, first@, second@));
    r
}

/// The path of a cover's source image under `root`:
/// `root/source/<first>/<second>/<id>.<ext>`, the extension without leading
/// dots and in ASCII lower case.
pub fn source_path(root: &str, cover_ref_id: &str, extension: &str) -> (r: String)
    requires
        bucket_ok(cover_ref_id@),
    ensures
        exists|first: Seq<char>, second: Seq<char>|
            buckets_of(cover_ref_id@, first, second) && r@ == source_path_of(
                root@,
                cover_ref_id@,
                extension@,
                first,
                second,
            ),
{
    let (first, second) = bucket_segments(cover_ref_id);
    let ec = chars_of(extension);
    let stripped = strip_leading_dots(ec.as_slice());
    let ext = to_ascii_lower(stripped.as_slice());
    let a = join(root, "source");
    let b = join(a.as_str(), first.as_str());
    let c = join(b.as_str(), second.as_str());
    let mut name = owned(cover_ref_id);
    push_char(&mut name, '.');
    crate::text::append_chars(&mut name, ext.as_slice());
    let r = join(c.as_str(), name.as_str());
    assert(buckets_of(cover_ref_id@, first@, second@));
    r
}

} // verus!
