//! Linking scanned rows to the database ids of what they refer to: the
//! artwork, artist and genre rows written before them. Each table is filled in
//! order, a later id for the same key replacing an earlier one.

use vstd::prelude::*;
use crate::scan::pair_views;
use crate::text::{chars_of, chars_eq};

verus! {

/// The value of an id table.
pub open spec fn id_views(v: Seq<(String, i64)>) -> Seq<(Seq<char>, i64)> {
    v.map_values(|p: (String, i64)| (p.0@, p.1))
}

/// The id recorded last for `key` in `table`.
pub open spec fn last_id(table: Seq<(Seq<char>, i64)>, key: Seq<char>) -> Option<i64>
    decreases table.len(),
{
    if table.len() == 0 {
        None
    } else if table.last().0 == key {
        Some(table.last().1)
    } else {
        last_id(table.drop_last(), key)
    }
}

/// The text recorded last for `key` in `table`.
pub open spec fn last_text(table: Seq<(Seq<char>, Seq<char>)>, key: Seq<char>) -> Option<Seq<char>>
    decreases table.len(),
{
    if table.len() == 0 {
        None
    } else if table.last().0 == key {
        Some(table.last().1)
    } else {
        last_text(table.drop_last(), key)
    }
}

/// The id recorded last for `key`.
pub fn lookup_id(table: &Vec<(String, i64)>, key: &str) -> (r: Option<i64>)
    ensures
        r == last_id(id_views(table@), key@),
{
    let k = chars_of(key);
    let mut i: usize = table.len();
    assert(id_views(table@).take(i as int) =~= id_views(table@));
    while i > 0
        invariant
            i <= table@.len(),
            k@ == key@,
            last_id(id_views(table@), key@) == last_id(id_views(table@).take(i as int), key@),
        decreases i,
    {
        let ghost t = id_views(table@).take(i as int);
        assert(t.drop_last() =~= id_views(table@).take(i - 1));
        let c = chars_of(table[i - 1].0.as_str());
        if chars_eq(c.as_slice(), k.as_slice()) {
            return Some(table[i - 1].1);
        }
        i = i - 1;
    }
    None
}

/// The text recorded last for `key`.
pub fn lookup_text<'a>(table: &'a Vec<(String, String)>, key: &str) -> (r: Option<&'a String>)
    ensures
        match r {
            Some(s) => last_text(pair_views(table@), key@) == Some(s@),
            None => last_text(pair_views(table@), key@) is None,
        },
{
    let k = chars_of(key);
    let mut i: usize = table.len();
    assert(pair_views(table@).take(i as int) =~= pair_views(table@));
    while i > 0
        invariant
            i <= table@.len(),
            k@ == key@,
            last_text(pair_views(table@), key@) == last_text(pair_views(table@).take(i as int), key@),
        decreases i,
    {
        let ghost t = pair_views(table@).take(i as int);
        assert(t.drop_last() =~= pair_views(table@).take(i - 1));
        let c = chars_of(table[i - 1].0.as_str());
        if chars_eq(c.as_slice(), k.as_slice()) {
            return Some(&table[i - 1].1);
        }
        i = i - 1;
    }
    None
}

/// The cover artwork id of the album `album_uid`: the id of the artwork key
/// recorded for the album, when both are recorded.
pub fn cover_ref_id_for(
    album_uid: &str,
    album_artwork_keys: &Vec<(String, String)>,
    artwork_ids: &Vec<(String, i64)>,
) -> (r: Option<i64>)
    ensures
        r == match last_text(pair_views(album_artwork_keys@), album_uid@) {
            Some(k) => last_id(id_views(artwork_ids@), k),
            None => None,
        },
{
    match lookup_text(album_artwork_keys, album_uid) {
        Some(k) => lookup_id(artwork_ids, k.as_str()),
        None => None,
    }
}

} // verus!
