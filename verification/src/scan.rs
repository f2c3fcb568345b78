//! Turning the files of a scan into library rows: one track per file, one
//! album per album identifier, and the artists, genres and search texts.

use vstd::prelude::*;
use crate::library::{
    build_track_search_content, chars_lt, insert_sorted, content_key, copy_strings, group_context_of, lemma_lex_irreflexive,
    lemma_lex_total, lemma_lex_transitive, lex_lt, nonblank, normalize_text, normalized, resolve_group_album_context,
    resolve_track_record, resolved_as, search_parts, stable_id_of, stable_track_uid, strictly_sorted,
    FileScanRecord, GroupAlbumContext, ResolvedTrackRecord, ScanGroup, VolumeDescriptor,
};
use crate::paths::opt_view;
use crate::protocol::strs;
use crate::text::{chars_eq, chars_of, join, string_from, views};

verus! {

/// One track as the library stores it.
#[derive(Debug)]
pub struct ScannedTrack {
    pub track_uid: String,
    pub album_uid: String,
    pub volume_uuid: String,
    pub relative_path: String,
    pub filename: String,
    pub title: String,
    pub artist: String,
    pub album_artist: String,
    pub track_no: Option<i64>,
    pub disc_no: i64,
    pub duration_ms: Option<i64>,
    pub sample_rate: Option<i64>,
    pub bit_depth: Option<i64>,
    pub format: String,
    pub cover_ref_id: Option<i64>,
    pub genres: Vec<String>,
    pub musicbrainz_track_id: Option<String>,
    pub file_mtime: i64,
    pub indexed_at: i64,
}

/// One album as the library stores it.
#[derive(Debug)]
pub struct ScannedAlbum {
    pub album_uid: String,
    pub volume_uuid: String,
    pub album_title: String,
    pub album_title_norm: String,
    pub album_artist: String,
    pub album_artist_norm: String,
    pub album_root_dir_hint: String,
    pub year: Option<i64>,
    pub disc_count: i64,
    pub track_count: i64,
    pub total_duration_ms: i64,
    pub cover_ref_id: Option<i64>,
    pub source_mode: String,
    pub indexed_at: i64,
}

/// A document of the search index.
#[derive(Debug)]
pub struct SearchEntry {
    pub doc_type: &'static str,
    pub doc_id: String,
    pub content: String,
}

/// An album while its tracks are being added.
#[derive(Debug)]
pub struct AlbumAccumulator {
    pub album_uid: String,
    pub album_title: String,
    pub album_title_norm: String,
    pub album_artist: String,
    pub album_artist_norm: String,
    pub album_root_dir_hint: String,
    pub year: Option<i64>,
    pub disc_count: i64,
    pub track_count: i64,
    pub total_duration_ms: i64,
    pub source_mode: String,
    pub artwork_key: Option<String>,
}

/// One file added to a scan: its volume, the file, what was resolved of it,
/// and the artwork found in its album directory.
pub struct Contribution {
    pub volume_uuid: Seq<char>,
    pub file: FileScanRecord,
    pub resolved: ResolvedTrackRecord,
    pub artwork_key: Option<Seq<char>>,
}

/// What an album sums up of the files added so far.
pub struct AlbumModel {
    pub album_uid: Seq<char>,
    pub album_title: Seq<char>,
    pub album_title_norm: Seq<char>,
    pub album_artist: Seq<char>,
    pub album_artist_norm: Seq<char>,
    pub album_root_dir_hint: Seq<char>,
    pub year: Option<i64>,
    pub disc_count: int,
    pub track_count: int,
    pub total_duration_ms: int,
    pub abs_duration_ms: int,
    pub source_mode: Seq<char>,
    pub artwork_key: Option<Seq<char>>,
}

pub open spec fn abs_int(x: int) -> int {
    if x < 0 {
        -x
    } else {
        x
    }
}

/// The duration a file adds to its album; none counts as zero.
pub open spec fn duration_of(d: Option<i64>) -> int {
    match d {
        Some(v) => v as int,
        None => 0,
    }
}

/// The album `prev` with the track of `c` added; a new album when there is
/// no `prev`. The album is named by its first track; its year is the first
/// one given; its disc count the largest disc; its track count and total
/// duration are summed; its artwork is the first found.
pub open spec fn album_add(prev: Option<AlbumModel>, c: Contribution) -> AlbumModel {
    let r = c.resolved;
    let d = duration_of(r.duration_ms);
    match prev {
        None => AlbumModel {
            album_uid: r.album_uid@,
            album_title: r.album_title@,
            album_title_norm: normalized(r.album_title@),
            album_artist: r.album_artist@,
            album_artist_norm: normalized(r.album_artist@),
            album_root_dir_hint: r.album_root_dir_hint@,
            year: r.year,
            disc_count: r.disc_no as int,
            track_count: 1,
            total_duration_ms: d,
            abs_duration_ms: abs_int(d),
            source_mode: r.source_mode@,
            artwork_key: c.artwork_key,
        },
        Some(a) => AlbumModel {
            album_uid: a.album_uid,
            album_title: a.album_title,
            album_title_norm: a.album_title_norm,
            album_artist: a.album_artist,
            album_artist_norm: a.album_artist_norm,
            album_root_dir_hint: a.album_root_dir_hint,
            year: if a.year is None {
                r.year
            } else {
                a.year
            },
            disc_count: if r.disc_no > a.disc_count {
                r.disc_no as int
            } else {
                a.disc_count
            },
            track_count: a.track_count + 1,
            total_duration_ms: a.total_duration_ms + d,
            abs_duration_ms: a.abs_duration_ms + abs_int(d),
            source_mode: a.source_mode,
            artwork_key: if a.artwork_key is None {
                c.artwork_key
            } else {
                a.artwork_key
            },
        },
    }
}

/// The album `u` as the contributions `cs` build it, one track at a time.
#[verifier::opaque]
pub open spec fn album_model(cs: Seq<Contribution>, u: Seq<char>) -> Option<AlbumModel>
    decreases cs.len(),
{
    if cs.len() == 0 {
        None
    } else {
        let prev = album_model(cs.drop_last(), u);
        if cs.last().resolved.album_uid@ != u {
            prev
        } else {
            Some(album_add(prev, cs.last()))
        }
    }
}

/// Adding a track changes only its own album.
pub proof fn lemma_album_model_push(cs: Seq<Contribution>, c: Contribution, v: Seq<char>)
    ensures
        album_model(cs.push(c), v) == if c.resolved.album_uid@ != v {
            album_model(cs, v)
        } else {
            Some(album_add(album_model(cs, v), c))
        },
{
    reveal(album_model);
    assert(cs.push(c).drop_last() =~= cs);
    assert(cs.push(c).last() == c);
}

/// No contribution, no album.
pub proof fn lemma_album_model_empty(v: Seq<char>)
    ensures
        album_model(Seq::<Contribution>::empty(), v) is None,
{
    reveal(album_model);
}

/// Whether an accumulator holds the album `m`.
pub open spec fn acc_matches(a: AlbumAccumulator, m: AlbumModel) -> bool {
    &&& a.album_uid@ == m.album_uid
    &&& a.album_title@ == m.album_title
    &&& a.album_title_norm@ == m.album_title_norm
    &&& a.album_artist@ == m.album_artist
    &&& a.album_artist_norm@ == m.album_artist_norm
    &&& a.album_root_dir_hint@ == m.album_root_dir_hint
    &&& a.year == m.year
    &&& a.disc_count as int == m.disc_count
    &&& a.track_count as int == m.track_count
    &&& a.total_duration_ms as int == m.total_duration_ms
    &&& a.source_mode@ == m.source_mode
    &&& opt_view(a.artwork_key) == m.artwork_key
}

/// The identifier of the track a contribution adds.
pub open spec fn track_uid_of(c: Contribution) -> Seq<char> {
    stable_id_of(content_key("file"@, c.volume_uuid, c.file.relative_path@, c.file.file_mtime as int, c.file.size as nat))
}

/// Whether `t` is the track row of the contribution `c`.
pub open spec fn track_matches(t: ScannedTrack, c: Contribution) -> bool {
    &&& t.track_uid@ == track_uid_of(c)
    &&& t.album_uid@ == c.resolved.album_uid@
    &&& t.volume_uuid@ == c.volume_uuid
    &&& t.relative_path@ == c.file.relative_path@
    &&& t.filename@ == c.file.filename@
    &&& t.title@ == c.resolved.title@
    &&& t.artist@ == c.resolved.artist@
    &&& t.album_artist@ == c.resolved.album_artist@
    &&& t.track_no == c.resolved.track_no
    &&& t.disc_no == c.resolved.disc_no
    &&& t.duration_ms == c.resolved.duration_ms
    &&& t.sample_rate == c.resolved.sample_rate
    &&& t.bit_depth == c.resolved.bit_depth
    &&& t.format@ == c.file.format@
    &&& t.cover_ref_id is None
    &&& strs(t.genres@) == strs(c.resolved.genres@)
    &&& t.musicbrainz_track_id is None
    &&& t.file_mtime == c.file.file_mtime
    &&& t.indexed_at == c.file.indexed_at
}

/// Whether `e` is the search document of the track of `c`.
pub open spec fn track_entry_matches(e: SearchEntry, c: Contribution) -> bool {
    &&& e.doc_type@ == "track"@
    &&& e.doc_id@ == track_uid_of(c)
    &&& e.content@ == join(nonblank(search_parts(c.file, c.resolved)), seq![' '])
}

/// Whether the track of `c` names `a` as its album artist, or as its artist
/// when `a` is not empty.
pub open spec fn names_artist(c: Contribution, a: Seq<char>) -> bool {
    c.resolved.album_artist@ == a || (c.resolved.artist@ == a && a.len() > 0)
}

/// Whether `a` is an artist of the contributions: an album artist, or a
/// track artist that is not empty.
pub open spec fn is_artist_in(cs: Seq<Contribution>, a: Seq<char>) -> bool {
    exists|i: int| 0 <= i < cs.len() && names_artist(#[trigger] cs[i], a)
}

/// Whether the track of `c` has the genre `g`.
pub open spec fn names_genre(c: Contribution, g: Seq<char>) -> bool {
    strs(c.resolved.genres@).contains(g)
}

/// Whether `g` is a genre of one of the contributions.
pub open spec fn is_genre_in(cs: Seq<Contribution>, g: Seq<char>) -> bool {
    exists|i: int| 0 <= i < cs.len() && names_genre(#[trigger] cs[i], g)
}

/// Whether the contribution `c` adds the file `f` of the volume `volume_uuid`,
/// resolved as a member of the album `ctx`, with the artwork `artwork_key`.
pub open spec fn contribution_of(c: Contribution, volume_uuid: Seq<char>, f: FileScanRecord, ctx: GroupAlbumContext, artwork_key: Option<Seq<char>>) -> bool {
    &&& c.volume_uuid == volume_uuid
    &&& c.file == f
    &&& resolved_as(c.resolved, volume_uuid, f, ctx)
    &&& c.artwork_key == artwork_key
}

/// The sum of the sizes of the durations of `fs`.
pub open spec fn abs_durations(fs: Seq<FileScanRecord>) -> int
    decreases fs.len(),
{
    if fs.len() == 0 {
        0
    } else {
        abs_durations(fs.drop_last()) + abs_int(duration_of(fs.last().metadata.duration_ms))
    }
}

/// Whether one of `albums` has the identifier `u`.
pub open spec fn has_album(albums: Seq<AlbumAccumulator>, u: Seq<char>) -> bool {
    exists|k: int| 0 <= k < albums.len() && #[trigger] albums[k].album_uid@ == u
}

/// The albums built so far: in the order of their identifiers, each the
/// album its contributions build, every album of the contributions present,
/// and their durations and track counts within bounds.
pub open spec fn albums_inv(albums: Seq<AlbumAccumulator>, cs: Seq<Contribution>, used: int) -> bool {
    &&& forall|i: int, j: int| 0 <= i < j < albums.len() ==> lex_lt(#[trigger] albums[i].album_uid@, #[trigger] albums[j].album_uid@)
    &&& forall|k: int|
        0 <= k < albums.len() ==> album_model(cs, (#[trigger] albums[k]).album_uid@) is Some && acc_matches(
            albums[k],
            album_model(cs, albums[k].album_uid@).unwrap(),
        )
    &&& forall|u: Seq<char>| #[trigger] album_model(cs, u) is Some ==> has_album(albums, u)
    &&& forall|u: Seq<char>|
        #[trigger] album_model(cs, u) is Some ==> {
            let m = album_model(cs, u).unwrap();
            &&& abs_int(m.total_duration_ms) <= m.abs_duration_ms
            &&& m.abs_duration_ms <= used
            &&& 1 <= m.track_count <= cs.len()
        }
}

/// Albums other than `u` are the same after a track of `u` is added.
proof fn lemma_other_albums(cs: Seq<Contribution>, c: Contribution)
    ensures
        forall|v: Seq<char>| v != c.resolved.album_uid@ ==> #[trigger] album_model(cs.push(c), v) == album_model(cs, v),
{
    assert forall|v: Seq<char>| v != c.resolved.album_uid@ implies #[trigger] album_model(cs.push(c), v) == album_model(cs, v) by {
        lemma_album_model_push(cs, c, v);
    }
}

/// The bounds of the albums other than `u` still hold after a track of `u`
/// is added.
proof fn lemma_bounds_step(cs: Seq<Contribution>, c: Contribution, used: int, nused: int)
    requires
        used <= nused,
        forall|v: Seq<char>|
            #[trigger] album_model(cs, v) is Some ==> {
                let m = album_model(cs, v).unwrap();
                &&& abs_int(m.total_duration_ms) <= m.abs_duration_ms
                &&& m.abs_duration_ms <= used
                &&& 1 <= m.track_count <= cs.len()
            },
        ({
            let m = album_model(cs.push(c), c.resolved.album_uid@).unwrap();
            &&& abs_int(m.total_duration_ms) <= m.abs_duration_ms
            &&& m.abs_duration_ms <= nused
            &&& 1 <= m.track_count <= cs.len() + 1
        }),
    ensures
        forall|v: Seq<char>|
            #[trigger] album_model(cs.push(c), v) is Some ==> {
                let m = album_model(cs.push(c), v).unwrap();
                &&& abs_int(m.total_duration_ms) <= m.abs_duration_ms
                &&& m.abs_duration_ms <= nused
                &&& 1 <= m.track_count <= cs.push(c).len()
            },
{
    lemma_other_albums(cs, c);
    assert forall|v: Seq<char>| #[trigger] album_model(cs.push(c), v) is Some implies {
        let m = album_model(cs.push(c), v).unwrap();
        &&& abs_int(m.total_duration_ms) <= m.abs_duration_ms
        &&& m.abs_duration_ms <= nused
        &&& 1 <= m.track_count <= cs.push(c).len()
    } by {
        if v != c.resolved.album_uid@ {
            assert(album_model(cs.push(c), v) == album_model(cs, v));
        }
    }
}

/// Adds a track to the album at `k`, which it belongs to.
fn album_update(
    albums: &mut Vec<AlbumAccumulator>,
    k: usize,
    resolved: &ResolvedTrackRecord,
    artwork_key: &Option<String>,
    Ghost(cs): Ghost<Seq<Contribution>>,
    Ghost(c): Ghost<Contribution>,
    Ghost(used): Ghost<int>,
)
    requires
        albums_inv(old(albums)@, cs, used),
        k < old(albums)@.len(),
        old(albums)@[k as int].album_uid@ == resolved.album_uid@,
        c.resolved == *resolved,
        c.artwork_key == opt_view(*artwork_key),
        0 <= used,
        used + abs_int(duration_of(resolved.duration_ms)) <= i64::MAX,
        cs.len() + 1 < i64::MAX,
    ensures
        albums_inv(final(albums)@, cs.push(c), used + abs_int(duration_of(resolved.duration_ms))),
{
    let ghost ncs = cs.push(c);
    let ghost u = resolved.album_uid@;
    let ghost dd = duration_of(resolved.duration_ms);
    let ghost nused = used + abs_int(dd);
    let ghost old_albums = albums@;
    let ghost m = album_model(cs, u).unwrap();
    assert(album_model(cs, u) is Some);
    assert(acc_matches(old_albums[k as int], m));
    assert(abs_int(m.total_duration_ms) <= m.abs_duration_ms && m.abs_duration_ms <= used);
    assert(1 <= m.track_count <= cs.len());
    let d: i64 = match resolved.duration_ms {
        Some(v) => v,
        None => 0,
    };
    assert(d as int == dd);
    let mut acc = albums.remove(k);
    acc.track_count = acc.track_count + 1;
    if resolved.disc_no > acc.disc_count {
        acc.disc_count = resolved.disc_no;
    }
    acc.total_duration_ms = acc.total_duration_ms + d;
    if acc.year.is_none() {
        acc.year = resolved.year;
    }
    if acc.artwork_key.is_none() {
        acc.artwork_key = crate::queue::copy_opt(artwork_key);
    }
    albums.insert(k, acc);
    proof {
        lemma_album_model_push(cs, c, u);
        lemma_other_albums(cs, c);
        let nm = album_model(ncs, u).unwrap();
        assert(nm == album_add(Some(m), c));
        assert(acc_matches(acc, nm));
        assert(albums@ =~= old_albums.update(k as int, acc));
        assert forall|i: int| 0 <= i < albums@.len() implies album_model(ncs, (#[trigger] albums@[i]).album_uid@) is Some
            && acc_matches(albums@[i], album_model(ncs, albums@[i].album_uid@).unwrap()) by {
            if i != k {
                assert(albums@[i] == old_albums[i]);
                if old_albums[i].album_uid@ == u {
                    lemma_lex_irreflexive(u);
                }
            }
        }
        assert forall|v: Seq<char>| #[trigger] album_model(ncs, v) is Some implies has_album(albums@, v) by {
            if v == u {
                assert(albums@[k as int].album_uid@ == v);
            } else {
                assert(has_album(old_albums, v));
                let q = choose|q: int| 0 <= q < old_albums.len() && #[trigger] old_albums[q].album_uid@ == v;
                assert(albums@[q].album_uid@ == v);
            }
        }
        lemma_bounds_step(cs, c, used, nused);
    }
}

/// Adds a track as a new album at `k`, its place in the order.
fn album_insert(
    albums: &mut Vec<AlbumAccumulator>,
    k: usize,
    resolved: &ResolvedTrackRecord,
    artwork_key: &Option<String>,
    Ghost(cs): Ghost<Seq<Contribution>>,
    Ghost(c): Ghost<Contribution>,
    Ghost(used): Ghost<int>,
)
    requires
        albums_inv(old(albums)@, cs, used),
        k <= old(albums)@.len(),
        forall|q: int| 0 <= q < k ==> lex_lt(#[trigger] old(albums)@[q].album_uid@, resolved.album_uid@),
        forall|q: int| k <= q < old(albums)@.len() ==> lex_lt(resolved.album_uid@, #[trigger] old(albums)@[q].album_uid@),
        c.resolved == *resolved,
        c.artwork_key == opt_view(*artwork_key),
        0 <= used,
        used + abs_int(duration_of(resolved.duration_ms)) <= i64::MAX,
        cs.len() + 1 < i64::MAX,
    ensures
        albums_inv(final(albums)@, cs.push(c), used + abs_int(duration_of(resolved.duration_ms))),
{
    let ghost ncs = cs.push(c);
    let ghost u = resolved.album_uid@;
    let ghost dd = duration_of(resolved.duration_ms);
    let ghost nused = used + abs_int(dd);
    let ghost old_albums = albums@;
    proof {
        if album_model(cs, u) is Some {
            assert(has_album(old_albums, u));
            let q = choose|q: int| 0 <= q < old_albums.len() && #[trigger] old_albums[q].album_uid@ == u;
            lemma_lex_irreflexive(u);
        }
    }
    let d: i64 = match resolved.duration_ms {
        Some(v) => v,
        None => 0,
    };
    assert(d as int == dd);
    let acc = AlbumAccumulator {
        album_uid: resolved.album_uid.clone(),
        album_title: resolved.album_title.clone(),
        album_title_norm: normalize_text(resolved.album_title.as_str()),
        album_artist: resolved.album_artist.clone(),
        album_artist_norm: normalize_text(resolved.album_artist.as_str()),
        album_root_dir_hint: resolved.album_root_dir_hint.clone(),
        year: resolved.year,
        disc_count: resolved.disc_no,
        track_count: 1,
        total_duration_ms: d,
        source_mode: resolved.source_mode.clone(),
        artwork_key: crate::queue::copy_opt(artwork_key),
    };
    albums.insert(k, acc);
    proof {
        lemma_album_model_push(cs, c, u);
        lemma_other_albums(cs, c);
        assert(album_model(cs, u) is None);
        assert(album_model(ncs, u) == Some(album_add(None, c)));
        assert(acc_matches(acc, album_model(ncs, u).unwrap()));
        assert(albums@ =~= old_albums.insert(k as int, acc));
        assert forall|i: int, j: int| 0 <= i < j < albums@.len() implies lex_lt(#[trigger] albums@[i].album_uid@, #[trigger] albums@[j].album_uid@) by {
            if j < k {
                assert(albums@[i] == old_albums[i] && albums@[j] == old_albums[j]);
            } else if j == k {
                assert(albums@[i] == old_albums[i]);
            } else if i < k {
                assert(albums@[i] == old_albums[i] && albums@[j] == old_albums[j - 1]);
                lemma_lex_transitive(old_albums[i].album_uid@, u, old_albums[j - 1].album_uid@);
            } else if i == k {
                assert(albums@[j] == old_albums[j - 1]);
            } else {
                assert(albums@[i] == old_albums[i - 1] && albums@[j] == old_albums[j - 1]);
            }
        }
        assert forall|i: int| 0 <= i < albums@.len() implies album_model(ncs, (#[trigger] albums@[i]).album_uid@) is Some
            && acc_matches(albums@[i], album_model(ncs, albums@[i].album_uid@).unwrap()) by {
            if i < k {
                assert(albums@[i] == old_albums[i]);
                lemma_lex_irreflexive(u);
            } else if i > k {
                assert(albums@[i] == old_albums[i - 1]);
                lemma_lex_irreflexive(u);
            }
        }
        assert forall|v: Seq<char>| #[trigger] album_model(ncs, v) is Some implies has_album(albums@, v) by {
            if v == u {
                assert(albums@[k as int].album_uid@ == v);
            } else {
                assert(has_album(old_albums, v));
                let q = choose|q: int| 0 <= q < old_albums.len() && #[trigger] old_albums[q].album_uid@ == v;
                if q < k {
                    assert(albums@[q].album_uid@ == v);
                } else {
                    assert(albums@[q + 1].album_uid@ == v);
                }
            }
        }
        lemma_bounds_step(cs, c, used, nused);
    }
}

/// Adds the track `resolved`, contributed by `c`, to its album.
fn album_step(
    albums: &mut Vec<AlbumAccumulator>,
    resolved: &ResolvedTrackRecord,
    artwork_key: &Option<String>,
    Ghost(cs): Ghost<Seq<Contribution>>,
    Ghost(c): Ghost<Contribution>,
    Ghost(used): Ghost<int>,
)
    requires
        albums_inv(old(albums)@, cs, used),
        c.resolved == *resolved,
        c.artwork_key == opt_view(*artwork_key),
        0 <= used,
        used + abs_int(duration_of(resolved.duration_ms)) <= i64::MAX,
        cs.len() + 1 < i64::MAX,
    ensures
        albums_inv(final(albums)@, cs.push(c), used + abs_int(duration_of(resolved.duration_ms))),
{
    let ghost u = resolved.album_uid@;
    let uc = chars_of(resolved.album_uid.as_str());
    let n = albums.len();
    let mut k: usize = 0;
    loop
        invariant
            n == albums@.len(),
            k <= n,
            uc@ == u,
            forall|i: int, j: int| 0 <= i < j < albums@.len() ==> lex_lt(#[trigger] albums@[i].album_uid@, #[trigger] albums@[j].album_uid@),
            forall|q: int| 0 <= q < k ==> lex_lt(#[trigger] albums@[q].album_uid@, u),
        ensures
            k <= n,
            forall|q: int| 0 <= q < k ==> lex_lt(#[trigger] albums@[q].album_uid@, u),
            k == n || !lex_lt(albums@[k as int].album_uid@, u),
        decreases n - k,
    {
        if k == n {
            break;
        }
        let ac = chars_of(albums[k].album_uid.as_str());
        if !chars_lt(ac.as_slice(), uc.as_slice()) {
            break;
        }
        k = k + 1;
    }
    let same = if k < n {
        let ac = chars_of(albums[k].album_uid.as_str());
        chars_eq(ac.as_slice(), uc.as_slice())
    } else {
        false
    };
    if same {
        album_update(albums, k, resolved, artwork_key, Ghost(cs), Ghost(c), Ghost(used));
    } else {
        proof {
            if k < n {
                lemma_lex_total(albums@[k as int].album_uid@, u);
            }
            assert forall|q: int| k <= q < n implies lex_lt(u, #[trigger] albums@[q].album_uid@) by {
                lemma_lex_total(albums@[k as int].album_uid@, u);
                if q > k {
                    lemma_lex_transitive(u, albums@[k as int].album_uid@, albums@[q].album_uid@);
                }
            }
        }
        album_insert(albums, k, resolved, artwork_key, Ghost(cs), Ghost(c), Ghost(used));
    }
}

/// The library rows built from the files of a scan, group by group.
pub struct ScanAssembler {
    albums: Vec<AlbumAccumulator>,
    tracks: Vec<ScannedTrack>,
    artist_names: Vec<Vec<char>>,
    genre_names: Vec<Vec<char>>,
    search_entries: Vec<SearchEntry>,
    contributions: Ghost<Seq<Contribution>>,
    duration_used: u64,
}

impl ScanAssembler {
    /// The files added so far, in order.
    pub closed spec fn contributions(&self) -> Seq<Contribution> {
        self.contributions@
    }

    /// How much more duration, summed by size, the albums can take.
    pub closed spec fn duration_room(&self) -> int {
        i64::MAX - self.duration_used
    }

    /// The state kept while files are added.
    pub closed spec fn wf(&self) -> bool {
        let cs = self.contributions@;
        &&& self.duration_used <= i64::MAX
        &&& cs.len() < i64::MAX
        &&& albums_inv(self.albums@, cs, self.duration_used as int)
        &&& self.tracks@.len() == cs.len()
        &&& forall|i: int| 0 <= i < cs.len() ==> track_matches(#[trigger] self.tracks@[i], cs[i])
        &&& self.search_entries@.len() == cs.len()
        &&& forall|i: int| 0 <= i < cs.len() ==> track_entry_matches(#[trigger] self.search_entries@[i], cs[i])
        &&& strictly_sorted(views(self.artist_names@))
        &&& forall|a: Seq<char>| views(self.artist_names@).contains(a) <==> is_artist_in(cs, a)
        &&& strictly_sorted(views(self.genre_names@))
        &&& forall|g: Seq<char>| views(self.genre_names@).contains(g) <==> is_genre_in(cs, g)
    }

    /// An assembler with nothing added.
    pub fn new() -> (r: Self)
        ensures
            r.wf(),
            r.contributions().len() == 0,
            r.duration_room() == i64::MAX,
    {
        let r = ScanAssembler {
            albums: Vec::new(),
            tracks: Vec::new(),
            artist_names: Vec::new(),
            genre_names: Vec::new(),
            search_entries: Vec::new(),
            contributions: Ghost(Seq::empty()),
            duration_used: 0,
        };
        assert forall|u: Seq<char>| #[trigger] album_model(Seq::<Contribution>::empty(), u) is None by {
            lemma_album_model_empty(u);
        }
        assert(views(r.artist_names@) =~= Seq::<Seq<char>>::empty());
        assert(views(r.genre_names@) =~= Seq::<Seq<char>>::empty());
        r
    }
}

proof fn lemma_abs_durations_prefix(fs: Seq<FileScanRecord>, k: int)
    requires
        0 <= k <= fs.len(),
    ensures
        abs_durations(fs.take(k)) <= abs_durations(fs),
        0 <= abs_durations(fs.take(k)),
    decreases fs.len(),
{
    if k == fs.len() {
        assert(fs.take(k) =~= fs);
        lemma_abs_durations_nonneg(fs);
    } else {
        assert(fs.drop_last().take(k) =~= fs.take(k));
        lemma_abs_durations_prefix(fs.drop_last(), k);
    }
}

proof fn lemma_abs_durations_nonneg(fs: Seq<FileScanRecord>)
    ensures
        0 <= abs_durations(fs),
    decreases fs.len(),
{
    if fs.len() > 0 {
        lemma_abs_durations_nonneg(fs.drop_last());
    }
}

/// What a finished scan writes to the library.
#[derive(Debug)]
pub struct ScanOutput {
    pub albums: Vec<ScannedAlbum>,
    pub tracks: Vec<ScannedTrack>,
    pub artist_names: Vec<String>,
    pub genre_names: Vec<String>,
    pub search_entries: Vec<SearchEntry>,
    pub album_artwork_keys: Vec<(String, String)>,
}

/// Whether `a` is the album row of the album `m` of the volume
/// `volume_uuid`, indexed at `indexed_at`: a disc count of at least one and
/// no cover chosen yet.
pub open spec fn album_row_matches(a: ScannedAlbum, m: AlbumModel, volume_uuid: Seq<char>, indexed_at: i64) -> bool {
    &&& a.album_uid@ == m.album_uid
    &&& a.volume_uuid@ == volume_uuid
    &&& a.album_title@ == m.album_title
    &&& a.album_title_norm@ == m.album_title_norm
    &&& a.album_artist@ == m.album_artist
    &&& a.album_artist_norm@ == m.album_artist_norm
    &&& a.album_root_dir_hint@ == m.album_root_dir_hint
    &&& a.year == m.year
    &&& a.disc_count as int == (if m.disc_count < 1 {
        1
    } else {
        m.disc_count
    })
    &&& a.track_count as int == m.track_count
    &&& a.total_duration_ms as int == m.total_duration_ms
    &&& a.cover_ref_id is None
    &&& a.source_mode@ == m.source_mode
    &&& a.indexed_at == indexed_at
}

/// Whether `e` is the search document of the album `m`: its title, artist
/// and directory, separated by spaces.
pub open spec fn album_entry_matches(e: SearchEntry, m: AlbumModel) -> bool {
    &&& e.doc_type@ == "album"@
    &&& e.doc_id@ == m.album_uid
    &&& e.content@ == m.album_title + seq![' '] + m.album_artist + seq![' '] + m.album_root_dir_hint
}

/// The artwork of each album of `uids` that has one, in the same order.
pub open spec fn artwork_pairs(cs: Seq<Contribution>, uids: Seq<Seq<char>>) -> Seq<(Seq<char>, Seq<char>)>
    decreases uids.len(),
{
    if uids.len() == 0 {
        Seq::empty()
    } else {
        let rest = artwork_pairs(cs, uids.drop_last());
        match album_model(cs, uids.last()) {
            Some(m) => match m.artwork_key {
                Some(k) => rest.push((uids.last(), k)),
                None => rest,
            },
            None => rest,
        }
    }
}

/// The identifiers of album rows, in order.
pub open spec fn album_uids(albums: Seq<ScannedAlbum>) -> Seq<Seq<char>> {
    albums.map_values(|a: ScannedAlbum| a.album_uid@)
}

/// The views of a list of string pairs.
pub open spec fn pair_views(v: Seq<(String, String)>) -> Seq<(Seq<char>, Seq<char>)> {
    v.map_values(|p: (String, String)| (p.0@, p.1@))
}

/// Adds the artists of the track `resolved`, contributed by `c`.
fn artists_step(names: &mut Vec<Vec<char>>, resolved: &ResolvedTrackRecord, Ghost(cs): Ghost<Seq<Contribution>>, Ghost(c): Ghost<Contribution>)
    requires
        strictly_sorted(views(old(names)@)),
        forall|a: Seq<char>| views(old(names)@).contains(a) <==> is_artist_in(cs, a),
        c.resolved == *resolved,
    ensures
        strictly_sorted(views(final(names)@)),
        forall|a: Seq<char>| views(final(names)@).contains(a) <==> is_artist_in(cs.push(c), a),
{
    let ghost ncs = cs.push(c);
    let aa = chars_of(resolved.album_artist.as_str());
    insert_sorted(names, aa);
    let ta = chars_of(resolved.artist.as_str());
    if ta.len() > 0 {
        insert_sorted(names, ta);
    }
    proof {
        assert forall|a: Seq<char>| views(names@).contains(a) <==> is_artist_in(ncs, a) by {
            if is_artist_in(ncs, a) {
                let i = choose|i: int| 0 <= i < ncs.len() && names_artist(#[trigger] ncs[i], a);
                if i < cs.len() {
                    assert(ncs[i] == cs[i]);
                    assert(is_artist_in(cs, a));
                }
            }
            if is_artist_in(cs, a) {
                let i = choose|i: int| 0 <= i < cs.len() && names_artist(#[trigger] cs[i], a);
                assert(ncs[i] == cs[i]);
            }
            if a == resolved.album_artist@ || (a == resolved.artist@ && a.len() > 0) {
                assert(ncs[cs.len() as int] == c);
            }
        }
    }
}

/// Adds the genres of the track `resolved`, contributed by `c`.
fn genres_step(names: &mut Vec<Vec<char>>, resolved: &ResolvedTrackRecord, Ghost(cs): Ghost<Seq<Contribution>>, Ghost(c): Ghost<Contribution>)
    requires
        strictly_sorted(views(old(names)@)),
        forall|g: Seq<char>| views(old(names)@).contains(g) <==> is_genre_in(cs, g),
        c.resolved == *resolved,
    ensures
        strictly_sorted(views(final(names)@)),
        forall|g: Seq<char>| views(final(names)@).contains(g) <==> is_genre_in(cs.push(c), g),
{
    let ghost ncs = cs.push(c);
    let ghost gs = strs(resolved.genres@);
    let mut j: usize = 0;
    assert(gs.take(0) =~= Seq::<Seq<char>>::empty());
    while j < resolved.genres.len()
        invariant
            gs == strs(resolved.genres@),
            j <= resolved.genres@.len(),
            strictly_sorted(views(names@)),
            forall|g: Seq<char>| views(names@).contains(g) <==> (is_genre_in(cs, g) || gs.take(j as int).contains(g)),
        decreases resolved.genres@.len() - j,
    {
        let gc = chars_of(resolved.genres[j].as_str());
        let ghost gcv = gc@;
        let ghost before = views(names@);
        assert(forall|g: Seq<char>| before.contains(g) <==> (is_genre_in(cs, g) || gs.take(j as int).contains(g)));
        insert_sorted(names, gc);
        proof {
            let t0 = gs.take(j as int);
            let t1 = gs.take(j + 1);
            assert(gs[j as int] == gcv);
            assert(t1 =~= t0.push(gs[j as int]));
            assert forall|g: Seq<char>| views(names@).contains(g) <==> (is_genre_in(cs, g) || t1.contains(g)) by {
                assert(views(names@).contains(g) == (before.contains(g) || g == gcv));
                assert(before.contains(g) == (is_genre_in(cs, g) || t0.contains(g)));
                if t1.contains(g) {
                    let q = choose|q: int| 0 <= q < t1.len() && #[trigger] t1[q] == g;
                    if q < j {
                        assert(t0[q] == g);
                    }
                }
                if t0.contains(g) {
                    let q = choose|q: int| 0 <= q < t0.len() && #[trigger] t0[q] == g;
                    assert(t1[q] == g);
                }
                if g == gs[j as int] {
                    assert(t1[j as int] == g);
                }
            }
        }
        j = j + 1;
    }
    proof {
        assert(gs.take(gs.len() as int) =~= gs);
        assert forall|g: Seq<char>| views(names@).contains(g) <==> is_genre_in(ncs, g) by {
            if is_genre_in(ncs, g) {
                let i = choose|i: int| 0 <= i < ncs.len() && names_genre(#[trigger] ncs[i], g);
                if i < cs.len() {
                    assert(ncs[i] == cs[i]);
                    assert(is_genre_in(cs, g));
                }
            }
            if is_genre_in(cs, g) {
                let i = choose|i: int| 0 <= i < cs.len() && names_genre(#[trigger] cs[i], g);
                assert(ncs[i] == cs[i]);
            }
            if gs.contains(g) {
                assert(ncs[cs.len() as int] == c);
            }
        }
    }
}

impl ScanAssembler {
    /// Adds one file of the album `ctx`, whose directory holds the artwork
    /// `artwork_key`.
    fn add_file(&mut self, volume: &VolumeDescriptor, file: FileScanRecord, ctx: &GroupAlbumContext, artwork_key: &Option<String>)
        requires
            old(self).wf(),
            old(self).contributions().len() + 1 < i64::MAX,
            abs_int(duration_of(file.metadata.duration_ms)) <= old(self).duration_room(),
        ensures
            final(self).wf(),
            final(self).contributions().len() == old(self).contributions().len() + 1,
            final(self).contributions().drop_last() == old(self).contributions(),
            contribution_of(final(self).contributions().last(), volume.volume_uuid@, file, *ctx, opt_view(*artwork_key)),
            final(self).duration_room() == old(self).duration_room() - abs_int(duration_of(file.metadata.duration_ms)),
    {
        let resolved = resolve_track_record(volume, &file, ctx);
        let ghost c = Contribution {
            volume_uuid: volume.volume_uuid@,
            file: file,
            resolved: resolved,
            artwork_key: opt_view(*artwork_key),
        };
        let ghost cs = self.contributions@;
        let ghost ncs = cs.push(c);
        let ghost used = self.duration_used as int;
        let ghost nused = used + abs_int(duration_of(file.metadata.duration_ms));
        proof {
            assert(ncs.drop_last() =~= cs);
            assert(ncs.last() == c);
            assert forall|i: int| 0 <= i < cs.len() implies #[trigger] ncs[i] == cs[i] by {}
        }
        album_step(&mut self.albums, &resolved, artwork_key, Ghost(cs), Ghost(c), Ghost(used));
        artists_step(&mut self.artist_names, &resolved, Ghost(cs), Ghost(c));
        genres_step(&mut self.genre_names, &resolved, Ghost(cs), Ghost(c));
        let track_uid = stable_track_uid(volume.volume_uuid.as_str(), file.relative_path.as_str(), file.file_mtime, file.size);
        let content = build_track_search_content(&file, &resolved);
        let entry = SearchEntry { doc_type: "track", doc_id: track_uid.clone(), content };
        let ghost old_entries = self.search_entries@;
        self.search_entries.push(entry);
        let genres = copy_strings(&resolved.genres);
        let track = ScannedTrack {
            track_uid,
            album_uid: resolved.album_uid,
            volume_uuid: volume.volume_uuid.clone(),
            relative_path: file.relative_path,
            filename: file.filename,
            title: resolved.title,
            artist: resolved.artist,
            album_artist: resolved.album_artist,
            track_no: resolved.track_no,
            disc_no: resolved.disc_no,
            duration_ms: resolved.duration_ms,
            sample_rate: resolved.sample_rate,
            bit_depth: resolved.bit_depth,
            format: file.format,
            cover_ref_id: None,
            genres,
            musicbrainz_track_id: None,
            file_mtime: file.file_mtime,
            indexed_at: file.indexed_at,
        };
        let ghost old_tracks = self.tracks@;
        self.tracks.push(track);
        proof {
            assert(track_matches(track, c));
            assert(track_entry_matches(entry, c));
            assert forall|i: int| 0 <= i < ncs.len() implies track_matches(#[trigger] self.tracks@[i], ncs[i]) by {
                if i < cs.len() {
                    assert(self.tracks@[i] == old_tracks[i]);
                }
            }
            assert forall|i: int| 0 <= i < ncs.len() implies track_entry_matches(#[trigger] self.search_entries@[i], ncs[i]) by {
                if i < cs.len() {
                    assert(self.search_entries@[i] == old_entries[i]);
                }
            }
        }
        self.contributions = Ghost(ncs);
        let d: i64 = match file.metadata.duration_ms {
            Some(v) => v,
            None => 0,
        };
        let size: u64 = if d < 0 {
            (0i128 - (d as i128)) as u64
        } else {
            d as u64
        };
        assert(size as int == abs_int(duration_of(file.metadata.duration_ms)));
        self.duration_used = self.duration_used + size;
    }

    /// Whether the group can be added: the track count and the summed sizes
    /// of the durations stay within `i64`.
    pub fn can_add(&self, group: &ScanGroup) -> (r: bool)
        requires
            self.wf(),
        ensures
            r == (self.contributions().len() + group.files@.len() < i64::MAX && abs_durations(group.files@)
                <= self.duration_room()),
    {
        let n = self.tracks.len();
        if (n as u128) + (group.files.len() as u128) >= i64::MAX as u128 {
            return false;
        }
        let room: u64 = (i64::MAX as u64) - self.duration_used;
        let ghost fs = group.files@;
        let mut total: u64 = 0;
        let mut i: usize = 0;
        assert(fs.take(0) =~= Seq::<FileScanRecord>::empty());
        while i < group.files.len()
            invariant
                fs == group.files@,
                i <= fs.len(),
                total as int == abs_durations(fs.take(i as int)),
                total <= room,
                room as int == self.duration_room(),
            decreases fs.len() - i,
        {
            assert(fs.take(i + 1).drop_last() =~= fs.take(i as int));
            assert(fs.take(i + 1).last() == fs[i as int]);
            let d: i64 = match group.files[i].metadata.duration_ms {
                Some(v) => v,
                None => 0,
            };
            let size: u64 = if d < 0 {
                (0i128 - (d as i128)) as u64
            } else {
                d as u64
            };
            assert(size as int == abs_int(duration_of(fs[i as int].metadata.duration_ms)));
            if size > room - total {
                proof {
                    lemma_abs_durations_prefix(fs, i + 1);
                }
                return false;
            }
            total = total + size;
            i = i + 1;
        }
        assert(fs.take(fs.len() as int) =~= fs);
        true
    }

    /// Adds the files of one group, whose album directory holds the artwork
    /// `artwork_key`: each file is resolved as a member of the group's album.
    pub fn add_group(&mut self, volume: &VolumeDescriptor, group: ScanGroup, artwork_key: Option<String>)
        requires
            old(self).wf(),
            old(self).contributions().len() + group.files@.len() < i64::MAX,
            abs_durations(group.files@) <= old(self).duration_room(),
        ensures
            final(self).wf(),
            final(self).contributions().len() == old(self).contributions().len() + group.files@.len(),
            final(self).contributions().take(old(self).contributions().len() as int) == old(self).contributions(),
            exists|ctx: GroupAlbumContext|
                #[trigger] group_context_of(ctx, group.files@, volume.label@, group.album_root_dir_hint@) && forall|i: int|
                    0 <= i < group.files@.len() ==> contribution_of(
                        #[trigger] final(self).contributions()[old(self).contributions().len() + i],
                        volume.volume_uuid@,
                        group.files@[i],
                        ctx,
                        opt_view(artwork_key),
                    ),
            final(self).duration_room() == old(self).duration_room() - abs_durations(group.files@),
    {
        let ctx = resolve_group_album_context(group.files.as_slice(), volume.label.as_str(), group.album_root_dir_hint.as_str());
        let ghost orig = group.files@;
        let ghost start = self.contributions@;
        let ghost room0 = self.duration_room();
        let ScanGroup { album_root_dir_hint: _, grouping_key: _, files } = group;
        let mut rest = files;
        let ghost mut i: int = 0;
        while rest.len() > 0
            invariant
                self.wf(),
                0 <= i <= orig.len(),
                rest@ == orig.skip(i),
                self.contributions().len() == start.len() + i,
                self.contributions().take(start.len() as int) == start,
                start.len() + orig.len() < i64::MAX,
                forall|q: int| 0 <= q < i ==> contribution_of(
                    #[trigger] self.contributions()[start.len() + q],
                    volume.volume_uuid@,
                    orig[q],
                    ctx,
                    opt_view(artwork_key),
                ),
                self.duration_room() == room0 - abs_durations(orig.take(i)),
                abs_durations(orig) <= room0,
            decreases rest@.len(),
        {
            let f = rest.remove(0);
            proof {
                assert(f == orig[i]);
                assert(orig.take(i + 1).drop_last() =~= orig.take(i));
                assert(orig.take(i + 1).last() == orig[i]);
                lemma_abs_durations_prefix(orig, i + 1);
            }
            let ghost before = self.contributions();
            self.add_file(volume, f, &ctx, &artwork_key);
            proof {
                let after = self.contributions();
                assert(after =~= before.push(after.last()));
                assert forall|q: int| 0 <= q < i + 1 implies contribution_of(
                    #[trigger] self.contributions()[start.len() + q],
                    volume.volume_uuid@,
                    orig[q],
                    ctx,
                    opt_view(artwork_key),
                ) by {
                    if q < i {
                        assert(after[start.len() + q] == before[start.len() + q]);
                    }
                }
                assert(after.take(start.len() as int) =~= before.take(start.len() as int));
                i = i + 1;
                assert(rest@ =~= orig.skip(i));
            }
        }
        proof {
            assert(orig.skip(i).len() == 0);
            assert(orig.take(i) =~= orig);
        }
    }

    /// The rows of the finished scan: the tracks in the order they were
    /// added; the albums in the order of their identifiers, each with a disc
    /// count of at least one; the artists and genres sorted, each once; the
    /// search documents of the tracks, then of the albums; and the artwork
    /// of each album that has one.
    pub fn finish(self, volume_uuid: &str, indexed_at: i64) -> (r: ScanOutput)
        requires
            self.wf(),
        ensures
            r.tracks@.len() == self.contributions().len(),
            forall|i: int| 0 <= i < r.tracks@.len() ==> track_matches(#[trigger] r.tracks@[i], self.contributions()[i]),
            forall|i: int, j: int| 0 <= i < j < r.albums@.len() ==> lex_lt(#[trigger] r.albums@[i].album_uid@, #[trigger] r.albums@[j].album_uid@),
            forall|k: int| 0 <= k < r.albums@.len() ==> album_model(self.contributions(), (#[trigger] r.albums@[k]).album_uid@) is Some
                && album_row_matches(r.albums@[k], album_model(self.contributions(), r.albums@[k].album_uid@).unwrap(), volume_uuid@, indexed_at),
            forall|u: Seq<char>| #[trigger] album_model(self.contributions(), u) is Some ==> album_uids(r.albums@).contains(u),
            strictly_sorted(strs(r.artist_names@)),
            forall|a: Seq<char>| strs(r.artist_names@).contains(a) <==> is_artist_in(self.contributions(), a),
            strictly_sorted(strs(r.genre_names@)),
            forall|g: Seq<char>| strs(r.genre_names@).contains(g) <==> is_genre_in(self.contributions(), g),
            r.search_entries@.len() == self.contributions().len() + r.albums@.len(),
            forall|i: int| 0 <= i < self.contributions().len() ==> track_entry_matches(#[trigger] r.search_entries@[i], self.contributions()[i]),
            forall|k: int| 0 <= k < r.albums@.len() ==> album_entry_matches(
                #[trigger] r.search_entries@[self.contributions().len() + k],
                album_model(self.contributions(), r.albums@[k].album_uid@).unwrap(),
            ),
            pair_views(r.album_artwork_keys@) == artwork_pairs(self.contributions(), album_uids(r.albums@)),
    {
        let ghost cs = self.contributions@;
        let ghost used = self.duration_used as int;
        let ScanAssembler { albums, tracks, artist_names, genre_names, search_entries, contributions: _, duration_used: _ } = self;
        let mut entries = search_entries;
        let mut out_albums: Vec<ScannedAlbum> = Vec::new();
        let mut keys: Vec<(String, String)> = Vec::new();
        let mut k: usize = 0;
        let n = albums.len();
        while k < n
            invariant
                n == albums@.len(),
                k <= n,
                albums_inv(albums@, cs, used),
                forall|q: int| 0 <= q < n ==> album_model(cs, (#[trigger] albums@[q]).album_uid@) is Some && acc_matches(
                    albums@[q],
                    album_model(cs, albums@[q].album_uid@).unwrap(),
                ),
                out_albums@.len() == k,
                forall|q: int| 0 <= q < k ==> (#[trigger] out_albums@[q]).album_uid@ == albums@[q].album_uid@ && album_row_matches(
                    out_albums@[q],
                    album_model(cs, albums@[q].album_uid@).unwrap(),
                    volume_uuid@,
                    indexed_at,
                ),
                entries@.len() == cs.len() + k,
                forall|i: int| 0 <= i < cs.len() ==> track_entry_matches(#[trigger] entries@[i], cs[i]),
                forall|q: int| 0 <= q < k ==> album_entry_matches(
                    #[trigger] entries@[cs.len() + q],
                    album_model(cs, albums@[q].album_uid@).unwrap(),
                ),
                pair_views(keys@) == artwork_pairs(cs, album_uids(out_albums@)),
            decreases n - k,
        {
            let a = &albums[k];
            let ghost m = album_model(cs, a.album_uid@).unwrap();
            assert(acc_matches(albums@[k as int], m));
            let disc_count = if a.disc_count < 1 {
                1
            } else {
                a.disc_count
            };
            let row = ScannedAlbum {
                album_uid: a.album_uid.clone(),
                volume_uuid: volume_uuid.to_owned(),
                album_title: a.album_title.clone(),
                album_title_norm: a.album_title_norm.clone(),
                album_artist: a.album_artist.clone(),
                album_artist_norm: a.album_artist_norm.clone(),
                album_root_dir_hint: a.album_root_dir_hint.clone(),
                year: a.year,
                disc_count,
                track_count: a.track_count,
                total_duration_ms: a.total_duration_ms,
                cover_ref_id: None,
                source_mode: a.source_mode.clone(),
                indexed_at,
            };
            let mut content = a.album_title.clone();
            assert(content@ == m.album_title);
            crate::text::push_char(&mut content, ' ');
            crate::text::push_str(&mut content, a.album_artist.as_str());
            crate::text::push_char(&mut content, ' ');
            crate::text::push_str(&mut content, a.album_root_dir_hint.as_str());
            assert(content@ =~= m.album_title + seq![' '] + m.album_artist + seq![' '] + m.album_root_dir_hint);
            let doc_id = a.album_uid.clone();
            assert(doc_id@ == m.album_uid);
            let entry = SearchEntry { doc_type: "album", doc_id, content };
            assert(album_entry_matches(entry, m));
            let ghost old_entries = entries@;
            entries.push(entry);
            let ghost old_out = out_albums@;
            out_albums.push(row);
            proof {
                assert(album_uids(out_albums@) =~= album_uids(old_out).push(a.album_uid@));
                assert(album_uids(out_albums@).drop_last() =~= album_uids(old_out));
            }
            match &a.artwork_key {
                Some(key) => {
                    let ghost old_keys = keys@;
                    keys.push((a.album_uid.clone(), key.clone()));
                    assert(pair_views(keys@) =~= pair_views(old_keys).push((a.album_uid@, key@)));
                },
                None => {},
            }
            proof {
                assert forall|i: int| 0 <= i < cs.len() implies track_entry_matches(#[trigger] entries@[i], cs[i]) by {
                    assert(entries@[i] == old_entries[i]);
                }
                assert forall|q: int| 0 <= q < k + 1 implies album_entry_matches(
                    #[trigger] entries@[cs.len() + q],
                    album_model(cs, albums@[q].album_uid@).unwrap(),
                ) by {
                    if q < k {
                        assert(entries@[cs.len() + q] == old_entries[cs.len() + q]);
                    }
                }
                assert forall|q: int| 0 <= q < k + 1 implies (#[trigger] out_albums@[q]).album_uid@ == albums@[q].album_uid@ && album_row_matches(
                    out_albums@[q],
                    album_model(cs, albums@[q].album_uid@).unwrap(),
                    volume_uuid@,
                    indexed_at,
                ) by {
                    if q < k {
                        assert(out_albums@[q] == old_out[q]);
                    }
                }
            }
            k = k + 1;
        }
        let mut artists: Vec<String> = Vec::new();
        let mut j: usize = 0;
        while j < artist_names.len()
            invariant
                j <= artist_names@.len(),
                strs(artists@) == views(artist_names@).take(j as int),
            decreases artist_names@.len() - j,
        {
            let t = string_from(artist_names[j].as_slice());
            let ghost before = artists@;
            artists.push(t);
            assert(strs(artists@) =~= strs(before).push(t@));
            assert(strs(artists@) =~= views(artist_names@).take(j + 1));
            j = j + 1;
        }
        assert(views(artist_names@).take(artist_names@.len() as int) =~= views(artist_names@));
        let mut genres: Vec<String> = Vec::new();
        let mut j: usize = 0;
        while j < genre_names.len()
            invariant
                j <= genre_names@.len(),
                strs(genres@) == views(genre_names@).take(j as int),
            decreases genre_names@.len() - j,
        {
            let t = string_from(genre_names[j].as_slice());
            let ghost before = genres@;
            genres.push(t);
            assert(strs(genres@) =~= strs(before).push(t@));
            assert(strs(genres@) =~= views(genre_names@).take(j + 1));
            j = j + 1;
        }
        assert(views(genre_names@).take(genre_names@.len() as int) =~= views(genre_names@));
        proof {
            assert forall|u: Seq<char>| #[trigger] album_model(cs, u) is Some implies album_uids(out_albums@).contains(u) by {
                assert(has_album(albums@, u));
                let q = choose|q: int| 0 <= q < albums@.len() && #[trigger] albums@[q].album_uid@ == u;
                assert(album_uids(out_albums@)[q] == u);
            }
        }
        ScanOutput {
            albums: out_albums,
            tracks,
            artist_names: artists,
            genre_names: genres,
            search_entries: entries,
            album_artwork_keys: keys,
        }
    }
}

/// How many of the contributions add a track to the album `u`.
pub open spec fn tracks_of_album(cs: Seq<Contribution>, u: Seq<char>) -> nat
    decreases cs.len(),
{
    if cs.len() == 0 {
        0
    } else {
        tracks_of_album(cs.drop_last(), u) + if cs.last().resolved.album_uid@ == u {
            1nat
        } else {
            0nat
        }
    }
}

/// An album exists exactly when some track names it, and its track count is
/// the number of tracks that name it.
pub proof fn lemma_album_track_count(cs: Seq<Contribution>, u: Seq<char>)
    ensures
        album_model(cs, u) is Some <==> tracks_of_album(cs, u) > 0,
        album_model(cs, u) is Some ==> album_model(cs, u).unwrap().track_count == tracks_of_album(cs, u),
    decreases cs.len(),
{
    if cs.len() == 0 {
        lemma_album_model_empty(u);
        assert(cs =~= Seq::<Contribution>::empty());
    } else {
        let prev = cs.drop_last();
        lemma_album_track_count(prev, u);
        assert(prev.push(cs.last()) =~= cs);
        lemma_album_model_push(prev, cs.last(), u);
        assert(album_model(cs, u) == album_model(prev.push(cs.last()), u));
        assert(tracks_of_album(cs, u) == tracks_of_album(prev, u) + if cs.last().resolved.album_uid@ == u {
            1nat
        } else {
            0nat
        });
    }
}

/// Every track's album is among the albums of the scan.
pub proof fn lemma_track_album_present(cs: Seq<Contribution>, i: int)
    requires
        0 <= i < cs.len(),
    ensures
        album_model(cs, cs[i].resolved.album_uid@) is Some,
    decreases cs.len(),
{
    let u = cs[i].resolved.album_uid@;
    let prev = cs.drop_last();
    assert(prev.push(cs.last()) =~= cs);
    lemma_album_model_push(prev, cs.last(), u);
    if i < cs.len() - 1 {
        lemma_track_album_present(prev, i);
        assert(prev[i] == cs[i]);
    }
}

} // verus!
