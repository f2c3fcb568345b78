//! Reading the queue: which entry a play-order position names, the next free
//! queue entry id, repairing a loaded queue, and shuffling the play order.

use vstd::prelude::*;
use crate::media_model::{entries, ids, EntryModel, QueueEntry, QueueModel, QueueSnapshot};
use crate::text::{chars_of, chars_eq, parse_u64, parse_unsigned};

verus! {

/// Whether two strings hold the same characters.
pub fn same_text(a: &str, b: &str) -> (r: bool)
    ensures
        r == (a@ == b@),
{
    let x = chars_of(a);
    let y = chars_of(b);
    chars_eq(x.as_slice(), y.as_slice())
}

/// A copy of `s`.
pub fn copy_string(s: &String) -> (r: String)
    ensures
        r@ == s@,
{
    s.clone()
}

/// A copy of an optional string.
pub fn copy_opt(o: &Option<String>) -> (r: Option<String>)
    ensures
        crate::media_model::opt_chars(r) == crate::media_model::opt_chars(*o),
{
    match o {
        Some(s) => Some(s.clone()),
        None => None,
    }
}

/// A copy of a queue entry.
pub fn copy_entry(e: &QueueEntry) -> (r: QueueEntry)
    ensures
        r@ == e@,
{
    QueueEntry {
        queue_entry_id: e.queue_entry_id.clone(),
        track_uid: e.track_uid.clone(),
        volume_uuid: e.volume_uuid.clone(),
        relative_path: e.relative_path.clone(),
        title: copy_opt(&e.title),
        duration_ms: e.duration_ms,
    }
}

/// The position of the first entry with the given id.
pub open spec fn find_entry(tracks: Seq<EntryModel>, id: Seq<char>) -> Option<nat>
    decreases tracks.len(),
{
    if tracks.len() == 0 {
        None
    } else if tracks[0].id == id {
        Some(0)
    } else {
        match find_entry(tracks.drop_first(), id) {
            Some(k) => Some(k + 1),
            None => None,
        }
    }
}

/// The first entry with the given id is the one at `k`.
pub proof fn lemma_find_entry_at(tracks: Seq<EntryModel>, id: Seq<char>, k: int)
    requires
        0 <= k < tracks.len(),
        tracks[k].id == id,
        forall|j: int| 0 <= j < k ==> (#[trigger] tracks[j]).id != id,
    ensures
        find_entry(tracks, id) == Some(k as nat),
    decreases k,
{
    if k > 0 {
        let rest = tracks.drop_first();
        assert forall|j: int| 0 <= j < k - 1 implies (#[trigger] rest[j]).id != id by {
            assert(rest[j] == tracks[j + 1]);
        }
        lemma_find_entry_at(rest, id, k - 1);
    }
}

/// No entry has the given id.
pub proof fn lemma_find_entry_none(tracks: Seq<EntryModel>, id: Seq<char>)
    requires
        forall|j: int| 0 <= j < tracks.len() ==> (#[trigger] tracks[j]).id != id,
    ensures
        find_entry(tracks, id) is None,
    decreases tracks.len(),
{
    if tracks.len() > 0 {
        let rest = tracks.drop_first();
        assert forall|j: int| 0 <= j < rest.len() implies (#[trigger] rest[j]).id != id by {
            assert(rest[j] == tracks[j + 1]);
        }
        lemma_find_entry_none(rest, id);
    }
}

/// What `find_entry` finds has the id, and nothing before it does.
pub proof fn lemma_find_entry_found(tracks: Seq<EntryModel>, id: Seq<char>)
    ensures
        match find_entry(tracks, id) {
            Some(k) => k < tracks.len() && tracks[k as int].id == id && forall|j: int|
                0 <= j < k ==> (#[trigger] tracks[j]).id != id,
            None => forall|j: int| 0 <= j < tracks.len() ==> (#[trigger] tracks[j]).id != id,
        },
    decreases tracks.len(),
{
    if tracks.len() > 0 && tracks[0].id != id {
        let rest = tracks.drop_first();
        lemma_find_entry_found(rest, id);
        match find_entry(rest, id) {
            Some(k) => {
                assert forall|j: int| 0 <= j < k + 1 implies (#[trigger] tracks[j]).id != id by {
                    if j > 0 {
                        assert(tracks[j] == rest[j - 1]);
                    }
                }
            },
            None => {
                assert forall|j: int| 0 <= j < tracks.len() implies (#[trigger] tracks[j]).id != id by {
                    if j > 0 {
                        assert(tracks[j] == rest[j - 1]);
                    }
                }
            },
        }
    }
}

/// The position of the first entry of `tracks` whose id is `id`.
pub fn find_entry_index(tracks: &Vec<QueueEntry>, id: &str) -> (r: Option<usize>)
    ensures
        match r {
            Some(k) => find_entry(entries(tracks@), id@) == Some(k as nat),
            None => find_entry(entries(tracks@), id@) is None,
        },
{
    let ghost es = entries(tracks@);
    let mut i: usize = 0;
    while i < tracks.len()
        invariant
            es == entries(tracks@),
            0 <= i <= tracks.len(),
            forall|j: int| 0 <= j < i ==> (#[trigger] es[j]).id != id@,
        decreases tracks.len() - i,
    {
        if same_text(tracks[i].queue_entry_id.as_str(), id) {
            proof {
                lemma_find_entry_at(es, id@, i as int);
            }
            return Some(i);
        }
        i = i + 1;
    }
    proof {
        lemma_find_entry_none(es, id@);
    }
    None
}

/// The entry at play-order position `index`, when there is one.
pub open spec fn resolve_entry(q: QueueModel, index: Option<usize>) -> Option<EntryModel> {
    match index {
        Some(i) => if i < q.order.len() {
            match find_entry(q.tracks, q.order[i as int]) {
                Some(k) => Some(q.tracks[k as int]),
                None => None,
            }
        } else {
            None
        },
        None => None,
    }
}

/// The track of the entry at play-order position `index`.
pub open spec fn resolve_uid(q: QueueModel, index: Option<usize>) -> Option<Seq<char>> {
    match resolve_entry(q, index) {
        Some(e) => Some(e.track_uid),
        None => None,
    }
}

/// The entry at play-order position `index`, looked up by its queue entry id.
pub fn resolve_queue_entry(snapshot: &QueueSnapshot, index: Option<usize>) -> (r: Option<QueueEntry>)
    ensures
        match r {
            Some(e) => resolve_entry(snapshot@, index) == Some(e@),
            None => resolve_entry(snapshot@, index) is None,
        },
{
    let i = match index {
        Some(i) => i,
        None => {
            return None;
        },
    };
    if i >= snapshot.play_order.len() {
        return None;
    }
    let id = snapshot.play_order[i].as_str();
    match find_entry_index(&snapshot.tracks, id) {
        Some(k) => {
            proof {
                lemma_find_entry_found(snapshot@.tracks, id@);
            }
            Some(copy_entry(&snapshot.tracks[k]))
        },
        None => None,
    }
}

/// The track of the entry at play-order position `index`.
pub fn resolve_track_uid(snapshot: &QueueSnapshot, index: Option<usize>) -> (r: Option<String>)
    ensures
        crate::media_model::opt_chars(r) == resolve_uid(snapshot@, index),
{
    match resolve_queue_entry(snapshot, index) {
        Some(e) => Some(e.track_uid),
        None => None,
    }
}

/// The number in a queue entry id of the form `q<n>`.
pub open spec fn q_number(id: Seq<char>) -> Option<nat> {
    if id.len() > 0 && id[0] == 'q' {
        parse_unsigned(id.drop_first(), u64::MAX as nat)
    } else {
        None
    }
}

/// The largest number among the `q<n>` ids of `tracks`, or 0.
pub open spec fn max_q(tracks: Seq<EntryModel>) -> nat
    decreases tracks.len(),
{
    if tracks.len() == 0 {
        0
    } else {
        let r = max_q(tracks.drop_last());
        match q_number(tracks.last().id) {
            Some(n) => if n > r {
                n
            } else {
                r
            },
            None => r,
        }
    }
}

/// The number of the queue entry id `q` + `n`.
fn q_number_of(id: &str) -> (r: Option<u64>)
    ensures
        match r {
            Some(n) => q_number(id@) == Some(n as nat),
            None => q_number(id@) is None,
        },
{
    let c = chars_of(id);
    if c.len() > 0 && c[0] == 'q' {
        let rest = crate::text::copy_range(c.as_slice(), 1, c.len());
        assert(rest@ =~= id@.drop_first());
        parse_u64(rest.as_slice())
    } else {
        None
    }
}

/// The largest number among the `q<n>` ids of the queue, or 0.
pub fn largest_queue_entry_number(snapshot: &QueueSnapshot) -> (r: u64)
    ensures
        r == max_q(snapshot@.tracks),
{
    let ghost es = snapshot@.tracks;
    let mut best: u64 = 0;
    let mut i: usize = 0;
    while i < snapshot.tracks.len()
        invariant
            es == snapshot@.tracks,
            0 <= i <= snapshot.tracks.len(),
            best == max_q(es.take(i as int)),
        decreases snapshot.tracks.len() - i,
    {
        proof {
            assert(es.take(i as int + 1).drop_last() =~= es.take(i as int));
        }
        match q_number_of(snapshot.tracks[i].queue_entry_id.as_str()) {
            Some(n) => {
                if n > best {
                    best = n;
                }
            },
            None => {},
        }
        i = i + 1;
    }
    proof {
        assert(es.take(es.len() as int) =~= es);
    }
    best
}

/// One more than the largest `q<n>` id of the queue, the id number to hand out next.
pub fn next_queue_entry_id(snapshot: &QueueSnapshot) -> (r: u64)
    requires
        max_q(snapshot@.tracks) < u64::MAX,
    ensures
        r == max_q(snapshot@.tracks) + 1,
{
    largest_queue_entry_number(snapshot) + 1
}

/// The ids of the entries, in order.
pub open spec fn track_ids(tracks: Seq<EntryModel>) -> Seq<Seq<char>> {
    tracks.map_values(|e: EntryModel| e.id)
}

/// `order` followed by each of `more` that is not yet in it, in turn.
pub open spec fn append_missing(order: Seq<Seq<char>>, more: Seq<Seq<char>>) -> Seq<Seq<char>>
    decreases more.len(),
{
    if more.len() == 0 {
        order
    } else {
        append_missing(
            if order.contains(more[0]) {
                order
            } else {
                order.push(more[0])
            },
            more.drop_first(),
        )
    }
}

/// A loaded queue made consistent: the play order keeps only ids of entries
/// and gains the ids it lacks, in entry order (all of them when it was empty);
/// a position past its end is dropped; an empty queue has no play order.
pub open spec fn normalized(q: QueueModel) -> QueueModel {
    if q.tracks.len() == 0 {
        QueueModel { current: None, order: Seq::empty(), ..q }
    } else {
        let tids = track_ids(q.tracks);
        let order = if q.order.len() == 0 {
            tids
        } else {
            append_missing(q.order.filter(known_in(tids)), tids)
        };
        let current = match q.current {
            Some(i) => if i >= order.len() {
                None
            } else {
                Some(i)
            },
            None => None,
        };
        QueueModel { current, order, ..q }
    }
}

/// Whether `s` holds a string equal to `x`.
pub fn contains_text(s: &Vec<String>, x: &str) -> (r: bool)
    ensures
        r == ids(s@).contains(x@),
{
    let ghost v = ids(s@);
    let mut i: usize = 0;
    while i < s.len()
        invariant
            v == ids(s@),
            0 <= i <= s.len(),
            forall|j: int| 0 <= j < i ==> v[j] != x@,
        decreases s.len() - i,
    {
        if same_text(s[i].as_str(), x) {
            assert(v[i as int] == x@);
            return true;
        }
        i = i + 1;
    }
    false
}

/// The ids of `tracks`.
pub fn entry_ids(tracks: &Vec<QueueEntry>) -> (r: Vec<String>)
    ensures
        ids(r@) == track_ids(entries(tracks@)),
{
    let mut out: Vec<String> = Vec::new();
    let mut i: usize = 0;
    while i < tracks.len()
        invariant
            0 <= i <= tracks.len(),
            ids(out@) =~= track_ids(entries(tracks@)).take(i as int),
        decreases tracks.len() - i,
    {
        let ghost before = ids(out@);
        out.push(copy_string(&tracks[i].queue_entry_id));
        assert(ids(out@) =~= before.push(tracks@[i as int].queue_entry_id@));
        assert(track_ids(entries(tracks@)).take(i as int + 1) =~= track_ids(entries(tracks@)).take(
            i as int,
        ).push(tracks@[i as int].queue_entry_id@));
        i = i + 1;
    }
    out
}

/// Every id that is in the result of `append_missing` was in `order` or in `more`,
/// and every id of either is in it.
pub proof fn lemma_append_missing_contains(order: Seq<Seq<char>>, more: Seq<Seq<char>>, x: Seq<char>)
    ensures
        append_missing(order, more).contains(x) <==> (order.contains(x) || more.contains(x)),
    decreases more.len(),
{
    if more.len() > 0 {
        let next = if order.contains(more[0]) {
            order
        } else {
            order.push(more[0])
        };
        lemma_append_missing_contains(next, more.drop_first(), x);
        assert(next.contains(x) <==> (order.contains(x) || x == more[0])) by {
            if !order.contains(more[0]) {
                if x == more[0] {
                    assert(next[order.len() as int] == x);
                }
                if next.contains(x) && x != more[0] {
                    let j = choose|j: int| 0 <= j < next.len() && next[j] == x;
                    assert(order[j] == x);
                }
                if order.contains(x) {
                    let j = choose|j: int| 0 <= j < order.len() && order[j] == x;
                    assert(next[j] == x);
                }
            }
        }
        assert(more.contains(x) <==> (x == more[0] || more.drop_first().contains(x))) by {
            if more.contains(x) && x != more[0] {
                let j = choose|j: int| 0 <= j < more.len() && more[j] == x;
                assert(more.drop_first()[j - 1] == x);
            }
            if more.drop_first().contains(x) {
                let j = choose|j: int| 0 <= j < more.drop_first().len() && more.drop_first()[j] == x;
                assert(more[j + 1] == x);
            }
            if x == more[0] {
                assert(more[0] == x);
            }
        }
    }
}

/// After normalizing, an id is in the play order exactly when an entry has it.
pub proof fn lemma_normalized_consistent(q: QueueModel, x: Seq<char>)
    ensures
        normalized(q).order.contains(x) <==> track_ids(q.tracks).contains(x),
        normalized(q).tracks == q.tracks,
        normalized(q).current matches Some(i) ==> i < normalized(q).order.len(),
{
    let tids = track_ids(q.tracks);
    if q.tracks.len() > 0 && q.order.len() > 0 {
        let pred = known_in(tids);
        let kept = q.order.filter(pred);
        lemma_append_missing_contains(kept, tids, x);
        if kept.contains(x) {
            let j = choose|j: int| 0 <= j < kept.len() && kept[j] == x;
            q.order.lemma_filter_pred(pred, j);
        }
    }
}

fn append_missing_exec(order: &mut Vec<String>, more: &Vec<String>)
    ensures
        ids(final(order)@) == append_missing(ids(old(order)@), ids(more@)),
{
    let ghost m = ids(more@);
    let ghost start = ids(order@);
    let mut i: usize = 0;
    assert(m.skip(0) =~= m);
    while i < more.len()
        invariant
            m == ids(more@),
            0 <= i <= more.len(),
            append_missing(start, m) == append_missing(ids(order@), m.skip(i as int)),
        decreases more.len() - i,
    {
        let ghost before = ids(order@);
        assert(m.skip(i as int).drop_first() =~= m.skip(i as int + 1));
        assert(m.skip(i as int)[0] == m[i as int]);
        if !contains_text(order, more[i].as_str()) {
            order.push(copy_string(&more[i]));
            assert(ids(order@) =~= before.push(m[i as int]));
        }
        i = i + 1;
    }
    assert(m.skip(more.len() as int) =~= Seq::<Seq<char>>::empty());
}

/// The test of being among `k`.
pub open spec fn known_in(k: Seq<Seq<char>>) -> spec_fn(Seq<char>) -> bool {
    |e: Seq<char>| k.contains(e)
}

/// The entries of `order` whose id is among `keep`.
fn retain_known(order: &Vec<String>, keep: &Vec<String>) -> (r: Vec<String>)
    ensures
        ids(r@) == ids(order@).filter(known_in(ids(keep@))),
{
    let ghost k = ids(keep@);
    let ghost o = ids(order@);
    let mut out: Vec<String> = Vec::new();
    let mut i: usize = 0;
    proof {
        reveal(Seq::filter);
    }
    assert(o.take(0).filter(known_in(k)) =~= Seq::<Seq<char>>::empty());
    while i < order.len()
        invariant
            k == ids(keep@),
            o == ids(order@),
            0 <= i <= order.len(),
            ids(out@) == o.take(i as int).filter(known_in(k)),
        decreases order.len() - i,
    {
        let ghost t = o.take(i as int + 1);
        proof {
            reveal(Seq::filter);
            assert(t.drop_last() =~= o.take(i as int));
            assert(t.last() == o[i as int]);
        }
        let ghost before = ids(out@);
        if contains_text(keep, order[i].as_str()) {
            out.push(copy_string(&order[i]));
            assert(ids(out@) =~= before.push(o[i as int]));
            assert(t.filter(known_in(k)) == t.drop_last().filter(known_in(k)).push(t.last()));
        } else {
            assert(t.filter(known_in(k)) == t.drop_last().filter(known_in(k)));
        }
        i = i + 1;
    }
    assert(o.take(order.len() as int) =~= o);
    out
}

/// A loaded queue made consistent: the play order keeps only ids of existing
/// entries, gains the ids it lacks in entry order, and a position past its end
/// is dropped. An empty queue gets an empty play order and no position.
pub fn normalize_snapshot(snapshot: QueueSnapshot) -> (r: QueueSnapshot)
    ensures
        r@ == normalized(snapshot@),
{
    let mut snapshot = snapshot;
    if snapshot.tracks.len() == 0 {
        snapshot.play_order = Vec::new();
        snapshot.current_order_index = None;
        assert(snapshot@.order =~= Seq::<Seq<char>>::empty());
        return snapshot;
    }
    let tids = entry_ids(&snapshot.tracks);
    if snapshot.play_order.len() == 0 {
        snapshot.play_order = tids;
    } else {
        let mut kept = retain_known(&snapshot.play_order, &tids);
        append_missing_exec(&mut kept, &tids);
        snapshot.play_order = kept;
    }
    match snapshot.current_order_index {
        Some(i) => {
            if i >= snapshot.play_order.len() {
                snapshot.current_order_index = None;
            }
        },
        None => {},
    }
    snapshot
}

/// One step of the generator that drives the shuffle.
pub open spec fn lcg_next(x: u64) -> u64 {
    x.wrapping_mul(6364136223846793005u64).wrapping_add(1u64)
}

/// `s` with the items at `i` and `j` exchanged.
pub open spec fn swap_at(s: Seq<Seq<char>>, i: int, j: int) -> Seq<Seq<char>> {
    s.update(i, s[j]).update(j, s[i])
}

/// The Fisher-Yates passes over positions `index` down to 1, each exchanging
/// the item at that position with one at or before it chosen by the next value
/// of the generator.
pub open spec fn shuffle_from(s: Seq<Seq<char>>, seed: u64, index: nat) -> Seq<Seq<char>>
    decreases index,
{
    if index == 0 || index >= s.len() {
        s
    } else {
        let x = lcg_next(seed);
        let j = ((x as usize) % ((index + 1) as usize)) as int;
        shuffle_from(swap_at(s, index as int, j), x, (index - 1) as nat)
    }
}

/// The generator's starting value: the clock reading mixed with the length.
pub open spec fn shuffle_seed(len: nat, clock_nanos: u64) -> u64 {
    clock_nanos ^ ((len as u64) << 32u64)
}

/// `s` shuffled from the clock reading `clock_nanos`; fewer than two items are
/// left as they are.
pub open spec fn shuffled(s: Seq<Seq<char>>, clock_nanos: u64) -> Seq<Seq<char>> {
    if s.len() < 2 {
        s
    } else {
        shuffle_from(s, shuffle_seed(s.len(), clock_nanos), (s.len() - 1) as nat)
    }
}

proof fn lemma_swap_multiset(s: Seq<Seq<char>>, i: int, j: int)
    requires
        0 <= i < s.len(),
        0 <= j < s.len(),
    ensures
        swap_at(s, i, j).to_multiset() == s.to_multiset(),
        swap_at(s, i, j).len() == s.len(),
{
    broadcast use vstd::multiset::group_multiset_axioms;
    broadcast use vstd::seq_lib::to_multiset_update;
    broadcast use vstd::seq_lib::to_multiset_contains;
    let t = s.update(i, s[j]);
    assert(t[j] == s[j]);
    assert(s.contains(s[i]));
    assert(swap_at(s, i, j).to_multiset() =~= s.to_multiset());
}

/// Shuffling rearranges the items: the same items, each as often.
pub proof fn lemma_shuffle_from_permutes(s: Seq<Seq<char>>, seed: u64, index: nat)
    requires
        s.len() <= usize::MAX,
    ensures
        shuffle_from(s, seed, index).to_multiset() == s.to_multiset(),
        shuffle_from(s, seed, index).len() == s.len(),
    decreases index,
{
    if index != 0 && index < s.len() {
        let x = lcg_next(seed);
        let j = ((x as usize) % ((index + 1) as usize)) as int;
        lemma_swap_multiset(s, index as int, j);
        lemma_shuffle_from_permutes(swap_at(s, index as int, j), x, (index - 1) as nat);
    }
}

/// A shuffled play order holds the same ids as before, each as often.
pub proof fn lemma_shuffled_permutes(s: Seq<Seq<char>>, clock_nanos: u64)
    requires
        s.len() <= usize::MAX,
    ensures
        shuffled(s, clock_nanos).to_multiset() == s.to_multiset(),
        shuffled(s, clock_nanos).len() == s.len(),
{
    if s.len() >= 2 {
        lemma_shuffle_from_permutes(s, shuffle_seed(s.len(), clock_nanos), (s.len() - 1) as nat);
    }
}

fn swap_items(v: &mut Vec<String>, i: usize, j: usize)
    requires
        i < old(v).len(),
        j < old(v).len(),
    ensures
        ids(final(v)@) == swap_at(ids(old(v)@), i as int, j as int),
        final(v).len() == old(v).len(),
{
    let ghost before = ids(v@);
    let a = copy_string(&v[i]);
    let b = copy_string(&v[j]);
    v.set(i, b);
    v.set(j, a);
    assert(ids(v@) =~= swap_at(before, i as int, j as int));
}

/// Shuffles the play order in place, driven by the clock reading
/// `clock_nanos`.
pub fn shuffle_queue_entry_ids(play_order: &mut Vec<String>, clock_nanos: u64)
    ensures
        ids(final(play_order)@) == shuffled(ids(old(play_order)@), clock_nanos),
{
    let n = play_order.len();
    if n < 2 {
        return;
    }
    let mut seed: u64 = clock_nanos ^ ((n as u64) << 32u64);
    let mut index: usize = n - 1;
    let ghost goal = shuffled(ids(play_order@), clock_nanos);
    assert(goal == shuffle_from(ids(play_order@), seed, index as nat));
    while index >= 1
        invariant
            play_order.len() == n,
            0 <= index < n,
            goal == shuffle_from(ids(play_order@), seed, index as nat),
        decreases index,
    {
        seed = seed.wrapping_mul(6364136223846793005u64).wrapping_add(1u64);
        let j = (#[verifier::truncate] (seed as usize)) % (index + 1);
        swap_items(play_order, index, j);
        index = index - 1;
    }
}

/// The position of the first string of `v` equal to `x`.
pub fn index_of_text(v: &Vec<String>, x: &str) -> (r: Option<usize>)
    ensures
        match r {
            Some(i) => ids(v@).index_of_first(x@) == Some(i as int),
            None => ids(v@).index_of_first(x@) is None,
        },
{
    let ghost s = ids(v@);
    let mut i: usize = 0;
    while i < v.len()
        invariant
            s == ids(v@),
            0 <= i <= v.len(),
            forall|j: int| 0 <= j < i ==> s[j] != x@,
        decreases v.len() - i,
    {
        if same_text(v[i].as_str(), x) {
            assert(s[i as int] == x@);
            proof {
                s.index_of_first_ensures(x@);
            }
            return Some(i);
        }
        i = i + 1;
    }
    proof {
        s.index_of_first_ensures(x@);
    }
    None
}

/// An id that some entry has is found.
pub proof fn lemma_find_entry_present(tracks: Seq<EntryModel>, id: Seq<char>)
    requires
        track_ids(tracks).contains(id),
    ensures
        find_entry(tracks, id) is Some,
{
    lemma_find_entry_found(tracks, id);
    if find_entry(tracks, id) is None {
        let j = choose|j: int| 0 <= j < track_ids(tracks).len() && track_ids(tracks)[j] == id;
        assert(tracks[j].id == id);
    }
}

} // verus!
