//! What every command keeps true of the daemon's state.

use vstd::prelude::*;
use crate::media_model::{empty_queue, push_recent_model, EntryModel, OrderMode, QueueModel};
use crate::protocol::{CommandModel, EventModel};
use crate::queue::{
    find_entry, lemma_find_entry_found, lemma_shuffled_permutes, q_number, resolve_uid, shuffled,
    track_ids,
};
use crate::runtime::{consistent, ready};
use crate::runtime_model::{
    add_entry, entry_id, ensure_selected, insert_position, manual_entry, push_all, push_one,
    rebuild, record, to_front, active, after_removal, at, clear_spec, history_target, other_than,
    remove_spec, replace_current, with_queue, apply_spec, current_entry_id, order_from,
    reset_queue, next_after_finish, order_mode_spec, pause_spec, play_spec, resolved, stop_spec,
    finish_spec, FinishModel, RuntimeModel,
    HISTORY_LIMIT,
};
use crate::text::{lemma_parse_decimal, decimal};

verus! {

/// A tidy queue: entry ids and play-order ids are each without repeats, the
/// play order holds exactly the entry ids, the position is inside the play
/// order, and every `q<n>` id has a number below `next`.
pub open spec fn tidy_queue(q: QueueModel, next: u64) -> bool {
    &&& track_ids(q.tracks).no_duplicates()
    &&& q.order.no_duplicates()
    &&& forall|x: Seq<char>| #[trigger] q.order.contains(x) <==> track_ids(q.tracks).contains(x)
    &&& q.current matches Some(i) ==> i < q.order.len()
    &&& next >= 1
    &&& forall|k: int|
        0 <= k < q.tracks.len() ==> match #[trigger] q_number(q.tracks[k].id) {
            Some(n) => n < next,
            None => true,
        }
}

/// A tidy state: a tidy queue and a history within its limit.
pub open spec fn tidy(m: RuntimeModel) -> bool {
    &&& tidy_queue(m.queue, m.next_id)
    &&& m.history.len() <= HISTORY_LIMIT
}

/// A tidy queue is consistent: every play-order id names an entry.
pub proof fn lemma_tidy_consistent(q: QueueModel, next: u64)
    requires
        tidy_queue(q, next),
    ensures
        consistent(q),
{
    assert forall|i: int| 0 <= i < q.order.len() implies track_ids(q.tracks).contains(
        #[trigger] q.order[i],
    ) by {
        assert(q.order.contains(q.order[i]));
    }
}

proof fn lemma_entry_id_number(n: u64)
    ensures
        q_number(entry_id(n)) == Some(n as nat),
{
    lemma_parse_decimal(n as nat, u64::MAX as nat);
    assert(entry_id(n).drop_first() =~= decimal(n as nat));
}

/// The next queue entry id is not taken.
proof fn lemma_entry_id_fresh(q: QueueModel, next: u64)
    requires
        tidy_queue(q, next),
    ensures
        !track_ids(q.tracks).contains(entry_id(next)),
        !q.order.contains(entry_id(next)),
{
    lemma_entry_id_number(next);
    if track_ids(q.tracks).contains(entry_id(next)) {
        let k = choose|k: int| 0 <= k < track_ids(q.tracks).len() && track_ids(q.tracks)[k] == entry_id(next);
        assert(q.tracks[k].id == entry_id(next));
        assert(q_number(q.tracks[k].id) == Some(next as nat));
    }
}

proof fn lemma_ids_push(tracks: Seq<EntryModel>, e: EntryModel)
    ensures
        track_ids(tracks.push(e)) == track_ids(tracks).push(e.id),
{
    assert(track_ids(tracks.push(e)) =~= track_ids(tracks).push(e.id));
}

proof fn lemma_push_contains(s: Seq<Seq<char>>, a: Seq<char>, x: Seq<char>)
    ensures
        s.push(a).contains(x) <==> (s.contains(x) || x == a),
{
    if s.push(a).contains(x) && x != a {
        let j = choose|j: int| 0 <= j < s.push(a).len() && s.push(a)[j] == x;
        assert(s[j] == x);
    }
    if s.contains(x) {
        let j = choose|j: int| 0 <= j < s.len() && s[j] == x;
        assert(s.push(a)[j] == x);
    }
    if x == a {
        assert(s.push(a)[s.len() as int] == x);
    }
}

proof fn lemma_push_no_dup(s: Seq<Seq<char>>, a: Seq<char>)
    requires
        s.no_duplicates(),
        !s.contains(a),
    ensures
        s.push(a).no_duplicates(),
{
    let t = s.push(a);
    assert forall|i: int, j: int| 0 <= i < t.len() && 0 <= j < t.len() && i != j implies t[i] != t[j] by {
        if i == s.len() {
            assert(s.contains(t[j]));
        } else if j == s.len() {
            assert(s.contains(t[i]));
        }
    }
}

/// Adding an entry under a fresh id keeps the queue tidy with the next number.
proof fn lemma_add_entry_tidy(m: RuntimeModel, t: Seq<char>)
    requires
        tidy_queue(m.queue, m.next_id),
        m.next_id < u64::MAX,
    ensures
        track_ids(add_entry(m, t).queue.tracks) == track_ids(m.queue.tracks).push(entry_id(m.next_id)),
        track_ids(add_entry(m, t).queue.tracks).no_duplicates(),
        add_entry(m, t).next_id == m.next_id + 1,
        forall|k: int|
            0 <= k < add_entry(m, t).queue.tracks.len() ==> match #[trigger] q_number(
                add_entry(m, t).queue.tracks[k].id,
            ) {
                Some(n) => n < add_entry(m, t).next_id,
                None => true,
            },
{
    let m1 = add_entry(m, t);
    let e = manual_entry(entry_id(m.next_id), t);
    lemma_ids_push(m.queue.tracks, e);
    lemma_entry_id_fresh(m.queue, m.next_id);
    lemma_push_no_dup(track_ids(m.queue.tracks), entry_id(m.next_id));
    lemma_entry_id_number(m.next_id);
    assert forall|k: int| 0 <= k < m1.queue.tracks.len() implies match #[trigger] q_number(
        m1.queue.tracks[k].id,
    ) {
        Some(n) => n < m1.next_id,
        None => true,
    } by {
        if k < m.queue.tracks.len() {
            assert(m1.queue.tracks[k] == m.queue.tracks[k]);
        }
    }
}

/// Queuing a track last keeps the queue tidy and leaves the position alone.
pub proof fn lemma_push_one_tidy(m: RuntimeModel, t: Seq<char>)
    requires
        tidy_queue(m.queue, m.next_id),
        m.next_id < u64::MAX,
    ensures
        tidy_queue(push_one(m, t).queue, push_one(m, t).next_id),
        push_one(m, t).queue.order.len() == m.queue.order.len() + 1,
        push_one(m, t).queue.current == m.queue.current,
        push_one(m, t).history == m.history,
{
    let m1 = push_one(m, t);
    let id = entry_id(m.next_id);
    lemma_add_entry_tidy(m, t);
    lemma_entry_id_fresh(m.queue, m.next_id);
    lemma_push_no_dup(m.queue.order, id);
    assert forall|x: Seq<char>| #[trigger] m1.queue.order.contains(x) <==> track_ids(
        m1.queue.tracks,
    ).contains(x) by {
        lemma_push_contains(m.queue.order, id, x);
        lemma_push_contains(track_ids(m.queue.tracks), id, x);
    }
}

/// Selecting a position keeps the queue tidy.
pub proof fn lemma_ensure_selected_tidy(m: RuntimeModel)
    requires
        tidy_queue(m.queue, m.next_id),
    ensures
        tidy_queue(ensure_selected(m).queue, ensure_selected(m).next_id),
        ensure_selected(m).history == m.history,
{
}

/// Recording a play keeps the queue and keeps the history within its limit.
pub proof fn lemma_record_tidy(m: RuntimeModel, now: u64)
    requires
        m.history.len() <= HISTORY_LIMIT,
    ensures
        record(m, now).queue == m.queue,
        record(m, now).next_id == m.next_id,
        record(m, now).history.len() <= HISTORY_LIMIT,
{
}

proof fn lemma_insert_contains(s: Seq<Seq<char>>, i: int, a: Seq<char>, x: Seq<char>)
    requires
        0 <= i <= s.len(),
    ensures
        s.insert(i, a).contains(x) <==> (s.contains(x) || x == a),
        s.insert(i, a).len() == s.len() + 1,
{
    let t = s.insert(i, a);
    s.insert_ensures(i, a);
    if t.contains(x) && x != a {
        let j = choose|j: int| 0 <= j < t.len() && t[j] == x;
        if j < i {
            assert(s[j] == x);
        } else {
            assert(j != i);
            assert(s[j - 1] == x);
        }
    }
    if s.contains(x) {
        let j = choose|j: int| 0 <= j < s.len() && s[j] == x;
        if j < i {
            assert(t[j] == x);
        } else {
            assert(t[j + 1] == x);
        }
    }
    if x == a {
        assert(t[i] == x);
    }
}

proof fn lemma_insert_no_dup(s: Seq<Seq<char>>, i: int, a: Seq<char>)
    requires
        0 <= i <= s.len(),
        s.no_duplicates(),
        !s.contains(a),
    ensures
        s.insert(i, a).no_duplicates(),
{
    let t = s.insert(i, a);
    s.insert_ensures(i, a);
    assert forall|p: int, q: int| 0 <= p < t.len() && 0 <= q < t.len() && p != q implies t[p] != t[q] by {
        let sp = if p < i { p } else { p - 1 };
        let sq = if q < i { q } else { q - 1 };
        if p == i {
            assert(s.contains(t[q]));
        } else if q == i {
            assert(s.contains(t[p]));
        } else {
            assert(t[p] == s[sp]);
            assert(t[q] == s[sq]);
        }
    }
}

/// Queuing a track after the current position keeps the queue tidy.
pub proof fn lemma_insert_next_tidy(m: RuntimeModel, t: Seq<char>)
    requires
        tidy_queue(m.queue, m.next_id),
        m.next_id < u64::MAX,
    ensures
        ({
            let m1 = add_entry(m, t);
            let q = QueueModel {
                order: m1.queue.order.insert(insert_position(m1.queue), entry_id(m.next_id)),
                ..m1.queue
            };
            tidy_queue(q, m1.next_id) && m1.history == m.history
        }),
{
    let m1 = add_entry(m, t);
    let id = entry_id(m.next_id);
    let pos = insert_position(m1.queue);
    lemma_add_entry_tidy(m, t);
    lemma_entry_id_fresh(m.queue, m.next_id);
    lemma_insert_no_dup(m.queue.order, pos, id);
    assert forall|x: Seq<char>| #[trigger] m1.queue.order.insert(pos, id).contains(x) <==> track_ids(
        m1.queue.tracks,
    ).contains(x) by {
        lemma_insert_contains(m.queue.order, pos, id, x);
        lemma_push_contains(track_ids(m.queue.tracks), id, x);
    }
    lemma_insert_contains(m.queue.order, pos, id, id);
}

/// Queuing tracks one after another keeps the queue tidy.
pub proof fn lemma_push_all_tidy(m: RuntimeModel, ts: Seq<Seq<char>>)
    requires
        tidy_queue(m.queue, m.next_id),
        m.next_id + ts.len() < u64::MAX,
    ensures
        tidy_queue(push_all(m, ts).queue, push_all(m, ts).next_id),
        push_all(m, ts).queue.order.len() == m.queue.order.len() + ts.len(),
        push_all(m, ts).next_id == m.next_id + ts.len(),
        push_all(m, ts).history == m.history,
        push_all(m, ts).queue.current == m.queue.current,
        push_all(m, ts).queue.order_mode == m.queue.order_mode,
    decreases ts.len(),
{
    if ts.len() > 0 {
        lemma_push_all_tidy(m, ts.drop_last());
        lemma_push_one_tidy(push_all(m, ts.drop_last()), ts.last());
    }
}

proof fn lemma_no_dup_from_multiset(s: Seq<Seq<char>>, t: Seq<Seq<char>>)
    requires
        s.no_duplicates(),
        t.to_multiset() == s.to_multiset(),
    ensures
        t.no_duplicates(),
        forall|x: Seq<char>| #[trigger] t.contains(x) <==> s.contains(x),
{
    broadcast use vstd::seq_lib::to_multiset_contains;
    s.lemma_multiset_has_no_duplicates();
    t.lemma_multiset_has_no_duplicates_conv();
    assert forall|x: Seq<char>| #[trigger] t.contains(x) <==> s.contains(x) by {
        vstd::seq_lib::to_multiset_contains(t, x);
        vstd::seq_lib::to_multiset_contains(s, x);
    }
}

proof fn lemma_to_front_keeps(s: Seq<Seq<char>>, cur: Option<Seq<char>>)
    requires
        s.no_duplicates(),
    ensures
        to_front(s, cur).no_duplicates(),
        to_front(s, cur).len() == s.len(),
        forall|x: Seq<char>| #[trigger] to_front(s, cur).contains(x) <==> s.contains(x),
{
    match cur {
        Some(c) => {
            match s.index_of_first(c) {
                Some(i) => {
                    s.index_of_first_ensures(c);
                    let r = s.remove(i);
                    s.remove_ensures(i);
                    let t = seq![s[i]] + r;
                    assert(t =~= r.insert(0, s[i]));
                    assert(!r.contains(s[i])) by {
                        if r.contains(s[i]) {
                            let j = choose|j: int| 0 <= j < r.len() && r[j] == s[i];
                            if j < i {
                                assert(s[j] == s[i]);
                            } else {
                                assert(s[j + 1] == s[i]);
                            }
                        }
                    }
                    assert(r.no_duplicates()) by {
                        assert forall|p: int, q: int| 0 <= p < r.len() && 0 <= q < r.len() && p != q implies r[p] != r[q] by {
                            let sp = if p < i { p } else { p + 1 };
                            let sq = if q < i { q } else { q + 1 };
                            assert(r[p] == s[sp]);
                            assert(r[q] == s[sq]);
                        }
                    }
                    lemma_insert_no_dup(r, 0, s[i]);
                    assert forall|x: Seq<char>| #[trigger] t.contains(x) <==> s.contains(x) by {
                        lemma_insert_contains(r, 0, s[i], x);
                        if s.contains(x) && x != s[i] {
                            let j = choose|j: int| 0 <= j < s.len() && s[j] == x;
                            if j < i {
                                assert(r[j] == x);
                            } else {
                                assert(j != i);
                                assert(r[j - 1] == x);
                            }
                        }
                        if r.contains(x) {
                            let j = choose|j: int| 0 <= j < r.len() && r[j] == x;
                            if j < i {
                                assert(s[j] == x);
                            } else {
                                assert(s[j + 1] == x);
                            }
                        }
                    }
                },
                None => {},
            }
        },
        None => {},
    }
}

/// Rebuilding the play order from tidy entries gives a tidy queue.
pub proof fn lemma_rebuild_tidy(q: QueueModel, next: u64, cur: Option<Seq<char>>, clock_nanos: u64)
    requires
        tidy_queue(q, next),
        q.tracks.len() <= usize::MAX,
    ensures
        tidy_queue(rebuild(q, cur, clock_nanos), next),
        rebuild(q, cur, clock_nanos).tracks == q.tracks,
        rebuild(q, cur, clock_nanos).order.len() == q.tracks.len(),
{
    let base = track_ids(q.tracks);
    let r = rebuild(q, cur, clock_nanos);
    if q.order_mode == OrderMode::Shuffle {
        lemma_shuffled_permutes(base, clock_nanos);
        lemma_no_dup_from_multiset(base, shuffled(base, clock_nanos));
        lemma_to_front_keeps(shuffled(base, clock_nanos), cur);
    }
    match cur {
        Some(c) => {
            r.order.index_of_first_ensures(c);
        },
        None => {},
    }
}

/// Rebuilding the play order, from any entries whose ids do not repeat, keeps
/// the entries and modes; the new play order holds each entry id once; in
/// sequential order it is the entries' order; shuffled, the entry `cur` comes
/// first; the position is that of `cur` when it is an entry, else the first
/// one, or none when the queue is empty.
pub proof fn lemma_rebuild_permutes(q: QueueModel, cur: Option<Seq<char>>, clock_nanos: u64)
    requires
        track_ids(q.tracks).no_duplicates(),
        q.tracks.len() <= usize::MAX,
    ensures
        ({
            let r = rebuild(q, cur, clock_nanos);
            let ids = track_ids(q.tracks);
            &&& r.tracks == q.tracks
            &&& r.order_mode == q.order_mode
            &&& r.repeat_mode == q.repeat_mode
            &&& r.order.no_duplicates()
            &&& r.order.len() == ids.len()
            &&& forall|x: Seq<char>| #[trigger] r.order.contains(x) <==> ids.contains(x)
            &&& q.order_mode != OrderMode::Shuffle ==> r.order == ids
            &&& (q.order_mode == OrderMode::Shuffle && (cur matches Some(c) && ids.contains(c))) ==> r.order[0]
                == cur.unwrap()
            &&& (cur matches Some(c) && ids.contains(c)) ==> (r.current matches Some(i) && i < r.order.len()
                && r.order[i as int] == cur.unwrap())
            &&& !(cur matches Some(c) && ids.contains(c)) ==> r.current == (if ids.len() > 0 {
                Some(0usize)
            } else {
                None::<usize>
            })
        }),
{
    let base = track_ids(q.tracks);
    let r = rebuild(q, cur, clock_nanos);
    if q.order_mode == OrderMode::Shuffle {
        lemma_shuffled_permutes(base, clock_nanos);
        lemma_no_dup_from_multiset(base, shuffled(base, clock_nanos));
        lemma_to_front_keeps(shuffled(base, clock_nanos), cur);
        let sh = shuffled(base, clock_nanos);
        match cur {
            Some(c) => {
                if base.contains(c) {
                    assert(sh.contains(c));
                    sh.index_of_first_ensures(c);
                    let i = sh.index_of_first(c).unwrap();
                    assert(to_front(sh, cur)[0] == sh[i]);
                }
            },
            None => {},
        }
    }
    match cur {
        Some(c) => {
            r.order.index_of_first_ensures(c);
            if !base.contains(c) {
                assert(!r.order.contains(c));
            }
        },
        None => {},
    }
}

proof fn lemma_ids_drop_last(tracks: Seq<EntryModel>)
    requires
        tracks.len() > 0,
    ensures
        track_ids(tracks) == track_ids(tracks.drop_last()).push(tracks.last().id),
{
    assert(track_ids(tracks) =~= track_ids(tracks.drop_last()).push(tracks.last().id));
}

/// Dropping the entries with id `id` keeps ids unrepeated and takes exactly
/// `id` out of them.
proof fn lemma_filter_ids(tracks: Seq<EntryModel>, id: Seq<char>)
    requires
        track_ids(tracks).no_duplicates(),
    ensures
        track_ids(tracks.filter(other_than(id))).no_duplicates(),
        forall|x: Seq<char>| #[trigger] track_ids(tracks.filter(other_than(id))).contains(x) <==> (
        track_ids(tracks).contains(x) && x != id),
    decreases tracks.len(),
{
    reveal(Seq::filter);
    let p = other_than(id);
    if tracks.len() == 0 {
        assert(tracks.filter(p) =~= tracks);
    } else {
        let rest = tracks.drop_last();
        let e = tracks.last();
        lemma_ids_drop_last(tracks);
        assert(track_ids(rest).no_duplicates()) by {
            let a = track_ids(rest);
            let b = track_ids(tracks);
            assert forall|i: int, j: int| 0 <= i < a.len() && 0 <= j < a.len() && i != j implies a[i] != a[j] by {
                assert(a[i] == b[i]);
                assert(a[j] == b[j]);
            }
        }
        lemma_filter_ids(rest, id);
        let fr = rest.filter(p);
        assert(!track_ids(rest).contains(e.id)) by {
            if track_ids(rest).contains(e.id) {
                let j = choose|j: int| 0 <= j < track_ids(rest).len() && track_ids(rest)[j] == e.id;
                assert(track_ids(tracks)[j] == track_ids(tracks)[tracks.len() - 1]);
            }
        }
        if p(e) {
            assert(tracks.filter(p) == fr.push(e));
            lemma_ids_push(fr, e);
            assert(!track_ids(fr).contains(e.id));
            lemma_push_no_dup(track_ids(fr), e.id);
            assert forall|x: Seq<char>| #[trigger] track_ids(tracks.filter(p)).contains(x) <==> (
            track_ids(tracks).contains(x) && x != id) by {
                lemma_push_contains(track_ids(fr), e.id, x);
                lemma_push_contains(track_ids(rest), e.id, x);
            }
        } else {
            assert(tracks.filter(p) == fr);
            assert forall|x: Seq<char>| #[trigger] track_ids(tracks.filter(p)).contains(x) <==> (
            track_ids(tracks).contains(x) && x != id) by {
                lemma_push_contains(track_ids(rest), e.id, x);
            }
        }
    }
}

/// Every entry left after dropping some was an entry before.
proof fn lemma_filter_numbers(tracks: Seq<EntryModel>, id: Seq<char>, next: u64)
    requires
        forall|k: int|
            0 <= k < tracks.len() ==> match #[trigger] q_number(tracks[k].id) {
                Some(n) => n < next,
                None => true,
            },
    ensures
        forall|k: int|
            0 <= k < tracks.filter(other_than(id)).len() ==> match #[trigger] q_number(
                tracks.filter(other_than(id))[k].id,
            ) {
                Some(n) => n < next,
                None => true,
            },
{
    let f = tracks.filter(other_than(id));
    assert forall|k: int| 0 <= k < f.len() implies match #[trigger] q_number(f[k].id) {
        Some(n) => n < next,
        None => true,
    } by {
        assert(f.contains(f[k]));
        tracks.lemma_filter_contains_rev(other_than(id), f[k]);
        let j = choose|j: int| 0 <= j < tracks.len() && tracks[j] == f[k];
        assert(q_number(tracks[j].id) == q_number(f[k].id));
    }
}

proof fn lemma_remove_keeps(s: Seq<Seq<char>>, r: int)
    requires
        0 <= r < s.len(),
        s.no_duplicates(),
    ensures
        s.remove(r).no_duplicates(),
        s.remove(r).len() == s.len() - 1,
        forall|x: Seq<char>| #[trigger] s.remove(r).contains(x) <==> (s.contains(x) && x != s[r]),
{
    let t = s.remove(r);
    s.remove_ensures(r);
    assert forall|p: int, q: int| 0 <= p < t.len() && 0 <= q < t.len() && p != q implies t[p] != t[q] by {
        let sp = if p < r { p } else { p + 1 };
        let sq = if q < r { q } else { q + 1 };
        assert(t[p] == s[sp]);
        assert(t[q] == s[sq]);
    }
    assert forall|x: Seq<char>| #[trigger] t.contains(x) <==> (s.contains(x) && x != s[r]) by {
        if t.contains(x) {
            let j = choose|j: int| 0 <= j < t.len() && t[j] == x;
            let sj = if j < r { j } else { j + 1 };
            assert(s[sj] == x);
        }
        if s.contains(x) && x != s[r] {
            let j = choose|j: int| 0 <= j < s.len() && s[j] == x;
            if j < r {
                assert(t[j] == x);
            } else {
                assert(j != r);
                assert(t[j - 1] == x);
            }
        }
    }
}

/// Removing a queue entry keeps the state tidy.
pub proof fn lemma_remove_tidy(m: RuntimeModel, id: Seq<char>, now: u64)
    requires
        tidy(m),
    ensures
        tidy(remove_spec(m, id, now).0),
{
    match m.queue.order.index_of_first(id) {
        None => {},
        Some(r) => {
            m.queue.order.index_of_first_ensures(id);
            let q = QueueModel {
                order: m.queue.order.remove(r),
                tracks: m.queue.tracks.filter(other_than(id)),
                ..m.queue
            };
            lemma_remove_keeps(m.queue.order, r);
            lemma_filter_ids(m.queue.tracks, id);
            lemma_filter_numbers(m.queue.tracks, id, m.next_id);
            assert forall|x: Seq<char>| #[trigger] q.order.contains(x) <==> track_ids(q.tracks).contains(x) by {
                assert(m.queue.order.contains(x) <==> track_ids(m.queue.tracks).contains(x));
            }
            let mq = with_queue(m, at(q, None));
            let was_active = active(m.state);
            let (m1, ev, ph) = after_removal(with_queue(m, q), r, was_active, now);
            assert(tidy_queue(m1.queue, m1.next_id));
            assert(m1.history.len() <= HISTORY_LIMIT);
        },
    }
}

/// Emptying the queue leaves it tidy.
pub proof fn lemma_clear_tidy(m: RuntimeModel)
    requires
        tidy(m),
    ensures
        tidy(clear_spec(m).0),
{
    assert(track_ids(empty_queue().tracks) =~= Seq::<Seq<char>>::empty());
}

/// Overwriting the current entry with another track keeps the state tidy.
pub proof fn lemma_replace_current_tidy(m: RuntimeModel, t: Seq<char>)
    requires
        tidy(m),
        m.next_id < u64::MAX,
    ensures
        tidy(replace_current(m, t)),
{
    if m.queue.order.len() == 0 {
        lemma_push_one_tidy(m, t);
    } else {
        let target = history_target(m.queue);
        let id = m.queue.order[target];
        lemma_tidy_consistent(m.queue, m.next_id);
        crate::queue::lemma_find_entry_present(m.queue.tracks, id);
        lemma_find_entry_found(m.queue.tracks, id);
        let k = find_entry(m.queue.tracks, id).unwrap() as int;
        let tracks2 = m.queue.tracks.update(k, manual_entry(id, t));
        assert(track_ids(tracks2) =~= track_ids(m.queue.tracks));
        assert forall|j: int| 0 <= j < tracks2.len() implies match #[trigger] q_number(tracks2[j].id) {
            Some(n) => n < m.next_id,
            None => true,
        } by {
            assert(tracks2[j].id == m.queue.tracks[j].id);
        }
    }
}

/// Whether the queue can still grow by `extra` entries within a `Vec`.
pub open spec fn room(m: RuntimeModel, c: CommandModel) -> bool {
    &&& m.queue.tracks.len() < usize::MAX
    &&& match c {
        CommandModel::QueuePlay(ts) => ts.len() <= usize::MAX,
        CommandModel::QueueReplace(ts) => ts.len() <= usize::MAX,
        _ => true,
    }
}

proof fn lemma_reset_tidy(m: RuntimeModel)
    ensures
        tidy_queue(reset_queue(m).queue, reset_queue(m).next_id),
        reset_queue(m).history == m.history,
{
    assert(track_ids(reset_queue(m).queue.tracks) =~= Seq::<Seq<char>>::empty());
}

proof fn lemma_fill_tidy(m: RuntimeModel, ts: Seq<Seq<char>>, clock_nanos: u64)
    requires
        m.history.len() <= HISTORY_LIMIT,
        ts.len() > 0,
        ts.len() + 1 < u64::MAX,
        ts.len() <= usize::MAX,
    ensures
        ({
            let m1 = push_all(reset_queue(m), ts);
            let q = rebuild(at(m1.queue, Some(0usize)), Some(m1.queue.order[0]), clock_nanos);
            &&& tidy_queue(q, m1.next_id)
            &&& m1.history == m.history
            &&& q.current is Some
            &&& q.order.len() > 0
        }),
{
    lemma_reset_tidy(m);
    let m0 = reset_queue(m);
    lemma_push_all_tidy(m0, ts);
    let m1 = push_all(m0, ts);
    let q0 = at(m1.queue, Some(0usize));
    assert(track_ids(m1.queue.tracks).len() == m1.queue.tracks.len());
    assert(m1.queue.order.len() == ts.len());
    assert(m1.queue.tracks.len() == m1.queue.order.len()) by {
        m1.queue.order.unique_seq_to_set();
        track_ids(m1.queue.tracks).unique_seq_to_set();
        assert(m1.queue.order.to_set() =~= track_ids(m1.queue.tracks).to_set());
    }
    lemma_rebuild_tidy(q0, m1.next_id, Some(m1.queue.order[0]), clock_nanos);
    assert(m1.queue.order.contains(m1.queue.order[0]));
    let q = rebuild(q0, Some(m1.queue.order[0]), clock_nanos);
    assert(tidy_queue(q, m1.next_id));
    assert(m1.history == m.history);
    assert(q.order.contains(m1.queue.order[0]));
    assert(q.order.len() > 0);
    assert(q.current is Some);
}

/// Every command keeps the daemon's state tidy: entry ids and play-order ids
/// without repeats, the play order holding exactly the entry ids, the position
/// inside it, new ids never taken before, and at most `HISTORY_LIMIT` plays in
/// the history.
pub proof fn lemma_apply_keeps_tidy(m: RuntimeModel, c: CommandModel, now: u64, clock_nanos: u64)
    requires
        tidy(m),
        ready(m, c),
        room(m, c),
    ensures
        tidy(apply_spec(m, c, now, clock_nanos).0),
{
    if !crate::runtime::read_only(c) {
        lemma_changing_command_keeps_tidy(m, c, now, clock_nanos);
    }
}

proof fn lemma_changing_command_keeps_tidy(m: RuntimeModel, c: CommandModel, now: u64, clock_nanos: u64)
    requires
        tidy(m),
        !crate::runtime::read_only(c),
        crate::runtime::consistent(m.queue),
        m.next_id < u64::MAX,
        ready(m, c),
        room(m, c),
    ensures
        tidy(apply_spec(m, c, now, clock_nanos).0),
{
    match c {
        CommandModel::Play(t) => {
            if !(m.state == crate::protocol::PlaybackState::Paused && m.current_track == Some(t)) {
                lemma_push_one_tidy(m, t);
            }
        },
        CommandModel::QueueAppend(t) => {
            lemma_push_one_tidy(m, t);
            lemma_ensure_selected_tidy(push_one(m, t));
        },
        CommandModel::QueueInsertNext(t) => {
            lemma_insert_next_tidy(m, t);
            let m1 = add_entry(m, t);
            let q = QueueModel {
                order: m1.queue.order.insert(insert_position(m1.queue), entry_id(m.next_id)),
                ..m1.queue
            };
            lemma_ensure_selected_tidy(with_queue(m1, q));
        },
        CommandModel::QueueRemove(id) => {
            lemma_remove_tidy(m, id, now);
        },
        CommandModel::QueueClear => {
            lemma_clear_tidy(m);
        },
        CommandModel::QueuePlay(ts) => {
            if ts.len() > 0 {
                lemma_fill_tidy(m, ts, clock_nanos);
            }
        },
        CommandModel::QueueReplace(ts) => {
            lemma_reset_tidy(m);
            lemma_push_all_tidy(reset_queue(m), ts);
            if ts.len() > 0 {
                lemma_fill_tidy(m, ts, clock_nanos);
            }
        },
        CommandModel::SetOrderMode(raw) => {
            match order_from(raw) {
                Some(mode) => {
                    let q = QueueModel { order_mode: mode, ..m.queue };
                    lemma_rebuild_tidy(q, m.next_id, current_entry_id(m.queue), clock_nanos);
                },
                None => {},
            }
        },
        CommandModel::PlayHistory(t) => {
            lemma_replace_current_tidy(m, t);
        },
        _ => {},
    }
}

/// The daemon starts tidy.
pub proof fn lemma_new_tidy(m: RuntimeModel)
    requires
        m.queue == empty_queue(),
        m.history.len() == 0,
        m.next_id == 1,
    ensures
        tidy(m),
{
    assert(track_ids(m.queue.tracks) =~= Seq::<Seq<char>>::empty());
}

/// Changing the order mode keeps the track at the position the current one.
pub proof fn lemma_order_mode_keeps_track(m: RuntimeModel, raw: Seq<char>, clock_nanos: u64)
    requires
        tidy(m),
        m.queue.tracks.len() <= usize::MAX,
        order_from(raw) is Some,
        m.queue.current is Some,
    ensures
        order_mode_spec(m, raw, clock_nanos).0.current_track == resolved(m),
{
    let mode = order_from(raw).unwrap();
    let q0 = QueueModel { order_mode: mode, ..m.queue };
    let cur = current_entry_id(m.queue);
    let i = m.queue.current.unwrap();
    let id = m.queue.order[i as int];
    assert(m.queue.order.contains(id));
    lemma_rebuild_tidy(q0, m.next_id, cur, clock_nanos);
    let q = rebuild(q0, cur, clock_nanos);
    assert(q.order.contains(id));
    q.order.index_of_first_ensures(id);
    let j = q.order.index_of_first(id).unwrap();
    assert(q.current == Some(j as usize));
    assert(q.order[j] == id);
}

/// Stopping keeps the queue and its position.
pub proof fn lemma_stop_keeps_position(m: RuntimeModel)
    ensures
        stop_spec(m).0.queue == m.queue,
        stop_spec(m).0.current_track == resolved(m),
        stop_spec(m).0.state == crate::protocol::PlaybackState::Stopped,
{
}

/// Playing the track that was just paused resumes it without touching the
/// queue or the history.
pub proof fn lemma_pause_then_play_resumes(m: RuntimeModel, t: Seq<char>, now: u64)
    requires
        active(m.state),
        m.current_track == Some(t),
    ensures
        ({
            let (m1, o1) = pause_spec(m);
            let (m2, o2) = play_spec(m1, t, now);
            &&& m2.state == crate::protocol::PlaybackState::QuietActive
            &&& m2.queue == m.queue
            &&& m2.history == m.history
            &&& o1.events == seq![crate::protocol::EventModel::PlaybackPaused]
            &&& o2.events == seq![crate::protocol::EventModel::PlaybackResumed]
        }),
{
}

/// With repeat all, finishing the last track of the queue starts the first.
pub proof fn lemma_repeat_all_wraps(q: QueueModel)
    requires
        q.repeat_mode == crate::media_model::RepeatMode::All,
        0 < q.order.len() <= usize::MAX,
        q.current == Some((q.order.len() - 1) as usize),
    ensures
        next_after_finish(q) == Some(0usize),
{
    let n = q.order.len() as int;
    assert(((n - 1) + 1) % n == 0) by (nonlinear_arith)
        requires
            n > 0,
    ;
}

/// From a position inside the queue, the position after the current track
/// finishes is: the same one with repeat one; the next one, or the first
/// after the last, with repeat all; the next one, or none after the last,
/// with repeat off.
pub proof fn lemma_finish_position(q: QueueModel)
    requires
        q.current matches Some(i) && i < q.order.len(),
        q.order.len() <= usize::MAX,
    ensures
        ({
            let i = q.current.unwrap();
            let n = q.order.len();
            &&& q.repeat_mode == crate::media_model::RepeatMode::One ==> next_after_finish(q) == Some(i)
            &&& q.repeat_mode == crate::media_model::RepeatMode::All ==> next_after_finish(q) == Some(
                if i + 1 < n {
                    (i + 1) as usize
                } else {
                    0usize
                },
            )
            &&& q.repeat_mode == crate::media_model::RepeatMode::Off ==> next_after_finish(q) == (if i + 1 < n {
                Some((i + 1) as usize)
            } else {
                None::<usize>
            })
        }),
{
    let i = q.current.unwrap() as int;
    let n = q.order.len() as int;
    if i + 1 < n {
        assert((i + 1) % n == i + 1) by (nonlinear_arith)
            requires
                0 <= i + 1 < n,
        ;
    } else {
        assert((i + 1) % n == 0) by (nonlinear_arith)
            requires
                i + 1 == n,
                n > 0,
        ;
    }
}

/// With repeat one, when the current track finishes while it plays, the same
/// position plays again: its track is started and stays current.
pub proof fn lemma_repeat_one_replays(m: RuntimeModel, t: Seq<char>, now: u64)
    requires
        m.current_track == Some(t),
        m.state == crate::protocol::PlaybackState::QuietActive,
        m.queue.repeat_mode == crate::media_model::RepeatMode::One,
        m.queue.current matches Some(i) && i < m.queue.order.len(),
        m.queue.order.len() <= usize::MAX,
        resolve_uid(m.queue, m.queue.current) is Some,
    ensures
        finish_spec(m, t, now).1 == FinishModel::Start(resolve_uid(m.queue, m.queue.current).unwrap()),
        finish_spec(m, t, now).0.queue.current == m.queue.current,
        finish_spec(m, t, now).0.current_track == resolve_uid(m.queue, m.queue.current),
        finish_spec(m, t, now).0.queue.order == m.queue.order,
{
    lemma_finish_position(m.queue);
    assert(at(m.queue, m.queue.current) == m.queue);
}

/// PREV from a position after the first moves one position back, and NEXT from
/// a position before the last one position on; the play order and the entries
/// stay, output starts, and the track at the new position becomes current and
/// is announced.
pub proof fn lemma_step_moves_by_one(m: RuntimeModel, forward: bool, now: u64, clock_nanos: u64)
    requires
        m.queue.current matches Some(i) && (if forward {
            i + 1 < m.queue.order.len()
        } else {
            0 < i < m.queue.order.len()
        }),
        m.queue.order.len() <= usize::MAX,
    ensures
        ({
            let c = if forward {
                CommandModel::Next
            } else {
                CommandModel::Prev
            };
            let (m1, o) = apply_spec(m, c, now, clock_nanos);
            let i = m.queue.current.unwrap() as int;
            let j = if forward {
                i + 1
            } else {
                i - 1
            };
            &&& m1.queue.current == Some(j as usize)
            &&& m1.queue.order == m.queue.order
            &&& m1.queue.tracks == m.queue.tracks
            &&& m1.state == crate::protocol::PlaybackState::QuietActive
            &&& resolve_uid(m.queue, Some(j as usize)) matches Some(t) ==> m1.current_track == Some(t)
                && o.events == seq![EventModel::TrackChanged { track_id: t }]
        }),
{
    let i = m.queue.current.unwrap() as int;
    let j = if forward {
        i + 1
    } else {
        i - 1
    };
    assert(at(m.queue, Some(j as usize)).order == m.queue.order);
    assert(resolve_uid(at(m.queue, Some(j as usize)), Some(j as usize)) == resolve_uid(m.queue, Some(j as usize)));
}

/// With repeat off, finishing the last track of the queue moves nowhere.
pub proof fn lemma_repeat_off_ends(q: QueueModel)
    requires
        q.repeat_mode == crate::media_model::RepeatMode::Off,
        0 < q.order.len() <= usize::MAX,
        q.current == Some((q.order.len() - 1) as usize),
    ensures
        next_after_finish(q) is None,
{
}

} // verus!
