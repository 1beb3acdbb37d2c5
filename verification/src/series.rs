//! Time series keyed by epoch seconds: canonical sorted form and last-known-value lookup.
use vstd::prelude::*;

use crate::order::is_time_order;
use crate::time::Timestamp;

verus! {

/// Keys strictly increase along `s`.
pub open spec fn strictly_sorted<V>(s: Seq<(i64, V)>) -> bool {
    forall|i: int, j: int| 0 <= i < j < s.len() ==> s[i].0 < s[j].0
}

/// Keys never decrease along `s`.
pub open spec fn sorted_by_key<V>(s: Seq<(i64, V)>) -> bool {
    forall|i: int, j: int| 0 <= i <= j < s.len() ==> s[i].0 <= s[j].0
}

/// `k` is the key of some element of `s`.
pub open spec fn has_key<V>(s: Seq<(i64, V)>, k: i64) -> bool {
    exists|i: int| 0 <= i < s.len() && s[i].0 == k
}

/// Index of the first element of `s` with key `k`.
pub open spec fn is_first_with_key<V>(s: Seq<(i64, V)>, k: i64, i: int) -> bool {
    0 <= i < s.len() && s[i].0 == k && forall|j: int| 0 <= j < i ==> s[j].0 != k
}

/// The element at `i` of `out` carries the value that came first in `input` for its key.
pub open spec fn first_value_at<V>(out: Seq<(i64, V)>, input: Seq<(i64, V)>, i: int) -> bool {
    exists|j: int| is_first_with_key(input, out[i].0, j) && out[i].1 == input[j].1
}

/// `out` is the canonical form of `input`: one element per distinct key, keys in increasing
/// order, each with the value that came first for its key.
pub open spec fn canonical_of<V>(out: Seq<(i64, V)>, input: Seq<(i64, V)>) -> bool {
    &&& strictly_sorted(out)
    &&& forall|k: i64| has_key(out, k) <==> has_key(input, k)
    &&& forall|i: int| 0 <= i < out.len() ==> #[trigger] first_value_at(out, input, i)
}

pub open spec fn epoch_keys<V>(data: Seq<(Timestamp, V)>) -> Seq<(i64, V)> {
    data.map_values(|p: (Timestamp, V)| (p.0.secs, p.1))
}

/// Converts a series to the canonical sorted form keyed by epoch seconds: ordered by time,
/// one value per second (the first given for it).
pub fn to_sorted<V: Copy>(data: &[(Timestamp, V)]) -> (r: Vec<(i64, V)>)
    ensures
        canonical_of(r@, epoch_keys(data@)),
{
    let ghost input = epoch_keys(data@);
    let mut out: Vec<(i64, V)> = Vec::new();
    let mut i: usize = 0;
    while i < data.len()
        invariant
            i <= data.len(),
            input == epoch_keys(data@),
            canonical_of(out@, input.take(i as int)),
        decreases data.len() - i,
    {
        let key = data[i].0.secs;
        let val = data[i].1;
        let ghost pre = input.take(i as int);
        assert(input.take(i + 1) =~= pre.push((key, val)));
        // position of the first element with key >= `key`
        let mut p: usize = 0;
        while p < out.len() && out[p].0 < key
            invariant
                p <= out.len(),
                forall|j: int| 0 <= j < p ==> out@[j].0 < key,
            decreases out.len() - p,
        {
            p = p + 1;
        }
        if p < out.len() && out[p].0 == key {
            proof {
                let post = input.take(i + 1);
                assert forall|k: i64| has_key(out@, k) <==> has_key(post, k) by {
                    if has_key(post, k) && !has_key(pre, k) {
                        assert(k == key);
                        assert(out@[p as int].0 == k);
                    }
                    if has_key(pre, k) {
                        let w = choose|w: int| 0 <= w < pre.len() && pre[w].0 == k;
                        assert(post[w].0 == k);
                    }
                }
                assert forall|a: int| 0 <= a < out@.len() implies #[trigger] first_value_at(out@, post, a) by {
                    assert(first_value_at(out@, pre, a));
                    let j = choose|j: int| is_first_with_key(pre, out@[a].0, j) && out@[a].1 == pre[j].1;
                    assert(post[j] == pre[j]);
                    assert forall|q: int| 0 <= q < j implies post[q].0 != out@[a].0 by {
                        assert(post[q] == pre[q]);
                    }
                    assert(is_first_with_key(post, out@[a].0, j) && out@[a].1 == post[j].1);
                }
            }
        } else {
            let ghost old_out = out@;
            proof {
                assert forall|j: int| p <= j < old_out.len() implies old_out[j].0 > key by {
                    if p < old_out.len() {
                        assert(old_out[p as int].0 >= key);
                        assert(old_out[p as int].0 != key);
                    }
                }
                assert(!has_key(pre, key)) by {
                    if has_key(pre, key) {
                        assert(has_key(old_out, key));
                        let w = choose|w: int| 0 <= w < old_out.len() && old_out[w].0 == key;
                        if w < p {
                        } else {
                        }
                    }
                }
            }
            out.insert(p, (key, val));
            proof {
                let post = input.take(i + 1);
                assert(out@ =~= old_out.insert(p as int, (key, val)));
                assert(strictly_sorted(out@)) by {
                    assert forall|a: int, b: int| 0 <= a < b < out@.len() implies out@[a].0 < out@[b].0 by {
                        if a < p && b < p {
                        } else if a < p && b == p {
                        } else if a < p && b > p {
                            assert(out@[b].0 == old_out[b - 1].0);
                        } else if a == p {
                            assert(out@[b].0 == old_out[b - 1].0);
                        } else {
                            assert(out@[a].0 == old_out[a - 1].0);
                            assert(out@[b].0 == old_out[b - 1].0);
                        }
                    }
                }
                assert forall|k: i64| has_key(out@, k) <==> has_key(post, k) by {
                    if has_key(out@, k) {
                        let w = choose|w: int| 0 <= w < out@.len() && out@[w].0 == k;
                        if w < p {
                            assert(old_out[w].0 == k);
                            assert(has_key(old_out, k));
                            assert(has_key(pre, k));
                            let v = choose|v: int| 0 <= v < pre.len() && pre[v].0 == k;
                            assert(post[v].0 == k);
                        } else if w > p {
                            assert(old_out[w - 1].0 == k);
                            assert(has_key(old_out, k));
                            assert(has_key(pre, k));
                            let v = choose|v: int| 0 <= v < pre.len() && pre[v].0 == k;
                            assert(post[v].0 == k);
                        } else {
                            assert(post[i as int].0 == k);
                        }
                    }
                    if has_key(post, k) {
                        let w = choose|w: int| 0 <= w < post.len() && post[w].0 == k;
                        if w < i {
                            assert(pre[w].0 == k);
                            assert(has_key(old_out, k));
                            let v = choose|v: int| 0 <= v < old_out.len() && old_out[v].0 == k;
                            if v < p {
                                assert(out@[v].0 == k);
                            } else {
                                assert(out@[v + 1].0 == k);
                            }
                        } else {
                            assert(out@[p as int].0 == k);
                        }
                    }
                }
                assert forall|a: int| 0 <= a < out@.len() implies #[trigger] first_value_at(out@, post, a) by {
                    if a == p {
                        assert(out@[a] == (key, val));
                        assert(post[i as int] == (key, val));
                        assert(is_first_with_key(post, out@[a].0, i as int) && out@[a].1 == post[i as int].1);
                    } else {
                        let oa = if a < p { a } else { a - 1 };
                        assert(out@[a] == old_out[oa]);
                        assert(0 <= oa < old_out.len());
                        assert(first_value_at(old_out, pre, oa));
                        let j = choose|j: int| is_first_with_key(pre, old_out[oa].0, j) && old_out[oa].1 == pre[j].1;
                        assert(post[j] == pre[j]);
                        assert forall|q: int| 0 <= q < j implies post[q].0 != out@[a].0 by {
                            assert(post[q] == pre[q]);
                        }
                        assert(is_first_with_key(post, out@[a].0, j) && out@[a].1 == post[j].1);
                    }
                }
            }
        }
        assert(canonical_of(out@, input.take(i + 1)));
        i = i + 1;
    }
    assert(input.take(data.len() as int) =~= input);
    out
}

/// The value in force at time `t`: that of the last element whose key is at most `t`.
pub fn lkv<V: Copy>(sorted: &[(i64, V)], t: i64) -> (r: Option<V>)
    requires
        sorted_by_key(sorted@),
    ensures
        r is None <==> (sorted@.len() == 0 || sorted@[0].0 > t),
        r matches Some(v) ==> exists|i: int|
            0 <= i < sorted@.len() && sorted@[i].0 <= t && (i + 1 == sorted@.len() || sorted@[i + 1].0 > t)
                && v == (#[trigger] sorted@[i]).1,
{
    // number of elements with key <= t
    let mut lo: usize = 0;
    let mut hi: usize = sorted.len();
    while lo < hi
        invariant
            lo <= hi <= sorted@.len(),
            sorted_by_key(sorted@),
            forall|j: int| 0 <= j < lo ==> sorted@[j].0 <= t,
            forall|j: int| hi <= j < sorted@.len() ==> sorted@[j].0 > t,
        decreases hi - lo,
    {
        let mid = lo + (hi - lo) / 2;
        if sorted[mid].0 <= t {
            lo = mid + 1;
        } else {
            hi = mid;
        }
    }
    if lo > 0 {
        let idx = lo - 1;
        assert(sorted@[idx as int].0 <= t);
        Some(sorted[idx].1)
    } else {
        None
    }
}

/// The canonical form meets the lookup's requirement: its keys never decrease.
pub proof fn lemma_canonical_is_sorted<V>(out: Seq<(i64, V)>, input: Seq<(i64, V)>)
    requires
        canonical_of(out, input),
    ensures
        sorted_by_key(out),
{
}

/// In the canonical form of a series, the element in force at time `t` (the last whose key is
/// at most `t`) holds the latest sample second at or before `t`, with the value first given
/// for that second.
pub proof fn lemma_lookup_in_canonical<V>(out: Seq<(i64, V)>, input: Seq<(i64, V)>, t: i64, i: int)
    requires
        canonical_of(out, input),
        0 <= i < out.len(),
        out[i].0 <= t,
        i + 1 == out.len() || out[i + 1].0 > t,
    ensures
        has_key(input, out[i].0),
        forall|j: int| 0 <= j < input.len() && input[j].0 <= t ==> input[j].0 <= out[i].0,
        exists|j: int| is_first_with_key(input, out[i].0, j) && out[i].1 == input[j].1,
{
    assert(has_key(out, out[i].0));
    assert forall|j: int| 0 <= j < input.len() && input[j].0 <= t implies input[j].0 <= out[i].0 by {
        let k = input[j].0;
        assert(has_key(input, k));
        assert(has_key(out, k));
        let m = choose|m: int| 0 <= m < out.len() && out[m].0 == k;
        if k > out[i].0 {
            assert(m > i) by {
                if m < i {
                    assert(out[m].0 < out[i].0);
                }
            }
            if m > i + 1 {
                assert(out[i + 1].0 < out[m].0);
            }
        }
    }
    assert(first_value_at(out, input, i));
}

/// Index of the room whose sensor publishes on `topic`: the last such room, where several
/// share it.
pub open spec fn room_index(rooms: Seq<(Seq<char>, Seq<char>)>, topic: Seq<char>) -> Option<int>
    decreases rooms.len(),
{
    if rooms.len() == 0 {
        None
    } else if rooms.last().1 == topic {
        Some(rooms.len() - 1)
    } else {
        room_index(rooms.drop_last(), topic)
    }
}

/// The samples of room `j`, in the order given.
pub open spec fn rows_of<V>(rows: Seq<(Timestamp, Seq<char>, V)>, rooms: Seq<(Seq<char>, Seq<char>)>, j: int) -> Seq<(Timestamp, V)>
    decreases rows.len(),
{
    if rows.len() == 0 {
        Seq::empty()
    } else {
        let prev = rows_of(rows.drop_last(), rooms, j);
        if room_index(rooms, rows.last().1) == Some(j) {
            prev.push((rows.last().0, rows.last().2))
        } else {
            prev
        }
    }
}

/// Indices of the first `k` rooms that have samples, in room order.
pub open spec fn rooms_with_data<V>(rows: Seq<(Timestamp, Seq<char>, V)>, rooms: Seq<(Seq<char>, Seq<char>)>, k: int) -> Seq<int>
    decreases k,
{
    if k <= 0 {
        Seq::empty()
    } else if rows_of(rows, rooms, k - 1).len() > 0 {
        rooms_with_data(rows, rooms, k - 1).push(k - 1)
    } else {
        rooms_with_data(rows, rooms, k - 1)
    }
}

/// `out` is `input` in time order, samples at the same instant in their given order.
pub open spec fn time_sorted<V>(out: Seq<(Timestamp, V)>, input: Seq<(Timestamp, V)>) -> bool {
    exists|o: Seq<usize>|
        o.len() == input.len() && is_time_order(input.map_values(|p: (Timestamp, V)| p.0), o)
            && out == Seq::new(input.len(), |i: int| input[o[i] as int])
}

pub open spec fn room_rows_view<V>(rows: Seq<(Timestamp, String, V)>) -> Seq<(Timestamp, Seq<char>, V)> {
    rows.map_values(|r: (Timestamp, String, V)| (r.0, r.1@, r.2))
}

pub open spec fn rooms_view(rooms: Seq<(String, String)>) -> Seq<(Seq<char>, Seq<char>)> {
    rooms.map_values(|r: (String, String)| (r.0@, r.1@))
}

fn room_index_exec(rooms: &[(String, String)], topic: &str) -> (r: Option<usize>)
    ensures
        match r {
            Some(j) => room_index(rooms_view(rooms@), topic@) == Some(j as int),
            None => room_index(rooms_view(rooms@), topic@) is None,
        },
{
    let ghost rv = rooms_view(rooms@);
    let mut i: usize = rooms.len();
    assert(rv.take(i as int) =~= rv);
    while i > 0
        invariant
            i <= rooms@.len(),
            rv == rooms_view(rooms@),
            room_index(rv, topic@) == room_index(rv.take(i as int), topic@),
        decreases i,
    {
        proof {
            assert(rv.take(i as int).drop_last() =~= rv.take(i - 1));
            assert(rv.take(i as int).last() == rv[i - 1]);
        }
        if crate::text::str_eq(rooms[i - 1].1.as_str(), topic) {
            return Some(i - 1);
        }
        i = i - 1;
    }
    None
}

/// Groups room sensor samples by room and puts each room's samples in time order: one entry
/// per room that has samples, in room order. `rooms` lists (room name, sensor topic);
/// samples from topics of no room are dropped.
pub fn build_room_series<V: Copy>(room_rows: &[(Timestamp, String, V)], rooms: &[(String, String)]) -> (r: Vec<(String, Vec<(Timestamp, V)>)>)
    ensures
        r@.len() == rooms_with_data(room_rows_view(room_rows@), rooms_view(rooms@), rooms@.len() as int).len(),
        forall|k: int|
            0 <= k < r@.len() ==> {
                let j = rooms_with_data(room_rows_view(room_rows@), rooms_view(rooms@), rooms@.len() as int)[k];
                &&& (#[trigger] r@[k]).0@ == rooms@[j].0@
                &&& time_sorted(r@[k].1@, rows_of(room_rows_view(room_rows@), rooms_view(rooms@), j))
            },
{
    let ghost rows = room_rows_view(room_rows@);
    let ghost rv = rooms_view(rooms@);
    // Room of each sample.
    let mut idx: Vec<Option<usize>> = Vec::new();
    let mut i: usize = 0;
    while i < room_rows.len()
        invariant
            i <= room_rows@.len(),
            idx@.len() == i,
            rv == rooms_view(rooms@),
            rows == room_rows_view(room_rows@),
            forall|a: int| 0 <= a < i ==> match #[trigger] idx@[a] {
                Some(j) => room_index(rv, rows[a].1) == Some(j as int),
                None => room_index(rv, rows[a].1) is None,
            },
        decreases room_rows@.len() - i,
    {
        idx.push(room_index_exec(rooms, room_rows[i].1.as_str()));
        i = i + 1;
    }
    let mut out: Vec<(String, Vec<(Timestamp, V)>)> = Vec::new();
    let mut j: usize = 0;
    while j < rooms.len()
        invariant
            j <= rooms@.len(),
            rv == rooms_view(rooms@),
            rows == room_rows_view(room_rows@),
            idx@.len() == room_rows@.len(),
            forall|a: int| 0 <= a < room_rows@.len() ==> match #[trigger] idx@[a] {
                Some(jj) => room_index(rv, rows[a].1) == Some(jj as int),
                None => room_index(rv, rows[a].1) is None,
            },
            out@.len() == rooms_with_data(rows, rv, j as int).len(),
            forall|k: int|
                0 <= k < out@.len() ==> {
                    let jj = rooms_with_data(rows, rv, j as int)[k];
                    &&& (#[trigger] out@[k]).0@ == rooms@[jj].0@
                    &&& time_sorted(out@[k].1@, rows_of(rows, rv, jj))
                },
        decreases rooms@.len() - j,
    {
        // Samples of room j, in the order given.
        let mut mine: Vec<(Timestamp, V)> = Vec::new();
        let mut a: usize = 0;
        while a < room_rows.len()
            invariant
                a <= room_rows@.len(),
                j < rooms@.len(),
                rv == rooms_view(rooms@),
                rows == room_rows_view(room_rows@),
                idx@.len() == room_rows@.len(),
                forall|b: int| 0 <= b < room_rows@.len() ==> match #[trigger] idx@[b] {
                    Some(jj) => room_index(rv, rows[b].1) == Some(jj as int),
                    None => room_index(rv, rows[b].1) is None,
                },
                mine@ == rows_of(rows.take(a as int), rv, j as int),
            decreases room_rows@.len() - a,
        {
            proof {
                assert(rows.take(a + 1).drop_last() =~= rows.take(a as int));
                assert(rows.take(a + 1).last() == rows[a as int]);
            }
            let hit = match idx[a] {
                Some(jj) => jj == j,
                None => false,
            };
            if hit {
                let r = &room_rows[a];
                mine.push((r.0, r.2));
            }
            a = a + 1;
        }
        assert(rows.take(room_rows@.len() as int) =~= rows);
        let ghost prev_len = out@.len();
        if mine.len() > 0 {
            let mut times: Vec<Timestamp> = Vec::new();
            let mut b: usize = 0;
            while b < mine.len()
                invariant
                    b <= mine@.len(),
                    times@.len() == b,
                    forall|c: int| 0 <= c < b ==> #[trigger] times@[c] == mine@[c].0,
                decreases mine@.len() - b,
            {
                times.push(mine[b].0);
                b = b + 1;
            }
            assert(times@ =~= mine@.map_values(|p: (Timestamp, V)| p.0));
            let order = crate::order::time_order(&times);
            let mut sorted: Vec<(Timestamp, V)> = Vec::new();
            let mut c: usize = 0;
            while c < order.len()
                invariant
                    c <= order@.len(),
                    order@.len() == mine@.len(),
                    crate::order::is_time_order(times@, order@),
                    times@.len() == mine@.len(),
                    sorted@.len() == c,
                    forall|d: int| 0 <= d < c ==> #[trigger] sorted@[d] == mine@[order@[d] as int],
                decreases order@.len() - c,
            {
                sorted.push(mine[order[c]]);
                c = c + 1;
            }
            assert(sorted@ =~= Seq::new(mine@.len(), |i: int| mine@[order@[i] as int]));
            assert(time_sorted(sorted@, mine@));
            out.push((crate::text::owned(rooms[j].0.as_str()), sorted));
        }
        proof {
            assert(rooms_with_data(rows, rv, j + 1) == if rows_of(rows, rv, j as int).len() > 0 {
                rooms_with_data(rows, rv, j as int).push(j as int)
            } else {
                rooms_with_data(rows, rv, j as int)
            });
            assert forall|k: int| 0 <= k < out@.len() implies {
                let jj = rooms_with_data(rows, rv, j + 1)[k];
                &&& (#[trigger] out@[k]).0@ == rooms@[jj].0@
                &&& time_sorted(out@[k].1@, rows_of(rows, rv, jj))
            } by {
                if k < prev_len {
                    assert(rooms_with_data(rows, rv, j + 1)[k] == rooms_with_data(rows, rv, j as int)[k]);
                }
            }
        }
        j = j + 1;
    }
    out
}

} // verus!
