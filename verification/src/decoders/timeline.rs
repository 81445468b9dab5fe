//! What a virtual signal shows over time, stated directly over the segments
//! a decoder produced, in the order it produced them.
use vstd::prelude::*;
use super::{SegmentView, collapse, first_after, lemma_collapse_strict, normalized, seg, strictly_increasing};
use crate::sorting::{SpecKeyed, insert_pos, keys_sorted, lemma_insert_pos_bound, lemma_insert_pos_sorted, lemma_sort_by_key, sort_by_key};

verus! {

/// Segment `x` against the segment `r` found so far: `x` takes over when it
/// starts not after `t` and not before `r`.
pub open spec fn effect_step(r: Option<SegmentView>, x: SegmentView, t: u64) -> Option<SegmentView> {
    if x.time <= t && (r is None || r->0.time <= x.time) {
        Some(x)
    } else {
        r
    }
}

/// The segment found after going through `s` in order, starting from `r`.
pub open spec fn effect_from(r: Option<SegmentView>, s: Seq<SegmentView>, t: u64) -> Option<SegmentView>
    decreases s.len(),
{
    if s.len() == 0 {
        r
    } else {
        effect_step(effect_from(r, s.drop_last(), t), s.last(), t)
    }
}

/// The segment in effect at `t`: of the segments that start not after `t`,
/// one with the latest start, and of several such the last one given.
pub open spec fn in_effect(s: Seq<SegmentView>, t: u64) -> Option<SegmentView> {
    effect_from(None, s, t)
}

/// Segment `x` against the earliest start `r` after `t` found so far.
pub open spec fn next_step(r: Option<u64>, x: SegmentView, t: u64) -> Option<u64> {
    if x.time > t && (r is None || x.time < r->0) {
        Some(x.time)
    } else {
        r
    }
}

/// The earliest start after `t` among the segments.
pub open spec fn next_start(s: Seq<SegmentView>, t: u64) -> Option<u64>
    decreases s.len(),
{
    if s.len() == 0 {
        None
    } else {
        next_step(next_start(s.drop_last(), t), s.last(), t)
    }
}

proof fn lemma_effect_member(r: Option<SegmentView>, s: Seq<SegmentView>, t: u64)
    ensures
        effect_from(r, s, t) == r || exists|i: int| 0 <= i < s.len() && effect_from(r, s, t) == Some(#[trigger] s[i]),
    decreases s.len(),
{
    if s.len() > 0 {
        let s2 = s.drop_last();
        lemma_effect_member(r, s2, t);
        let prev = effect_from(r, s2, t);
        if effect_from(r, s, t) != prev {
            assert(effect_from(r, s, t) == Some(s[s.len() - 1]));
        } else if prev != r {
            let i = choose|i: int| 0 <= i < s2.len() && prev == Some(#[trigger] s2[i]);
            assert(s2[i] == s[i]);
        }
    }
}

proof fn lemma_effect_concat(r: Option<SegmentView>, a: Seq<SegmentView>, b: Seq<SegmentView>, t: u64)
    ensures
        effect_from(r, a + b, t) == effect_from(effect_from(r, a, t), b, t),
    decreases b.len(),
{
    if b.len() == 0 {
        assert(a + b =~= a);
    } else {
        lemma_effect_concat(r, a, b.drop_last(), t);
        assert((a + b).drop_last() =~= a + b.drop_last());
        assert((a + b).last() == b.last());
    }
}

/// Going on through segments in time order that all start after `bound`,
/// from a segment that starts not after `bound`: the first one matters only
/// when none of the later ones is in effect.
proof fn lemma_effect_late_suffix(r: Option<SegmentView>, b: Seq<SegmentView>, t: u64, bound: int)
    requires
        forall|i: int, j: int| 0 <= i <= j < b.len() ==> #[trigger] b[i].time <= #[trigger] b[j].time,
        forall|i: int| 0 <= i < b.len() ==> #[trigger] b[i].time > bound,
        r is Some ==> r->0.time <= bound,
    ensures
        effect_from(r, b, t) == (if effect_from(None, b, t) is Some {
            effect_from(None, b, t)
        } else {
            r
        }),
    decreases b.len(),
{
    if b.len() > 0 {
        let b2 = b.drop_last();
        let z = b.last();
        assert forall|i: int, j: int| 0 <= i <= j < b2.len() implies #[trigger] b2[i].time <= #[trigger] b2[j].time by {
            assert(b2[i] == b[i] && b2[j] == b[j]);
        }
        assert forall|i: int| 0 <= i < b2.len() implies #[trigger] b2[i].time > bound by {
            assert(b2[i] == b[i]);
        }
        lemma_effect_late_suffix(r, b2, t, bound);
        lemma_effect_member(None, b2, t);
        if effect_from(None, b2, t) is Some {
            let i = choose|i: int| 0 <= i < b2.len() && effect_from(None, b2, t) == Some(#[trigger] b2[i]);
            assert(b2[i] == b[i]);
            assert(b[i].time <= b[b.len() - 1].time);
        }
        assert(z.time > bound);
    }
}

proof fn lemma_effect_insert_sorted(u: Seq<SegmentView>, x: SegmentView, t: u64)
    requires
        keys_sorted(u),
    ensures
        in_effect(u.insert(insert_pos(u, x.time as int) as int, x), t) == effect_step(in_effect(u, t), x, t),
{
    let k = x.time as int;
    lemma_insert_pos_bound(u, k);
    lemma_insert_pos_sorted(u, k);
    let p = insert_pos(u, k) as int;
    let a = u.take(p);
    let b = u.skip(p);
    assert(u.insert(p, x) =~= a.push(x) + b);
    assert(u =~= a + b);
    lemma_effect_concat(None, a.push(x), b, t);
    lemma_effect_concat(None, a, b, t);
    assert(a.push(x).drop_last() =~= a);
    let r0 = effect_from(None, a, t);
    lemma_effect_member(None, a, t);
    if r0 is Some {
        let i = choose|i: int| 0 <= i < a.len() && r0 == Some(#[trigger] a[i]);
        assert(a[i] == u[i]);
        assert(u[i].key() <= k);
    }
    assert forall|i: int, j: int| 0 <= i <= j < b.len() implies #[trigger] b[i].time <= #[trigger] b[j].time by {
        assert(b[i] == u[p + i] && b[j] == u[p + j]);
        assert(u[p + i].key() <= u[p + j].key());
    }
    assert forall|i: int| 0 <= i < b.len() implies #[trigger] b[i].time > k by {
        assert(b[i] == u[p + i]);
        assert(u[p + i].key() > k);
    }
    lemma_effect_late_suffix(r0, b, t, k);
    let y = effect_step(r0, x, t);
    lemma_effect_late_suffix(y, b, t, k);
    lemma_effect_member(None, b, t);
    if effect_from(None, b, t) is Some {
        let i = choose|i: int| 0 <= i < b.len() && effect_from(None, b, t) == Some(#[trigger] b[i]);
        assert(b[i].time > k);
    }
}

/// Sorting by time (stably) does not change which segment is in effect.
proof fn lemma_effect_sort(s: Seq<SegmentView>, t: u64)
    ensures
        in_effect(sort_by_key(s), t) == in_effect(s, t),
    decreases s.len(),
{
    if s.len() > 0 {
        lemma_effect_sort(s.drop_last(), t);
        lemma_sort_by_key(s.drop_last());
        lemma_effect_insert_sorted(sort_by_key(s.drop_last()), s.last(), t);
    }
}

/// Collapsing equal starts does not change which segment is in effect.
proof fn lemma_effect_collapse(u: Seq<SegmentView>, t: u64)
    ensures
        in_effect(collapse(u), t) == in_effect(u, t),
    decreases u.len(),
{
    if u.len() > 0 {
        lemma_effect_collapse(u.drop_last(), t);
        let c = collapse(u.drop_last());
        let x = u.last();
        if c.len() > 0 && c.last().time == x.time {
            assert(c.update(c.len() - 1, seg(x.time, x.text)) =~= c.drop_last().push(x));
            assert(c.drop_last().push(x).drop_last() =~= c.drop_last());
        } else {
            assert(c.push(x).drop_last() =~= c);
        }
    }
}

proof fn lemma_strict_prefix(s: Seq<SegmentView>)
    requires
        strictly_increasing(s),
        s.len() > 0,
    ensures
        strictly_increasing(s.drop_last()),
        forall|i: int| 0 <= i < s.len() - 1 ==> #[trigger] s[i].time < s[s.len() - 1].time,
{
    let s2 = s.drop_last();
    assert forall|i: int, j: int| 0 <= i < j < s2.len() implies #[trigger] s2[i].time < #[trigger] s2[j].time by {
        assert(s2[i] == s[i] && s2[j] == s[j]);
    }
}

/// In time order, the segment in effect is the one before the first start after `t`.
proof fn lemma_effect_strict(s: Seq<SegmentView>, t: u64)
    requires
        strictly_increasing(s),
    ensures
        if first_after(s, t) > 0 {
            in_effect(s, t) == Some(s[first_after(s, t) - 1])
        } else {
            in_effect(s, t) is None
        },
    decreases s.len(),
{
    if s.len() > 0 {
        let s2 = s.drop_last();
        let n = s.len() as int;
        let x = s.last();
        lemma_strict_prefix(s);
        lemma_effect_strict(s2, t);
        super::lemma_first_after(s2, t);
        if x.time <= t {
            assert forall|i: int| 0 <= i < n implies #[trigger] s[i].time <= t by {
                if i < n - 1 {
                    assert(s[i].time < x.time);
                }
            }
            super::lemma_first_after_unique(s, t, n);
            assert forall|i: int| 0 <= i < n - 1 implies #[trigger] s2[i].time <= t by {
                assert(s2[i] == s[i]);
            }
            super::lemma_first_after_unique(s2, t, n - 1);
            if n > 1 {
                assert(s2[n - 2] == s[n - 2]);
            }
        } else {
            let i2 = first_after(s2, t) as int;
            assert forall|i: int| 0 <= i < i2 implies #[trigger] s[i].time <= t by {
                assert(s2[i] == s[i]);
            }
            assert forall|i: int| i2 <= i < n implies #[trigger] s[i].time > t by {
                if i < n - 1 {
                    assert(s2[i] == s[i]);
                }
            }
            super::lemma_first_after_unique(s, t, i2);
            if i2 > 0 {
                assert(s2[i2 - 1] == s[i2 - 1]);
            }
        }
    }
}

proof fn lemma_next_insert(u: Seq<SegmentView>, p: int, x: SegmentView, t: u64)
    requires
        0 <= p <= u.len(),
    ensures
        next_start(u.insert(p, x), t) == next_step(next_start(u, t), x, t),
    decreases u.len(),
{
    if p < u.len() {
        let u2 = u.drop_last();
        assert(u.insert(p, x).drop_last() =~= u2.insert(p, x));
        assert(u.insert(p, x).last() == u.last());
        lemma_next_insert(u2, p, x, t);
    } else {
        assert(u.insert(p, x).drop_last() =~= u);
    }
}

/// Sorting by time does not change the earliest start after `t`.
proof fn lemma_next_sort(s: Seq<SegmentView>, t: u64)
    ensures
        next_start(sort_by_key(s), t) == next_start(s, t),
    decreases s.len(),
{
    if s.len() > 0 {
        lemma_next_sort(s.drop_last(), t);
        let u = sort_by_key(s.drop_last());
        lemma_insert_pos_bound(u, s.last().time as int);
        lemma_next_insert(u, insert_pos(u, s.last().time as int) as int, s.last(), t);
    }
}

/// Collapsing equal starts does not change the earliest start after `t`.
proof fn lemma_next_collapse(u: Seq<SegmentView>, t: u64)
    ensures
        next_start(collapse(u), t) == next_start(u, t),
    decreases u.len(),
{
    if u.len() > 0 {
        lemma_next_collapse(u.drop_last(), t);
        let c = collapse(u.drop_last());
        let x = u.last();
        if c.len() > 0 && c.last().time == x.time {
            assert(c.update(c.len() - 1, seg(x.time, x.text)) =~= c.drop_last().push(x));
            assert(c.drop_last().push(x).drop_last() =~= c.drop_last());
        } else {
            assert(c.push(x).drop_last() =~= c);
        }
    }
}

/// In time order, the earliest start after `t` is the first one after `t`.
proof fn lemma_next_strict(s: Seq<SegmentView>, t: u64)
    requires
        strictly_increasing(s),
    ensures
        if first_after(s, t) < s.len() {
            next_start(s, t) == Some(s[first_after(s, t) as int].time)
        } else {
            next_start(s, t) is None
        },
    decreases s.len(),
{
    if s.len() > 0 {
        let s2 = s.drop_last();
        let n = s.len() as int;
        let x = s.last();
        lemma_strict_prefix(s);
        lemma_next_strict(s2, t);
        super::lemma_first_after(s2, t);
        if x.time <= t {
            assert forall|i: int| 0 <= i < n implies #[trigger] s[i].time <= t by {
                if i < n - 1 {
                    assert(s[i].time < x.time);
                }
            }
            super::lemma_first_after_unique(s, t, n);
            assert forall|i: int| 0 <= i < n - 1 implies #[trigger] s2[i].time <= t by {
                assert(s2[i] == s[i]);
            }
            super::lemma_first_after_unique(s2, t, n - 1);
        } else {
            let i2 = first_after(s2, t) as int;
            assert forall|i: int| 0 <= i < i2 implies #[trigger] s[i].time <= t by {
                assert(s2[i] == s[i]);
            }
            assert forall|i: int| i2 <= i < n implies #[trigger] s[i].time > t by {
                if i < n - 1 {
                    assert(s2[i] == s[i]);
                }
            }
            super::lemma_first_after_unique(s, t, i2);
            if i2 < n - 1 {
                assert(s2[i2] == s[i2]);
            }
        }
    }
}

/// After a signal is built from a decoder's segments, a query at `t` shows
/// the segment in effect at `t` (the latest start not after `t`; of several
/// segments starting then, the last one given), and the earliest start after
/// `t` as the next change.
pub proof fn lemma_query_after_new(segments: Seq<SegmentView>, t: u64)
    ensures
        ({
            let s = normalized(segments);
            let idx = first_after(s, t);
            &&& (if idx > 0 {
                in_effect(segments, t) == Some(s[idx - 1])
            } else {
                in_effect(segments, t) is None
            })
            &&& (if idx < s.len() {
                next_start(segments, t) == Some(s[idx as int].time)
            } else {
                next_start(segments, t) is None
            })
        }),
{
    lemma_sort_by_key(segments);
    let u = sort_by_key(segments);
    lemma_effect_sort(segments, t);
    lemma_effect_collapse(u, t);
    lemma_next_sort(segments, t);
    lemma_next_collapse(u, t);
    assert forall|i: int, j: int| 0 <= i <= j < u.len() implies #[trigger] u[i].time <= #[trigger] u[j].time by {
        assert(u[i].key() <= u[j].key());
    }
    lemma_collapse_strict(u);
    lemma_effect_strict(collapse(u), t);
    lemma_next_strict(collapse(u), t);
}

/// The last of the segments given that starts at `t`, if any.
pub open spec fn last_at(s: Seq<SegmentView>, t: u64) -> Option<SegmentView>
    decreases s.len(),
{
    if s.len() == 0 {
        None
    } else if s.last().time == t {
        Some(s.last())
    } else {
        last_at(s.drop_last(), t)
    }
}

proof fn lemma_last_at(s: Seq<SegmentView>, t: u64)
    ensures
        last_at(s, t) is Some ==> last_at(s, t)->0.time == t,
        (exists|j: int| 0 <= j < s.len() && #[trigger] s[j].time == t) ==> last_at(s, t) is Some,
    decreases s.len(),
{
    if s.len() > 0 {
        lemma_last_at(s.drop_last(), t);
        if s.last().time != t {
            if exists|j: int| 0 <= j < s.len() && #[trigger] s[j].time == t {
                let j = choose|j: int| 0 <= j < s.len() && #[trigger] s[j].time == t;
                assert(j < s.len() - 1);
                assert(s.drop_last()[j] == s[j]);
            }
        }
    }
}

proof fn lemma_effect_le(s: Seq<SegmentView>, t: u64)
    ensures
        in_effect(s, t) is Some ==> in_effect(s, t)->0.time <= t,
    decreases s.len(),
{
    if s.len() > 0 {
        lemma_effect_le(s.drop_last(), t);
    }
}

/// When some segment starts at `t`, the one in effect at `t` is the last
/// of those given with that start.
proof fn lemma_effect_is_last_at(s: Seq<SegmentView>, t: u64)
    requires
        exists|j: int| 0 <= j < s.len() && #[trigger] s[j].time == t,
    ensures
        in_effect(s, t) == last_at(s, t),
    decreases s.len(),
{
    let s2 = s.drop_last();
    let x = s.last();
    lemma_effect_le(s2, t);
    if x.time != t {
        let j = choose|j: int| 0 <= j < s.len() && #[trigger] s[j].time == t;
        assert(j < s.len() - 1);
        assert(s2[j] == s[j]);
        lemma_effect_is_last_at(s2, t);
        lemma_last_at(s2, t);
    }
}

/// Building a signal keeps exactly the start times of the segments given,
/// and at each of them the text of the last segment given with that start.
pub proof fn lemma_new_keeps_last_text(segments: Seq<SegmentView>)
    ensures
        forall|i: int|
            0 <= i < normalized(segments).len() ==> last_at(segments, #[trigger] normalized(segments)[i].time)
                == Some(normalized(segments)[i]),
        forall|j: int|
            0 <= j < segments.len() ==> exists|i: int|
                0 <= i < normalized(segments).len() && #[trigger] normalized(segments)[i].time == #[trigger] segments[j].time,
{
    let n = normalized(segments);
    lemma_sort_by_key(segments);
    let u = sort_by_key(segments);
    assert forall|i: int, j: int| 0 <= i <= j < u.len() implies #[trigger] u[i].time <= #[trigger] u[j].time by {
        assert(u[i].key() <= u[j].key());
    }
    lemma_collapse_strict(u);
    assert forall|i: int| 0 <= i < n.len() implies last_at(segments, #[trigger] n[i].time) == Some(n[i]) by {
        let t = n[i].time;
        assert forall|m: int| 0 <= m < i + 1 implies #[trigger] n[m].time <= t by {
            if m < i {
                assert(n[m].time < n[i].time);
            }
        }
        assert forall|m: int| i + 1 <= m < n.len() implies #[trigger] n[m].time > t by {
            assert(n[i].time < n[m].time);
        }
        super::lemma_first_after_unique(n, t, i + 1);
        lemma_query_after_new(segments, t);
        lemma_effect_member(None, segments, t);
        let j = choose|j: int| 0 <= j < segments.len() && in_effect(segments, t) == Some(#[trigger] segments[j]);
        assert(segments[j].time == t);
        lemma_effect_is_last_at(segments, t);
    }
    assert forall|j: int| 0 <= j < segments.len() implies exists|i: int|
        0 <= i < n.len() && #[trigger] n[i].time == #[trigger] segments[j].time by {
        let t = segments[j].time;
        lemma_effect_is_last_at(segments, t);
        lemma_last_at(segments, t);
        lemma_query_after_new(segments, t);
        super::lemma_first_after(n, t);
        let idx = first_after(n, t) as int;
        assert(idx > 0);
        let i = idx - 1;
        assert(0 <= i < n.len());
        assert(n[i].time == segments[j].time);
    }
}

} // verus!
