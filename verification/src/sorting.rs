//! Stable ordering of timed records: every record carries an integer key
//! (usually its timestamp), and records with equal keys keep their order.
use vstd::prelude::*;

verus! {

/// A value that is ordered by an integer key.
pub trait SpecKeyed {
    spec fn key(&self) -> int;
}

/// A record whose key can be computed at run time.
pub trait Keyed: SpecKeyed {
    fn key_exec(&self) -> (k: u128)
        ensures
            k as int == self.key(),
    ;
}

/// Where `k` goes into `s`: after the last record of the suffix whose keys
/// are all greater than `k`, scanning from the back.
pub open spec fn insert_pos<T: SpecKeyed>(s: Seq<T>, k: int) -> nat
    decreases s.len(),
{
    if s.len() == 0 {
        0
    } else if s.last().key() <= k {
        s.len()
    } else {
        insert_pos(s.drop_last(), k)
    }
}

/// `x` inserted into `s` behind every record whose key is not greater.
pub open spec fn insert_sorted<T: SpecKeyed>(s: Seq<T>, x: T) -> Seq<T> {
    s.insert(insert_pos(s, x.key()) as int, x)
}

/// The stable sort of `s` by key (what `slice::sort_by_key` produces).
pub open spec fn sort_by_key<T: SpecKeyed>(s: Seq<T>) -> Seq<T>
    decreases s.len(),
{
    if s.len() == 0 {
        s
    } else {
        insert_sorted(sort_by_key(s.drop_last()), s.last())
    }
}

/// Keys never decrease along `s`.
pub open spec fn keys_sorted<T: SpecKeyed>(s: Seq<T>) -> bool {
    forall|i: int, j: int| 0 <= i <= j < s.len() ==> #[trigger] s[i].key() <= #[trigger] s[j].key()
}

/// The insertion point lies within the sequence, and every record behind it
/// has a greater key.
pub proof fn lemma_insert_pos_bound<T: SpecKeyed>(s: Seq<T>, k: int)
    ensures
        insert_pos(s, k) <= s.len(),
        forall|j: int| insert_pos(s, k) <= j < s.len() ==> #[trigger] s[j].key() > k,
    decreases s.len(),
{
    if s.len() > 0 && s.last().key() > k {
        lemma_insert_pos_bound(s.drop_last(), k);
        assert forall|j: int| insert_pos(s, k) <= j < s.len() implies #[trigger] s[j].key() > k by {
            if j < s.len() - 1 {
                assert(s[j] == s.drop_last()[j]);
            }
        }
    }
}

/// In a sorted sequence every record before the insertion point has a key
/// that is not greater.
pub proof fn lemma_insert_pos_sorted<T: SpecKeyed>(s: Seq<T>, k: int)
    requires
        keys_sorted(s),
    ensures
        forall|j: int| 0 <= j < insert_pos(s, k) ==> #[trigger] s[j].key() <= k,
    decreases s.len(),
{
    if s.len() > 0 && s.last().key() > k {
        lemma_insert_pos_sorted(s.drop_last(), k);
        lemma_insert_pos_bound(s.drop_last(), k);
        assert forall|j: int| 0 <= j < insert_pos(s, k) implies #[trigger] s[j].key() <= k by {
            assert(s[j] == s.drop_last()[j]);
        }
    } else if s.len() > 0 {
        assert forall|j: int| 0 <= j < insert_pos(s, k) implies #[trigger] s[j].key() <= k by {
            assert(s[j].key() <= s[s.len() - 1].key());
        }
    }
}

/// Inserting behind the equal keys keeps a sorted sequence sorted.
pub proof fn lemma_insert_sorted<T: SpecKeyed>(s: Seq<T>, x: T)
    requires
        keys_sorted(s),
    ensures
        keys_sorted(insert_sorted(s, x)),
        insert_sorted(s, x).len() == s.len() + 1,
{
    lemma_insert_pos_bound(s, x.key());
    lemma_insert_pos_sorted(s, x.key());
    let p = insert_pos(s, x.key()) as int;
    let r = insert_sorted(s, x);
    assert forall|i: int, j: int| 0 <= i <= j < r.len() implies #[trigger] r[i].key() <= #[trigger] r[j].key() by {
        if i < p && j < p {
            assert(r[i] == s[i] && r[j] == s[j]);
        } else if i < p && j == p {
            assert(r[i] == s[i]);
        } else if i < p {
            assert(r[i] == s[i] && r[j] == s[j - 1]);
        } else if i == p && j == p {
        } else if i == p {
            assert(r[j] == s[j - 1]);
        } else {
            assert(r[i] == s[i - 1] && r[j] == s[j - 1]);
        }
    }
}

/// The stable sort puts the keys in order and keeps every record.
pub proof fn lemma_sort_by_key<T: SpecKeyed>(s: Seq<T>)
    ensures
        keys_sorted(sort_by_key(s)),
        sort_by_key(s).len() == s.len(),
        sort_by_key(s).to_multiset() == s.to_multiset(),
    decreases s.len(),
{
    if s.len() > 0 {
        lemma_sort_by_key(s.drop_last());
        let t = sort_by_key(s.drop_last());
        lemma_insert_sorted(t, s.last());
        lemma_insert_pos_bound(t, s.last().key());
        let p = insert_pos(t, s.last().key()) as int;
        broadcast use vstd::seq_lib::group_seq_properties, vstd::multiset::group_multiset_properties;
        assert(t.insert(p, s.last()) =~= t.take(p) + seq![s.last()] + t.skip(p));
        assert(t =~= t.take(p) + t.skip(p));
        assert(s =~= s.drop_last().push(s.last()));
        vstd::seq_lib::lemma_multiset_commutative(t.take(p), seq![s.last()]);
        vstd::seq_lib::lemma_multiset_commutative(t.take(p) + seq![s.last()], t.skip(p));
        vstd::seq_lib::lemma_multiset_commutative(t.take(p), t.skip(p));
        vstd::seq_lib::lemma_multiset_commutative(s.drop_last(), seq![s.last()]);
    }
}

/// The stable merge of two sequences: records are taken by key, and on
/// equal keys the left sequence's record comes first.
pub open spec fn merge<T: SpecKeyed>(a: Seq<T>, b: Seq<T>) -> Seq<T>
    decreases a.len() + b.len(),
{
    if a.len() == 0 {
        b
    } else if b.len() == 0 {
        a
    } else if a[0].key() <= b[0].key() {
        seq![a[0]] + merge(a.drop_first(), b)
    } else {
        seq![b[0]] + merge(a, b.drop_first())
    }
}

proof fn lemma_insert_pos_front<T: SpecKeyed>(s0: T, m: Seq<T>, k: int)
    requires
        s0.key() <= k,
    ensures
        insert_pos(seq![s0] + m, k) == 1 + insert_pos(m, k),
    decreases m.len(),
{
    if m.len() == 0 {
        assert((seq![s0] + m).drop_last() =~= Seq::<T>::empty());
    } else {
        assert((seq![s0] + m).drop_last() =~= seq![s0] + m.drop_last());
        assert((seq![s0] + m).last() == m.last());
        lemma_insert_pos_front(s0, m.drop_last(), k);
    }
}

proof fn lemma_insert_front<T: SpecKeyed>(s0: T, m: Seq<T>, x: T)
    requires
        s0.key() <= x.key(),
    ensures
        insert_sorted(seq![s0] + m, x) == seq![s0] + insert_sorted(m, x),
{
    lemma_insert_pos_front(s0, m, x.key());
    lemma_insert_pos_bound(m, x.key());
    assert(insert_sorted(seq![s0] + m, x) =~= seq![s0] + insert_sorted(m, x));
}

proof fn lemma_insert_pos_all_greater<T: SpecKeyed>(s: Seq<T>, k: int)
    requires
        forall|i: int| 0 <= i < s.len() ==> #[trigger] s[i].key() > k,
    ensures
        insert_pos(s, k) == 0,
    decreases s.len(),
{
    if s.len() > 0 {
        assert(s.last().key() > k);
        assert forall|i: int| 0 <= i < s.drop_last().len() implies #[trigger] s.drop_last()[i].key() > k by {
            assert(s.drop_last()[i] == s[i]);
        }
        lemma_insert_pos_all_greater(s.drop_last(), k);
    }
}

proof fn lemma_merge_greater<T: SpecKeyed>(a: Seq<T>, b: Seq<T>, k: int)
    requires
        forall|i: int| 0 <= i < a.len() ==> #[trigger] a[i].key() > k,
        forall|i: int| 0 <= i < b.len() ==> #[trigger] b[i].key() > k,
    ensures
        forall|i: int| 0 <= i < merge(a, b).len() ==> #[trigger] merge(a, b)[i].key() > k,
    decreases a.len() + b.len(),
{
    if a.len() > 0 && b.len() > 0 {
        if a[0].key() <= b[0].key() {
            assert forall|i: int| 0 <= i < a.drop_first().len() implies #[trigger] a.drop_first()[i].key() > k by {
                assert(a.drop_first()[i] == a[i + 1]);
            }
            lemma_merge_greater(a.drop_first(), b, k);
            let m = merge(a.drop_first(), b);
            assert forall|i: int| 0 <= i < merge(a, b).len() implies #[trigger] merge(a, b)[i].key() > k by {
                if i > 0 {
                    assert(merge(a, b)[i] == m[i - 1]);
                }
            }
        } else {
            assert forall|i: int| 0 <= i < b.drop_first().len() implies #[trigger] b.drop_first()[i].key() > k by {
                assert(b.drop_first()[i] == b[i + 1]);
            }
            lemma_merge_greater(a, b.drop_first(), k);
            let m = merge(a, b.drop_first());
            assert forall|i: int| 0 <= i < merge(a, b).len() implies #[trigger] merge(a, b)[i].key() > k by {
                if i > 0 {
                    assert(merge(a, b)[i] == m[i - 1]);
                }
            }
        }
    }
}

proof fn lemma_sorted_tail<T: SpecKeyed>(s: Seq<T>)
    requires
        keys_sorted(s),
        s.len() > 0,
    ensures
        keys_sorted(s.drop_first()),
        forall|i: int| 0 <= i < s.len() ==> #[trigger] s[i].key() >= s[0].key(),
{
    assert forall|i: int, j: int| 0 <= i <= j < s.drop_first().len() implies #[trigger] s.drop_first()[i].key()
        <= #[trigger] s.drop_first()[j].key() by {
        assert(s.drop_first()[i] == s[i + 1] && s.drop_first()[j] == s[j + 1]);
    }
    assert forall|i: int| 0 <= i < s.len() implies #[trigger] s[i].key() >= s[0].key() by {
        assert(s[0].key() <= s[i].key());
    }
}

/// Inserting a record behind its equal keys into the right-hand run of a
/// merge is the same as inserting it into the merged result.
proof fn lemma_insert_merge<T: SpecKeyed>(p: Seq<T>, q: Seq<T>, x: T)
    requires
        keys_sorted(p),
        keys_sorted(q),
    ensures
        insert_sorted(merge(p, q), x) == merge(p, insert_sorted(q, x)),
    decreases p.len() + q.len(),
{
    let k = x.key();
    if p.len() == 0 {
        assert(merge(p, insert_sorted(q, x)) == insert_sorted(q, x));
    } else if q.len() == 0 {
        lemma_sorted_tail(p);
        assert(insert_sorted(q, x) =~= seq![x]);
        if p[0].key() <= k {
            lemma_insert_merge(p.drop_first(), q, x);
            assert(p =~= seq![p[0]] + p.drop_first());
            lemma_insert_front(p[0], p.drop_first(), x);
            assert(merge(p.drop_first(), q) == p.drop_first());
        } else {
            assert forall|i: int| 0 <= i < p.len() implies #[trigger] p[i].key() > k by {}
            lemma_insert_pos_all_greater(p, k);
            assert(insert_sorted(p, x) =~= seq![x] + p);
            assert(seq![x].drop_first() =~= Seq::<T>::empty());
            assert(merge(p, seq![x]) == seq![x] + merge(p, Seq::<T>::empty()));
        }
    } else {
        lemma_sorted_tail(p);
        lemma_sorted_tail(q);
        let q2 = insert_sorted(q, x);
        if q[0].key() <= k {
            assert(q =~= seq![q[0]] + q.drop_first());
            lemma_insert_front(q[0], q.drop_first(), x);
            assert(q2 == seq![q[0]] + insert_sorted(q.drop_first(), x));
            assert(q2.drop_first() =~= insert_sorted(q.drop_first(), x));
            if p[0].key() <= q[0].key() {
                lemma_insert_merge(p.drop_first(), q, x);
                lemma_insert_front(p[0], merge(p.drop_first(), q), x);
            } else {
                lemma_insert_merge(p, q.drop_first(), x);
                lemma_insert_front(q[0], merge(p, q.drop_first()), x);
            }
        } else {
            assert forall|i: int| 0 <= i < q.len() implies #[trigger] q[i].key() > k by {}
            lemma_insert_pos_all_greater(q, k);
            assert(q2 =~= seq![x] + q);
            assert(q2.drop_first() =~= q);
            if p[0].key() <= k {
                lemma_insert_merge(p.drop_first(), q, x);
                lemma_insert_pos_all_greater(q, k);
                assert(insert_sorted(q, x) == q2);
                lemma_insert_front(p[0], merge(p.drop_first(), q), x);
            } else {
                assert forall|i: int| 0 <= i < p.len() implies #[trigger] p[i].key() > k by {}
                lemma_merge_greater(p, q, k);
                lemma_insert_pos_all_greater(merge(p, q), k);
                assert(insert_sorted(merge(p, q), x) =~= seq![x] + merge(p, q));
            }
        }
    }
}

/// Sorting a concatenation is merging the two sorted halves.
pub proof fn lemma_sort_concat<T: SpecKeyed>(a: Seq<T>, b: Seq<T>)
    ensures
        sort_by_key(a + b) == merge(sort_by_key(a), sort_by_key(b)),
    decreases b.len(),
{
    lemma_sort_by_key(a);
    if b.len() == 0 {
        assert(a + b =~= a);
        let sa = sort_by_key(a);
        if sa.len() > 0 {
            assert(merge(sa, b) == sa);
        }
    } else {
        let b2 = b.drop_last();
        lemma_sort_concat(a, b2);
        assert((a + b).drop_last() =~= a + b2);
        assert((a + b).last() == b.last());
        lemma_sort_by_key(b2);
        lemma_insert_merge(sort_by_key(a), sort_by_key(b2), b.last());
    }
}

/// The records of `v` from last to first.
pub fn reversed<T>(v: Vec<T>) -> (r: Vec<T>)
    ensures
        r.len() == v.len(),
        forall|j: int| 0 <= j < r.len() ==> #[trigger] r@[j] == v@[v.len() - 1 - j],
{
    let ghost orig = v@;
    let n = v.len();
    let mut src = v;
    let mut rev: Vec<T> = Vec::new();
    while src.len() > 0
        invariant
            orig.len() == n,
            src@ == orig.take(src.len() as int),
            rev.len() + src.len() == n,
            forall|j: int| 0 <= j < rev.len() ==> #[trigger] rev@[j] == orig[n - 1 - j],
        decreases src.len(),
    {
        match src.pop() {
            Some(x) => {
                rev.push(x);
            },
            None => {},
        }
    }
    rev
}

/// Moves the records of `rev` (which holds `src` back to front, all but
/// the first `start` of them) to the end of `out`, in order.
fn drain_reversed<T>(out: &mut Vec<T>, rev: &mut Vec<T>, Ghost(src): Ghost<Seq<T>>, Ghost(start): Ghost<int>)
    requires
        0 <= start <= src.len(),
        old(rev).len() + start == src.len(),
        forall|j: int| 0 <= j < old(rev).len() ==> #[trigger] old(rev)@[j] == src[src.len() - 1 - j],
    ensures
        final(out)@ == old(out)@ + src.skip(start),
{
    let ghost base = out@;
    let ghost n = src.len();
    assert(src.skip(start).take(0) =~= Seq::<T>::empty());
    while rev.len() > 0
        invariant
            n == src.len(),
            0 <= start <= n,
            start + (n - start - rev.len()) + rev.len() == n,
            rev.len() <= n - start,
            forall|j: int| 0 <= j < rev.len() ==> #[trigger] rev@[j] == src[n - 1 - j],
            out@ == base + src.skip(start).take(n - start - rev.len()),
        decreases rev.len(),
    {
        let ghost taken = n - start - rev.len();
        match rev.pop() {
            Some(x) => {
                assert(x == src[start + taken]);
                out.push(x);
                assert(src.skip(start).take(taken + 1) =~= src.skip(start).take(taken).push(x));
            },
            None => {},
        }
    }
    assert(src.skip(start).take(n - start) =~= src.skip(start));
}

/// The stable merge of two runs.
fn merge_exec<T: Keyed>(a: Vec<T>, b: Vec<T>) -> (r: Vec<T>)
    ensures
        r@ == merge(a@, b@),
{
    let ghost sa = a@;
    let ghost sb = b@;
    let na = a.len();
    let nb = b.len();
    let mut ra = reversed(a);
    let mut rb = reversed(b);
    let mut out: Vec<T> = Vec::new();
    let mut ia: usize = 0;
    let mut ib: usize = 0;
    assert(sa.skip(0) =~= sa);
    assert(sb.skip(0) =~= sb);
    assert(out@ + merge(sa.skip(0), sb.skip(0)) =~= merge(sa, sb));
    while ra.len() > 0 && rb.len() > 0
        invariant
            sa.len() == na,
            sb.len() == nb,
            ia + ra.len() == na,
            ib + rb.len() == nb,
            forall|j: int| 0 <= j < ra.len() ==> #[trigger] ra@[j] == sa[na - 1 - j],
            forall|j: int| 0 <= j < rb.len() ==> #[trigger] rb@[j] == sb[nb - 1 - j],
            out@ + merge(sa.skip(ia as int), sb.skip(ib as int)) == merge(sa, sb),
        decreases ra.len() + rb.len(),
    {
        let ghost ta = sa.skip(ia as int);
        let ghost tb = sb.skip(ib as int);
        assert(ra@[ra.len() - 1] == sa[ia as int]);
        assert(rb@[rb.len() - 1] == sb[ib as int]);
        assert(ta[0] == sa[ia as int] && tb[0] == sb[ib as int]);
        let ka = ra[ra.len() - 1].key_exec();
        let kb = rb[rb.len() - 1].key_exec();
        if ka <= kb {
            match ra.pop() {
                Some(x) => {
                    out.push(x);
                    assert(ta.drop_first() =~= sa.skip(ia + 1));
                    ia += 1;
                },
                None => {},
            }
        } else {
            match rb.pop() {
                Some(x) => {
                    out.push(x);
                    assert(tb.drop_first() =~= sb.skip(ib + 1));
                    ib += 1;
                },
                None => {},
            }
        }
        assert(out@ + merge(sa.skip(ia as int), sb.skip(ib as int)) =~= merge(sa, sb));
    }
    if ra.len() > 0 {
        assert(sb.skip(ib as int).len() == 0);
        assert(merge(sa.skip(ia as int), sb.skip(ib as int)) == sa.skip(ia as int));
        drain_reversed(&mut out, &mut ra, Ghost(sa), Ghost(ia as int));
    } else {
        assert(sa.skip(ia as int).len() == 0);
        drain_reversed(&mut out, &mut rb, Ghost(sb), Ghost(ib as int));
    }
    out
}

/// Stable sort by key (a merge sort).
pub fn sort_by_key_exec<T: Keyed>(v: Vec<T>) -> (r: Vec<T>)
    ensures
        r@ == sort_by_key(v@),
    decreases v.len(),
{
    if v.len() <= 1 {
        proof {
            if v.len() == 1 {
                assert(v@.drop_last() =~= Seq::<T>::empty());
                assert(sort_by_key(v@.drop_last()) == Seq::<T>::empty());
                assert(insert_pos(Seq::<T>::empty(), v@.last().key()) == 0);
                assert(insert_sorted(Seq::<T>::empty(), v@.last()) =~= v@);
            } else {
                assert(v@ =~= Seq::<T>::empty());
            }
        }
        return v;
    }
    let ghost whole = v@;
    let mut left = v;
    let mid = left.len() / 2;
    let right = left.split_off(mid);
    assert(whole =~= left@ + right@);
    let sl = sort_by_key_exec(left);
    let sr = sort_by_key_exec(right);
    proof {
        lemma_sort_concat(left@, right@);
    }
    merge_exec(sl, sr)
}

/// Mapping every record through a key-preserving function commutes with
/// the stable sort.
pub proof fn lemma_sort_map<T: SpecKeyed, U: SpecKeyed>(s: Seq<T>, f: spec_fn(T) -> U)
    requires
        forall|x: T| #[trigger] f(x).key() == x.key(),
    ensures
        sort_by_key(s).map_values(f) == sort_by_key(s.map_values(f)),
    decreases s.len(),
{
    if s.len() > 0 {
        lemma_sort_map(s.drop_last(), f);
        let t = sort_by_key(s.drop_last());
        assert(s.map_values(f).drop_last() =~= s.drop_last().map_values(f));
        lemma_insert_pos_map(t, s.last().key(), f);
        lemma_insert_pos_bound(t, s.last().key());
        assert(f(s.last()).key() == s.last().key());
        assert(insert_sorted(t, s.last()).map_values(f) =~= insert_sorted(t.map_values(f), f(s.last())));
    }
}

proof fn lemma_insert_pos_map<T: SpecKeyed, U: SpecKeyed>(s: Seq<T>, k: int, f: spec_fn(T) -> U)
    requires
        forall|x: T| #[trigger] f(x).key() == x.key(),
    ensures
        insert_pos(s.map_values(f), k) == insert_pos(s, k),
    decreases s.len(),
{
    if s.len() > 0 {
        assert(s.map_values(f).drop_last() =~= s.drop_last().map_values(f));
        assert(s.map_values(f).last() == f(s.last()));
        lemma_insert_pos_map(s.drop_last(), k, f);
    }
}

} // verus!
