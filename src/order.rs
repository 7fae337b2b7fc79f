//! Stable ordering of a batch of changes by their start offset.
use vstd::prelude::*;
use crate::change::{Change, ChangeSet};

verus! {

/// The changes of `s` that start at `k`, in the order in which they stand.
pub open spec fn with_start(s: Seq<Change>, k: u32) -> Seq<Change>
    decreases s.len(),
{
    if s.len() == 0 {
        Seq::empty()
    } else {
        with_start(s.drop_last(), k) + if s.last().start_byte == k {
            seq![s.last()]
        } else {
            Seq::empty()
        }
    }
}

/// Start offsets never decrease along `s`.
pub open spec fn sorted_by_start(s: Seq<Change>) -> bool {
    forall|i: int, j: int| 0 <= i < j < s.len() ==> s[i].start_byte <= s[j].start_byte
}

/// `r` holds the changes of `orig` ordered by start offset, changes with
/// equal starts keeping their relative order.
pub open spec fn is_stable_sort(orig: Seq<Change>, r: Seq<Change>) -> bool {
    &&& sorted_by_start(r)
    &&& forall|k: u32| #[trigger] with_start(r, k) == with_start(orig, k)
}

/// Grouping by start distributes over concatenation.
proof fn lemma_with_start_concat(a: Seq<Change>, b: Seq<Change>, k: u32)
    ensures
        with_start(a + b, k) == with_start(a, k) + with_start(b, k),
    decreases b.len(),
{
    if b.len() == 0 {
        assert(a + b == a);
        assert(with_start(a, k) + with_start(b, k) == with_start(a, k));
    } else {
        assert((a + b).drop_last() == a + b.drop_last());
        lemma_with_start_concat(a, b.drop_last(), k);
    }
}

/// Grouping is empty when no change of `s` starts at `k`.
proof fn lemma_with_start_none(s: Seq<Change>, k: u32)
    requires
        forall|i: int| 0 <= i < s.len() ==> s[i].start_byte != k,
    ensures
        with_start(s, k) == Seq::<Change>::empty(),
    decreases s.len(),
{
    if s.len() > 0 {
        lemma_with_start_none(s.drop_last(), k);
    }
}

/// The last change of `s` ends the group of its own start.
proof fn lemma_with_start_last(s: Seq<Change>)
    requires
        s.len() > 0,
    ensures
        with_start(s, s.last().start_byte) == with_start(s.drop_last(), s.last().start_byte).push(
            s.last(),
        ),
{
}

/// No change of a sorted sequence starts after its last one.
proof fn lemma_with_start_past_end(s: Seq<Change>, k: u32)
    requires
        sorted_by_start(s),
        s.len() > 0,
        k > s.last().start_byte,
    ensures
        with_start(s, k) == Seq::<Change>::empty(),
{
    lemma_with_start_none(s, k);
}

/// Two sorted sequences with the same group for every start are equal.
proof fn lemma_sorted_groups_determine(s: Seq<Change>, t: Seq<Change>)
    requires
        sorted_by_start(s),
        sorted_by_start(t),
        forall|k: u32| #[trigger] with_start(s, k) == with_start(t, k),
    ensures
        s == t,
    decreases s.len() + t.len(),
{
    if s.len() == 0 && t.len() == 0 {
        assert(s == t);
    } else if s.len() == 0 {
        lemma_with_start_last(t);
        assert(with_start(s, t.last().start_byte).len() == 0);
    } else if t.len() == 0 {
        lemma_with_start_last(s);
        assert(with_start(t, s.last().start_byte).len() == 0);
    } else {
        let ks = s.last().start_byte;
        let kt = t.last().start_byte;
        lemma_with_start_last(s);
        lemma_with_start_last(t);
        if ks < kt {
            lemma_with_start_past_end(s, kt);
            assert(with_start(s, kt).len() == 0);
        } else if kt < ks {
            lemma_with_start_past_end(t, ks);
            assert(with_start(t, ks).len() == 0);
        } else {
            let gs = with_start(s, ks);
            let gt = with_start(t, ks);
            assert(gs == gt);
            assert(s.last() == gs.last());
            assert(t.last() == gt.last());
            assert(with_start(s.drop_last(), ks) == gs.drop_last());
            assert(with_start(t.drop_last(), ks) == gt.drop_last());
            assert forall|k: u32| #[trigger]
                with_start(s.drop_last(), k) == with_start(t.drop_last(), k) by {
                assert(with_start(s, k) == with_start(t, k));
            }
            lemma_sorted_groups_determine(s.drop_last(), t.drop_last());
            assert(s == s.drop_last().push(s.last()));
            assert(t == t.drop_last().push(t.last()));
        }
    }
}

/// A stable ordering of a batch is unique.
pub proof fn lemma_stable_sort_unique(orig: Seq<Change>, r1: Seq<Change>, r2: Seq<Change>)
    requires
        is_stable_sort(orig, r1),
        is_stable_sort(orig, r2),
    ensures
        r1 == r2,
{
    assert forall|k: u32| #[trigger] with_start(r1, k) == with_start(r2, k) by {
        assert(with_start(r1, k) == with_start(orig, k));
        assert(with_start(r2, k) == with_start(orig, k));
    }
    lemma_sorted_groups_determine(r1, r2);
}

/// No two changes of `s` start at the same offset.
pub open spec fn distinct_starts(s: Seq<Change>) -> bool {
    forall|i: int, j: int| 0 <= i < j < s.len() ==> s[i].start_byte != s[j].start_byte
}

/// The group of `k` holds exactly the changes of `s` that start at `k`.
proof fn lemma_with_start_contains(s: Seq<Change>, k: u32, x: Change)
    ensures
        with_start(s, k).contains(x) <==> s.contains(x) && x.start_byte == k,
    decreases s.len(),
{
    if s.len() > 0 {
        lemma_with_start_contains(s.drop_last(), k, x);
        let d = s.drop_last();
        let g = with_start(d, k);
        let l = s.last();
        assert(s == d.push(l));
        assert(d.push(l).contains(x) <==> d.contains(x) || x == l) by {
            if d.push(l).contains(x) {
                let i = choose|i: int| 0 <= i < d.push(l).len() && d.push(l)[i] == x;
                if i < d.len() {
                    assert(d[i] == x);
                }
            }
            if d.contains(x) {
                let i = choose|i: int| 0 <= i < d.len() && d[i] == x;
                assert(d.push(l)[i] == x);
            }
            if x == l {
                assert(d.push(l)[d.len() as int] == x);
            }
        }
        if l.start_byte == k {
            assert(with_start(s, k) == g.push(l));
            assert(g.push(l).contains(x) <==> g.contains(x) || x == l) by {
                if g.push(l).contains(x) {
                    let i = choose|i: int| 0 <= i < g.push(l).len() && g.push(l)[i] == x;
                    if i < g.len() {
                        assert(g[i] == x);
                    }
                }
                if g.contains(x) {
                    let i = choose|i: int| 0 <= i < g.len() && g[i] == x;
                    assert(g.push(l)[i] == x);
                }
                if x == l {
                    assert(g.push(l)[g.len() as int] == x);
                }
            }
        } else {
            assert(with_start(s, k) == g);
        }
    }
}

/// A stable ordering holds no change that the batch did not.
pub proof fn lemma_stable_sort_members(orig: Seq<Change>, r: Seq<Change>, x: Change)
    requires
        is_stable_sort(orig, r),
        r.contains(x),
    ensures
        orig.contains(x),
{
    lemma_with_start_contains(r, x.start_byte, x);
    lemma_with_start_contains(orig, x.start_byte, x);
    assert(with_start(r, x.start_byte) == with_start(orig, x.start_byte));
}

/// With distinct starts a group holds at most one change.
proof fn lemma_with_start_single(s: Seq<Change>, k: u32)
    requires
        distinct_starts(s),
    ensures
        with_start(s, k).len() <= 1,
    decreases s.len(),
{
    if s.len() > 0 {
        lemma_with_start_single(s.drop_last(), k);
        if s.last().start_byte == k {
            lemma_with_start_none(s.drop_last(), k);
        }
    }
}

/// Two arrangements of the same changes, each starting at distinct offsets,
/// have the same group for every start.
proof fn lemma_permutation_groups(a: Seq<Change>, b: Seq<Change>, k: u32)
    requires
        a.to_multiset() == b.to_multiset(),
        distinct_starts(a),
        distinct_starts(b),
    ensures
        with_start(a, k) == with_start(b, k),
{
    broadcast use vstd::seq_lib::to_multiset_contains;

    let ga = with_start(a, k);
    let gb = with_start(b, k);
    lemma_with_start_single(a, k);
    lemma_with_start_single(b, k);
    if ga.len() == 1 {
        let x = ga[0];
        assert(ga.contains(x));
        lemma_with_start_contains(a, k, x);
        assert(a.to_multiset().count(x) > 0);
        lemma_with_start_contains(b, k, x);
        assert(gb.contains(x));
        assert(gb == ga);
    } else if gb.len() == 1 {
        let y = gb[0];
        assert(gb.contains(y));
        lemma_with_start_contains(b, k, y);
        assert(b.to_multiset().count(y) > 0);
        lemma_with_start_contains(a, k, y);
        assert(ga.contains(y));
    } else {
        assert(ga == gb);
    }
}

/// Supplying the same changes in another order yields the same sorted batch,
/// provided no two of them start at the same offset.
pub proof fn lemma_order_independent(a: Seq<Change>, b: Seq<Change>, ra: Seq<Change>, rb: Seq<Change>)
    requires
        a.to_multiset() == b.to_multiset(),
        distinct_starts(a),
        distinct_starts(b),
        is_stable_sort(a, ra),
        is_stable_sort(b, rb),
    ensures
        ra == rb,
{
    assert forall|k: u32| #[trigger] with_start(ra, k) == with_start(rb, k) by {
        lemma_permutation_groups(a, b, k);
        assert(with_start(ra, k) == with_start(a, k));
        assert(with_start(rb, k) == with_start(b, k));
    }
    lemma_sorted_groups_determine(ra, rb);
}

/// Orders `changes` by start offset; changes that start at the same offset
/// keep the order in which they were given.
pub fn sort_changes(changes: ChangeSet) -> (r: ChangeSet)
    ensures
        is_stable_sort(changes@, r@),
{
    let mut changes = changes;
    let ghost orig = changes@;
    let mut out: ChangeSet = Vec::new();
    let mut i: usize = 0;
    let n = changes.len();
    while changes.len() > 0
        invariant
            orig.len() == i + changes@.len(),
            n == orig.len(),
            changes@ == orig.subrange(i as int, orig.len() as int),
            sorted_by_start(out@),
            forall|k: u32| #[trigger] with_start(out@, k) == with_start(orig.take(i as int), k),
        decreases changes@.len(),
    {
        let x = changes.remove(0);
        let ghost old_out = out@;
        let mut p: usize = out.len();
        while p > 0 && out[p - 1].start_byte > x.start_byte
            invariant
                out@ == old_out,
                0 <= p <= out@.len(),
                forall|j: int| p <= j < out@.len() ==> out@[j].start_byte > x.start_byte,
            decreases p,
        {
            p = p - 1;
        }
        let ghost xs = x.start_byte;
        let ghost xv = x;
        out.insert(p, x);
        proof {
            let pre = old_out.subrange(0, p as int);
            let post = old_out.subrange(p as int, old_out.len() as int);
            assert(old_out == pre + post);
            assert(out@ == pre + seq![xv] + post);
            assert(orig.take(i + 1).drop_last() == orig.take(i as int));
            assert(orig.take(i + 1).last() == xv);
            assert forall|k: u32| #[trigger] with_start(out@, k) == with_start(orig.take(i + 1), k) by {
                lemma_with_start_concat(pre, post, k);
                lemma_with_start_concat(pre + seq![xv], post, k);
                lemma_with_start_concat(pre, seq![xv], k);
                assert(seq![xv].drop_last() == Seq::<Change>::empty());
                assert(with_start(Seq::<Change>::empty(), k) == Seq::<Change>::empty());
                assert(with_start(seq![xv], k) == if xs == k {
                    seq![xv]
                } else {
                    Seq::<Change>::empty()
                });
                if k == xs {
                    lemma_with_start_none(post, k);
                }
            }
            if p > 0 {
                assert(old_out[p - 1].start_byte <= xs);
            }
        }
        i = i + 1;
    }
    assert(orig.take(i as int) == orig);
    out
}

} // verus!
