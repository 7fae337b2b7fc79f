//! The whole in-memory rewrite: order, validate, size and apply a batch.
use vstd::prelude::*;
use crate::change::{Change, ChangeSet, ReprintError, delta_of, text_bytes, utf8_of};
use crate::order::{is_stable_sort, sort_changes};
use crate::validate::{first_misplaced, is_valid, misplaced_error, verify, well_placed};
use crate::patch::{
    apply, first_outside, inside, out_of_range_error, process, splice, within,
};

verus! {

/// What applying the sorted batch `s` to `input` comes to: the first
/// misplaced change, else the first change outside the input, else the
/// rewritten bytes.
pub open spec fn outcome(input: Seq<u8>, s: Seq<Change>) -> Result<Seq<u8>, ReprintError> {
    if !is_valid(s) {
        Err(misplaced_error(s, choose|i: int| first_misplaced(s, i)))
    } else if !within(s, input.len() as int) {
        Err(out_of_range_error(s, choose|i: int| first_outside(s, i, input.len() as int), input.len()))
    } else {
        Ok(apply(input, s))
    }
}

/// The bytes of a rewrite's result, or its error.
pub open spec fn result_bytes(r: Result<Vec<u8>, ReprintError>) -> Result<Seq<u8>, ReprintError> {
    match r {
        Ok(v) => Ok(v@),
        Err(e) => Err(e),
    }
}

/// Sum of the length changes of the batch.
pub open spec fn total_delta(s: Seq<Change>) -> int
    decreases s.len(),
{
    if s.len() == 0 {
        0
    } else {
        total_delta(s.drop_last()) + delta_of(s.last())
    }
}

/// Every replacement text fits in the address space.
pub open spec fn texts_fit(s: Seq<Change>) -> bool {
    forall|i: int| 0 <= i < s.len() ==> #[trigger] text_bytes(s[i]).len() <= isize::MAX
}

/// Estimated length of the rewritten content, `len + Σ delta`, or `len`
/// where that sum is not a possible length.
pub fn estimated_len(len: usize, changes: &ChangeSet) -> (r: usize)
    requires
        is_valid(changes@),
        texts_fit(changes@),
    ensures
        r == if 0 <= len + total_delta(changes@) <= usize::MAX {
            (len + total_delta(changes@)) as usize
        } else {
            len
        },
{
    let mut acc: i128 = len as i128;
    let mut k: usize = 0;
    while k < changes.len()
        invariant
            0 <= k <= changes@.len(),
            is_valid(changes@),
            texts_fit(changes@),
            acc == len + total_delta(changes@.take(k as int)),
            -(k as int) * 0x1_0000_0000 <= acc - len <= (k as int) * (isize::MAX as int),
        decreases changes@.len() - k,
    {
        let ch = &changes[k];
        assert(crate::validate::well_placed(changes@, k as int));
        assert(text_bytes(changes@[k as int]).len() <= isize::MAX);
        let d = ch.delta();
        assert(changes@.take(k + 1).drop_last() == changes@.take(k as int));
        proof {
            let kk = k as int;
            assert((kk + 1) * (isize::MAX as int) == kk * (isize::MAX as int) + isize::MAX) by (nonlinear_arith);
            assert(-(kk + 1) * 0x1_0000_0000 == -kk * 0x1_0000_0000 - 0x1_0000_0000) by (nonlinear_arith);
            assert(kk < 0x1_0000_0000_0000_0000);
            assert(kk * (isize::MAX as int) <= 0xffff_ffff_ffff_ffff * (isize::MAX as int)) by (nonlinear_arith)
                requires 0 <= kk < 0x1_0000_0000_0000_0000;
            assert(kk * 0x1_0000_0000 <= 0xffff_ffff_ffff_ffff * 0x1_0000_0000) by (nonlinear_arith)
                requires 0 <= kk < 0x1_0000_0000_0000_0000;
        }
        acc = acc + d as i128;
        k = k + 1;
    }
    assert(changes@.take(k as int) == changes@);
    if 0 <= acc && acc <= usize::MAX as i128 {
        acc as usize
    } else {
        len
    }
}

/// Orders a batch by start offset and validates it, before any content is
/// at hand. On success the result is the stable ordering of the batch and is
/// valid; otherwise the stable ordering is invalid and the error is the one
/// for its first misplaced change.
pub fn prepare(changes: ChangeSet) -> (r: Result<ChangeSet, ReprintError>)
    ensures
        r matches Ok(v) ==> is_stable_sort(changes@, v@) && is_valid(v@),
        r matches Err(e) ==> exists|s: Seq<Change>, i: int|
            #![trigger is_stable_sort(changes@, s), first_misplaced(s, i)]
            is_stable_sort(changes@, s) && first_misplaced(s, i) && e == misplaced_error(s, i),
{
    let sorted = sort_changes(changes);
    match verify(&sorted) {
        Ok(()) => Ok(sorted),
        Err(e) => Err(e),
    }
}

/// Applies a validated batch to `input`, in a buffer allocated at the
/// estimated length: the rewritten bytes, or the error for the first change
/// with an offset past the end of the input.
pub fn apply_changes(input: String, changes: ChangeSet) -> (r: Result<Vec<u8>, ReprintError>)
    requires
        is_valid(changes@),
        texts_fit(changes@),
    ensures
        result_bytes(r) == outcome(utf8_of(input), changes@),
{
    let n = input.as_str().as_bytes().len();
    let mut buf: Vec<u8> = Vec::with_capacity(estimated_len(n, &changes));
    match process(input, changes, &mut buf) {
        Ok(()) => Ok(buf),
        Err(e) => Err(e),
    }
}

/// Orders, validates and applies a batch of changes to `input`: the result is
/// what the stable ordering of the batch comes to (see `outcome`).
pub fn rewrite(input: String, changes: ChangeSet) -> (r: Result<Vec<u8>, ReprintError>)
    requires
        texts_fit(changes@),
    ensures
        exists|s: Seq<Change>| #[trigger]
            is_stable_sort(changes@, s) && result_bytes(r) == outcome(utf8_of(input), s),
        forall|s: Seq<Change>| #[trigger]
            is_stable_sort(changes@, s) ==> result_bytes(r) == outcome(utf8_of(input), s),
{
    let ghost orig = changes@;
    let ghost text = utf8_of(input);
    let prepared = prepare(changes);
    let sorted = match prepared {
        Ok(v) => v,
        Err(e) => {
            let r = Err(e);
            proof {
                let (s, i) = choose|s: Seq<Change>, i: int|
                    is_stable_sort(orig, s) && first_misplaced(s, i) && e == misplaced_error(s, i);
                assert forall|s2: Seq<Change>| #[trigger] is_stable_sort(orig, s2) implies s2 == s by {
                    crate::order::lemma_stable_sort_unique(orig, s2, s);
                }
                assert(is_stable_sort(orig, s) && result_bytes(r) == outcome(text, s));
            }
            return r;
        },
    };
    assert forall|s: Seq<Change>| #[trigger] is_stable_sort(orig, s) implies s == sorted@ by {
        crate::order::lemma_stable_sort_unique(orig, s, sorted@);
    }
    assert(texts_fit(sorted@)) by {
        assert forall|i: int| 0 <= i < sorted@.len() implies #[trigger] text_bytes(sorted@[i]).len()
            <= isize::MAX by {
            crate::order::lemma_stable_sort_members(orig, sorted@, sorted@[i]);
            assert(sorted@.contains(sorted@[i]));
            let j = choose|j: int| 0 <= j < orig.len() && orig[j] == sorted@[i];
            assert(text_bytes(orig[j]).len() <= isize::MAX);
        }
    }
    apply_changes(input, sorted)
}

/// The length of the content from `pos` on after the rest of the batch.
proof fn lemma_splice_len(input: Seq<u8>, s: Seq<Change>, pos: int)
    requires
        is_valid(s),
        within(s, input.len() as int),
        0 <= pos <= input.len(),
        s.len() > 0 ==> pos <= s[0].start_byte,
    ensures
        splice(input, s, pos).len() == input.len() - pos + total_delta(s),
    decreases s.len(),
{
    if s.len() > 0 {
        let s2 = s.drop_first();
        assert(well_placed(s, 0));
        assert(inside(s, 0, input.len() as int));
        assert(is_valid(s2)) by {
            assert forall|i: int| 0 <= i < s2.len() implies #[trigger] well_placed(s2, i) by {
                assert(well_placed(s, i + 1));
            }
        }
        assert(within(s2, input.len() as int)) by {
            assert forall|i: int| 0 <= i < s2.len() implies #[trigger] inside(s2, i, input.len() as int) by {
                assert(inside(s, i + 1, input.len() as int));
            }
        }
        if s2.len() > 0 {
            assert(well_placed(s, 1));
        }
        lemma_splice_len(input, s2, s[0].end_byte as int);
        lemma_total_delta_front(s);
    }
}

/// For a well-placed batch inside the content, the rewritten content is as
/// long as the content plus the sum of the deltas: the estimate that sizes
/// the output buffer is exact.
pub proof fn lemma_apply_len(input: Seq<u8>, s: Seq<Change>)
    requires
        is_valid(s),
        within(s, input.len() as int),
    ensures
        apply(input, s).len() == input.len() + total_delta(s),
{
    lemma_splice_len(input, s, 0);
}

/// An empty batch is its own stable ordering, and applying it leaves the
/// content byte for byte as it was.
pub proof fn lemma_empty_batch_identity(input: Seq<u8>)
    ensures
        is_stable_sort(Seq::<Change>::empty(), Seq::<Change>::empty()),
        outcome(input, Seq::<Change>::empty()) == Ok::<Seq<u8>, ReprintError>(input),
{
    assert(input.subrange(0, input.len() as int) == input);
}

/// Supplying the changes of a batch in another order gives the same result,
/// provided no two of them start at the same offset: the stable orderings of
/// the two arrangements coincide, and so do their outcomes.
pub proof fn lemma_rewrite_order_independent(
    input: Seq<u8>,
    a: Seq<Change>,
    b: Seq<Change>,
    ra: Seq<Change>,
    rb: Seq<Change>,
)
    requires
        a.to_multiset() == b.to_multiset(),
        crate::order::distinct_starts(a),
        crate::order::distinct_starts(b),
        is_stable_sort(a, ra),
        is_stable_sort(b, rb),
    ensures
        ra == rb,
        outcome(input, ra) == outcome(input, rb),
{
    crate::order::lemma_order_independent(a, b, ra, rb);
}

/// The change at `i` of `t` undoes the change at `i` of `s` on the content
/// that `s` produced from `input`: it covers the replacement text where the
/// changes before it have moved it, and puts back the bytes it replaced.
pub open spec fn inverse_at(input: Seq<u8>, s: Seq<Change>, t: Seq<Change>, i: int) -> bool {
    &&& t[i].start_byte == s[i].start_byte + total_delta(s.take(i))
    &&& t[i].end_byte == t[i].start_byte + text_bytes(s[i]).len()
    &&& text_bytes(t[i]) == input.subrange(s[i].start_byte as int, s[i].end_byte as int)
}

/// `t` is the inverse batch of `s` for `input`.
pub open spec fn is_inverse(input: Seq<u8>, s: Seq<Change>, t: Seq<Change>) -> bool {
    &&& t.len() == s.len()
    &&& forall|i: int| 0 <= i < s.len() ==> #[trigger] inverse_at(input, s, t, i)
}

/// The deltas of a batch add up from its front as well.
proof fn lemma_total_delta_front(s: Seq<Change>)
    requires
        s.len() > 0,
    ensures
        total_delta(s) == delta_of(s[0]) + total_delta(s.drop_first()),
    decreases s.len(),
{
    if s.len() > 1 {
        lemma_total_delta_front(s.drop_last());
        assert(s.drop_last().drop_first() == s.drop_first().drop_last());
        assert(s.drop_first().last() == s.last());
        assert(s.drop_last()[0] == s[0]);
        assert(total_delta(s.drop_first()) == total_delta(s.drop_first().drop_last()) + delta_of(
            s.last(),
        ));
    } else {
        assert(total_delta(s.drop_last()) == 0);
        assert(total_delta(s.drop_first()) == 0);
        assert(s.last() == s[0]);
    }
}

/// Undoing the rest of the batch from `pos` in the input, which is `opos`
/// in the output, gives back the input from `pos` on.
proof fn lemma_undo_from(input: Seq<u8>, s: Seq<Change>, t: Seq<Change>, out: Seq<u8>, pos: int, opos: int)
    requires
        is_valid(s),
        within(s, input.len() as int),
        0 <= pos <= input.len(),
        s.len() > 0 ==> pos <= s[0].start_byte,
        0 <= opos <= out.len(),
        out.subrange(opos, out.len() as int) == splice(input, s, pos),
        t.len() == s.len(),
        forall|i: int|
            0 <= i < s.len() ==> {
                &&& #[trigger] t[i].start_byte == s[i].start_byte + (opos - pos) + total_delta(s.take(i))
                &&& t[i].end_byte == t[i].start_byte + text_bytes(s[i]).len()
                &&& text_bytes(t[i]) == input.subrange(s[i].start_byte as int, s[i].end_byte as int)
            },
    ensures
        splice(out, t, opos) == input.subrange(pos, input.len() as int),
        within(t, out.len() as int),
    decreases s.len(),
{
    if s.len() > 0 {
        let a = s[0].start_byte as int;
        let e = s[0].end_byte as int;
        let tx = text_bytes(s[0]);
        let d = opos - pos;
        assert(s.take(0) == Seq::<Change>::empty());
        assert(t[0].start_byte == a + d);
        assert(well_placed(s, 0));
        assert(inside(s, 0, input.len() as int));
        let rest = splice(input, s.drop_first(), e);
        assert(splice(input, s, pos) == input.subrange(pos, a) + tx + rest);
        let tail = out.subrange(opos, out.len() as int);
        assert(out.subrange(opos, a + d) == tail.subrange(0, a - pos));
        assert(out.subrange(opos, a + d) == input.subrange(pos, a));
        assert(out.subrange(a + d, a + d + tx.len()) == tail.subrange(a - pos, a - pos + tx.len()));
        assert(out.subrange(a + d, a + d + tx.len()) == tx);
        assert(out.subrange(a + d + tx.len(), out.len() as int) == tail.subrange(
            a - pos + tx.len(),
            tail.len() as int,
        ));
        assert(out.subrange(a + d + tx.len(), out.len() as int) == rest);
        let s2 = s.drop_first();
        let t2 = t.drop_first();
        assert(is_valid(s2)) by {
            assert forall|i: int| 0 <= i < s2.len() implies #[trigger] well_placed(s2, i) by {
                assert(well_placed(s, i + 1));
            }
        }
        assert(within(s2, input.len() as int)) by {
            assert forall|i: int| 0 <= i < s2.len() implies #[trigger] inside(s2, i, input.len() as int) by {
                assert(inside(s, i + 1, input.len() as int));
            }
        }
        if s2.len() > 0 {
            assert(well_placed(s, 1));
        }
        let pos2 = e;
        let opos2 = a + d + tx.len();
        assert forall|i: int| 0 <= i < s2.len() implies {
            &&& #[trigger] t2[i].start_byte == s2[i].start_byte + (opos2 - pos2) + total_delta(s2.take(i))
            &&& t2[i].end_byte == t2[i].start_byte + text_bytes(s2[i]).len()
            &&& text_bytes(t2[i]) == input.subrange(s2[i].start_byte as int, s2[i].end_byte as int)
        } by {
            assert(t[i + 1].start_byte == s[i + 1].start_byte + d + total_delta(s.take(i + 1)));
            lemma_total_delta_front(s.take(i + 1));
            assert(s.take(i + 1).drop_first() == s2.take(i));
        }
        assert(tail.len() == (a - pos) + tx.len() + rest.len());
        assert(opos2 <= out.len());
        lemma_undo_from(input, s2, t2, out, pos2, opos2);
        assert forall|i: int| 0 <= i < t.len() implies #[trigger] inside(t, i, out.len() as int) by {
            if i > 0 {
                assert(inside(t2, i - 1, out.len() as int));
                assert(t2[i - 1] == t[i]);
            }
        }
        assert(t[0].end_byte == opos2);
        assert(splice(out, t, opos) == out.subrange(opos, a + d) + input.subrange(a, e) + splice(
            out,
            t2,
            opos2,
        ));
        assert(input.subrange(pos, input.len() as int) == input.subrange(pos, a) + input.subrange(a, e)
            + input.subrange(e, input.len() as int));
    } else {
        assert(out.subrange(opos, out.len() as int) == input.subrange(pos, input.len() as int));
    }
}

/// Applying a batch and then its inverse batch, computed from where each
/// replacement text landed, restores the original content: the inverse
/// batch is well placed and lies within the rewritten content, so its
/// application succeeds with the original bytes.
pub proof fn lemma_round_trip(input: Seq<u8>, s: Seq<Change>, t: Seq<Change>)
    requires
        is_valid(s),
        within(s, input.len() as int),
        is_inverse(input, s, t),
    ensures
        apply(apply(input, s), t) == input,
        is_valid(t),
        within(t, apply(input, s).len() as int),
        outcome(apply(input, s), t) == Ok::<Seq<u8>, ReprintError>(input),
{
    let out = apply(input, s);
    assert(out.subrange(0, out.len() as int) == out);
    assert forall|i: int| 0 <= i < s.len() implies {
        &&& #[trigger] t[i].start_byte == s[i].start_byte + (0int - 0int) + total_delta(s.take(i))
        &&& t[i].end_byte == t[i].start_byte + text_bytes(s[i]).len()
        &&& text_bytes(t[i]) == input.subrange(s[i].start_byte as int, s[i].end_byte as int)
    } by {
        assert(inverse_at(input, s, t, i));
    }
    lemma_undo_from(input, s, t, out, 0, 0);
    assert(input.subrange(0, input.len() as int) == input);
    assert forall|i: int| 0 <= i < t.len() implies #[trigger] well_placed(t, i) by {
        assert(inverse_at(input, s, t, i));
        if i > 0 {
            assert(inverse_at(input, s, t, i - 1));
            assert(well_placed(s, i));
            assert(s.take(i).drop_last() == s.take(i - 1));
            assert(inside(s, i - 1, input.len() as int));
        }
    }
}

} // verus!
