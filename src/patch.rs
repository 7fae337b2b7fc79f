//! Splices the replacement texts of a validated batch into the original bytes.
use vstd::prelude::*;
use crate::change::{Change, ChangeSet, ReprintError, text_bytes, utf8_of};
use crate::validate::{is_valid, well_placed};

verus! {

/// The change at `i` starts and ends within content of length `len` (at its
/// end at the latest).
pub open spec fn inside(s: Seq<Change>, i: int, len: int) -> bool {
    s[i].start_byte <= len && s[i].end_byte <= len
}

/// Every change lies inside content of length `len`.
pub open spec fn within(s: Seq<Change>, len: int) -> bool {
    forall|i: int| 0 <= i < s.len() ==> #[trigger] inside(s, i, len)
}

/// `i` is the first index whose change does not lie inside the content.
pub open spec fn first_outside(s: Seq<Change>, i: int, len: int) -> bool {
    &&& 0 <= i < s.len()
    &&& !inside(s, i, len)
    &&& forall|j: int| 0 <= j < i ==> #[trigger] inside(s, j, len)
}

/// The error reported for a change that does not lie inside content of
/// length `len`.
pub open spec fn out_of_range_error(s: Seq<Change>, i: int, len: nat) -> ReprintError {
    ReprintError::OutOfRange {
        start_byte: s[i].start_byte,
        end_byte: s[i].end_byte,
        len: len as usize,
    }
}

/// The bytes of `input` from `pos` on, with each change of `s` put in place
/// of its range.
pub open spec fn splice(input: Seq<u8>, s: Seq<Change>, pos: int) -> Seq<u8>
    decreases s.len(),
{
    if s.len() == 0 {
        input.subrange(pos, input.len() as int)
    } else {
        input.subrange(pos, s[0].start_byte as int) + text_bytes(s[0]) + splice(
            input,
            s.drop_first(),
            s[0].end_byte as int,
        )
    }
}

/// The content that results from applying the sorted batch `s` to `input`.
pub open spec fn apply(input: Seq<u8>, s: Seq<Change>) -> Seq<u8> {
    splice(input, s, 0)
}

/// Appends `src[from..to]` to `buf`.
fn push_range(buf: &mut Vec<u8>, src: &[u8], from: usize, to: usize)
    requires
        from <= to <= src@.len(),
    ensures
        final(buf)@ == old(buf)@ + src@.subrange(from as int, to as int),
{
    let mut j: usize = from;
    while j < to
        invariant
            from <= j <= to <= src@.len(),
            buf@ == old(buf)@ + src@.subrange(from as int, j as int),
        decreases to - j,
    {
        buf.push(src[j]);
        assert(src@.subrange(from as int, j + 1) == src@.subrange(from as int, j as int).push(src@[j as int]));
        j = j + 1;
    }
}

/// Index of the first change that does not lie inside content of length
/// `len`, if any.
fn find_outside(changes: &ChangeSet, len: usize) -> (r: Option<usize>)
    ensures
        r is None <==> within(changes@, len as int),
        r matches Some(i) ==> first_outside(changes@, i as int, len as int),
{
    let mut k: usize = 0;
    while k < changes.len()
        invariant
            0 <= k <= changes@.len(),
            forall|j: int| 0 <= j < k ==> #[trigger] inside(changes@, j, len as int),
        decreases changes@.len() - k,
    {
        let ch = &changes[k];
        if ch.start_byte as usize > len || ch.end_byte as usize > len {
            assert(!inside(changes@, k as int, len as int));
            return Some(k);
        }
        assert(inside(changes@, k as int, len as int));
        k = k + 1;
    }
    None
}

/// Applies a sorted, verified batch to `input`, appending the result to `buf`.
/// Fails without touching `buf` when an offset of a change lies past the end
/// of the input; a change at the very end (an insertion there) is fine.
pub fn process(input: String, changes: ChangeSet, buf: &mut Vec<u8>) -> (r: Result<(), ReprintError>)
    requires
        is_valid(changes@),
    ensures
        r is Ok <==> within(changes@, utf8_of(input).len() as int),
        r is Ok ==> final(buf)@ == old(buf)@ + apply(utf8_of(input), changes@),
        r is Err ==> final(buf)@ == old(buf)@,
        r is Err ==> exists|i: int|
            #![trigger first_outside(changes@, i, utf8_of(input).len() as int)]
            first_outside(changes@, i, utf8_of(input).len() as int) && r == Err::<(), ReprintError>(
                out_of_range_error(changes@, i, utf8_of(input).len()),
            ),
{
    let ghost full = utf8_of(input);
    let input = input.as_str().as_bytes();
    let ghost bytes = input@;
    assert(bytes == full);
    let ghost s = changes@;
    let len = input.len();
    if let Some(i) = find_outside(&changes, len) {
        let r = Err(ReprintError::OutOfRange {
            start_byte: changes[i].start_byte,
            end_byte: changes[i].end_byte,
            len: len,
        });
        assert(r == Err::<(), ReprintError>(out_of_range_error(s, i as int, bytes.len())));
        assert(first_outside(s, i as int, full.len() as int));
        return r;
    }
    // Current position in the input.
    let mut in_pos: usize = 0;
    let mut k: usize = 0;
    assert(s.subrange(0, s.len() as int) == s);
    while k < changes.len()
        invariant
            0 <= k <= s.len(),
            s == changes@,
            bytes == input@,
            len == bytes.len(),
            is_valid(s),
            within(s, len as int),
            in_pos <= len,
            k < s.len() ==> in_pos <= s[k as int].start_byte,
            buf@ + splice(bytes, s.subrange(k as int, s.len() as int), in_pos as int) == old(buf)@
                + apply(bytes, s),
        decreases s.len() - k,
    {
        let ch = &changes[k];
        assert(inside(s, k as int, len as int));
        let ghost rest = s.subrange(k as int, s.len() as int);
        assert(rest.drop_first() == s.subrange(k + 1, s.len() as int));
        let ghost before = buf@;
        let ghost pos0 = in_pos;
        push_range(buf, input, in_pos, ch.start_byte as usize);
        let text = ch.text.as_str().as_bytes();
        push_range(buf, text, 0, text.len());
        assert(text@.subrange(0, text@.len() as int) == text_bytes(s[k as int]));
        assert(buf@ == before + bytes.subrange(pos0 as int, s[k as int].start_byte as int) + text_bytes(s[k as int]));
        in_pos = ch.end_byte as usize;
        proof {
            if k + 1 < s.len() {
                assert(well_placed(s, k + 1));
            }
        }
        assert(before + splice(bytes, rest, pos0 as int) == buf@ + splice(
            bytes,
            s.subrange(k + 1, s.len() as int),
            in_pos as int,
        ));
        k = k + 1;
    }
    // Push the rest of the input onto the output.
    push_range(buf, input, in_pos, len);
    Ok(())
}

} // verus!
