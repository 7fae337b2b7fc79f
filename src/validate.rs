//! Checks a sorted batch of changes for well-formed, non-overlapping ranges.
use vstd::prelude::*;
use crate::change::{Change, ChangeSet, ReprintError};

verus! {

/// The change at `i` ends no earlier than it starts and starts no earlier
/// than the change before it ends (adjacent ranges are fine).
pub open spec fn well_placed(s: Seq<Change>, i: int) -> bool {
    &&& s[i].start_byte <= s[i].end_byte
    &&& i > 0 ==> s[i - 1].end_byte <= s[i].start_byte
}

/// Every change of the sequence is well placed.
pub open spec fn is_valid(s: Seq<Change>) -> bool {
    forall|i: int| 0 <= i < s.len() ==> #[trigger] well_placed(s, i)
}

/// `i` is the first index whose change is not well placed.
pub open spec fn first_misplaced(s: Seq<Change>, i: int) -> bool {
    &&& 0 <= i < s.len()
    &&& !well_placed(s, i)
    &&& forall|j: int| 0 <= j < i ==> #[trigger] well_placed(s, j)
}

/// The error reported for a change that is not well placed.
pub open spec fn misplaced_error(s: Seq<Change>, i: int) -> ReprintError {
    if s[i].end_byte < s[i].start_byte {
        ReprintError::MalformedChange { start_byte: s[i].start_byte, end_byte: s[i].end_byte }
    } else {
        ReprintError::OverlappingChanges {
            prev_start: s[i - 1].start_byte,
            prev_end: s[i - 1].end_byte,
            start_byte: s[i].start_byte,
            end_byte: s[i].end_byte,
        }
    }
}

/// Walks a batch sorted by start and reports the first change that ends
/// before it starts or overlaps the one before it.
pub fn verify(changes: &ChangeSet) -> (r: Result<(), ReprintError>)
    ensures
        r is Ok <==> is_valid(changes@),
        r is Err ==> exists|i: int|
            #![trigger first_misplaced(changes@, i)]
            first_misplaced(changes@, i) && r == Err::<(), ReprintError>(
                misplaced_error(changes@, i),
            ),
{
    let mut prev_start: u32 = 0;
    let mut prev_end: u32 = 0;
    let mut k: usize = 0;
    while k < changes.len()
        invariant
            0 <= k <= changes@.len(),
            forall|j: int| 0 <= j < k ==> #[trigger] well_placed(changes@, j),
            k > 0 ==> prev_start == changes@[k - 1].start_byte && prev_end == changes@[k - 1].end_byte,
            k == 0 ==> prev_end == 0,
        decreases changes@.len() - k,
    {
        let ch = &changes[k];
        if ch.end_byte < ch.start_byte {
            let r = Err(ReprintError::MalformedChange { start_byte: ch.start_byte, end_byte: ch.end_byte });
            assert(first_misplaced(changes@, k as int));
            return r;
        }
        if ch.start_byte < prev_end {
            let r = Err(ReprintError::OverlappingChanges {
                prev_start: prev_start,
                prev_end: prev_end,
                start_byte: ch.start_byte,
                end_byte: ch.end_byte,
            });
            assert(first_misplaced(changes@, k as int));
            return r;
        }
        prev_start = ch.start_byte;
        prev_end = ch.end_byte;
        assert(well_placed(changes@, k as int));
        k = k + 1;
    }
    Ok(())
}

} // verus!
