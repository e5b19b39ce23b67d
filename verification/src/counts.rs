//! Line heights in whole rhythm units: the count covering a set of faces and
//! the line box of a sunk drop cap.
use vstd::prelude::*;

verus! {

/// The largest requested line height in `counts`, and at least one row.
pub open spec fn max_requested(counts: Seq<u32>) -> nat
    decreases counts.len(),
{
    if counts.len() == 0 {
        1
    } else {
        let earlier = max_requested(counts.drop_last());
        if counts.last() > earlier {
            counts.last() as nat
        } else {
            earlier
        }
    }
}

/// The covering line height: the largest requested count, grown to
/// `min_fit`, the smallest count whose line box holds the combined ink.
pub open spec fn covering_count(counts: Seq<u32>, min_fit: nat) -> nat {
    if min_fit > max_requested(counts) {
        min_fit
    } else {
        max_requested(counts)
    }
}

proof fn lemma_max_requested_bounds(counts: Seq<u32>)
    ensures
        1 <= max_requested(counts) <= u32::MAX,
        forall|i: int| 0 <= i < counts.len() ==> counts[i] <= max_requested(counts),
        max_requested(counts) == 1 || exists|i: int|
            0 <= i < counts.len() && counts[i] == max_requested(counts),
    decreases counts.len(),
{
    if counts.len() > 0 {
        let earlier = counts.drop_last();
        lemma_max_requested_bounds(earlier);
        assert forall|i: int| 0 <= i < counts.len() implies counts[i] <= max_requested(counts) by {
            if i < counts.len() - 1 {
                assert(counts[i] == earlier[i]);
            }
        }
        if max_requested(counts) != 1 {
            if counts.last() > max_requested(earlier) {
                assert(counts[counts.len() - 1] == max_requested(counts));
            } else {
                let k = choose|k: int| 0 <= k < earlier.len() && earlier[k] == max_requested(earlier);
                assert(counts[k] == max_requested(counts));
            }
        }
    }
}

/// The line height, in whole rhythm units, of the smallest line box covering
/// every line of a set: the largest of their `counts` (at least one), grown to
/// `min_fit` when the set's combined maximum ink needs more rows.
pub fn covering_line_rhythms(counts: &[u32], min_fit: u32) -> (r: u32)
    requires
        counts.len() > 0,
    ensures
        r == covering_count(counts@, min_fit as nat),
{
    let mut line_rhythms: u32 = 1;
    let mut i: usize = 0;
    while i < counts.len()
        invariant
            0 <= i <= counts@.len(),
            line_rhythms == max_requested(counts@.take(i as int)),
        decreases counts@.len() - i,
    {
        proof {
            assert(counts@.take(i + 1).drop_last() =~= counts@.take(i as int));
            assert(counts@.take(i + 1).last() == counts@[i as int]);
        }
        if counts[i] > line_rhythms {
            line_rhythms = counts[i];
        }
        i = i + 1;
    }
    assert(counts@.take(counts@.len() as int) =~= counts@);
    if min_fit > line_rhythms {
        min_fit
    } else {
        line_rhythms
    }
}

/// The covering count is the least count at least as large as every member's
/// count, as `min_fit`, and as one row: no covered line asks for more rows,
/// and it is one of those lower bounds.
pub proof fn lemma_covering_is_least_upper_bound(counts: Seq<u32>, min_fit: nat)
    ensures
        forall|i: int| 0 <= i < counts.len() ==> counts[i] <= covering_count(counts, min_fit),
        min_fit <= covering_count(counts, min_fit),
        1 <= covering_count(counts, min_fit),
        covering_count(counts, min_fit) == min_fit || covering_count(counts, min_fit) == 1
            || exists|i: int| 0 <= i < counts.len() && counts[i] == covering_count(counts, min_fit),
{
    lemma_max_requested_bounds(counts);
}

/// A line height given as a floor grows only when the ink needs more rows:
/// covering a single requested count keeps it unless `min_fit` exceeds it.
pub proof fn lemma_floor_count_grows_only_when_needed(line_rhythms: u32, min_fit: nat)
    requires
        line_rhythms > 0,
    ensures
        covering_count(seq![line_rhythms], min_fit) == (if min_fit > line_rhythms {
            min_fit
        } else {
            line_rhythms as nat
        }),
{
    let s = seq![line_rhythms];
    assert(s.drop_last() =~= Seq::<u32>::empty());
    assert(max_requested(s.drop_last()) == 1);
    assert(s.last() == line_rhythms);
    assert(max_requested(s) == line_rhythms);
}

/// The line height of a drop cap sunk `lines` lines deep into text whose
/// lines are `body_line_rhythms` units tall: its line box spans the sunk
/// lines exactly.
pub fn drop_cap_line_rhythms(body_line_rhythms: u32, lines: u32) -> (r: u32)
    requires
        lines > 0,
        body_line_rhythms * lines <= u32::MAX,
    ensures
        r == body_line_rhythms * lines,
{
    body_line_rhythms * lines
}

} // verus!
