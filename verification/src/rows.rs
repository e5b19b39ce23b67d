//! Exact integer row arithmetic for text blocks on the rhythm grid.
//!
//! A block opens `top` rhythm units above its first anchor (the first
//! baseline, or the capitals' ink top for cap anchors) and closes `bottom`
//! units below its last one. Every visual line advances by `line_rhythms`
//! whole rows, so the rows a block covers, and the cursor transitions of its
//! fragments when it is split at line boundaries, are integers. A virtualizing
//! renderer accumulates these counts instead of summing pixel heights.
use vstd::prelude::*;

verus! {

/// The mathematical content of a [`RhythmBlockRows`]: its anchors in rhythm
/// units, the line height in rhythm units, and the anchor mode.
pub struct BlockRowsView {
    pub top: int,
    pub bottom: int,
    pub line_rhythms: nat,
    pub cap_anchored: bool,
}

impl BlockRowsView {
    /// Rows covered by a single-fragment block of `lines` visual lines:
    /// `top + bottom + (lines − 1) × line_rhythms` for baseline anchors, and
    /// `top + bottom + lines × line_rhythms` for cap anchors (the cap close
    /// hands back the trimmed band, a whole line box).
    pub open spec fn rows(self, lines: int) -> int {
        if self.cap_anchored {
            self.top + self.bottom + lines * self.line_rhythms
        } else {
            self.top + self.bottom + (lines - 1) * self.line_rhythms
        }
    }

    /// Cursor delta from the block top to the first baseline after a first
    /// fragment of `lines` lines.
    pub open spec fn first_rows(self, lines: int) -> int {
        self.top + lines * self.line_rhythms
    }

    /// Cursor delta across a middle fragment of `lines` lines.
    pub open spec fn middle_rows(self, lines: int) -> int {
        lines * self.line_rhythms
    }

    /// Cursor delta from the first baseline of a last fragment of `lines`
    /// lines to the block's whole-row bottom edge.
    pub open spec fn last_rows(self, lines: int) -> int {
        if self.cap_anchored {
            lines * self.line_rhythms + self.bottom
        } else {
            (lines - 1) * self.line_rhythms + self.bottom
        }
    }

    /// Sum of the middle-fragment deltas of consecutive middle fragments.
    pub open spec fn middles_rows(self, middles: Seq<nat>) -> int
        decreases middles.len(),
    {
        if middles.len() == 0 {
            0
        } else {
            self.middles_rows(middles.drop_last()) + self.middle_rows(middles.last() as int)
        }
    }
}

/// Total number of lines in a sequence of fragments.
pub open spec fn total_lines(fragments: Seq<nat>) -> int
    decreases fragments.len(),
{
    if fragments.len() == 0 {
        0
    } else {
        total_lines(fragments.drop_last()) + fragments.last()
    }
}

/// `true` when `rows` is representable as an `i32` row count.
pub open spec fn fits_i32(rows: int) -> bool {
    i32::MIN <= rows <= i32::MAX
}

/// Narrow an exact row count to the `i32` the row methods return.
pub fn checked_rows(rows: i128) -> (r: i32)
    requires
        fits_i32(rows as int),
    ensures
        r == rows,
{
    rows as i32
}

/// The row model of one text block: its opening and closing anchors in
/// rhythm units, its line height in whole rhythm units (at least one), and
/// whether it is anchored on the capitals' ink instead of the baseline.
#[derive(Debug, Clone, Copy, PartialEq, Eq, Structural)]
pub struct RhythmBlockRows {
    top: i32,
    bottom: i32,
    line_rhythms: u32,
    cap_anchored: bool,
}

impl View for RhythmBlockRows {
    type V = BlockRowsView;

    closed spec fn view(&self) -> BlockRowsView {
        BlockRowsView {
            top: self.top as int,
            bottom: self.bottom as int,
            line_rhythms: self.line_rhythms as nat,
            cap_anchored: self.cap_anchored,
        }
    }
}

proof fn lemma_span_bound(lines: u32, line_rhythms: u32)
    ensures
        0 <= lines * line_rhythms <= 0xffff_ffff * 0xffff_ffff,
{
    assert(0 <= lines * line_rhythms <= 0xffff_ffff * 0xffff_ffff) by (nonlinear_arith)
        requires
            lines <= 0xffff_ffff,
            line_rhythms <= 0xffff_ffff,
    ;
}

proof fn lemma_one_line_less(lines: int, line_rhythms: int)
    ensures
        (lines - 1) * line_rhythms == lines * line_rhythms - line_rhythms,
{
    assert((lines - 1) * line_rhythms == lines * line_rhythms - line_rhythms) by (nonlinear_arith);
}

impl RhythmBlockRows {
    #[verifier::type_invariant]
    spec fn well_formed(self) -> bool {
        self.line_rhythms > 0
    }

    /// A baseline-anchored block: opens `top` units above the first baseline
    /// and closes `bottom` units below the last. Negative counts are
    /// meaningful for margin-style layouts.
    pub fn new(line_rhythms: u32, top: i32, bottom: i32) -> (r: Self)
        requires
            line_rhythms > 0,
        ensures
            r@ == (BlockRowsView {
                top: top as int,
                bottom: bottom as int,
                line_rhythms: line_rhythms as nat,
                cap_anchored: false,
            }),
    {
        RhythmBlockRows { top, bottom, line_rhythms, cap_anchored: false }
    }

    /// A cap-anchored block: opens `top` units above the capitals' ink top
    /// and closes with the paired trimmed space plus `bottom` units.
    pub fn cap(line_rhythms: u32, top: i32, bottom: i32) -> (r: Self)
        requires
            line_rhythms > 0,
        ensures
            r@ == (BlockRowsView {
                top: top as int,
                bottom: bottom as int,
                line_rhythms: line_rhythms as nat,
                cap_anchored: true,
            }),
    {
        RhythmBlockRows { top, bottom, line_rhythms, cap_anchored: true }
    }

    /// Line height in whole rhythm units; never zero.
    pub fn line_rhythms(&self) -> (r: u32)
        ensures
            r == self@.line_rhythms,
            r > 0,
    {
        proof {
            use_type_invariant(self);
        }
        self.line_rhythms
    }

    /// Opening rhythm units above the anchor.
    pub fn top_rhythms(&self) -> (r: i32)
        ensures
            r == self@.top,
    {
        self.top
    }

    /// Closing rhythm units below the last baseline, or the paired cap close.
    pub fn bottom_rhythms(&self) -> (r: i32)
        ensures
            r == self@.bottom,
    {
        self.bottom
    }

    /// Whether the block uses cap-ink anchors instead of baseline anchors.
    pub fn is_cap_anchored(&self) -> (r: bool)
        ensures
            r == self@.cap_anchored,
    {
        self.cap_anchored
    }

    /// Rows a line box closes with: a whole line for baseline anchors (the
    /// last line's box extends below its baseline), none for cap anchors.
    fn trailing_rows(&self) -> (r: i128)
        ensures
            r == (if self@.cap_anchored { 0 } else { self@.line_rhythms as int }),
    {
        if self.cap_anchored {
            0
        } else {
            self.line_rhythms as i128
        }
    }

    /// Rows spanned by `lines` whole line boxes.
    fn spanned_rows(&self, lines: u32) -> (r: i128)
        requires
            lines > 0,
        ensures
            r == lines * self@.line_rhythms,
            0 <= r <= 0xffff_ffff * 0xffff_ffff,
    {
        proof {
            lemma_span_bound(lines, self.line_rhythms);
        }
        (lines as i128) * (self.line_rhythms as i128)
    }

    /// Exact rows of a single-fragment block of `lines` lines, before
    /// narrowing.
    fn wide_rows(&self, lines: u32) -> (r: i128)
        requires
            lines > 0,
        ensures
            r == self@.rows(lines as int),
    {
        let spanned = self.spanned_rows(lines);
        let trailing = self.trailing_rows();
        proof {
            lemma_one_line_less(lines as int, self.line_rhythms as int);
        }
        self.top as i128 + spanned + self.bottom as i128 - trailing
    }

    /// Exact first-fragment cursor delta, before narrowing.
    fn wide_first_rows(&self, lines: u32) -> (r: i128)
        requires
            lines > 0,
        ensures
            r == self@.first_rows(lines as int),
    {
        self.top as i128 + self.spanned_rows(lines)
    }

    /// Exact last-fragment cursor delta, before narrowing.
    fn wide_last_rows(&self, lines: u32) -> (r: i128)
        requires
            lines > 0,
        ensures
            r == self@.last_rows(lines as int),
    {
        let spanned = self.spanned_rows(lines);
        let trailing = self.trailing_rows();
        proof {
            lemma_one_line_less(lines as int, self.line_rhythms as int);
        }
        spanned + self.bottom as i128 - trailing
    }

    /// The whole number of rhythm rows a single-fragment block of `lines`
    /// visual lines covers.
    pub fn rows(&self, lines: u32) -> (r: i32)
        requires
            lines > 0,
            fits_i32(self@.rows(lines as int)),
        ensures
            r == self@.rows(lines as int),
            !self@.cap_anchored ==> r == self@.top + self@.bottom + (lines - 1)
                * self@.line_rhythms,
            self@.cap_anchored ==> r == self@.top + self@.bottom + lines * self@.line_rhythms,
    {
        checked_rows(self.wide_rows(lines))
    }

    /// Row-cursor delta from the block top to the baseline immediately after
    /// a first fragment of `lines` visual lines.
    pub fn first_rows(&self, lines: u32) -> (r: i32)
        requires
            lines > 0,
            fits_i32(self@.first_rows(lines as int)),
        ensures
            r == self@.first_rows(lines as int),
            r == self@.top + lines * self@.line_rhythms,
    {
        checked_rows(self.wide_first_rows(lines))
    }

    /// Row-cursor delta across a middle fragment of `lines` visual lines.
    pub fn middle_rows(&self, lines: u32) -> (r: i32)
        requires
            lines > 0,
            fits_i32(self@.middle_rows(lines as int)),
        ensures
            r == self@.middle_rows(lines as int),
            r == lines * self@.line_rhythms,
    {
        checked_rows(self.spanned_rows(lines))
    }

    /// Row-cursor delta from the first baseline of a last fragment of `lines`
    /// visual lines to the block's whole-row bottom edge.
    pub fn last_rows(&self, lines: u32) -> (r: i32)
        requires
            lines > 0,
            fits_i32(self@.last_rows(lines as int)),
        ensures
            r == self@.last_rows(lines as int),
            !self@.cap_anchored ==> r == (lines - 1) * self@.line_rhythms + self@.bottom,
            self@.cap_anchored ==> r == lines * self@.line_rhythms + self@.bottom,
    {
        checked_rows(self.wide_last_rows(lines))
    }

    /// [`rows`](Self::rows), or `None` when the count does not fit in `i32`.
    pub fn try_rows(&self, lines: u32) -> (r: Option<i32>)
        requires
            lines > 0,
        ensures
            r == (if fits_i32(self@.rows(lines as int)) {
                Some(self@.rows(lines as int) as i32)
            } else {
                None
            }),
    {
        let wide = self.wide_rows(lines);
        if i32::MIN as i128 <= wide && wide <= i32::MAX as i128 {
            Some(self.rows(lines))
        } else {
            None
        }
    }

    /// [`first_rows`](Self::first_rows), or `None` when the count does not
    /// fit in `i32`.
    pub fn try_first_rows(&self, lines: u32) -> (r: Option<i32>)
        requires
            lines > 0,
        ensures
            r == (if fits_i32(self@.first_rows(lines as int)) {
                Some(self@.first_rows(lines as int) as i32)
            } else {
                None
            }),
    {
        let wide = self.wide_first_rows(lines);
        if i32::MIN as i128 <= wide && wide <= i32::MAX as i128 {
            Some(self.first_rows(lines))
        } else {
            None
        }
    }

    /// [`middle_rows`](Self::middle_rows), or `None` when the count does not
    /// fit in `i32`.
    pub fn try_middle_rows(&self, lines: u32) -> (r: Option<i32>)
        requires
            lines > 0,
        ensures
            r == (if fits_i32(self@.middle_rows(lines as int)) {
                Some(self@.middle_rows(lines as int) as i32)
            } else {
                None
            }),
    {
        let wide = self.spanned_rows(lines);
        if wide <= i32::MAX as i128 {
            Some(self.middle_rows(lines))
        } else {
            None
        }
    }

    /// [`last_rows`](Self::last_rows), or `None` when the count does not fit
    /// in `i32`.
    pub fn try_last_rows(&self, lines: u32) -> (r: Option<i32>)
        requires
            lines > 0,
        ensures
            r == (if fits_i32(self@.last_rows(lines as int)) {
                Some(self@.last_rows(lines as int) as i32)
            } else {
                None
            }),
    {
        let wide = self.wide_last_rows(lines);
        if i32::MIN as i128 <= wide && wide <= i32::MAX as i128 {
            Some(self.last_rows(lines))
        } else {
            None
        }
    }
}

/// A block split into a first fragment of `first` lines and a last fragment
/// of `last` lines covers exactly the rows of the unsplit block of
/// `first + last` lines.
pub proof fn lemma_first_last_partition_rows(block: RhythmBlockRows, first: nat, last: nat)
    ensures
        block@.first_rows(first as int) + block@.last_rows(last as int) == block@.rows(
            first + last as int,
        ),
{
    let b = block@;
    let lr = b.line_rhythms as int;
    assert((first + last) * lr == first * lr + last * lr) by (nonlinear_arith);
    lemma_one_line_less(last as int, lr);
    lemma_one_line_less((first + last) as int, lr);
}

/// The first, middle and last fragments of a block split `a / b / c`
/// partition the rows of the unsplit block of `a + b + c` lines:
/// `first_rows(a) + middle_rows(b) + last_rows(c) == rows(a + b + c)`.
pub proof fn lemma_three_fragments_partition_rows(
    block: RhythmBlockRows,
    first: nat,
    middle: nat,
    last: nat,
)
    ensures
        block@.first_rows(first as int) + block@.middle_rows(middle as int) + block@.last_rows(
            last as int,
        ) == block@.rows(first + middle + last as int),
{
    let lr = block@.line_rhythms as int;
    assert((first + middle) * lr == first * lr + middle * lr) by (nonlinear_arith);
    lemma_first_last_partition_rows(block, (first + middle) as nat, last);
}

/// Any split of a block into a first fragment, any number of middle
/// fragments, and a last fragment partitions the rows of the unsplit block:
/// accumulating the fragment cursor deltas lands exactly on `rows` of the
/// total line count.
pub proof fn lemma_fragments_partition_rows(
    block: RhythmBlockRows,
    first: nat,
    middles: Seq<nat>,
    last: nat,
)
    ensures
        block@.first_rows(first as int) + block@.middles_rows(middles) + block@.last_rows(
            last as int,
        ) == block@.rows(first + total_lines(middles) + last),
    decreases middles.len(),
{
    let b = block@;
    let lr = b.line_rhythms as int;
    if middles.len() == 0 {
        lemma_first_last_partition_rows(block, first, last);
    } else {
        let rest = middles.drop_last();
        let m = middles.last();
        lemma_fragments_partition_rows(block, first, rest, last);
        lemma_middle_rows_total(block, middles);
        lemma_middle_rows_total(block, rest);
        lemma_total_lines_nonnegative(rest);
        let t = total_lines(rest);
        assert((first + t + m + last - 1) * lr == (first + t + last - 1) * lr + m * lr)
            by (nonlinear_arith);
        assert((first + t + m + last) * lr == (first + t + last) * lr + m * lr)
            by (nonlinear_arith);
    }
}

proof fn lemma_total_lines_nonnegative(fragments: Seq<nat>)
    ensures
        total_lines(fragments) >= 0,
    decreases fragments.len(),
{
    if fragments.len() > 0 {
        lemma_total_lines_nonnegative(fragments.drop_last());
    }
}

/// The middle deltas of consecutive fragments add up to the middle delta of
/// their combined line count.
pub proof fn lemma_middle_rows_total(block: RhythmBlockRows, middles: Seq<nat>)
    ensures
        block@.middles_rows(middles) == block@.middle_rows(total_lines(middles)),
    decreases middles.len(),
{
    if middles.len() > 0 {
        let rest = middles.drop_last();
        let lr = block@.line_rhythms as int;
        let t = total_lines(rest);
        let m = middles.last() as int;
        lemma_middle_rows_total(block, rest);
        assert((t + m) * lr == t * lr + m * lr) by (nonlinear_arith);
    }
}

/// Every visual line advances a block by exactly its line height: one more
/// line adds `line_rhythms` rows to the block and to each fragment delta, a
/// middle fragment of `lines` lines spans `lines × line_rhythms` rows, and a
/// first fragment opens `top` rows above its first baseline.
pub proof fn lemma_each_line_advances_line_rhythms(block: RhythmBlockRows, lines: int)
    ensures
        block@.rows(lines + 1) - block@.rows(lines) == block@.line_rhythms,
        block@.first_rows(lines + 1) - block@.first_rows(lines) == block@.line_rhythms,
        block@.middle_rows(lines + 1) - block@.middle_rows(lines) == block@.line_rhythms,
        block@.last_rows(lines + 1) - block@.last_rows(lines) == block@.line_rhythms,
        block@.middle_rows(lines) == lines * block@.line_rhythms,
        block@.first_rows(lines) == block@.top + lines * block@.line_rhythms,
        block@.first_rows(lines) - block@.middle_rows(lines) == block@.top,
{
    let lr = block@.line_rhythms as int;
    assert((lines + 1) * lr == lines * lr + lr) by (nonlinear_arith);
    assert((lines + 1 - 1) * lr == (lines - 1) * lr + lr) by (nonlinear_arith);
}

/// A baseline-anchored block of `lines` lines covers
/// `top + bottom + (lines − 1) × line_rhythms` rows, whatever its anchors: a
/// single line spans exactly `top + bottom`, because the last line box ends
/// `bottom` rows below its baseline. Its last fragment closes with
/// `(lines − 1) × line_rhythms + bottom` rows, and the block is its opening
/// plus a last fragment of all its lines.
pub proof fn lemma_baseline_block_rows(block: RhythmBlockRows, lines: int)
    requires
        !block@.cap_anchored,
    ensures
        block@.rows(lines) == block@.top + block@.bottom + (lines - 1) * block@.line_rhythms,
        block@.rows(1) == block@.top + block@.bottom,
        block@.last_rows(lines) == (lines - 1) * block@.line_rhythms + block@.bottom,
        block@.last_rows(1) == block@.bottom,
        block@.rows(lines) == block@.top + block@.last_rows(lines),
{
}

/// A cap-anchored block of `lines` lines covers
/// `top + bottom + lines × line_rhythms` rows, whatever its anchors: the cap
/// close hands back a whole line box. Its last fragment closes with
/// `lines × line_rhythms + bottom` rows, and the block is its opening plus a
/// last fragment of all its lines.
pub proof fn lemma_cap_block_rows(block: RhythmBlockRows, lines: int)
    requires
        block@.cap_anchored,
    ensures
        block@.rows(lines) == block@.top + block@.bottom + lines * block@.line_rhythms,
        block@.rows(1) == block@.top + block@.bottom + block@.line_rhythms,
        block@.last_rows(lines) == lines * block@.line_rhythms + block@.bottom,
        block@.rows(lines) == block@.top + block@.last_rows(lines),
{
}

} // verus!
