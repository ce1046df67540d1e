//! Counting the values of a series whose z-score goes beyond a threshold, over
//! the whole series and over a sub-range of it.
use vstd::prelude::*;

verus! {

/// How one value of a series stands to the threshold: `above` says that its
/// z-score is at least the threshold's magnitude, `below` that it is at most
/// the negated magnitude. With a threshold of zero both can hold at once; of
/// a value without a z-score neither holds.
#[derive(Clone, Copy, Debug, PartialEq, Eq)]
pub struct Exceedance {
    pub above: bool,
    pub below: bool,
}

/// The side on which a value goes beyond the threshold.
#[derive(Clone, Copy, Debug, PartialEq, Eq)]
pub enum Side {
    Plus,
    Minus,
}

/// A share of a whole, read as `count / out_of * 100` percent.
#[derive(Clone, Copy, Debug, PartialEq, Eq)]
pub struct Percentage {
    pub count: usize,
    pub out_of: usize,
}

/// The counts of one analysis, each with the percentage that belongs to it.
#[derive(Clone, Copy, Debug, PartialEq, Eq)]
pub struct ZScoreResult {
    pub plus_count_full: usize,
    pub minus_count_full: usize,
    pub plus_percent_full: Percentage,
    pub minus_percent_full: Percentage,
    pub plus_count_sub: usize,
    pub minus_count_sub: usize,
    pub plus_percent_sub: Percentage,
    pub minus_percent_sub: Percentage,
}

impl Percentage {
    /// The share of nothing: zero percent.
    pub open spec fn none() -> Percentage {
        Percentage { count: 0, out_of: 1 }
    }

    /// A percentage can be computed when its whole is not empty.
    pub open spec fn wf(self) -> bool {
        self.out_of >= 1
    }
}

impl ZScoreResult {
    /// The result in which nothing was counted: every count is zero and every
    /// percentage is zero percent.
    pub open spec fn zero() -> ZScoreResult {
        ZScoreResult {
            plus_count_full: 0,
            minus_count_full: 0,
            plus_percent_full: Percentage::none(),
            minus_percent_full: Percentage::none(),
            plus_count_sub: 0,
            minus_count_sub: 0,
            plus_percent_sub: Percentage::none(),
            minus_percent_sub: Percentage::none(),
        }
    }

    /// Each percentage is that of the count beside it, and none divides by zero.
    pub open spec fn wf(self) -> bool {
        &&& self.plus_percent_full.count == self.plus_count_full
        &&& self.minus_percent_full.count == self.minus_count_full
        &&& self.plus_percent_sub.count == self.plus_count_sub
        &&& self.minus_percent_sub.count == self.minus_count_sub
        &&& self.plus_percent_full.out_of == self.minus_percent_full.out_of
        &&& self.plus_percent_sub.out_of == self.minus_percent_sub.out_of
        &&& self.plus_percent_full.wf()
        &&& self.plus_percent_sub.wf()
    }

    /// Whether nothing was counted at all.
    pub open spec fn is_zero(self) -> bool {
        self == ZScoreResult::zero()
    }

    /// The result in which nothing was counted.
    pub fn new_zero() -> (r: ZScoreResult)
        ensures
            r == ZScoreResult::zero(),
            r.wf(),
    {
        let none = Percentage { count: 0, out_of: 1 };
        ZScoreResult {
            plus_count_full: 0,
            minus_count_full: 0,
            plus_percent_full: none,
            minus_percent_full: none,
            plus_count_sub: 0,
            minus_count_sub: 0,
            plus_percent_sub: none,
            minus_percent_sub: none,
        }
    }
}

/// Whether a value goes beyond the threshold on the given side.
pub open spec fn on_side(e: Exceedance, side: Side) -> bool {
    match side {
        Side::Plus => e.above,
        Side::Minus => e.below,
    }
}

/// How many of the positions `lo <= i < hi` hold a value that goes beyond the
/// threshold on the given side.
pub open spec fn hits(flags: Seq<Exceedance>, side: Side, lo: int, hi: int) -> nat
    recommends
        0 <= lo,
        hi <= flags.len(),
    decreases hi - lo,
{
    if hi <= lo {
        0
    } else {
        hits(flags, side, lo, hi - 1) + if on_side(flags[hi - 1], side) {
            1nat
        } else {
            0nat
        }
    }
}

/// A sub-range is turned down when it is empty or reversed, when it reaches
/// past the series, or when one of its bounds is zero.
pub open spec fn range_rejected(len: int, start: int, end: int) -> bool {
    end - start < 1 || end > len || start > len || end < 1 || start < 1
}

/// The position after the last one that counts for the sub-range: a position
/// `i` counts when `start <= i <= end`, both bounds included, so the value at
/// `end` counts too where the series has one.
pub open spec fn sub_stop(len: int, end: int) -> int {
    if end + 1 <= len {
        end + 1
    } else {
        len
    }
}

/// What the analysis of a series gives for a sub-range: nothing where the
/// range is turned down; else the counts of both sides over all positions and
/// over those of the sub-range, the full percentages out of the length of the
/// series and those of the sub-range out of `end - start`.
pub open spec fn tallied(flags: Seq<Exceedance>, start: int, end: int) -> ZScoreResult {
    if range_rejected(flags.len() as int, start, end) {
        ZScoreResult::zero()
    } else {
        let len = flags.len() as int;
        let stop = sub_stop(len, end);
        let plus_full = hits(flags, Side::Plus, 0, len) as usize;
        let minus_full = hits(flags, Side::Minus, 0, len) as usize;
        let plus_sub = hits(flags, Side::Plus, start, stop) as usize;
        let minus_sub = hits(flags, Side::Minus, start, stop) as usize;
        ZScoreResult {
            plus_count_full: plus_full,
            minus_count_full: minus_full,
            plus_percent_full: Percentage { count: plus_full, out_of: len as usize },
            minus_percent_full: Percentage { count: minus_full, out_of: len as usize },
            plus_count_sub: plus_sub,
            minus_count_sub: minus_sub,
            plus_percent_sub: Percentage { count: plus_sub, out_of: (end - start) as usize },
            minus_percent_sub: Percentage { count: minus_sub, out_of: (end - start) as usize },
        }
    }
}

/// No more positions are hit than there are.
pub proof fn lemma_hits_bounded(flags: Seq<Exceedance>, side: Side, lo: int, hi: int)
    ensures
        hits(flags, side, lo, hi) <= if hi <= lo {
            0
        } else {
            hi - lo
        },
    decreases hi - lo,
{
    if hi > lo {
        lemma_hits_bounded(flags, side, lo, hi - 1);
    }
}

/// A range holds at most the hits of a range around it.
pub proof fn lemma_hits_within(
    flags: Seq<Exceedance>,
    side: Side,
    lo: int,
    hi: int,
    outer_lo: int,
    outer_hi: int,
)
    requires
        outer_lo <= lo,
        hi <= outer_hi,
    ensures
        hits(flags, side, lo, hi) <= hits(flags, side, outer_lo, outer_hi),
    decreases outer_hi - outer_lo,
{
    if hi <= lo {
    } else if hi < outer_hi {
        lemma_hits_within(flags, side, lo, hi, outer_lo, outer_hi - 1);
    } else {
        lemma_hits_within(flags, side, lo, hi - 1, outer_lo, outer_hi - 1);
    }
}

/// Whether a sub-range is turned down for a series of the given length.
pub fn is_rejected(len: usize, start: usize, end: usize) -> (r: bool)
    ensures
        r == range_rejected(len as int, start as int, end as int),
{
    end <= start || end > len || start > len || end < 1 || start < 1
}

/// Counts the values that go beyond the threshold, on each side, over the
/// whole series and over the positions `start <= i <= end`.
///
/// Where the sub-range is turned down nothing is counted and the result is
/// the zero result. Else the full percentages are out of the length of the
/// series and those of the sub-range out of `end - start`; as the position
/// `end` counts too, a count of the sub-range can be one more than that.
pub fn zcount(flags: &Vec<Exceedance>, start: usize, end: usize) -> (r: ZScoreResult)
    ensures
        r == tallied(flags@, start as int, end as int),
        r.wf(),
        range_rejected(flags.len() as int, start as int, end as int) ==> r.is_zero(),
        end < 1 || start > flags.len() ==> r.is_zero(),
        r.plus_count_full <= flags.len(),
        r.minus_count_full <= flags.len(),
        r.plus_count_sub <= r.plus_count_full,
        r.minus_count_sub <= r.minus_count_full,
        !r.is_zero() ==> r.plus_count_sub <= end - start + 1,
        !r.is_zero() ==> r.minus_count_sub <= end - start + 1,
{
    if is_rejected(flags.len(), start, end) {
        return ZScoreResult::new_zero();
    }
    let len = flags.len();
    let ghost stop = sub_stop(len as int, end as int);
    let mut plus_full: usize = 0;
    let mut minus_full: usize = 0;
    let mut plus_sub: usize = 0;
    let mut minus_sub: usize = 0;
    let mut count: usize = 0;
    while count < len
        invariant
            len == flags.len(),
            count <= len,
            1 <= start < end <= len,
            stop == sub_stop(len as int, end as int),
            plus_full == hits(flags@, Side::Plus, 0, count as int),
            minus_full == hits(flags@, Side::Minus, 0, count as int),
            plus_sub == hits(flags@, Side::Plus, start as int, seen_stop(count as int, stop)),
            minus_sub == hits(flags@, Side::Minus, start as int, seen_stop(count as int, stop)),
        decreases len - count,
    {
        let e = flags[count];
        proof {
            lemma_hits_bounded(flags@, Side::Plus, 0, count as int);
            lemma_hits_bounded(flags@, Side::Minus, 0, count as int);
            lemma_hits_bounded(flags@, Side::Plus, start as int, seen_stop(count as int, stop));
            lemma_hits_bounded(flags@, Side::Minus, start as int, seen_stop(count as int, stop));
        }
        if e.above {
            plus_full += 1;
        }
        if e.below {
            minus_full += 1;
        }
        if count >= start && count <= end {
            if e.above {
                plus_sub += 1;
            }
            if e.below {
                minus_sub += 1;
            }
        }
        count += 1;
    }
    proof {
        lemma_hits_bounded(flags@, Side::Plus, 0, len as int);
        lemma_hits_bounded(flags@, Side::Minus, 0, len as int);
        lemma_hits_bounded(flags@, Side::Plus, start as int, stop);
        lemma_hits_bounded(flags@, Side::Minus, start as int, stop);
        lemma_hits_within(flags@, Side::Plus, start as int, stop, 0, len as int);
        lemma_hits_within(flags@, Side::Minus, start as int, stop, 0, len as int);
    }
    let sublen = end - start;
    ZScoreResult {
        plus_count_full: plus_full,
        minus_count_full: minus_full,
        plus_percent_full: Percentage { count: plus_full, out_of: len },
        minus_percent_full: Percentage { count: minus_full, out_of: len },
        plus_count_sub: plus_sub,
        minus_count_sub: minus_sub,
        plus_percent_sub: Percentage { count: plus_sub, out_of: sublen },
        minus_percent_sub: Percentage { count: minus_sub, out_of: sublen },
    }
}

/// How far the positions of the sub-range have been seen when `count` values
/// were looked at.
spec fn seen_stop(count: int, stop: int) -> int {
    if count <= stop {
        count
    } else {
        stop
    }
}

} // verus!
