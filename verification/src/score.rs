use vstd::prelude::*;

verus! {

use crate::dice::{all_dice, is_die_value};

/// One group of four die results, consumed from the stream in draw order.
#[derive(Clone, Copy, Debug)]
pub struct Window {
    pub dice: [u8; 4],
}

impl View for Window {
    type V = Seq<u8>;

    open spec fn view(&self) -> Seq<u8> {
        self.dice@
    }
}

/// A well-formed window holds exactly four die results.
pub open spec fn window_wf(w: Seq<u8>) -> bool {
    w.len() == 4 && all_dice(w)
}

/// The sum of the four die results of a window.
pub open spec fn window_sum(w: Seq<u8>) -> int
    recommends
        w.len() == 4,
{
    w[0] + w[1] + w[2] + w[3]
}

/// The smallest of the four die results of a window.
pub open spec fn window_min(w: Seq<u8>) -> u8
    recommends
        w.len() == 4,
{
    let m01 = if w[0] <= w[1] {
        w[0]
    } else {
        w[1]
    };
    let m23 = if w[2] <= w[3] {
        w[2]
    } else {
        w[3]
    };
    if m01 <= m23 {
        m01
    } else {
        m23
    }
}

/// The score of a window: the sum of its die results less the smallest one,
/// that is, the sum of the three highest of the four.
pub open spec fn score_of(w: Seq<u8>) -> int
    recommends
        w.len() == 4,
{
    window_sum(w) - window_min(w)
}

/// Every score of a window of die results lies in `[0, 18]`; the score is
/// exactly the window's sum less its minimum, and the minimum is one of the
/// window's values and no larger than any of them.
pub proof fn lemma_score_bounds(w: Seq<u8>)
    requires
        window_wf(w),
    ensures
        0 <= score_of(w) <= 18,
        3 <= score_of(w),
        score_of(w) == window_sum(w) - window_min(w),
        w.contains(window_min(w)),
        forall|i: int| 0 <= i < 4 ==> window_min(w) <= #[trigger] w[i],
{
    assert(is_die_value(w[0]));
    assert(is_die_value(w[1]));
    assert(is_die_value(w[2]));
    assert(is_die_value(w[3]));
    let m = window_min(w);
    if w[0] == m {
        assert(w.contains(m));
    } else if w[1] == m {
        assert(w.contains(m));
    } else if w[2] == m {
        assert(w.contains(m));
    } else {
        assert(w[3] == m);
        assert(w.contains(m));
    }
}

/// Scores one window: the sum of its four die results less the smallest.
pub fn score(w: &Window) -> (r: u8)
    requires
        window_wf(w@),
    ensures
        r as int == score_of(w@),
        3 <= r <= 18,
{
    proof {
        lemma_score_bounds(w@);
    }
    let a = w.dice[0];
    let b = w.dice[1];
    let c = w.dice[2];
    let d = w.dice[3];
    let sum = a + b + c + d;
    let m01 = if a <= b {
        a
    } else {
        b
    };
    let m23 = if c <= d {
        c
    } else {
        d
    };
    let m = if m01 <= m23 {
        m01
    } else {
        m23
    };
    sum - m
}

/// Groups a sequence of die results into consecutive windows of four, in
/// draw order, no value reused and none skipped; die results past the last
/// full window are not used.
pub fn chunk4(dice: &Vec<u8>) -> (r: Vec<Window>)
    ensures
        r@.len() == dice@.len() / 4,
        forall|i: int|
            0 <= i < r@.len() ==> (#[trigger] r@[i])@ == dice@.subrange(4 * i, 4 * i + 4),
{
    let n = dice.len() / 4;
    let mut r: Vec<Window> = Vec::new();
    let mut i: usize = 0;
    while i < n
        invariant
            i <= n,
            dice@.len() <= usize::MAX,
            n == dice@.len() / 4,
            r@.len() == i,
            forall|k: int|
                0 <= k < i ==> (#[trigger] r@[k])@ == dice@.subrange(4 * k, 4 * k + 4),
        decreases n - i,
    {
        assert(4 * i + 4 <= dice@.len());
        let w = Window { dice: [dice[4 * i], dice[4 * i + 1], dice[4 * i + 2], dice[4 * i + 3]] };
        assert(w@ =~= dice@.subrange(4 * i as int, 4 * i as int + 4));
        r.push(w);
        i = i + 1;
    }
    r
}

} // verus!
