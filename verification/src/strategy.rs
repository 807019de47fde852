use vstd::prelude::*;

verus! {

use squirrel_rng::SquirrelRng;
use vstd::seq_lib::group_to_multiset_ensures;
use crate::accumulator::Accumulator;
use crate::dice::{all_dice, is_die_value, roll_dice};
use crate::outcome::Outcome;
use crate::score::{chunk4, lemma_score_bounds, score, score_of};
use crate::sorting::{lemma_sort_spec_ensures, leq_u8, sort_spec, sort_vec, sorted_asc};

/// The closed set of scoring strategies.
#[derive(Clone, Copy, Debug, PartialEq, Eq, Structural)]
pub enum Strategy {
    /// Six windows of four dice, each scored drop-lowest; all six scores
    /// are kept and sorted ascending.
    Traditional,
    /// Seven windows of four dice, each scored drop-lowest; the seven
    /// scores are sorted ascending and the single lowest is discarded.
    DropTwice,
}

/// How many windows of four dice a strategy draws.
pub open spec fn windows_needed_spec(strategy: Strategy) -> int {
    match strategy {
        Strategy::Traditional => 6,
        Strategy::DropTwice => 7,
    }
}

/// How many die results a strategy consumes: four per window.
pub open spec fn dice_needed_spec(strategy: Strategy) -> int {
    4 * windows_needed_spec(strategy)
}

/// How many die results one trial of the strategy draws from the stream.
pub fn dice_needed(strategy: Strategy) -> (r: usize)
    ensures
        r as int == dice_needed_spec(strategy),
{
    match strategy {
        Strategy::Traditional => 24,
        Strategy::DropTwice => 28,
    }
}

/// The scores of the first `k` windows of four among a run of die results,
/// in window order.
pub open spec fn scores_of(dice: Seq<u8>, k: int) -> Seq<u8>
    recommends
        0 <= k,
        4 * k <= dice.len(),
        all_dice(dice),
{
    Seq::new(k as nat, |i: int| score_of(dice.subrange(4 * i, 4 * i + 4)) as u8)
}

/// Every window score taken from a run of die results lies in `[3, 18]`.
pub proof fn lemma_scores_of_bounds(dice: Seq<u8>, k: int)
    requires
        0 <= k,
        4 * k <= dice.len(),
        all_dice(dice),
    ensures
        scores_of(dice, k).len() == k,
        forall|i: int| 0 <= i < k ==> 3 <= #[trigger] scores_of(dice, k)[i] <= 18,
{
    assert forall|i: int| 0 <= i < k implies 3 <= #[trigger] scores_of(dice, k)[i] <= 18 by {
        let w = dice.subrange(4 * i, 4 * i + 4);
        assert forall|t: int| 0 <= t < 4 implies is_die_value(#[trigger] w[t]) by {
            assert(w[t] == dice[4 * i + t]);
            assert(is_die_value(dice[4 * i + t]));
        }
        lemma_score_bounds(w);
    }
}

/// What the Traditional strategy makes of a run of die results: the six
/// window scores, sorted ascending.
pub open spec fn traditional_of(dice: Seq<u8>) -> Seq<u8>
    recommends
        dice.len() == 24,
        all_dice(dice),
{
    sort_spec(scores_of(dice, 6))
}

/// What the DropTwice strategy makes of a run of die results: the seven
/// window scores sorted ascending, with the single lowest discarded.
pub open spec fn drop_twice_of(dice: Seq<u8>) -> Seq<u8>
    recommends
        dice.len() == 28,
        all_dice(dice),
{
    sort_spec(scores_of(dice, 7)).subrange(1, 7)
}

/// What the named strategy makes of a run of die results.
pub open spec fn outcome_of(strategy: Strategy, dice: Seq<u8>) -> Seq<u8>
    recommends
        dice.len() == dice_needed_spec(strategy),
        all_dice(dice),
{
    match strategy {
        Strategy::Traditional => traditional_of(dice),
        Strategy::DropTwice => drop_twice_of(dice),
    }
}

/// Scores the first `k` windows of four die results, in window order.
#[verifier::loop_isolation(false)]
fn raw_scores(dice: &Vec<u8>, k: usize) -> (r: Vec<u8>)
    requires
        all_dice(dice@),
        4 * k <= dice@.len(),
    ensures
        r@ == scores_of(dice@, k as int),
{
    let windows = chunk4(dice);
    let mut r: Vec<u8> = Vec::new();
    let mut i: usize = 0;
    while i < k
        invariant
            i <= k,
            r@.len() == i,
            forall|j: int| 0 <= j < i ==> #[trigger] r@[j] == scores_of(dice@, k as int)[j],
        decreases k - i,
    {
        proof {
            let w = windows@[i as int]@;
            assert(w == dice@.subrange(4 * i, 4 * i + 4));
            assert forall|t: int| 0 <= t < w.len() implies is_die_value(#[trigger] w[t]) by {
                assert(w[t] == dice@[4 * i + t]);
                assert(is_die_value(dice@[4 * i + t]));
            }
            lemma_score_bounds(w);
        }
        let s = score(&windows[i]);
        r.push(s);
        i = i + 1;
    }
    proof {
        assert(r@ =~= scores_of(dice@, k as int));
    }
    r
}

/// Proves that every value of a sorted rearrangement of window scores is a
/// window score, so it lies in `[3, 18]`.
proof fn lemma_sorted_scores_bounds(dice: Seq<u8>, k: int)
    requires
        0 <= k,
        4 * k <= dice.len(),
        all_dice(dice),
    ensures
        sort_spec(scores_of(dice, k)).len() == k,
        forall|i: int|
            0 <= i < k ==> 3 <= #[trigger] sort_spec(scores_of(dice, k))[i] <= 18,
{
    let sc = scores_of(dice, k);
    let sorted = sort_spec(sc);
    lemma_scores_of_bounds(dice, k);
    lemma_sort_spec_ensures(sc);
    assert forall|i: int| 0 <= i < k implies 3 <= #[trigger] sorted[i] <= 18 by {
        let x = sorted[i];
        assert(sorted.contains(x));
        assert(sc.contains(x));
        let j = choose|j: int| 0 <= j < sc.len() && sc[j] == x;
        assert(3 <= sc[j] <= 18);
    }
}

/// Traditional: score six windows drawn in order from one continuous
/// stream of die results, then sort the six scores ascending.
pub fn traditional(dice: &Vec<u8>) -> (r: Outcome)
    requires
        all_dice(dice@),
        dice@.len() == 24,
    ensures
        r@ == traditional_of(dice@),
        r.wf(),
        sorted_asc(r@),
        forall|i: int| 0 <= i < 6 ==> 3 <= #[trigger] r@[i] <= 18,
{
    let mut scores = raw_scores(dice, 6);
    sort_vec(&mut scores);
    proof {
        lemma_sorted_scores_bounds(dice@, 6);
    }
    Outcome::new(scores)
}

/// DropTwice: score seven windows drawn in order from one continuous
/// stream, sort the seven scores ascending, and discard the single lowest.
pub fn drop_twice(dice: &Vec<u8>) -> (r: Outcome)
    requires
        all_dice(dice@),
        dice@.len() == 28,
    ensures
        r@ == drop_twice_of(dice@),
        r.wf(),
        sorted_asc(r@),
        forall|i: int| 0 <= i < 6 ==> 3 <= #[trigger] r@[i] <= 18,
{
    let mut scores = raw_scores(dice, 7);
    sort_vec(&mut scores);
    let ghost sorted = scores@;
    let _dropped = scores.remove(0);
    proof {
        lemma_sorted_scores_bounds(dice@, 7);
        assert(scores@ =~= sorted.subrange(1, 7));
        let leq = leq_u8();
        assert forall|i: int, j: int| 0 <= i < j < scores@.len() implies #[trigger] leq(
            scores@[i],
            scores@[j],
        ) by {
            assert(scores@[i] == sorted[i + 1] && scores@[j] == sorted[j + 1]);
            assert(leq(sorted[i + 1], sorted[j + 1]));
        }
    }
    Outcome::new(scores)
}

/// Runs the named strategy on a supplied run of die results.
pub fn run_strategy(strategy: Strategy, dice: &Vec<u8>) -> (r: Outcome)
    requires
        all_dice(dice@),
        dice@.len() == dice_needed_spec(strategy),
    ensures
        r@ == outcome_of(strategy, dice@),
        r.wf(),
        sorted_asc(r@),
        forall|i: int| 0 <= i < 6 ==> 3 <= #[trigger] r@[i] <= 18,
{
    match strategy {
        Strategy::Traditional => traditional(dice),
        Strategy::DropTwice => drop_twice(dice),
    }
}

/// Produces one outcome for the named strategy, drawing the die results it
/// needs from the generator.
pub fn run_trial(strategy: Strategy, rng: &mut SquirrelRng) -> (r: Outcome)
    ensures
        r.wf(),
        sorted_asc(r@),
        forall|i: int| 0 <= i < 6 ==> 3 <= #[trigger] r@[i] <= 18,
{
    let n = dice_needed(strategy);
    let dice = roll_dice(rng, n);
    run_strategy(strategy, &dice)
}

/// Runs `n` independent trials of the named strategy, all drawn from one
/// continuous stream, and returns the fully incorporated accumulator.
#[verifier::loop_isolation(false)]
pub fn run_trials(strategy: Strategy, rng: &mut SquirrelRng, n: usize) -> (acc: Accumulator)
    ensures
        acc.wf(),
        acc.count as int == n,
        forall|j: int| 0 <= j < n ==> sorted_asc(#[trigger] acc.history@[j]),
{
    let mut acc = Accumulator::new();
    let mut i: usize = 0;
    while i < n
        invariant
            i <= n,
            acc.wf(),
            acc.count as int == i,
            forall|j: int| 0 <= j < i ==> sorted_asc(#[trigger] acc.history@[j]),
        decreases n - i,
    {
        let o = run_trial(strategy, rng);
        acc.incorporate(&o);
        i = i + 1;
    }
    acc
}

/// Any outcome either strategy makes of a fitting run of die results has
/// exactly six scores, each in `[0, 18]`, in ascending order.
pub proof fn lemma_outcome_shape(strategy: Strategy, dice: Seq<u8>)
    requires
        all_dice(dice),
        dice.len() == dice_needed_spec(strategy),
    ensures
        outcome_of(strategy, dice).len() == 6,
        sorted_asc(outcome_of(strategy, dice)),
        forall|i: int| 0 <= i < 6 ==> 0 <= #[trigger] outcome_of(strategy, dice)[i] <= 18,
{
    let out = outcome_of(strategy, dice);
    match strategy {
        Strategy::Traditional => {
            lemma_sorted_scores_bounds(dice, 6);
            lemma_sort_spec_ensures(scores_of(dice, 6));
        },
        Strategy::DropTwice => {
            let sorted = sort_spec(scores_of(dice, 7));
            lemma_sorted_scores_bounds(dice, 7);
            lemma_sort_spec_ensures(scores_of(dice, 7));
            let leq = leq_u8();
            assert forall|i: int, j: int| 0 <= i < j < out.len() implies #[trigger] leq(
                out[i],
                out[j],
            ) by {
                assert(out[i] == sorted[i + 1] && out[j] == sorted[j + 1]);
                assert(leq(sorted[i + 1], sorted[j + 1]));
            }
            assert forall|i: int| 0 <= i < 6 implies 0 <= #[trigger] out[i] <= 18 by {
                assert(out[i] == sorted[i + 1]);
            }
        },
    }
}

/// A DropTwice outcome holds exactly the seven window scores less one
/// minimal-valued one: the discarded value is a window score no larger than
/// any of the seven, and putting one copy of it back restores the multiset
/// of all seven scores.
pub proof fn lemma_drop_twice_selection(dice: Seq<u8>)
    requires
        all_dice(dice),
        dice.len() == 28,
    ensures
        ({
            let scores = scores_of(dice, 7);
            let dropped = sort_spec(scores)[0];
            &&& scores.contains(dropped)
            &&& forall|i: int| 0 <= i < 7 ==> dropped <= #[trigger] scores[i]
            &&& drop_twice_of(dice).to_multiset().insert(dropped) == scores.to_multiset()
        }),
{
    broadcast use group_to_multiset_ensures;

    let scores = scores_of(dice, 7);
    let sorted = sort_spec(scores);
    let dropped = sorted[0];
    let out = drop_twice_of(dice);
    lemma_scores_of_bounds(dice, 7);
    lemma_sort_spec_ensures(scores);
    assert(sorted.contains(dropped));
    assert(scores.contains(dropped));
    let leq = leq_u8();
    assert forall|i: int| 0 <= i < 7 implies dropped <= #[trigger] scores[i] by {
        assert(sorted.contains(scores[i]));
        let j = choose|j: int| 0 <= j < sorted.len() && sorted[j] == scores[i];
        if j > 0 {
            assert(leq(sorted[0], sorted[j]));
        }
    }
    assert(out =~= sorted.remove(0));
    assert(sorted.remove(0).to_multiset() =~= sorted.to_multiset().remove(dropped));
    assert(sorted.to_multiset().count(dropped) > 0);
    assert(out.to_multiset().insert(dropped) =~= sorted.to_multiset());
}

/// Determinism: what a strategy makes of a run of die results is a function
/// of those results alone; identical draws give identical outcomes.
pub proof fn lemma_strategy_deterministic(strategy: Strategy, d1: Seq<u8>, d2: Seq<u8>)
    requires
        d1 == d2,
    ensures
        outcome_of(strategy, d1) == outcome_of(strategy, d2),
{
}

} // verus!
