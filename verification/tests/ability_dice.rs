use ability_dice::accumulator::Accumulator;
use ability_dice::dice::roll_dice;
use ability_dice::outcome::Outcome;
use ability_dice::score::{chunk4, score, Window};
use ability_dice::sorting::sort_vec;
use ability_dice::strategy::{
    dice_needed, drop_twice, run_strategy, run_trial, run_trials, traditional, Strategy,
};
use squirrel_rng::SquirrelRng;

#[test]
fn score_drops_the_lowest_die() {
    let w = Window { dice: [3, 1, 4, 1] };
    assert_eq!(score(&w), 8);
}

#[test]
fn score_extremes() {
    assert_eq!(score(&Window { dice: [1, 1, 1, 1] }), 3);
    assert_eq!(score(&Window { dice: [6, 6, 6, 6] }), 18);
}

#[test]
fn score_subtracts_one_copy_of_a_tied_minimum() {
    let w = Window { dice: [2, 2, 5, 6] };
    assert_eq!(score(&w), 13);
}

#[test]
fn chunking_groups_in_draw_order() {
    let dice = vec![1, 2, 3, 4, 5, 6, 1, 2];
    let windows = chunk4(&dice);
    assert_eq!(windows.len(), 2);
    assert_eq!(windows[0].dice, [1, 2, 3, 4]);
    assert_eq!(windows[1].dice, [5, 6, 1, 2]);
}

#[test]
fn traditional_sorts_six_scores() {
    // six windows scoring 10, 8, 14, 3, 9, 12 in draw order
    let dice = vec![
        1, 4, 3, 3, //
        3, 1, 4, 1, //
        1, 6, 4, 4, //
        1, 1, 1, 1, //
        1, 3, 3, 3, //
        1, 4, 4, 4,
    ];
    let outcome = traditional(&dice);
    assert_eq!(outcome.values, vec![3, 8, 9, 10, 12, 14]);
}

#[test]
fn drop_twice_discards_the_lowest_score() {
    // seven windows scoring 10, 8, 14, 3, 9, 12, 5; the 3 is discarded
    let dice = vec![
        1, 4, 3, 3, //
        3, 1, 4, 1, //
        1, 6, 4, 4, //
        1, 1, 1, 1, //
        1, 3, 3, 3, //
        1, 4, 4, 4, //
        1, 2, 2, 1,
    ];
    let outcome = drop_twice(&dice);
    assert_eq!(outcome.values, vec![5, 8, 9, 10, 12, 14]);
}

#[test]
fn sorting_then_dropping_the_first_matches_the_rule() {
    let mut scores = vec![10, 8, 14, 3, 9, 12, 2];
    sort_vec(&mut scores);
    assert_eq!(scores, vec![2, 3, 8, 9, 10, 12, 14]);
    scores.remove(0);
    assert_eq!(scores, vec![3, 8, 9, 10, 12, 14]);
}

#[test]
fn run_strategy_dispatches_by_name() {
    let dice6 = vec![
        1, 4, 3, 3, //
        3, 1, 4, 1, //
        1, 6, 4, 4, //
        1, 1, 1, 1, //
        1, 3, 3, 3, //
        1, 4, 4, 4,
    ];
    let outcome = run_strategy(Strategy::Traditional, &dice6);
    assert_eq!(outcome.values, vec![3, 8, 9, 10, 12, 14]);

    let dice7 = vec![
        1, 4, 3, 3, //
        3, 1, 4, 1, //
        1, 6, 4, 4, //
        1, 1, 1, 1, //
        1, 3, 3, 3, //
        1, 4, 4, 4, //
        1, 2, 2, 1,
    ];
    let outcome = run_strategy(Strategy::DropTwice, &dice7);
    assert_eq!(outcome.values, vec![5, 8, 9, 10, 12, 14]);
}

#[test]
fn identical_dice_give_identical_outcomes() {
    let dice = vec![
        2, 5, 3, 6, //
        4, 4, 1, 2, //
        6, 6, 6, 1, //
        1, 2, 3, 4, //
        5, 5, 2, 2, //
        3, 3, 3, 6,
    ];
    let a = traditional(&dice);
    let b = traditional(&dice);
    assert_eq!(a.values, b.values);
}

#[test]
fn seeded_streams_repeat() {
    let mut r1 = SquirrelRng::with_seed(1234);
    let mut r2 = SquirrelRng::with_seed(1234);
    let a = run_trial(Strategy::Traditional, &mut r1);
    let b = run_trial(Strategy::Traditional, &mut r2);
    assert_eq!(a.values, b.values);

    let mut r3 = SquirrelRng::with_seed(99);
    let mut r4 = SquirrelRng::with_seed(99);
    let c = run_trial(Strategy::DropTwice, &mut r3);
    let d = run_trial(Strategy::DropTwice, &mut r4);
    assert_eq!(c.values, d.values);
}

#[test]
fn trial_outcomes_are_six_sorted_values_in_range() {
    let mut rng = SquirrelRng::with_seed(99);
    for _ in 0..50 {
        for strategy in [Strategy::Traditional, Strategy::DropTwice] {
            let o = run_trial(strategy, &mut rng);
            assert_eq!(o.values.len(), 6);
            assert!(o.values.windows(2).all(|p| p[0] <= p[1]));
            assert!(o.values.iter().all(|&v| v <= 18));
        }
    }
}

#[test]
fn accumulator_averages_two_trials() {
    let mut acc = Accumulator::new();
    acc.incorporate(&Outcome::new(vec![1, 2, 3, 4, 5, 6]));
    acc.incorporate(&Outcome::new(vec![3, 4, 5, 6, 7, 8]));
    let means = acc.render();
    assert_eq!(means, vec![200, 300, 400, 500, 600, 700]);
}

#[test]
fn accumulator_tracks_per_position_sums_and_count() {
    let mut acc = Accumulator::new();
    assert_eq!(acc.count, 0);
    acc.incorporate(&Outcome::new(vec![3, 3, 4, 10, 17, 18]));
    acc.incorporate(&Outcome::new(vec![5, 6, 7, 8, 9, 10]));
    acc.incorporate(&Outcome::new(vec![0, 1, 2, 3, 4, 5]));
    assert_eq!(acc.count, 3);
    assert_eq!(acc.sums, vec![8, 10, 13, 21, 30, 33]);
    let means = acc.render();
    assert_eq!(means, vec![267, 333, 433, 700, 1000, 1100]);
}

#[test]
fn mean_hundredths_round_half_up() {
    let mut acc = Accumulator::new();
    acc.incorporate(&Outcome::new(vec![1, 0, 0, 0, 0, 0]));
    for _ in 0..7 {
        acc.incorporate(&Outcome::new(vec![0, 0, 0, 0, 0, 0]));
    }
    let means = acc.render();
    // a total of 1 over 8 trials is 0.125: twelve and a half hundredths,
    // rounded half-up to 13
    assert_eq!(means[0], 13);
    assert_eq!(&means[1..], &[0, 0, 0, 0, 0]);
}

#[test]
fn render_is_read_only() {
    let mut acc = Accumulator::new();
    acc.incorporate(&Outcome::new(vec![3, 4, 5, 6, 7, 8]));
    let a = acc.render();
    let b = acc.render();
    assert_eq!(a, b);
    assert_eq!(acc.count, 1);
}

#[test]
fn run_trials_counts_trials() {
    let mut rng = SquirrelRng::with_seed(7);
    let acc = run_trials(Strategy::DropTwice, &mut rng, 10);
    assert_eq!(acc.count, 10);
    let means = acc.render();
    assert_eq!(means.len(), 6);
    assert!(means.iter().all(|&m| m <= 1800));
    // every window score is at least 3, so every mean is at least 3.00
    assert!(means.iter().all(|&m| m >= 300));
}

#[test]
fn run_trials_zero_trials_gives_empty_accumulator() {
    let mut rng = SquirrelRng::with_seed(7);
    let acc = run_trials(Strategy::Traditional, &mut rng, 0);
    assert_eq!(acc.count, 0);
    assert!(acc.sums.iter().all(|&s| s == 0));
}

#[test]
fn strategies_consume_fixed_dice_counts() {
    assert_eq!(dice_needed(Strategy::Traditional), 24);
    assert_eq!(dice_needed(Strategy::DropTwice), 28);
}

#[test]
fn drawn_dice_are_die_values() {
    let mut rng = SquirrelRng::with_seed(42);
    let dice = roll_dice(&mut rng, 1000);
    assert_eq!(dice.len(), 1000);
    assert!(dice.iter().all(|&d| (1..=6).contains(&d)));
    for face in 1..=6u8 {
        assert!(dice.contains(&face));
    }
}

#[test]
fn outcome_get_reads_positions() {
    let o = Outcome::new(vec![3, 8, 9, 10, 12, 14]);
    assert_eq!(o.get(0), 3);
    assert_eq!(o.get(5), 14);
}
