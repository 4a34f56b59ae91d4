use eloelo::decimal::Decimal;
use eloelo::ids::PlayerId;
use eloelo::spawelo::{
    apply_pity_bonus, calculate_teams_elo, calculate_teams_elo_internal, shuffle_teams, PityBonusOptions,
    SpaweloOptions,
};

fn player(name: &str, elo: i32) -> (PlayerId, i32) {
    (PlayerId::from(name), elo)
}

fn id(name: &str) -> PlayerId {
    PlayerId::from(name)
}

fn multiplicative(factor: &str, min_loses: i32) -> PityBonusOptions {
    PityBonusOptions {
        additive: false,
        multiplicative: true,
        factor: Decimal::new(factor),
        min_loses,
        additive_amount: 0,
        lose_streak_max_days: 0,
    }
}

fn factor_of(options: &PityBonusOptions, applied: i32) -> f64 {
    options.factor.as_str().parse::<f64>().unwrap().powi(applied)
}

#[test]
fn test_calculate_teams_elo() {
    let left = vec![player("j", 1000)];
    let right = vec![player("bixkog", 3000)];
    let options = multiplicative("0.5", 1);
    let lose_streaks = vec![(id("j"), 1)];
    let (t1, t2) = calculate_teams_elo_internal(&left, &right, &lose_streaks, &options);
    assert_eq!(t1.real_elo, 1000);
    assert_eq!(t2.real_elo, 3000);
    assert_eq!(factor_of(&options, t1.pity_loses), 0.5);
    assert_eq!(factor_of(&options, t2.pity_loses), 1.0);
    assert_eq!(t1.pity_elo, 500);
    assert_eq!(t2.pity_elo, 3000);
}

#[test]
fn test_calculate_teams_elo_larger_streak() {
    let left = vec![player("j", 1000)];
    let right = vec![player("bixkog", 3000)];
    let options = multiplicative("0.5", 1);
    let lose_streaks = vec![(id("j"), 3)];
    let (t1, t2) = calculate_teams_elo_internal(&left, &right, &lose_streaks, &options);
    assert_eq!(t1.real_elo, 1000);
    assert_eq!(t2.real_elo, 3000);
    assert_eq!(factor_of(&options, t1.pity_loses), 0.125);
    assert_eq!(factor_of(&options, t2.pity_loses), 1.0);
    assert_eq!(t1.pity_elo, 125);
    assert_eq!(t2.pity_elo, 3000);
}

#[test]
fn test_calculate_teams_elo_larger_min_loses() {
    let left = vec![player("j", 1000)];
    let right = vec![player("bixkog", 3000)];
    let options = multiplicative("0.5", 2);
    let lose_streaks = vec![(id("j"), 3)];
    let (t1, t2) = calculate_teams_elo_internal(&left, &right, &lose_streaks, &options);
    assert_eq!(t1.real_elo, 1000);
    assert_eq!(t2.real_elo, 3000);
    assert_eq!(factor_of(&options, t1.pity_loses), 0.25);
    assert_eq!(factor_of(&options, t2.pity_loses), 1.0);
    assert_eq!(t1.pity_elo, 250);
    assert_eq!(t2.pity_elo, 3000);
}

#[test]
fn test_calculate_teams_elo_streak_equal_to_min_loses() {
    let left = vec![player("j", 1000)];
    let right = vec![player("bixkog", 3000)];
    let options = multiplicative("0.5", 2);
    let lose_streaks = vec![(id("j"), 2)];
    let (t1, t2) = calculate_teams_elo_internal(&left, &right, &lose_streaks, &options);
    assert_eq!(t1.real_elo, 1000);
    assert_eq!(t2.real_elo, 3000);
    assert_eq!(factor_of(&options, t1.pity_loses), 0.5);
    assert_eq!(factor_of(&options, t2.pity_loses), 1.0);
    assert_eq!(t1.pity_elo, 500);
    assert_eq!(t2.pity_elo, 3000);
}

#[test]
fn test_calculate_teams_elo_min_loses_zero() {
    let left = vec![player("j", 1000)];
    let right = vec![player("bixkog", 3000)];
    let options = multiplicative("0.5", 0);
    let lose_streaks = vec![(id("j"), 1)];
    let (t1, t2) = calculate_teams_elo_internal(&left, &right, &lose_streaks, &options);
    assert_eq!(t1.real_elo, 1000);
    assert_eq!(t2.real_elo, 3000);
    assert_eq!(factor_of(&options, t1.pity_loses), 0.5);
    assert_eq!(factor_of(&options, t2.pity_loses), 1.0);
    assert_eq!(t1.pity_elo, 500);
    assert_eq!(t2.pity_elo, 3000);
}

#[test]
fn pity_under_threshold_is_none() {
    let options = multiplicative("0.5", 3);
    assert_eq!(apply_pity_bonus(1000, 2, &options), (0, 1000));
    assert_eq!(apply_pity_bonus(1000, 3, &options), (1, 500));
    assert_eq!(apply_pity_bonus(1000, 4, &options), (2, 250));
}

#[test]
fn pity_additive_and_multiplicative_combine() {
    let options = PityBonusOptions {
        additive: true,
        multiplicative: true,
        factor: Decimal::new("0.9"),
        min_loses: 2,
        additive_amount: 100,
        lose_streak_max_days: 0,
    };
    // two compensated losses: 1000 * 0.9 = 900, * 0.9 = 810, then + 2 * 100
    assert_eq!(apply_pity_bonus(1000, 3, &options), (2, 1010));
}

#[test]
fn pity_of_negative_rating_rounds_toward_zero() {
    let options = multiplicative("0.5", 1);
    assert_eq!(apply_pity_bonus(-7, 1, &options), (1, -3));
}

#[test]
fn default_pity_options_are_additive() {
    let options = PityBonusOptions::default();
    assert!(options.additive);
    assert!(!options.multiplicative);
    assert_eq!(options.min_loses, 2);
    assert_eq!(options.additive_amount, 100);
    assert_eq!(options.factor.as_str(), "-0.02");
    assert_eq!(apply_pity_bonus(1000, 3, &options), (2, 1200));
}

#[test]
fn calculate_teams_elo_keeps_rosters() {
    let options = SpaweloOptions { pity_bonus: multiplicative("0.5", 1), ..Default::default() };
    let (l, r) = calculate_teams_elo(
        vec![player("a", 1000), player("b", 1200)],
        vec![player("c", 900)],
        &vec![(id("c"), 2)],
        &options,
    );
    assert_eq!(l.players.iter().map(|p| p.as_str()).collect::<Vec<_>>(), vec!["a", "b"]);
    assert_eq!(l.real_elo, 2200);
    assert_eq!(l.pity_elo, 2200);
    assert_eq!(r.real_elo, 900);
    assert_eq!(r.pity_loses, 2);
    assert_eq!(r.pity_elo, 225);
}

#[test]
fn shuffle_finds_the_smallest_gap() {
    let options = SpaweloOptions { pity_bonus: multiplicative("0.5", 100), ..Default::default() };
    let players = vec![player("a", 1000), player("b", 1100), player("c", 1500), player("d", 1600)];
    let (l, r) = shuffle_teams(players, &Vec::new(), &options);
    assert_eq!(l.players.len(), 2);
    assert_eq!(r.players.len(), 2);
    assert_eq!((l.real_elo - r.real_elo).abs(), 0);
    let mut all: Vec<&str> = l.players.iter().chain(r.players.iter()).map(|p| p.as_str()).collect();
    all.sort();
    assert_eq!(all, vec!["a", "b", "c", "d"]);
    // a + d first in lexicographic order of positions
    assert_eq!(l.players.iter().map(|p| p.as_str()).collect::<Vec<_>>(), vec!["a", "d"]);
}

#[test]
fn shuffle_compensates_a_losing_player() {
    let options = SpaweloOptions { pity_bonus: multiplicative("0.5", 1), ..Default::default() };
    let players = vec![player("a", 1000), player("b", 1000), player("c", 1000), player("d", 1000)];
    let (l, r) = shuffle_teams(players, &vec![(id("a"), 1)], &options);
    // the team with `a` counts half, so the best split still has a gap
    assert_eq!((l.pity_elo - r.pity_elo).abs(), 1000);
}

#[test]
fn shuffle_of_empty_roster_gives_empty_teams() {
    let options = SpaweloOptions::default();
    let (l, r) = shuffle_teams(Vec::new(), &Vec::new(), &options);
    assert!(l.players.is_empty());
    assert!(r.players.is_empty());
    assert_eq!(l.pity_elo - r.pity_elo, 0);
}

#[test]
fn shuffle_odd_roster_puts_smaller_half_first() {
    let options = SpaweloOptions::default();
    let players = vec![player("a", 1000), player("b", 1000), player("c", 1000)];
    let (l, r) = shuffle_teams(players, &Vec::new(), &options);
    assert_eq!(l.players.len(), 1);
    assert_eq!(r.players.len(), 2);
}

#[test]
fn pity_factor_power_is_rounded_once() {
    // 7 * 0.7 * 0.7 = 3.43: the power is applied first, the rating rounded once
    let options = multiplicative("0.7", 1);
    assert_eq!(apply_pity_bonus(7, 2, &options), (2, 3));
    assert_eq!(apply_pity_bonus(-7, 2, &options), (2, -3));
    let negative = multiplicative("-0.5", 1);
    assert_eq!(apply_pity_bonus(1000, 1, &negative), (1, -500));
    assert_eq!(apply_pity_bonus(1000, 2, &negative), (2, 250));
    let growing = multiplicative("10", 1);
    assert_eq!(apply_pity_bonus(1000, 30, &growing), (30, i64::MAX));
}
