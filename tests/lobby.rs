use eloelo::ids::{PlayerId, Team, WinScale};
use eloelo::lobby::{default_elo_for, elo_history_start, make_history_entry, remove_player_id};

fn ids(names: &[&str]) -> Vec<PlayerId> {
    names.iter().map(|n| PlayerId::from(*n)).collect()
}

#[test]
fn removes_first_occurrence() {
    let mut players = ids(&["a", "b", "a"]);
    let removed = remove_player_id(&mut players, &PlayerId::from("a"));
    assert_eq!(removed.unwrap().as_str(), "a");
    assert_eq!(players.iter().map(|p| p.as_str()).collect::<Vec<_>>(), vec!["b", "a"]);
    assert!(remove_player_id(&mut players, &PlayerId::from("z")).is_none());
}

#[test]
fn default_elo_is_the_average() {
    assert_eq!(default_elo_for(&vec![]), 1000);
    assert_eq!(default_elo_for(&vec![1000, 1100, 1201]), 1100);
    assert_eq!(default_elo_for(&vec![-3, -4]), -3);
}

#[test]
fn elo_history_window() {
    assert_eq!(elo_history_start(10, 0), 0);
    assert_eq!(elo_history_start(10, 4), 6);
    assert_eq!(elo_history_start(3, 4), 0);
}

#[test]
fn history_entry_of_a_match() {
    let e = make_history_entry(&ids(&["a"]), &ids(&["b", "c"]), Team::Right, WinScale::Pwnage, 1800, false, 42);
    assert_eq!(e.winner.iter().map(|p| p.as_str()).collect::<Vec<_>>(), vec!["b", "c"]);
    assert_eq!(e.loser.iter().map(|p| p.as_str()).collect::<Vec<_>>(), vec!["a"]);
    assert_eq!(e.scale, WinScale::Pwnage);
    assert_eq!(e.timestamp, 42);
}
