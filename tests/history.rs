use eloelo::history::{History, HistoryEntry};
use eloelo::ids::{GameId, PlayerId, WinScale};
use eloelo::rating::rated_players;

fn make_entry(time: i64, winner: &[&str], loser: &[&str]) -> HistoryEntry {
    HistoryEntry {
        timestamp: time,
        winner: winner.iter().map(|p| PlayerId::from(*p)).collect(),
        loser: loser.iter().map(|p| PlayerId::from(*p)).collect(),
        scale: WinScale::Even,
        duration: 40 * 60,
        fake: false,
    }
}

fn streak(streaks: &Vec<(PlayerId, i32)>, name: &str) -> Option<i32> {
    streaks.iter().find(|(p, _)| p.as_str() == name).map(|(_, s)| *s)
}

#[test]
fn calculate_lose_streaks_test() {
    let game_id = GameId::from("game");
    let history = History {
        entries: vec![(
            GameId::from("game"),
            vec![
                make_entry(1, &["bixkog", "spawek"], &["j"]),
                make_entry(2, &["bixkog", "spawek"], &["j", "hypys"]),
                make_entry(3, &["bixkog"], &["j", "bania", "hypys"]),
            ],
        )],
    };
    let players: Vec<PlayerId> = ["bixkog", "spawek", "j", "hypys", "bania"].into_iter().map(PlayerId::from).collect();
    let streaks = history.calculate_lose_streaks(&game_id, &players, None, 10);
    assert_eq!(streak(&streaks, "j"), Some(3));
    assert_eq!(streak(&streaks, "hypys"), Some(2));
    assert_eq!(streak(&streaks, "bania"), Some(1));
    assert_eq!(streak(&streaks, "spawek"), Some(0));
    assert_eq!(streak(&streaks, "bixkog"), Some(0));
}

const DAY: i64 = 86400;

fn boundary_history() -> History {
    History {
        entries: vec![(
            GameId::from("G"),
            vec![
                make_entry(0, &["P"], &["Q"]),
                make_entry(10 * DAY, &["Q"], &["P"]),
                make_entry(20 * DAY, &["Q"], &["P"]),
                make_entry(30 * DAY, &["Q"], &["P"]),
            ],
        )],
    }
}

#[test]
fn lose_streak_unbounded_horizon() {
    let streaks = boundary_history().calculate_lose_streaks(&GameId::from("G"), &vec![PlayerId::from("P")], None, 31 * DAY);
    assert_eq!(streak(&streaks, "P"), Some(3));
    let streaks = boundary_history().calculate_lose_streaks(&GameId::from("G"), &vec![PlayerId::from("P")], Some(0), 31 * DAY);
    assert_eq!(streak(&streaks, "P"), Some(3));
}

#[test]
fn lose_streak_horizon_truncates() {
    // 15 days back from day 31 excludes the loss of day 10, which ends the scan
    let streaks =
        boundary_history().calculate_lose_streaks(&GameId::from("G"), &vec![PlayerId::from("P")], Some(15), 31 * DAY);
    assert_eq!(streak(&streaks, "P"), Some(2));
}

#[test]
fn lose_streak_skips_fake_matches() {
    let mut entries = vec![make_entry(1, &["Q"], &["P"]), make_entry(2, &["P"], &["Q"])];
    entries[1].fake = true;
    let history = History { entries: vec![(GameId::from("G"), entries)] };
    let streaks = history.calculate_lose_streaks(&GameId::from("G"), &vec![PlayerId::from("P")], None, 3);
    assert_eq!(streak(&streaks, "P"), Some(1));
}

#[test]
fn lose_streak_of_missing_game_is_empty() {
    let streaks = boundary_history().calculate_lose_streaks(&GameId::from("other"), &vec![PlayerId::from("P")], None, 0);
    assert!(streaks.is_empty());
}

#[test]
fn rated_players_of_empty_history_is_empty() {
    assert!(rated_players(&Vec::new()).is_empty());
}

#[test]
fn rated_players_lists_each_player_once() {
    let history = vec![make_entry(1, &["a", "b"], &["c"]), make_entry(2, &["c"], &["a", "d"])];
    let rated = rated_players(&history);
    let players: Vec<&str> = rated.iter().map(|p| p.as_str()).collect();
    assert_eq!(players, vec!["a", "b", "c", "d"]);
}

#[test]
fn all_players_and_advantage() {
    let mut e = make_entry(1, &["a"], &["b", "c"]);
    assert_eq!(e.all_players().iter().map(|p| p.as_str().to_string()).collect::<Vec<_>>(), vec!["a", "b", "c"]);
    assert_eq!(e.advantage_percent(), 75);
    e.scale = WinScale::Advantage;
    assert_eq!(e.advantage_percent(), 85);
    e.scale = WinScale::Pwnage;
    assert_eq!(e.advantage_percent(), 95);
}
