use eloelo::dota_bot::{make_hero_pools, on_match_start};
use eloelo::command_handler::parse_command;
use eloelo::dota_bot::reroll_with_limit;
use eloelo::hero_assignment_strategy::random_hero_pool::RandomHeroPool;
use eloelo::hero_assignment_strategy::{DotaTeam, PlayerInfo};
use eloelo::ids::DiscordUsername;
use eloelo::store::{history_file_name, history_path, is_regular_history_file};
use eloelo::config::{AssignAlgo, Game};
use eloelo::decimal::{parse_decimal, Decimal};
use eloelo::dota_bot::{DotaBotState, DotaCommand};
use eloelo::fosiaudio::{call_request, winner_request, FosiaudioClient};
use eloelo::heroes::{Hero, HeroTag, HERO_COUNT};
use eloelo::ids::{GameId, PlayerId, Team, WinScale};
use eloelo::message_bus::ImageFormat;
use eloelo::options::{EloEloOptions, OptionValue};
use eloelo::player::{Player, PlayerDb};
use eloelo::silly_responder::SillyResponder;
use eloelo::utils::duration_minutes;

#[test]
fn eq() {
    assert!(Decimal::new("0.1") == Decimal::new("0.1"));
    assert!(Decimal::new("0.1") == Decimal::new("0.10"));
    assert!(Decimal::new("0.1") != Decimal::new("0.11"));
}

#[test]
fn lib_from_str_error() {
    assert_eq!(&WinScale::try_from("domination").unwrap_err().to_string(), "Invalid value: domination");
}

#[test]
fn decimal_rejects_non_literals() {
    assert!(Decimal::parse("NaN").is_none());
    assert!(Decimal::parse("+inf").is_none());
    assert!(Decimal::parse("whatever").is_none());
    assert!(Decimal::parse("").is_none());
    assert!(Decimal::parse("1.2.3").is_none());
    assert!(Decimal::parse("1234567890123456789").is_none());
    assert!(Decimal::parse("123456789012345678").is_some());
}

#[test]
fn decimal_values() {
    let v = parse_decimal("-12.50").unwrap();
    assert_eq!((v.mantissa, v.scale), (-1250, 2));
    let v = parse_decimal("+.5").unwrap();
    assert_eq!((v.mantissa, v.scale), (5, 1));
    let v = parse_decimal("7.").unwrap();
    assert_eq!((v.mantissa, v.scale), (7, 0));
    assert!(Decimal::new("-0") == Decimal::new("0.000"));
    assert_eq!(Decimal::new("21.37").as_str(), "21.37");
}

#[test]
fn win_scale_parsing() {
    assert_eq!(WinScale::try_from("even").unwrap(), WinScale::Even);
    assert_eq!(WinScale::try_from(String::from("pwnage")).unwrap(), WinScale::Pwnage);
    assert_eq!(WinScale::parse("advantage").unwrap(), WinScale::Advantage);
    assert_eq!(WinScale::Advantage.name(), "Advantage");
}

#[test]
fn team_from_str_ignores_case() {
    assert_eq!(Team::from_str("LEFT"), Some(Team::Left));
    assert_eq!(Team::from_str("Right"), Some(Team::Right));
    assert_eq!(Team::from_str("middle"), None);
    assert_eq!(Team::Left.name(), "Left Team");
}

#[test]
fn hero_table() {
    assert_eq!(Hero::all().len(), HERO_COUNT as usize);
    let names: Vec<&str> = Hero::all_alphabetical().iter().map(|h| h.as_str()).collect();
    let mut sorted = names.clone();
    sorted.sort();
    assert_eq!(names, sorted);
    assert_eq!(Hero::from_name("Puck").unwrap().tag(), HeroTag::Core);
    assert_eq!(Hero::from_name("Lion").unwrap().tag(), HeroTag::Support);
    assert_eq!(Hero::try_from(String::from("Io")).unwrap().as_str(), "Io");
    let err = Hero::from_name("Pikachu").unwrap_err();
    assert_eq!(err.to_string(), "Incorrect hero name: \"Pikachu\". See `all` for list of valid names.");
}

#[test]
fn hero_tags_rotate() {
    assert_eq!(HeroTag::next_tag(0), HeroTag::Core);
    assert_eq!(HeroTag::next_tag(1), HeroTag::Support);
    assert_eq!(HeroTag::next_tag(2), HeroTag::Carry);
    assert_eq!(HeroTag::next_tag(3), HeroTag::Core);
    assert_eq!(HeroTag::from_str("Carry"), Some(HeroTag::Carry));
    assert_eq!(HeroTag::from_str("Tank"), None);
    assert_eq!(HeroTag::all().len(), 3);
}

#[test]
fn hero_from_words() {
    let h = Hero::try_from_args(&vec!["Crystal", "Maiden"]).unwrap();
    assert_eq!(h.as_str(), "Crystal Maiden");
    assert!(matches!(DotaCommand::try_from_cmd_and_args("ban", &vec!["Io"]), Ok(Some(DotaCommand::Ban(_)))));
    assert!(matches!(DotaCommand::try_from_cmd_and_args("hero", &vec![]), Ok(Some(DotaCommand::Hero))));
    assert!(matches!(DotaCommand::try_from_cmd_and_args("dance", &vec![]), Ok(None)));
    assert!(DotaCommand::try_from_cmd_and_args("allow", &vec!["Nobody"]).is_err());
}

fn heroes(names: &[&str]) -> Vec<Hero> {
    names.iter().map(|n| Hero::from_name(n).unwrap()).collect()
}

#[test]
fn hero_pool_rules() {
    let all = heroes(&["Puck", "Pudge", "Razor", "Io", "Lion"]);
    let mut state = DotaBotState::new();
    assert_eq!(state.user_hero_pool(&all, 0), all);
    state.ban_hero(Hero::from_name("Io").unwrap());
    assert_eq!(state.user_hero_pool(&all, 0), heroes(&["Puck", "Pudge", "Razor", "Lion"]));
    state.last_match_heroes = heroes(&["Puck"]);
    state.last_match_date = Some(1000);
    assert_eq!(state.user_hero_pool(&all, 2000), heroes(&["Pudge", "Razor", "Lion"]));
    // a day later repeats are fine again
    assert_eq!(state.user_hero_pool(&all, 1000 + 86400), heroes(&["Puck", "Pudge", "Razor", "Lion"]));
    // avoiding repeats may not leave fewer heroes than a draw needs
    state.num_heroes_shown = 4;
    assert_eq!(state.user_hero_pool(&all, 2000), heroes(&["Puck", "Pudge", "Razor", "Lion"]));
    state.num_heroes_shown = 3;
    state.duplicate_heroes_opt_out = true;
    assert_eq!(state.user_hero_pool(&all, 2000), heroes(&["Puck", "Pudge", "Razor", "Lion"]));
    state.allow_hero(Hero::from_name("Io").unwrap());
    assert_eq!(state.user_hero_pool(&all, 2000), heroes(&["Io"]));
    state.clear_allowlist();
    state.unban_hero(Hero::from_name("Io").unwrap());
    state.duplicate_heroes_opt_out = false;
    assert_eq!(state.user_hero_pool(&all, 2000), heroes(&["Pudge", "Razor", "Io", "Lion"]));
}

#[test]
fn reroll_limit() {
    let mut state = DotaBotState::new();
    state.reroll_limit_num = 2;
    state.reroll_limit_duration_minutes = 10;
    assert!(state.register_reroll(0));
    assert!(state.register_reroll(60));
    assert!(!state.register_reroll(120));
    assert!(state.register_reroll(601));
    assert_eq!(state.reroll_log, vec![60, 601]);
}

#[test]
fn player_ratings() {
    let mut p = Player::new(PlayerId::from("j"));
    let game = GameId::from("dota");
    assert_eq!(p.get_elo(&game), None);
    assert_eq!(p.get_elo_mut(&game), 1000);
    assert_eq!(p.get_elo(&game), Some(1000));
    p.set_elo(&game, 1200);
    assert_eq!(p.get_elo(&game), Some(1200));
    p.remove_elo(&game);
    assert_eq!(p.get_elo(&game), None);
    assert_eq!(p.get_display_name(), "j");
    assert_eq!(p.get_fosiaudio_name(), "j");
    assert!(p.discord_username().is_none());
}

#[test]
fn player_db_ranks() {
    let game = GameId::from("dota");
    let mut db = PlayerDb::new(vec![Player::new(PlayerId::from("a")), Player::new(PlayerId::from("b"))]);
    db.set_rank(&PlayerId::from("a"), &game, 1500);
    assert_eq!(db.get_rank(&PlayerId::from("a"), &game), Some(1500));
    assert_eq!(db.get_rank(&PlayerId::from("b"), &game), None);
    let ranked = db.get_ranked(&vec![PlayerId::from("a"), PlayerId::from("b")], &game, 900);
    let ranked: Vec<(&str, i32)> = ranked.iter().map(|(p, e)| (p.as_str(), *e)).collect();
    assert_eq!(ranked, vec![("a", 1500), ("b", 900)]);
    db.remove_rank(&PlayerId::from("a"), &game);
    assert_eq!(db.get_rank(&PlayerId::from("a"), &game), None);
    assert!(db.remove(&PlayerId::from("a")).is_some());
    assert!(db.get(&PlayerId::from("a")).is_none());
    db.insert(Player::new(PlayerId::from("b")));
    assert_eq!(db.all().len(), 1);
}

#[test]
fn config_helpers() {
    let g = Game::new(GameId::from("dota"));
    assert_eq!(g.team_name(Team::Left), "Left Team");
    assert_eq!(g.team_name(Team::Right), "Right Team");
    assert_eq!(eloelo::config::default_hero_assign_algo(), AssignAlgo::Random);
}

#[test]
fn image_formats() {
    assert_eq!(ImageFormat::from_mime_type("image/png"), Some(ImageFormat::Png));
    assert_eq!(ImageFormat::from_mime_type("image/gif"), None);
    assert_eq!(ImageFormat::Jpg.to_str(), "jpg");
}

#[test]
fn minutes() {
    assert_eq!(duration_minutes(45 * 60), "45m");
    assert_eq!(duration_minutes(59), "0m");
    assert_eq!(duration_minutes(7260), "121m");
}

#[test]
fn fosiaudio_requests() {
    let c = FosiaudioClient::new("127.0.0.1:1234").with_timeout(3000).with_enabled(false);
    assert_eq!(c.timeout_ms, 3000);
    assert!(!c.enabled);
    let players = vec![Player::new(PlayerId::from("a")), Player::new(PlayerId::from("b"))];
    assert_eq!(call_request(&players, true).missing, "a\nb");
    assert_eq!(winner_request("Team BIEDRONKA").unwrap().missing, "biedronka");
    assert_eq!(winner_request("lidl").unwrap().missing, "lidl");
    assert!(winner_request("Left Team").is_none());
}

#[test]
fn options_groups() {
    let o = EloEloOptions::default();
    let groups = o.to_described_options_group_vec();
    assert_eq!(groups.len(), 3);
    assert_eq!(groups[0].key, "general");
    assert!(matches!(groups[0].options[0].value, OptionValue::Boolean(true)));
    assert_eq!(groups[2].options.len(), 6);
}

#[test]
fn silly_answers() {
    let r = SillyResponder::new();
    assert!(!r.respond().is_empty());
}

#[test]
fn history_files() {
    assert_eq!(history_file_name(&GameId::from("Dota 2: Turbo")), "Dota_2__Turbo.history.json");
    assert_eq!(history_path("/data", &GameId::from("cs")), "/data/history_git/cs.history.json");
    assert!(is_regular_history_file("cs.history.json"));
    assert!(!is_regular_history_file("cs.history.yaml"));
    assert!(!is_regular_history_file("json"));
}

#[test]
fn chat_commands() {
    let (cmd, args) = parse_command("//ban Crystal Maiden");
    assert_eq!(cmd, "ban");
    assert_eq!(args, vec!["Crystal".to_string(), "Maiden".to_string()]);
    let (cmd, args) = parse_command("hero");
    assert_eq!(cmd, "hero");
    assert!(args.is_empty());
    let (cmd, args) = parse_command("a  b");
    assert_eq!(cmd, "a");
    assert_eq!(args, vec!["".to_string(), "b".to_string()]);
}

#[test]
fn reroll_is_limited() {
    let all = heroes(&["Puck", "Pudge", "Razor", "Io", "Lion", "Lich"]);
    let mut pool = RandomHeroPool::default();
    let info = PlayerInfo { name: DiscordUsername::from("j"), elo: 1000, dota_team: DotaTeam::Radiant, number_of_heroes_shown: 1 };
    pool.assign_heroes(vec![(info, all.clone())]);
    let mut state = DotaBotState::new();
    state.reroll_limit_num = 1;
    let first = reroll_with_limit(&mut state, &mut pool, &DiscordUsername::from("j"), &all, 100).unwrap();
    assert_eq!(first.len(), 1);
    let second = reroll_with_limit(&mut state, &mut pool, &DiscordUsername::from("j"), &all, 200).unwrap();
    assert!(second.is_empty());
}

#[test]
fn match_start_draft() {
    let all = heroes(&["Puck", "Pudge", "Razor", "Io", "Lion", "Lich"]);
    let db = PlayerDb::new(vec![
        Player::with_opt_discord_username(PlayerId::from("a"), Some(DiscordUsername::from("alpha"))),
        Player::new(PlayerId::from("b")),
    ]);
    let mut alpha = DotaBotState::new();
    alpha.num_heroes_shown = 2;
    alpha.ban_hero(Hero::from_name("Io").unwrap());
    let states = vec![(DiscordUsername::from("alpha"), alpha)];
    let pools = make_hero_pools(&vec![(PlayerId::from("a"), 1200)], &vec![(PlayerId::from("b"), 900)], &db, &states, &all, 0);
    assert_eq!(pools.len(), 2);
    assert_eq!(pools[0].0.name.as_str(), "alpha");
    assert_eq!(pools[0].0.number_of_heroes_shown, 2);
    assert_eq!(pools[0].0.dota_team, DotaTeam::Radiant);
    assert_eq!(pools[0].1.len(), 5);
    assert_eq!(pools[1].0.name.as_str(), "b");
    assert_eq!(pools[1].0.number_of_heroes_shown, 3);
    assert_eq!(pools[1].0.dota_team, DotaTeam::Dire);
    assert_eq!(pools[1].1, all);
    let mut strategy = RandomHeroPool::default();
    let drafted = on_match_start(&mut strategy, pools);
    assert_eq!(drafted.len(), 2);
    assert_eq!(drafted[0].1.len(), 2);
    assert_eq!(drafted[1].1.len(), 3);
}
