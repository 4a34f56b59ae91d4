use std::collections::HashSet;

use eloelo::hero_pool_generators::{HeroPoolGenerator, PlayerInfo, RandomHeroPool, TaggedHeroPool};
use eloelo::heroes::{Hero, HeroTag};
use eloelo::ids::DiscordUsername;

const N: usize = 10;

fn hero(name: &str) -> Hero {
    Hero::from_name(name).unwrap()
}

fn default_hero_pool() -> Vec<Hero> {
    vec![hero("Puck"), hero("Pudge"), hero("Razor"), hero("Io"), hero("Lion"), hero("Lich")]
}

fn small_hero_pool() -> Vec<Hero> {
    vec![hero("Puck"), hero("Pudge"), hero("Io"), hero("Lion")]
}

fn player(name: &str, elo: i32, is_radiant: bool, shown: u32, pool: &Vec<Hero>) -> (PlayerInfo, Vec<Hero>) {
    (
        PlayerInfo {
            name: DiscordUsername::from(name),
            elo,
            is_radiant,
            number_of_heroes_shown: shown,
        },
        pool.clone(),
    )
}

fn player_j(pool: &Vec<Hero>) -> (PlayerInfo, Vec<Hero>) {
    player("j", 1000, true, 2, pool)
}

fn player_bixkog(pool: &Vec<Hero>) -> (PlayerInfo, Vec<Hero>) {
    player("bixkog", 1000, false, 1, pool)
}

fn player_dragon(pool: &Vec<Hero>) -> (PlayerInfo, Vec<Hero>) {
    player("dragon", 100, false, 2, pool)
}

fn player_goovie(pool: &Vec<Hero>) -> (PlayerInfo, Vec<Hero>) {
    player("goovie", 100, true, 1, pool)
}

fn default_players(pool: Vec<Hero>) -> Vec<(PlayerInfo, Vec<Hero>)> {
    vec![player_j(&pool), player_bixkog(&pool), player_dragon(&pool), player_goovie(&pool)]
}

fn few_players(pool: Vec<Hero>) -> Vec<(PlayerInfo, Vec<Hero>)> {
    vec![player_bixkog(&pool), player_goovie(&pool)]
}

fn no_duplicates(assignments: &Vec<(PlayerInfo, Vec<Hero>)>) -> bool {
    let total_len = assignments.iter().map(|(_, v)| v.len()).sum::<usize>();
    let unique: HashSet<Hero> = assignments.iter().flat_map(|(_, v)| v.iter().cloned()).collect();
    total_len == unique.len()
}

fn assignment_in(assignment: &Vec<Hero>, set: &HashSet<Hero>) -> bool {
    assignment.iter().all(|h| set.contains(h))
}

fn heroes_of(assignments: &Vec<(PlayerInfo, Vec<Hero>)>, player: &PlayerInfo) -> Vec<Hero> {
    assignments.iter().find(|(p, _)| p == player).map(|(_, v)| v.clone()).unwrap()
}

fn no_overlaps_between(lhs: &Vec<Hero>, rhs: &Vec<Hero>) -> bool {
    !(lhs.iter().any(|h| rhs.contains(h)) || rhs.iter().any(|h| lhs.contains(h)))
}

fn sorted_lists(assignments: Vec<(PlayerInfo, Vec<Hero>)>) -> Vec<Vec<Hero>> {
    let mut v = assignments;
    v.sort_by(|a, b| a.0.name.as_str().cmp(b.0.name.as_str()));
    v.into_iter().map(|(_, h)| h).collect()
}

#[test]
fn hero_pool_generators_test_base_random() {
    for _ in 0..N {
        let players = default_players(default_hero_pool());
        let mut random_assign = RandomHeroPool::default();
        let players_assignement = random_assign.assign_heroes(players);
        assert!(no_duplicates(&players_assignement));
        for (player, assignement) in players_assignement {
            assert_eq!(player.number_of_heroes_shown as usize, assignement.len());
            assert!(assignment_in(&assignement, &default_hero_pool().into_iter().collect()));
        }
    }
}

#[test]
fn hero_pool_generators_test_small_pool_random() {
    for _ in 0..N {
        let players = default_players(small_hero_pool());
        let mut random_assign = RandomHeroPool::default();
        let players_assignement = random_assign.assign_heroes(players);
        assert!(no_duplicates(&players_assignement));
        for (_, assignement) in players_assignement {
            assert_eq!(assignement.len(), 1);
        }
    }
}

#[test]
fn hero_pool_generators_test_randomness_random() {
    let mut all_assignements = Vec::new();
    let mut random_assign = RandomHeroPool::default();
    for _ in 0..N {
        let players = few_players(default_hero_pool());
        random_assign.clear();
        let players_assignement = random_assign.assign_heroes(players);
        all_assignements.push(sorted_lists(players_assignement));
    }
    let unique: HashSet<Vec<Vec<Hero>>> = all_assignements.into_iter().collect();
    assert!(unique.len() > 1);
}

#[test]
fn hero_pool_generators_test_base_tags() {
    let mut tag_assign = TaggedHeroPool::new();
    for _ in 0..N {
        let players = default_players(default_hero_pool());
        tag_assign.clear();
        let players_assignement = tag_assign.assign_heroes(players);
        assert!(no_duplicates(&players_assignement));
        for (player, assignement) in players_assignement.iter() {
            assert_eq!(player.number_of_heroes_shown as usize, assignement.len());
            assert!(assignment_in(assignement, &default_hero_pool().into_iter().collect()));
        }
    }
}

#[test]
fn hero_pool_generators_test_small_pool_tags() {
    let mut tag_assign = TaggedHeroPool::new();
    for _ in 0..N {
        let players = default_players(small_hero_pool());
        tag_assign.clear();
        let players_assignement = tag_assign.assign_heroes(players);
        assert!(no_duplicates(&players_assignement));
        for (_, assignement) in players_assignement {
            assert_eq!(assignement.len(), 1);
        }
    }
}

#[test]
fn hero_pool_generators_test_randomness_tags() {
    let mut all_assignements = Vec::new();
    let mut tag_assign = TaggedHeroPool::new();
    for _ in 0..N {
        let players = few_players(default_hero_pool());
        tag_assign.clear();
        let players_assignement = tag_assign.assign_heroes(players);
        all_assignements.push(sorted_lists(players_assignement));
    }
    let unique: HashSet<Vec<Vec<Hero>>> = all_assignements.into_iter().collect();
    assert!(unique.len() > 1);
}

#[test]
fn hero_pool_generators_test_tags_consistent() {
    let mut tag_assign = TaggedHeroPool::new();
    for _ in 0..N {
        let players = default_players(default_hero_pool());
        tag_assign.clear();
        let players_assignement = tag_assign.assign_heroes(players);
        for (_, assignement) in players_assignement.iter() {
            let tags: HashSet<HeroTag> = assignement.iter().map(|h| tag_assign.deduce_tag(h)).collect();
            assert_eq!(tags.len(), 1);
        }
    }
}

#[test]
fn hero_pool_generators_test_tags_correspondence() {
    let mut tag_assign = TaggedHeroPool::new();
    for _ in 0..N {
        let players = default_players(default_hero_pool());
        tag_assign.clear();
        let mut players_assignement = tag_assign.assign_heroes(players);
        players_assignement.sort_by_key(|(p, _)| p.elo);
        for pair in players_assignement.chunks(2) {
            let (p1, assignement1) = &pair[0];
            let (p2, assignement2) = &pair[1];
            assert_eq!(p1.elo, p2.elo);
            assert_ne!(p1.is_radiant, p2.is_radiant);
            assert_eq!(tag_assign.deduce_tag(&assignement1[0]), tag_assign.deduce_tag(&assignement2[0]));
        }
    }
}

#[test]
fn hero_pool_generators_test_reroll_random() {
    for _ in 0..N {
        let players = few_players(small_hero_pool());
        let mut random_assign = RandomHeroPool::default();
        let players_assignement = random_assign.assign_heroes(players.clone());
        let reroll = random_assign.reroll_user_heroes(&players[0].0.name, players[0].1.clone());
        assert!(no_overlaps_between(&heroes_of(&players_assignement, &players[0].0), &reroll));
    }
}

#[test]
fn hero_pool_generators_test_reroll_tags() {
    let mut tag_assign = TaggedHeroPool::new();
    for _ in 0..N {
        let players = few_players(default_hero_pool());
        tag_assign.clear();
        let players_assignement = tag_assign.assign_heroes(players.clone());
        let reroll = tag_assign.reroll_user_heroes(&players[0].0.name, players[0].1.clone());
        let before = heroes_of(&players_assignement, &players[0].0);
        assert!(no_overlaps_between(&before, &reroll));
        let tags: HashSet<HeroTag> = reroll.iter().map(|h| tag_assign.deduce_tag(h)).collect();
        assert_eq!(tags.len(), 1);
        assert_eq!(tag_assign.deduce_tag(&before[0]), tag_assign.deduce_tag(&reroll[0]));
    }
}

#[test]
fn reroll_of_unknown_player_gives_nothing() {
    let mut random_assign = RandomHeroPool::default();
    random_assign.assign_heroes(few_players(default_hero_pool()));
    let reroll = random_assign.reroll_user_heroes(&DiscordUsername::from("nobody"), default_hero_pool());
    assert!(reroll.is_empty());
}
