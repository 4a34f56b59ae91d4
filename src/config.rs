use vstd::prelude::*;
use crate::ids::{GameId, PlayerId, Team};

verus! {

/// Which hero assignment strategy a match uses.
#[derive(Debug, Clone, Copy, PartialEq, Eq, Structural)]
pub enum AssignAlgo {
    Random,
    Tags,
}

pub fn default_hero_assign_algo() -> (r: AssignAlgo)
    ensures
        r == AssignAlgo::Random,
{
    AssignAlgo::Random
}

/// A game with the names of its two sides.
#[derive(Debug)]
pub struct Game {
    pub name: GameId,
    pub left_team: String,
    pub right_team: String,
}

impl Game {
    /// A game whose sides are called "Left Team" and "Right Team".
    pub fn new(name: GameId) -> (r: Game)
        ensures
            r.name == name,
            r.left_team@ == "Left Team"@,
            r.right_team@ == "Right Team"@,
    {
        Game { name, left_team: String::from_str("Left Team"), right_team: String::from_str("Right Team") }
    }

    pub fn team_name(&self, t: Team) -> (r: &str)
        ensures
            t == Team::Left ==> r@ == self.left_team@,
            t == Team::Right ==> r@ == self.right_team@,
    {
        match t {
            Team::Left => self.left_team.as_str(),
            Team::Right => self.right_team.as_str(),
        }
    }
}

/// Settings of the application.
#[derive(Debug)]
pub struct Config {
    pub games: Vec<Game>,
    pub discord_bot_token: String,
    pub discord_server_name: String,
    pub discord_channel_name: String,
    /// Disables private messages and storing history.
    pub test_mode: bool,
    pub discord_test_channel_name: String,
    /// Players that get notifications even in test mode.
    pub discord_test_mode_players: Vec<PlayerId>,
    pub hero_assign_algo: AssignAlgo,
    pub history_git_mirror: String,
    pub dota_screenshot_dir: Option<String>,
    pub fosiaudio_host: String,
    pub fosiaudio_timeout_ms: u64,
    pub dota_ocr_engine_command: String,
    pub dota_ocr_engine_pwd: Option<String>,
    pub static_serving_dir: String,
    pub serving_addr: String,
}

impl Config {
    /// The first configured game; there must be one.
    pub fn default_game(&self) -> (r: &GameId)
        requires
            self.games@.len() > 0,
        ensures
            *r == self.games@[0].name,
    {
        &self.games[0].name
    }

    /// The chat channel in use: the test channel in test mode.
    pub fn effective_discord_channel_name(&self) -> (r: &str)
        ensures
            self.test_mode ==> r@ == self.discord_test_channel_name@,
            !self.test_mode ==> r@ == self.discord_channel_name@,
    {
        if self.test_mode {
            self.discord_test_channel_name.as_str()
        } else {
            self.discord_channel_name.as_str()
        }
    }
}

} // verus!
