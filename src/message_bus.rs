use vstd::prelude::*;
use crate::ids::{DiscordUsername, GameId, PlayerId, Team, WinScale};
use crate::player::{Player, PlayerDb};
use crate::text::str_eq;

verus! {

/// One side of a starting match: its name and its players with their ratings.
#[derive(Debug)]
pub struct MatchStartTeam {
    pub players: Vec<(PlayerId, i32)>,
    pub name: String,
}

/// A match that starts.
#[derive(Debug)]
pub struct MatchStart {
    pub game: GameId,
    pub player_db: PlayerDb,
    pub left_team: MatchStartTeam,
    pub right_team: MatchStartTeam,
}

/// The outcome of a finished match, for the announcement.
#[derive(Debug)]
pub struct RichMatchResult {
    pub winner_team_name: String,
    /// Seconds.
    pub duration: u64,
    pub scale: WinScale,
}

/// Address of a chat avatar.
#[derive(Debug)]
pub struct AvatarUrl(pub String);

/// Hero suggestions for one player.
#[derive(Debug)]
pub struct RoleRecommendation {
    pub id: PlayerId,
    pub username: DiscordUsername,
    pub recommendation: Vec<String>,
}

/// What the chat service tells about a player.
#[derive(Debug)]
pub struct DiscordPlayerInfo {
    pub id: PlayerId,
    pub display_name: String,
    pub username: DiscordUsername,
    pub avatar_url: AvatarUrl,
}

/// Image formats of match screenshots.
#[derive(Debug, Clone, Copy, PartialEq, Eq, Structural)]
pub enum ImageFormat {
    Jpg,
    Bmp,
    Png,
}

/// The format named by a MIME type.
pub open spec fn format_of_mime(mime: Seq<char>) -> Option<ImageFormat> {
    if mime == "image/jpg"@ {
        Some(ImageFormat::Jpg)
    } else if mime == "image/png"@ {
        Some(ImageFormat::Png)
    } else if mime == "image/bmp"@ {
        Some(ImageFormat::Bmp)
    } else {
        None
    }
}

impl ImageFormat {
    pub fn from_mime_type(mime: &str) -> (r: Option<ImageFormat>)
        ensures
            r == format_of_mime(mime@),
    {
        if str_eq(mime, "image/jpg") {
            Some(ImageFormat::Jpg)
        } else if str_eq(mime, "image/png") {
            Some(ImageFormat::Png)
        } else if str_eq(mime, "image/bmp") {
            Some(ImageFormat::Bmp)
        } else {
            None
        }
    }

    /// The file extension of the format.
    pub fn to_str(&self) -> (r: &'static str)
        ensures
            *self == ImageFormat::Jpg ==> r@ == "jpg"@,
            *self == ImageFormat::Bmp ==> r@ == "bmp"@,
            *self == ImageFormat::Png ==> r@ == "png"@,
    {
        match self {
            ImageFormat::Jpg => "jpg",
            ImageFormat::Bmp => "bmp",
            ImageFormat::Png => "png",
        }
    }
}

/// How a match ended.
#[derive(Debug)]
pub enum FinishMatch {
    Cancelled,
    Finished { winner: Team, scale: WinScale, duration: u64, fake: bool },
}

/// Requests of the user interface.
#[derive(Debug)]
pub enum UiCommand {
    InitializeUi,
    AddNewPlayer(Player),
    RemovePlayer(PlayerId),
    MovePlayerToOtherTeam(PlayerId),
    RemovePlayerFromTeam(PlayerId),
    AddPlayerToTeam(PlayerId, Team),
    AddPlayerToLobby(PlayerId),
    RemovePlayerFromLobby(PlayerId),
    ChangeGame(GameId),
    FillLobby,
    ClearLobby,
    CallToLobby,
    CallPlayer(PlayerId),
    StartMatch,
    ShuffleTeams,
    RefreshElo,
    FinishMatch(FinishMatch),
    AddLobbyScreenshotData(Vec<String>),
    CloseApplication,
}

/// A player as the user interface lists them.
#[derive(Debug)]
pub struct UiPlayer {
    pub id: PlayerId,
    pub name: String,
    pub discord_username: Option<String>,
    pub elo: i32,
    pub present_in_lobby: bool,
    pub lose_streak: Option<i32>,
}

} // verus!
