use vstd::prelude::*;
use crate::text::{lower_of, lowercase, str_eq};

verus! {

/// Identifier of a player, compared by its text.
#[derive(Debug, Clone, Hash, Eq, PartialOrd, Ord, Default)]
pub struct PlayerId(String);

impl View for PlayerId {
    type V = Seq<char>;

    closed spec fn view(&self) -> Seq<char> {
        self.0@
    }
}

impl PlayerId {
    pub fn new(s: &str) -> (r: PlayerId)
        ensures
            r@ == s@,
    {
        PlayerId(String::from_str(s))
    }

    pub fn as_str(&self) -> (r: &str)
        ensures
            r@ == self@,
    {
        self.0.as_str()
    }

    /// A copy with the same text.
    pub fn duplicate(&self) -> (r: PlayerId)
        ensures
            r@ == self@,
    {
        PlayerId(self.0.clone())
    }

    pub fn same(&self, other: &PlayerId) -> (r: bool)
        ensures
            r == (self@ == other@),
    {
        self.0 == other.0
    }
}

impl PartialEq for PlayerId {
    fn eq(&self, other: &PlayerId) -> (r: bool) {
        self.0 == other.0
    }
}

impl vstd::std_specs::cmp::PartialEqSpecImpl for PlayerId {
    open spec fn obeys_eq_spec() -> bool {
        true
    }

    open spec fn eq_spec(&self, other: &PlayerId) -> bool {
        self@ == other@
    }
}

impl From<&str> for PlayerId {
    fn from(value: &str) -> PlayerId {
        PlayerId::new(value)
    }
}

impl vstd::std_specs::convert::FromSpecImpl<&str> for PlayerId {
    open spec fn obeys_from_spec() -> bool {
        false
    }

    open spec fn from_spec(v: &str) -> PlayerId {
        arbitrary()
    }
}


/// Identifier of a game, compared by its text.
#[derive(Debug, Clone, Hash, Eq, PartialOrd, Ord)]
pub struct GameId(String);

impl View for GameId {
    type V = Seq<char>;

    closed spec fn view(&self) -> Seq<char> {
        self.0@
    }
}

impl GameId {
    pub fn new(s: &str) -> (r: GameId)
        ensures
            r@ == s@,
    {
        GameId(String::from_str(s))
    }

    pub fn as_str(&self) -> (r: &str)
        ensures
            r@ == self@,
    {
        self.0.as_str()
    }

    /// A copy with the same text.
    pub fn duplicate(&self) -> (r: GameId)
        ensures
            r@ == self@,
    {
        GameId(self.0.clone())
    }

    pub fn same(&self, other: &GameId) -> (r: bool)
        ensures
            r == (self@ == other@),
    {
        self.0 == other.0
    }
}

impl PartialEq for GameId {
    fn eq(&self, other: &GameId) -> (r: bool) {
        self.0 == other.0
    }
}

impl vstd::std_specs::cmp::PartialEqSpecImpl for GameId {
    open spec fn obeys_eq_spec() -> bool {
        true
    }

    open spec fn eq_spec(&self, other: &GameId) -> bool {
        self@ == other@
    }
}

impl From<&str> for GameId {
    fn from(value: &str) -> GameId {
        GameId::new(value)
    }
}

impl vstd::std_specs::convert::FromSpecImpl<&str> for GameId {
    open spec fn obeys_from_spec() -> bool {
        false
    }

    open spec fn from_spec(v: &str) -> GameId {
        arbitrary()
    }
}


/// Chat handle of a player, compared by its text.
#[derive(Debug, Clone, Hash, Eq, PartialOrd, Ord)]
pub struct DiscordUsername(String);

impl View for DiscordUsername {
    type V = Seq<char>;

    closed spec fn view(&self) -> Seq<char> {
        self.0@
    }
}

impl DiscordUsername {
    pub fn new(s: &str) -> (r: DiscordUsername)
        ensures
            r@ == s@,
    {
        DiscordUsername(String::from_str(s))
    }

    pub fn as_str(&self) -> (r: &str)
        ensures
            r@ == self@,
    {
        self.0.as_str()
    }

    /// A copy with the same text.
    pub fn duplicate(&self) -> (r: DiscordUsername)
        ensures
            r@ == self@,
    {
        DiscordUsername(self.0.clone())
    }

    pub fn same(&self, other: &DiscordUsername) -> (r: bool)
        ensures
            r == (self@ == other@),
    {
        self.0 == other.0
    }
}

impl PartialEq for DiscordUsername {
    fn eq(&self, other: &DiscordUsername) -> (r: bool) {
        self.0 == other.0
    }
}

impl vstd::std_specs::cmp::PartialEqSpecImpl for DiscordUsername {
    open spec fn obeys_eq_spec() -> bool {
        true
    }

    open spec fn eq_spec(&self, other: &DiscordUsername) -> bool {
        self@ == other@
    }
}

impl From<&str> for DiscordUsername {
    fn from(value: &str) -> DiscordUsername {
        DiscordUsername::new(value)
    }
}

impl vstd::std_specs::convert::FromSpecImpl<&str> for DiscordUsername {
    open spec fn obeys_from_spec() -> bool {
        false
    }

    open spec fn from_spec(v: &str) -> DiscordUsername {
        arbitrary()
    }
}


/// State of the current game session.
#[derive(Clone, Copy, Debug, Default, PartialEq, Eq, Structural)]
pub enum GameState {
    #[default]
    AssemblingTeams,
    MatchInProgress,
}

/// One of the two sides of a match.
#[derive(Clone, Copy, Debug, PartialEq, Eq, Structural)]
pub enum Team {
    Left,
    Right,
}

/// The side named by an already lowercased text.
pub open spec fn team_of(lowered: Seq<char>) -> Option<Team> {
    if lowered == "left"@ {
        Some(Team::Left)
    } else if lowered == "right"@ {
        Some(Team::Right)
    } else {
        None
    }
}

impl Team {
    /// Reads a side from its name, ignoring case.
    pub fn from_str(value: &str) -> (r: Option<Team>)
        ensures
            r == team_of(lower_of(value@)),
    {
        let lowered = lowercase(value);
        Team::from_lowercase(lowered.as_str())
    }

    /// Reads a side from a name that is already lowercase.
    pub fn from_lowercase(lowered: &str) -> (r: Option<Team>)
        ensures
            r == team_of(lowered@),
    {
        if str_eq(lowered, "left") {
            Some(Team::Left)
        } else if str_eq(lowered, "right") {
            Some(Team::Right)
        } else {
            None
        }
    }

    pub fn name(&self) -> (r: &'static str)
        ensures
            *self == Team::Left ==> r@ == "Left Team"@,
            *self == Team::Right ==> r@ == "Right Team"@,
    {
        match self {
            Team::Left => "Left Team",
            Team::Right => "Right Team",
        }
    }
}

/// How decisive the result of a match was.
#[derive(Clone, Copy, Debug, Default, PartialEq, Eq, Structural)]
pub enum WinScale {
    #[default]
    Even,
    Advantage,
    Pwnage,
}

/// Error for a text that names no value of the expected kind.
#[derive(Debug, Clone)]
pub struct FromStrError(String);

impl View for FromStrError {
    type V = Seq<char>;

    closed spec fn view(&self) -> Seq<char> {
        self.0@
    }
}

impl FromStrError {
    pub fn new(value: &str) -> (r: FromStrError)
        ensures
            r@ == value@,
    {
        FromStrError(String::from_str(value))
    }

    /// The text that was refused.
    pub fn value(&self) -> (r: &str)
        ensures
            r@ == self@,
    {
        self.0.as_str()
    }

    /// The message shown for this error.
    pub fn to_string(&self) -> (r: String)
        ensures
            r@ == "Invalid value: "@ + self@,
    {
        String::from_str("Invalid value: ").concat(self.0.as_str())
    }
}

/// The scale named by a text, if any.
pub open spec fn win_scale_of(s: Seq<char>) -> Option<WinScale> {
    if s == "even"@ {
        Some(WinScale::Even)
    } else if s == "advantage"@ {
        Some(WinScale::Advantage)
    } else if s == "pwnage"@ {
        Some(WinScale::Pwnage)
    } else {
        None
    }
}

impl WinScale {
    /// Reads a scale from its lowercase name.
    pub fn parse(value: &str) -> (r: Result<WinScale, FromStrError>)
        ensures
            win_scale_of(value@) is Some ==> r == Ok::<WinScale, FromStrError>(win_scale_of(value@)->0),
            win_scale_of(value@) is None ==> (r is Err && r->Err_0@ == value@),
    {
        if str_eq(value, "even") {
            Ok(WinScale::Even)
        } else if str_eq(value, "advantage") {
            Ok(WinScale::Advantage)
        } else if str_eq(value, "pwnage") {
            Ok(WinScale::Pwnage)
        } else {
            Err(FromStrError::new(value))
        }
    }

    pub fn name(&self) -> (r: &'static str)
        ensures
            *self == WinScale::Even ==> r@ == "Even"@,
            *self == WinScale::Advantage ==> r@ == "Advantage"@,
            *self == WinScale::Pwnage ==> r@ == "Pwnage"@,
    {
        match self {
            WinScale::Even => "Even",
            WinScale::Advantage => "Advantage",
            WinScale::Pwnage => "Pwnage",
        }
    }
}

impl TryFrom<&str> for WinScale {
    type Error = FromStrError;

    fn try_from(value: &str) -> Result<WinScale, FromStrError> {
        WinScale::parse(value)
    }
}

impl vstd::std_specs::convert::TryFromSpecImpl<&str> for WinScale {
    open spec fn obeys_try_from_spec() -> bool {
        false
    }

    open spec fn try_from_spec(v: &str) -> Result<WinScale, FromStrError> {
        arbitrary()
    }
}

impl TryFrom<String> for WinScale {
    type Error = FromStrError;

    fn try_from(value: String) -> Result<WinScale, FromStrError> {
        WinScale::parse(value.as_str())
    }
}

impl vstd::std_specs::convert::TryFromSpecImpl<String> for WinScale {
    open spec fn obeys_try_from_spec() -> bool {
        false
    }

    open spec fn try_from_spec(v: String) -> Result<WinScale, FromStrError> {
        arbitrary()
    }
}

} // verus!
