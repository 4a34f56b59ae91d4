use vstd::prelude::*;
use crate::player::Player;
use crate::text::{contains_text, lower_of, lowercase, str_contains};

verus! {

/// A request to the audio call-out service.
#[derive(Debug)]
pub struct AutogrzybkeRequest {
    pub missing: String,
    pub skip_lobby: bool,
    pub skip_prefix: bool,
    pub skip_suffix: bool,
    pub skip_interlude: bool,
}

/// Settings of the audio call-out client.
#[derive(Debug)]
pub struct FosiaudioClient {
    pub host: String,
    pub timeout_ms: u64,
    pub enabled: bool,
}

impl FosiaudioClient {
    /// A client of `host`, enabled, with a timeout of one second.
    pub fn new(host: &str) -> (r: FosiaudioClient)
        ensures
            r.host@ == host@,
            r.timeout_ms == 1000,
            r.enabled,
    {
        FosiaudioClient { host: String::from_str(host), timeout_ms: 1000, enabled: true }
    }

    pub fn with_timeout(self, timeout_ms: u64) -> (r: FosiaudioClient)
        ensures
            r.host == self.host,
            r.timeout_ms == timeout_ms,
            r.enabled == self.enabled,
    {
        FosiaudioClient { host: self.host, timeout_ms, enabled: self.enabled }
    }

    pub fn with_enabled(self, enabled: bool) -> (r: FosiaudioClient)
        ensures
            r.host == self.host,
            r.timeout_ms == self.timeout_ms,
            r.enabled == enabled,
    {
        FosiaudioClient { host: self.host, timeout_ms: self.timeout_ms, enabled }
    }
}

/// The call-out names of `players`, one per line.
pub open spec fn call_list(names: Seq<Seq<char>>) -> Seq<char>
    decreases names.len(),
{
    if names.len() == 0 {
        Seq::empty()
    } else if names.len() == 1 {
        names[0]
    } else {
        call_list(names.drop_last()) + "\n"@ + names.last()
    }
}

pub open spec fn fosiaudio_names(players: Seq<Player>) -> Seq<Seq<char>> {
    players.map_values(|p: Player| match p.config.fosiaudio_name {
        Some(n) => n@,
        None => p.id@,
    })
}

/// The request that calls `players` to the lobby; `short` skips the lobby jingle.
pub fn call_request(players: &Vec<Player>, short: bool) -> (r: AutogrzybkeRequest)
    ensures
        r.missing@ == call_list(fosiaudio_names(players@)),
        r.skip_lobby == short,
        !r.skip_prefix && !r.skip_suffix && !r.skip_interlude,
{
    let ghost names = fosiaudio_names(players@);
    let mut missing = String::new();
    let mut i: usize = 0;
    while i < players.len()
        invariant
            i <= players@.len(),
            names == fosiaudio_names(players@),
            missing@ == call_list(names.subrange(0, i as int)),
        decreases players@.len() - i,
    {
        let name = players[i].get_fosiaudio_name();
        proof {
            assert(names.subrange(0, i + 1).drop_last() == names.subrange(0, i as int));
            assert(names.subrange(0, i + 1).last() == names[i as int]);
            assert(names.subrange(0, i + 1).len() == i + 1);
            assert(name@ == names[i as int]);
            if i == 0 {
                assert(names.subrange(0, 1)[0] == names[0]);
            }
        }
        if i == 0 {
            missing = String::from_str(name);
        } else {
            missing = missing.concat("\n").concat(name);
        }
        i = i + 1;
    }
    assert(names.subrange(0, i as int) == names);
    AutogrzybkeRequest { missing, skip_lobby: short, skip_prefix: false, skip_suffix: false, skip_interlude: false }
}

/// The winner theme for a team whose lowercased name is `lowered`.
pub open spec fn winner_theme(lowered: Seq<char>) -> Option<Seq<char>> {
    if contains_text(lowered, "biedronka"@) {
        Some("biedronka"@)
    } else if contains_text(lowered, "lidl"@) {
        Some("lidl"@)
    } else {
        None
    }
}

/// The request that announces the winner whose name, already lowercase, is `lowered`; none
/// when the name has no theme.
pub fn winner_request_lowercase(lowered: &str) -> (r: Option<AutogrzybkeRequest>)
    ensures
        r is None <==> winner_theme(lowered@) is None,
        r is Some ==> r->0.missing@ == winner_theme(lowered@)->0 && r->0.skip_lobby && r->0.skip_prefix
            && r->0.skip_suffix && r->0.skip_interlude,
{
    let theme = if str_contains(lowered, "biedronka") {
        "biedronka"
    } else if str_contains(lowered, "lidl") {
        "lidl"
    } else {
        return None;
    };
    Some(AutogrzybkeRequest {
        missing: String::from_str(theme),
        skip_lobby: true,
        skip_prefix: true,
        skip_suffix: true,
        skip_interlude: true,
    })
}

/// The request that announces the winner `winner_team_name`, compared without case.
pub fn winner_request(winner_team_name: &str) -> (r: Option<AutogrzybkeRequest>)
    ensures
        r is None <==> winner_theme(lower_of(winner_team_name@)) is None,
        r is Some ==> r->0.missing@ == winner_theme(lower_of(winner_team_name@))->0,
{
    let lowered = lowercase(winner_team_name);
    winner_request_lowercase(lowered.as_str())
}

} // verus!
