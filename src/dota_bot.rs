use vstd::prelude::*;
use crate::hero_assignment_strategy::{
    all_distinct, contains_hero, drawn_from, has_served_slot, lemma_fresh_draw_from_pools, reroll_outcome, DotaTeam,
    HeroAssignmentStrategy, PlayerInfo, RerollError,
};
use crate::ids::{DiscordUsername, PlayerId};
use crate::player::PlayerDb;
use crate::heroes::{Hero, HeroNameError};
use crate::history::SECONDS_PER_DAY;
use crate::text::str_eq;

verus! {

broadcast use vstd::seq_lib::group_seq_properties, vstd::seq::Seq::lemma_filter_push;


/// Hero settings and draft history of one player.
#[derive(Debug)]
pub struct DotaBotState {
    /// Heroes that never show up in a draw.
    pub banned_heroes: Vec<Hero>,
    /// When not empty, draws use only these heroes.
    pub allowed_heroes: Vec<Hero>,
    /// Number of heroes drafted for the player per draw.
    pub num_heroes_shown: u32,
    /// Heroes offered in the last match.
    pub last_match_heroes: Vec<Hero>,
    /// Start of the last match, in seconds since the epoch.
    pub last_match_date: Option<i64>,
    /// The player accepts seeing a hero twice in a row.
    pub duplicate_heroes_opt_out: bool,
    /// Times of the recent rerolls, in seconds since the epoch.
    pub reroll_log: Vec<i64>,
    /// Most rerolls allowed within the window.
    pub reroll_limit_num: u32,
    /// Length of the reroll window, in minutes.
    pub reroll_limit_duration_minutes: u32,
}

pub fn default_num_heroes_shown() -> (r: u32)
    ensures
        r == 3,
{
    3
}

/// `pool` without the heroes of `excluded`, in pool order.
pub open spec fn without(pool: Seq<Hero>, excluded: Seq<Hero>) -> Seq<Hero> {
    pool.filter(|h: Hero| !excluded.contains(h))
}

/// The heroes a player may get before duplicates are considered: the allowed ones if any,
/// else every hero that is not banned.
pub open spec fn base_pool(s: DotaBotState, heroes: Seq<Hero>) -> Seq<Hero> {
    if s.allowed_heroes@.len() > 0 {
        s.allowed_heroes@
    } else {
        without(heroes, s.banned_heroes@)
    }
}

/// The last match was less than a day before `now` and the player wants no repeats.
pub open spec fn avoids_repeats(s: DotaBotState, now: int) -> bool {
    s.last_match_date is Some && now < s.last_match_date->0 + SECONDS_PER_DAY && !s.duplicate_heroes_opt_out
}

/// The heroes a player may get: the base pool, without the last match's heroes when the
/// player avoids repeats and enough heroes are left for a full draw.
pub open spec fn hero_pool(s: DotaBotState, heroes: Seq<Hero>, now: int) -> Seq<Hero> {
    let pool = base_pool(s, heroes);
    let fresh = without(pool, s.last_match_heroes@);
    if avoids_repeats(s, now) && fresh.len() >= s.num_heroes_shown {
        fresh
    } else {
        pool
    }
}

/// `a` and `b` differ at most in their reroll log.
pub open spec fn same_settings(a: DotaBotState, b: DotaBotState) -> bool {
    &&& a.banned_heroes@ == b.banned_heroes@
    &&& a.allowed_heroes@ == b.allowed_heroes@
    &&& a.num_heroes_shown == b.num_heroes_shown
    &&& a.last_match_heroes@ == b.last_match_heroes@
    &&& a.last_match_date == b.last_match_date
    &&& a.duplicate_heroes_opt_out == b.duplicate_heroes_opt_out
    &&& a.reroll_limit_num == b.reroll_limit_num
    &&& a.reroll_limit_duration_minutes == b.reroll_limit_duration_minutes
}

/// Reroll times kept at `now`: those after the start of the window.
pub open spec fn recent_rerolls(log: Seq<i64>, now: int, minutes: int) -> Seq<i64> {
    log.filter(|t: i64| t > now - minutes * 60)
}

/// `pool` without the heroes of `excluded`.
pub fn filter_out(pool: &Vec<Hero>, excluded: &Vec<Hero>) -> (r: Vec<Hero>)
    ensures
        r@ == without(pool@, excluded@),
{
    let mut out: Vec<Hero> = Vec::new();
    let mut i: usize = 0;
    while i < pool.len()
        invariant
            i <= pool@.len(),
            out@ == without(pool@.subrange(0, i as int), excluded@),
        decreases pool@.len() - i,
    {
        let h = pool[i];
        proof {
            assert(pool@.subrange(0, i + 1) == pool@.subrange(0, i as int).push(h));
        }
        if !contains_hero(excluded, h) {
            out.push(h);
        }
        i = i + 1;
    }
    assert(pool@.subrange(0, i as int) == pool@);
    out
}

fn copy_list(v: &Vec<Hero>) -> (r: Vec<Hero>)
    ensures
        r@ == v@,
{
    crate::hero_assignment_strategy::copy_heroes(v)
}

/// Removes every occurrence of `hero` from `v`.
fn remove_all(v: &mut Vec<Hero>, hero: Hero)
    ensures
        final(v)@ == old(v)@.filter(|h: Hero| h != hero),
{
    let mut out: Vec<Hero> = Vec::new();
    let mut i: usize = 0;
    while i < v.len()
        invariant
            i <= v@.len(),
            out@ == v@.subrange(0, i as int).filter(|h: Hero| h != hero),
        decreases v@.len() - i,
    {
        let h = v[i];
        proof {
            assert(v@.subrange(0, i + 1) == v@.subrange(0, i as int).push(h));
        }
        if h != hero {
            out.push(h);
        }
        i = i + 1;
    }
    assert(v@.subrange(0, i as int) == v@);
    *v = out;
}

impl DotaBotState {
    /// The default settings: three heroes per draw, no lists, no history.
    pub fn new() -> (r: DotaBotState)
        ensures
            r.banned_heroes@.len() == 0,
            r.allowed_heroes@.len() == 0,
            r.num_heroes_shown == 3,
            r.last_match_heroes@.len() == 0,
            r.last_match_date is None,
            !r.duplicate_heroes_opt_out,
            r.reroll_log@.len() == 0,
    {
        DotaBotState {
            banned_heroes: Vec::new(),
            allowed_heroes: Vec::new(),
            num_heroes_shown: default_num_heroes_shown(),
            last_match_heroes: Vec::new(),
            last_match_date: None,
            duplicate_heroes_opt_out: false,
            reroll_log: Vec::new(),
            reroll_limit_num: 3,
            reroll_limit_duration_minutes: 60,
        }
    }

    /// The heroes this player may get at time `now` out of `heroes`, the full table.
    pub fn user_hero_pool(&self, heroes: &Vec<Hero>, now: i64) -> (r: Vec<Hero>)
        ensures
            r@ == hero_pool(*self, heroes@, now as int),
    {
        let pool = if self.allowed_heroes.len() > 0 {
            copy_list(&self.allowed_heroes)
        } else {
            filter_out(heroes, &self.banned_heroes)
        };
        let recent = match self.last_match_date {
            Some(date) => (now as i128) < (date as i128) + (SECONDS_PER_DAY as i128),
            None => false,
        };
        if recent && !self.duplicate_heroes_opt_out {
            let fresh = filter_out(&pool, &self.last_match_heroes);
            if fresh.len() as u64 >= self.num_heroes_shown as u64 {
                return fresh;
            }
        }
        pool
    }

    /// Drops the reroll times older than the window before `now`.
    pub fn cleanup_reroll_log(&mut self, now: i64)
        ensures
            final(self).reroll_log@ == recent_rerolls(old(self).reroll_log@, now as int, old(self).reroll_limit_duration_minutes as int),
            same_settings(*old(self), *final(self)),
    {
        let horizon: i128 = now as i128 - (self.reroll_limit_duration_minutes as i128) * 60;
        let ghost minutes = self.reroll_limit_duration_minutes as int;
        let mut kept: Vec<i64> = Vec::new();
        let mut i: usize = 0;
        while i < self.reroll_log.len()
            invariant
                i <= self.reroll_log@.len(),
                horizon == now - minutes * 60,
                kept@ == recent_rerolls(self.reroll_log@.subrange(0, i as int), now as int, minutes),
            decreases self.reroll_log@.len() - i,
        {
            let t = self.reroll_log[i];
            proof {
                assert(self.reroll_log@.subrange(0, i + 1) == self.reroll_log@.subrange(0, i as int).push(t));
            }
            if t as i128 > horizon {
                kept.push(t);
            }
            i = i + 1;
        }
        assert(self.reroll_log@.subrange(0, i as int) == self.reroll_log@);
        self.reroll_log = kept;
    }

    /// Records a reroll at `now` unless the player already rerolled as often as the limit
    /// allows within the window; tells whether the reroll may go ahead.
    pub fn register_reroll(&mut self, now: i64) -> (r: bool)
        ensures
            r == (recent_rerolls(old(self).reroll_log@, now as int, old(self).reroll_limit_duration_minutes as int).len()
                < old(self).reroll_limit_num),
            r ==> final(self).reroll_log@ == recent_rerolls(old(self).reroll_log@, now as int, old(self).reroll_limit_duration_minutes as int).push(now),
            !r ==> final(self).reroll_log@ == recent_rerolls(old(self).reroll_log@, now as int, old(self).reroll_limit_duration_minutes as int),
            same_settings(*old(self), *final(self)),
    {
        self.cleanup_reroll_log(now);
        if self.reroll_log.len() as u64 >= self.reroll_limit_num as u64 {
            return false;
        }
        self.reroll_log.push(now);
        true
    }

    pub fn ban_hero(&mut self, hero: Hero)
        ensures
            final(self).banned_heroes@.contains(hero),
            forall|h: Hero| old(self).banned_heroes@.contains(h) ==> final(self).banned_heroes@.contains(h),
            forall|h: Hero| final(self).banned_heroes@.contains(h) ==> h == hero || old(self).banned_heroes@.contains(h),
    {
        if !contains_hero(&self.banned_heroes, hero) {
            self.banned_heroes.push(hero);
        }
        proof {
            assert forall|h: Hero| final(self).banned_heroes@.contains(h) implies h == hero || old(self).banned_heroes@.contains(h) by {
                let i = choose|i: int| 0 <= i < self.banned_heroes@.len() && self.banned_heroes@[i] == h;
                if i < old(self).banned_heroes@.len() {
                    assert(old(self).banned_heroes@[i] == h);
                }
            }
            assert forall|h: Hero| old(self).banned_heroes@.contains(h) implies final(self).banned_heroes@.contains(h) by {
                let i = choose|i: int| 0 <= i < old(self).banned_heroes@.len() && old(self).banned_heroes@[i] == h;
                assert(self.banned_heroes@[i] == h);
            }
        }
    }

    pub fn unban_hero(&mut self, hero: Hero)
        ensures
            final(self).banned_heroes@ == old(self).banned_heroes@.filter(|h: Hero| h != hero),
    {
        remove_all(&mut self.banned_heroes, hero);
    }

    pub fn allow_hero(&mut self, hero: Hero)
        ensures
            final(self).allowed_heroes@.contains(hero),
            forall|h: Hero| old(self).allowed_heroes@.contains(h) ==> final(self).allowed_heroes@.contains(h),
            forall|h: Hero| final(self).allowed_heroes@.contains(h) ==> h == hero || old(self).allowed_heroes@.contains(h),
    {
        if !contains_hero(&self.allowed_heroes, hero) {
            self.allowed_heroes.push(hero);
        }
        proof {
            assert forall|h: Hero| final(self).allowed_heroes@.contains(h) implies h == hero || old(self).allowed_heroes@.contains(h) by {
                let i = choose|i: int| 0 <= i < self.allowed_heroes@.len() && self.allowed_heroes@[i] == h;
                if i < old(self).allowed_heroes@.len() {
                    assert(old(self).allowed_heroes@[i] == h);
                }
            }
            assert forall|h: Hero| old(self).allowed_heroes@.contains(h) implies final(self).allowed_heroes@.contains(h) by {
                let i = choose|i: int| 0 <= i < old(self).allowed_heroes@.len() && old(self).allowed_heroes@[i] == h;
                assert(self.allowed_heroes@[i] == h);
            }
        }
    }

    pub fn unallow_hero(&mut self, hero: Hero)
        ensures
            final(self).allowed_heroes@ == old(self).allowed_heroes@.filter(|h: Hero| h != hero),
    {
        remove_all(&mut self.allowed_heroes, hero);
    }

    pub fn clear_allowlist(&mut self)
        ensures
            final(self).allowed_heroes@.len() == 0,
            final(self).banned_heroes@ == old(self).banned_heroes@,
    {
        self.allowed_heroes = Vec::new();
    }

    pub fn clear_banlist(&mut self)
        ensures
            final(self).banned_heroes@.len() == 0,
            final(self).allowed_heroes@ == old(self).allowed_heroes@,
    {
        self.banned_heroes = Vec::new();
    }
}

/// Commands of the hero bot.
#[derive(Debug)]
pub enum DotaCommand {
    EnableRandom,
    Banned,
    Allowed,
    Hero,
    All,
    Ban(Hero),
    Unban(Hero),
    Allow(Hero),
    Unallow(Hero),
}

/// `args` joined with single spaces.
pub open spec fn joined(args: Seq<Seq<char>>) -> Seq<char>
    decreases args.len(),
{
    if args.len() == 0 {
        Seq::empty()
    } else if args.len() == 1 {
        args[0]
    } else {
        joined(args.drop_last()) + " "@ + args.last()
    }
}

pub open spec fn views(args: Seq<&str>) -> Seq<Seq<char>> {
    args.map_values(|a: &str| a@)
}

/// The words of `args` joined with spaces.
pub fn join_args(args: &Vec<&str>) -> (r: String)
    ensures
        r@ == joined(views(args@)),
{
    let ghost v = views(args@);
    let mut out = String::new();
    let mut i: usize = 0;
    while i < args.len()
        invariant
            i <= args@.len(),
            v == views(args@),
            out@ == joined(v.subrange(0, i as int)),
        decreases args@.len() - i,
    {
        proof {
            assert(v.subrange(0, i + 1).drop_last() == v.subrange(0, i as int));
            assert(v.subrange(0, i + 1).last() == v[i as int]);
            assert(v.subrange(0, i + 1).len() == i + 1);
            if i == 0 {
                assert(v.subrange(0, 1)[0] == v[0]);
            }
        }
        if i == 0 {
            out = String::from_str(args[i]);
        } else {
            out = out.concat(" ").concat(args[i]);
        }
        i = i + 1;
    }
    assert(v.subrange(0, i as int) == v);
    out
}

impl Hero {
    /// The hero named by the words of `args` joined with spaces.
    pub fn try_from_args(args: &Vec<&str>) -> (r: Result<Hero, HeroNameError>)
        ensures
            r is Ok ==> r->Ok_0.name() == joined(views(args@)) && 0 <= r->Ok_0.id() < crate::heroes::HERO_COUNT,
            r is Err ==> forall|i: int| 0 <= i < crate::heroes::HERO_COUNT ==> crate::heroes::hero_name(i) != joined(views(args@)),
            r is Err ==> r->Err_0@ == joined(views(args@)),
    {
        let name = join_args(args);
        Hero::from_name(name.as_str())
    }
}

/// Position of `command` among the bot keywords: enable-random, banned, allowed, hero, all,
/// ban, unban, allow, unallow; 9 for any other text.
pub open spec fn keyword(command: Seq<char>) -> int {
    if command == "enable-random"@ {
        0
    } else if command == "banned"@ {
        1
    } else if command == "allowed"@ {
        2
    } else if command == "hero"@ {
        3
    } else if command == "all"@ {
        4
    } else if command == "ban"@ {
        5
    } else if command == "unban"@ {
        6
    } else if command == "allow"@ {
        7
    } else if command == "unallow"@ {
        8
    } else {
        9
    }
}

impl DotaCommand {
    /// Reads a bot command; none for an unknown keyword, an error for a hero name that is
    /// not in the table.
    pub fn try_from_cmd_and_args(command: &str, args: &Vec<&str>) -> (r: Result<Option<DotaCommand>, HeroNameError>)
        ensures
            keyword(command@) == 0 ==> r == Ok::<Option<DotaCommand>, HeroNameError>(Some(DotaCommand::EnableRandom)),
            keyword(command@) == 1 ==> r == Ok::<Option<DotaCommand>, HeroNameError>(Some(DotaCommand::Banned)),
            keyword(command@) == 2 ==> r == Ok::<Option<DotaCommand>, HeroNameError>(Some(DotaCommand::Allowed)),
            keyword(command@) == 3 ==> r == Ok::<Option<DotaCommand>, HeroNameError>(Some(DotaCommand::Hero)),
            keyword(command@) == 4 ==> r == Ok::<Option<DotaCommand>, HeroNameError>(Some(DotaCommand::All)),
            5 <= keyword(command@) <= 8 ==> (r is Ok <==> exists|i: int| 0 <= i < crate::heroes::HERO_COUNT && crate::heroes::hero_name(i) == joined(views(args@))),
            keyword(command@) == 5 && r is Ok ==> (r->Ok_0 matches Some(DotaCommand::Ban(h)) && h.name() == joined(views(args@))),
            keyword(command@) == 6 && r is Ok ==> (r->Ok_0 matches Some(DotaCommand::Unban(h)) && h.name() == joined(views(args@))),
            keyword(command@) == 7 && r is Ok ==> (r->Ok_0 matches Some(DotaCommand::Allow(h)) && h.name() == joined(views(args@))),
            keyword(command@) == 8 && r is Ok ==> (r->Ok_0 matches Some(DotaCommand::Unallow(h)) && h.name() == joined(views(args@))),
            keyword(command@) == 9 ==> r == Ok::<Option<DotaCommand>, HeroNameError>(None),
    {
        if str_eq(command, "enable-random") {
            Ok(Some(DotaCommand::EnableRandom))
        } else if str_eq(command, "banned") {
            Ok(Some(DotaCommand::Banned))
        } else if str_eq(command, "allowed") {
            Ok(Some(DotaCommand::Allowed))
        } else if str_eq(command, "hero") {
            Ok(Some(DotaCommand::Hero))
        } else if str_eq(command, "all") {
            Ok(Some(DotaCommand::All))
        } else if str_eq(command, "ban") {
            match Hero::try_from_args(args) {
                Ok(h) => Ok(Some(DotaCommand::Ban(h))),
                Err(e) => Err(e),
            }
        } else if str_eq(command, "unban") {
            match Hero::try_from_args(args) {
                Ok(h) => Ok(Some(DotaCommand::Unban(h))),
                Err(e) => Err(e),
            }
        } else if str_eq(command, "allow") {
            match Hero::try_from_args(args) {
                Ok(h) => Ok(Some(DotaCommand::Allow(h))),
                Err(e) => Err(e),
            }
        } else if str_eq(command, "unallow") {
            match Hero::try_from_args(args) {
                Ok(h) => Ok(Some(DotaCommand::Unallow(h))),
                Err(e) => Err(e),
            }
        } else {
            Ok(None)
        }
    }
}

/// A reroll request of the player called `username`: refused with an empty list once the
/// player has used up the rerolls of the window, else a fresh draw by `strategy` from the
/// player's pool at `now`.
pub fn reroll_with_limit<S: HeroAssignmentStrategy>(
    state: &mut DotaBotState,
    strategy: &mut S,
    username: &DiscordUsername,
    heroes: &Vec<Hero>,
    now: i64,
) -> (r: Result<Vec<Hero>, RerollError>)
    requires
        old(strategy).ready(),
    ensures
        final(strategy).ready(),
        same_settings(*old(state), *final(state)),
        recent_rerolls(old(state).reroll_log@, now as int, old(state).reroll_limit_duration_minutes as int).len()
            >= old(state).reroll_limit_num ==> r is Ok && r->Ok_0@.len() == 0 && *final(strategy) == *old(strategy)
            && final(state).reroll_log@ == recent_rerolls(old(state).reroll_log@, now as int, old(state).reroll_limit_duration_minutes as int),
        recent_rerolls(old(state).reroll_log@, now as int, old(state).reroll_limit_duration_minutes as int).len()
            < old(state).reroll_limit_num ==> final(state).reroll_log@ == recent_rerolls(
            old(state).reroll_log@,
            now as int,
            old(state).reroll_limit_duration_minutes as int,
        ).push(now) && reroll_outcome(
            old(strategy).draft(),
            final(strategy).draft(),
            username@,
            hero_pool(*old(state), heroes@, now as int),
            r,
        ),
{
    if !state.register_reroll(now) {
        return Ok(Vec::new());
    }
    let pool = state.user_hero_pool(heroes, now);
    strategy.reroll(username, pool)
}

/// The settings of the player called `name`: their first entry, else the defaults.
pub fn user_state<'a>(states: &'a Vec<(DiscordUsername, DotaBotState)>, name: &DiscordUsername) -> (r: Option<&'a DotaBotState>)
    ensures
        r is Some ==> exists|i: int| 0 <= i < states@.len() && states@[i].0@ == name@ && #[trigger] states@[i].1 == *r->0,
        r is None ==> forall|i: int| 0 <= i < states@.len() ==> (#[trigger] states@[i]).0@ != name@,
{
    let mut i: usize = 0;
    while i < states.len()
        invariant
            i <= states@.len(),
            forall|j: int| 0 <= j < i ==> (#[trigger] states@[j]).0@ != name@,
        decreases states@.len() - i,
    {
        if states[i].0.same(name) {
            return Some(&states[i].1);
        }
        i = i + 1;
    }
    None
}

/// The chat handle of the player `id`: their configured one, else the id itself.
pub open spec fn username_view(players: PlayerDb, id: Seq<char>) -> Seq<char> {
    if players.has(id) {
        let i = choose|i: int| 0 <= i < players.entries().len() && (#[trigger] players.entries()[i]).id@ == id;
        match players.entries()[i].config.discord_username {
            Some(u) => u@,
            None => id,
        }
    } else {
        id
    }
}

/// The chat handle of the player `id`: their configured one, else the id itself.
pub fn username_of(players: &PlayerDb, id: &PlayerId) -> (r: DiscordUsername)
    requires
        players.wf(),
    ensures
        r@ == username_view(*players, id@),
{
    proof {
        if players.has(id@) {
            let i = choose|i: int| 0 <= i < players.entries().len() && (#[trigger] players.entries()[i]).id@ == id@;
        }
    }
    match players.get(id) {
        Some(p) => match p.discord_username() {
            Some(u) => u.duplicate(),
            None => DiscordUsername::new(id.as_str()),
        },
        None => DiscordUsername::new(id.as_str()),
    }
}

/// The draft entries of a match: the left team plays Radiant, the right team Dire; each player
/// comes with their number of heroes and their hero pool at `now`. Players without settings
/// get the default ones.
pub fn make_hero_pools(
    left: &Vec<(PlayerId, i32)>,
    right: &Vec<(PlayerId, i32)>,
    players: &PlayerDb,
    states: &Vec<(DiscordUsername, DotaBotState)>,
    heroes: &Vec<Hero>,
    now: i64,
) -> (r: Vec<(PlayerInfo, Vec<Hero>)>)
    requires
        players.wf(),
    ensures
        r@.len() == left@.len() + right@.len(),
        forall|i: int| 0 <= i < left@.len() ==> (#[trigger] r@[i]).0.name@ == username_view(*players, left@[i].0@),
        forall|i: int|
            left@.len() <= i < r@.len() ==> (#[trigger] r@[i]).0.name@ == username_view(*players, right@[i - left@.len()].0@),
        forall|i: int| 0 <= i < left@.len() ==> (#[trigger] r@[i]).0.dota_team == DotaTeam::Radiant && r@[i].0.elo == left@[i].1,
        forall|i: int|
            left@.len() <= i < r@.len() ==> (#[trigger] r@[i]).0.dota_team == DotaTeam::Dire && r@[i].0.elo == right@[i
                - left@.len()].1,
        forall|i: int|
            0 <= i < r@.len() ==> drafted_with(#[trigger] r@[i], states@, heroes@, now as int),
{
    let mut out: Vec<(PlayerInfo, Vec<Hero>)> = Vec::new();
    let mut i: usize = 0;
    while i < left.len()
        invariant
            i <= left@.len(),
            out@.len() == i,
            forall|j: int| 0 <= j < i ==> (#[trigger] out@[j]).0.dota_team == DotaTeam::Radiant && out@[j].0.elo == left@[j].1,
            forall|j: int| 0 <= j < i ==> (#[trigger] out@[j]).0.name@ == username_view(*players, left@[j].0@),
            forall|j: int| 0 <= j < out@.len() ==> drafted_with(#[trigger] out@[j], states@, heroes@, now as int),
            players.wf(),
        decreases left@.len() - i,
    {
        out.push(draft_entry(&left[i].0, left[i].1, DotaTeam::Radiant, players, states, heroes, now));
        i = i + 1;
    }
    let mut i: usize = 0;
    while i < right.len()
        invariant
            i <= right@.len(),
            out@.len() == left@.len() + i,
            forall|j: int| 0 <= j < left@.len() ==> (#[trigger] out@[j]).0.dota_team == DotaTeam::Radiant && out@[j].0.elo == left@[j].1,
            forall|j: int|
                left@.len() <= j < out@.len() ==> (#[trigger] out@[j]).0.dota_team == DotaTeam::Dire && out@[j].0.elo
                    == right@[j - left@.len()].1,
            forall|j: int| 0 <= j < left@.len() ==> (#[trigger] out@[j]).0.name@ == username_view(*players, left@[j].0@),
            forall|j: int|
                left@.len() <= j < out@.len() ==> (#[trigger] out@[j]).0.name@ == username_view(*players, right@[j - left@.len()].0@),
            players.wf(),
            forall|j: int| 0 <= j < out@.len() ==> drafted_with(#[trigger] out@[j], states@, heroes@, now as int),
        decreases right@.len() - i,
    {
        out.push(draft_entry(&right[i].0, right[i].1, DotaTeam::Dire, players, states, heroes, now));
        i = i + 1;
    }
    out
}

/// `e` is drafted with the settings that `states` holds for its player, or with the defaults
/// when there are none.
pub open spec fn drafted_with(
    e: (PlayerInfo, Vec<Hero>),
    states: Seq<(DiscordUsername, DotaBotState)>,
    heroes: Seq<Hero>,
    now: int,
) -> bool {
    ||| exists|k: int|
        0 <= k < states.len() && states[k].0@ == e.0.name@ && e.0.number_of_heroes_shown == (#[trigger] states[k].1).num_heroes_shown
            && e.1@ == hero_pool(states[k].1, heroes, now)
    ||| (forall|k: int| 0 <= k < states.len() ==> (#[trigger] states[k]).0@ != e.0.name@) && e.0.number_of_heroes_shown == 3
        && e.1@ == heroes
}

fn draft_entry(
    id: &PlayerId,
    elo: i32,
    dota_team: DotaTeam,
    players: &PlayerDb,
    states: &Vec<(DiscordUsername, DotaBotState)>,
    heroes: &Vec<Hero>,
    now: i64,
) -> (r: (PlayerInfo, Vec<Hero>))
    requires
        players.wf(),
    ensures
        r.0.dota_team == dota_team,
        r.0.elo == elo,
        r.0.name@ == username_view(*players, id@),
        drafted_with(r, states@, heroes@, now as int),
{
    let name = username_of(players, id);
    match user_state(states, &name) {
        Some(state) => {
            let pool = state.user_hero_pool(heroes, now);
            let shown = state.num_heroes_shown;
            (PlayerInfo { name, elo, dota_team, number_of_heroes_shown: shown }, pool)
        },
        None => {
            let state = DotaBotState::new();
            let pool = state.user_hero_pool(heroes, now);
            proof {
                lemma_without_nothing(heroes@, state.banned_heroes@);
            }
            (PlayerInfo { name, elo, dota_team, number_of_heroes_shown: 3 }, pool)
        },
    }
}

proof fn lemma_without_nothing(s: Seq<Hero>, excluded: Seq<Hero>)
    requires
        excluded.len() == 0,
    ensures
        without(s, excluded) == s,
    decreases s.len(),
{
    if s.len() > 0 {
        lemma_without_nothing(s.drop_last(), excluded);
        assert(s.drop_last().push(s.last()) == s);
        assert(!excluded.contains(s.last()));
    } else {
        assert(s.filter(|h: Hero| !excluded.contains(h)) =~= s) by {
            reveal(Seq::filter);
        }
    }
}

/// Starts the draft of a match: clears `strategy` and draws for every entry of `hero_pools`;
/// each player's name with their heroes.
pub fn on_match_start<S: HeroAssignmentStrategy>(
    strategy: &mut S,
    hero_pools: Vec<(PlayerInfo, Vec<Hero>)>,
) -> (r: Vec<(DiscordUsername, Vec<Hero>)>)
    ensures
        final(strategy).ready(),
        r@.len() == final(strategy).draft().members().len(),
        forall|i: int|
            0 <= i < r@.len() ==> (#[trigger] r@[i]).0@ == final(strategy).draft().members()[i].name@ && r@[i].1@
                == final(strategy).draft().lists()[i],
        all_distinct(final(strategy).draft().lists()),
        forall|s: int, a: int|
            0 <= s < final(strategy).draft().lists().len() && 0 <= a < final(strategy).draft().lists()[s].len()
                ==> drawn_from(hero_pools@, final(strategy).draft().members()[s], #[trigger] final(strategy).draft().lists()[s][a]),
        forall|k: int|
            0 <= k < hero_pools@.len() ==> has_served_slot(final(strategy).draft(), #[trigger] hero_pools@[k].0, hero_pools@[k].1@),
{
    strategy.clear();
    let ghost fresh = strategy.draft();
    let ghost pools = hero_pools@;
    let assigned = strategy.assign_heroes(hero_pools);
    proof {
        lemma_fresh_draw_from_pools(fresh, strategy.draft(), pools);
    }
    let mut out: Vec<(DiscordUsername, Vec<Hero>)> = Vec::new();
    let mut i: usize = 0;
    while i < assigned.len()
        invariant
            i <= assigned@.len(),
            out@.len() == i,
            forall|j: int| 0 <= j < i ==> (#[trigger] out@[j]).0@ == assigned@[j].0.name@ && out@[j].1@ == assigned@[j].1@,
        decreases assigned@.len() - i,
    {
        out.push((assigned[i].0.name.duplicate(), crate::hero_assignment_strategy::copy_heroes(&assigned[i].1)));
        i = i + 1;
    }
    proof {
        assert forall|j: int| 0 <= j < out@.len() implies (#[trigger] out@[j]).0@ == strategy.draft().members()[j].name@ && out@[j].1@
            == strategy.draft().lists()[j] by {
            assert(crate::hero_assignment_strategy::lists_of(assigned@)[j] == assigned@[j].1@);
        }
    }
    out
}

} // verus!
