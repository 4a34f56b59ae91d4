use vstd::prelude::*;
use crate::hero_assignment_strategy::random_hero_pool::RandomHeroPool as RandomStrategy;
use crate::hero_assignment_strategy::tagged_hero_pool::TaggedHeroPool as TaggedStrategy;
use crate::hero_assignment_strategy::{
    all_distinct, copy_heroes, grows_from, has_served_slot, kept_or_drawn, lists_of, rerolled, Assignment, DotaTeam,
    PlayerInfo as DraftPlayer,
};
use crate::heroes::{Hero, HeroTag};
use crate::ids::DiscordUsername;

verus! {

/// A draft participant whose side is told by a flag.
#[derive(Debug, Clone, Eq, Hash, PartialOrd, Ord)]
pub struct PlayerInfo {
    pub name: DiscordUsername,
    pub elo: i32,
    pub is_radiant: bool,
    pub number_of_heroes_shown: u32,
}

impl PartialEq for PlayerInfo {
    fn eq(&self, other: &PlayerInfo) -> (r: bool) {
        self.name.same(&other.name) && self.elo == other.elo && self.is_radiant == other.is_radiant
            && self.number_of_heroes_shown == other.number_of_heroes_shown
    }
}

impl vstd::std_specs::cmp::PartialEqSpecImpl for PlayerInfo {
    open spec fn obeys_eq_spec() -> bool {
        true
    }

    open spec fn eq_spec(&self, other: &PlayerInfo) -> bool {
        self.name@ == other.name@ && self.elo == other.elo && self.is_radiant == other.is_radiant
            && self.number_of_heroes_shown == other.number_of_heroes_shown
    }
}

/// `d` is `hero_pools` with each side flag turned into a team.
pub open spec fn converted(d: Seq<(DraftPlayer, Vec<Hero>)>, hero_pools: Seq<(PlayerInfo, Vec<Hero>)>) -> bool {
    &&& d.len() == hero_pools.len()
    &&& forall|i: int|
        0 <= i < d.len() ==> {
            let (a, b) = (#[trigger] d[i], hero_pools[i]);
            &&& a.1@ == b.1@
            &&& a.0.name@ == b.0.name@
            &&& a.0.elo == b.0.elo
            &&& a.0.number_of_heroes_shown == b.0.number_of_heroes_shown
            &&& a.0.dota_team == if b.0.is_radiant { DotaTeam::Radiant } else { DotaTeam::Dire }
        }
}

/// The hero lists of a result.
pub open spec fn hero_lists(r: Seq<(PlayerInfo, Vec<Hero>)>) -> Seq<Seq<Hero>> {
    r.map_values(|e: (PlayerInfo, Vec<Hero>)| e.1@)
}

fn to_draft(p: &PlayerInfo) -> (r: DraftPlayer)
    ensures
        r.name@ == p.name@,
        r.elo == p.elo,
        r.number_of_heroes_shown == p.number_of_heroes_shown,
        r.dota_team == if p.is_radiant { DotaTeam::Radiant } else { DotaTeam::Dire },
{
    DraftPlayer {
        name: p.name.duplicate(),
        elo: p.elo,
        dota_team: if p.is_radiant {
            DotaTeam::Radiant
        } else {
            DotaTeam::Dire
        },
        number_of_heroes_shown: p.number_of_heroes_shown,
    }
}

fn to_drafts(hero_pools: &Vec<(PlayerInfo, Vec<Hero>)>) -> (r: Vec<(DraftPlayer, Vec<Hero>)>)
    ensures
        r@.len() == hero_pools@.len(),
        forall|i: int| 0 <= i < r@.len() ==> (#[trigger] r@[i]).1@ == hero_pools@[i].1@,
        converted(r@, hero_pools@),
{
    let mut out: Vec<(DraftPlayer, Vec<Hero>)> = Vec::new();
    let mut i: usize = 0;
    while i < hero_pools.len()
        invariant
            i <= hero_pools@.len(),
            out@.len() == i,
            forall|j: int| 0 <= j < i ==> (#[trigger] out@[j]).1@ == hero_pools@[j].1@,
            converted(out@, hero_pools@.subrange(0, i as int)),
        decreases hero_pools@.len() - i,
    {
        out.push((to_draft(&hero_pools[i].0), copy_heroes(&hero_pools[i].1)));
        proof {
            let sub = hero_pools@.subrange(0, i + 1);
            assert forall|j: int| 0 <= j < out@.len() implies {
                let (a, b) = (#[trigger] out@[j], sub[j]);
                &&& a.1@ == b.1@
                &&& a.0.name@ == b.0.name@
                &&& a.0.elo == b.0.elo
                &&& a.0.number_of_heroes_shown == b.0.number_of_heroes_shown
                &&& a.0.dota_team == if b.0.is_radiant { DotaTeam::Radiant } else { DotaTeam::Dire }
            } by {
                assert(sub[j] == hero_pools@[j]);
                if j < i {
                    assert(hero_pools@.subrange(0, i as int)[j] == hero_pools@[j]);
                }
            }
        }
        i = i + 1;
    }
    assert(hero_pools@.subrange(0, i as int) == hero_pools@);
    out
}

fn from_drafts(r: &Vec<(DraftPlayer, Vec<Hero>)>) -> (out: Vec<(PlayerInfo, Vec<Hero>)>)
    ensures
        out@.len() == r@.len(),
        forall|i: int| 0 <= i < r@.len() ==> (#[trigger] out@[i]).1@ == r@[i].1@ && out@[i].0.name@ == r@[i].0.name@,
{
    let mut out: Vec<(PlayerInfo, Vec<Hero>)> = Vec::new();
    let mut i: usize = 0;
    while i < r.len()
        invariant
            i <= r@.len(),
            out@.len() == i,
            forall|j: int| 0 <= j < i ==> (#[trigger] out@[j]).1@ == r@[j].1@ && out@[j].0.name@ == r@[j].0.name@,
        decreases r@.len() - i,
    {
        let p = &r[i].0;
        let info = PlayerInfo {
            name: p.name.duplicate(),
            elo: p.elo,
            is_radiant: p.dota_team == DotaTeam::Radiant,
            number_of_heroes_shown: p.number_of_heroes_shown,
        };
        out.push((info, copy_heroes(&r[i].1)));
        i = i + 1;
    }
    out
}

proof fn lemma_distinct_transfers(a: Seq<(DraftPlayer, Vec<Hero>)>, b: Seq<(PlayerInfo, Vec<Hero>)>)
    requires
        a.len() == b.len(),
        forall|i: int| 0 <= i < a.len() ==> (#[trigger] b[i]).1@ == a[i].1@,
        all_distinct(crate::hero_assignment_strategy::lists_of(a)),
    ensures
        all_distinct(hero_lists(b)),
{
    assert(hero_lists(b) =~= crate::hero_assignment_strategy::lists_of(a));
}

/// The draft is under way and has a participant called `name`.
pub open spec fn holds_player(d: Assignment, name: Seq<char>) -> bool {
    d.members().len() > 0 && exists|i: int| 0 <= i < d.members().len() && (#[trigger] d.members()[i]).name@ == name
}

/// A way of handing heroes out to the players of a match.
pub trait HeroPoolGenerator {
    /// The generator's state is consistent.
    spec fn ready(&self) -> bool;

    fn assign_heroes(&mut self, hero_pools: Vec<(PlayerInfo, Vec<Hero>)>) -> (r: Vec<(PlayerInfo, Vec<Hero>)>)
        requires
            old(self).ready(),
        ensures
            final(self).ready(),
            all_distinct(hero_lists(r@)),
    ;

    fn reroll_user_heroes(&mut self, player: &DiscordUsername, hero_pool: Vec<Hero>) -> (r: Vec<Hero>)
        requires
            old(self).ready(),
        ensures
            final(self).ready(),
            forall|h: Hero| r@.contains(h) ==> hero_pool@.contains(h),
    ;

    fn clear(&mut self)
        ensures
            final(self).ready(),
    ;
}

/// Random draws from each player's pool, smallest pools first.
pub struct RandomHeroPool {
    inner: RandomStrategy,
}

impl Default for RandomHeroPool {
    fn default() -> (r: RandomHeroPool)
        ensures
            r.wf(),
    {
        RandomHeroPool::new()
    }
}

impl RandomHeroPool {
    /// The state of the current match's draft.
    pub closed spec fn state(self) -> Assignment {
        self.inner.state()
    }

    pub open spec fn wf(self) -> bool {
        self.state().wf()
    }

    pub fn new() -> (r: RandomHeroPool)
        ensures
            r.wf(),
    {
        RandomHeroPool { inner: RandomStrategy::new() }
    }

    /// Every participant of the match with their heroes; no hero is handed out twice.
    pub fn assign_heroes(&mut self, hero_pools: Vec<(PlayerInfo, Vec<Hero>)>) -> (r: Vec<(PlayerInfo, Vec<Hero>)>)
        requires
            old(self).wf(),
        ensures
            final(self).wf(),
            all_distinct(hero_lists(r@)),
            r@.len() == final(self).state().members().len(),
            hero_lists(r@) == final(self).state().lists(),
            forall|i: int| 0 <= i < r@.len() ==> (#[trigger] r@[i]).0.name@ == final(self).state().members()[i].name@,
            grows_from(old(self).state(), final(self).state()),
            exists|d: Seq<(DraftPlayer, Vec<Hero>)>|
                converted(d, hero_pools@) && kept_or_drawn(old(self).state(), final(self).state(), d) && forall|k: int|
                    0 <= k < d.len() ==> has_served_slot(final(self).state(), #[trigger] d[k].0, d[k].1@),
    {
        let drafts = to_drafts(&hero_pools);
        let res = self.inner.assign_heroes(drafts);
        let out = from_drafts(&res);
        proof {
            lemma_distinct_transfers(res@, out@);
            assert(hero_lists(out@) =~= lists_of(res@));
        }
        out
    }

    /// A fresh draw for the player called `username`; empty when nobody drew yet or the
    /// player is not in the match.
    pub fn reroll_user_heroes(&mut self, username: &DiscordUsername, hero_pool: Vec<Hero>) -> (r: Vec<Hero>)
        requires
            old(self).wf(),
        ensures
            final(self).wf(),
            forall|h: Hero| r@.contains(h) ==> hero_pool@.contains(h),
            holds_player(old(self).state(), username@) ==> rerolled(old(self).state(), final(self).state(), username@, hero_pool@, r@),
            !holds_player(old(self).state(), username@) ==> r@.len() == 0 && final(self).state() == old(self).state(),
    {
        match self.inner.reroll(username, hero_pool) {
            Ok(v) => v,
            Err(_) => Vec::new(),
        }
    }

    pub fn clear(&mut self)
        ensures
            final(self).wf(),
    {
        self.inner.clear();
    }
}

impl HeroPoolGenerator for RandomHeroPool {
    open spec fn ready(&self) -> bool {
        self.wf()
    }

    fn assign_heroes(&mut self, hero_pools: Vec<(PlayerInfo, Vec<Hero>)>) -> (r: Vec<(PlayerInfo, Vec<Hero>)>) {
        RandomHeroPool::assign_heroes(self, hero_pools)
    }

    fn reroll_user_heroes(&mut self, player: &DiscordUsername, hero_pool: Vec<Hero>) -> (r: Vec<Hero>) {
        RandomHeroPool::reroll_user_heroes(self, player, hero_pool)
    }

    fn clear(&mut self) {
        RandomHeroPool::clear(self)
    }
}

/// Draws by role, pairing the players of the two teams by rating.
pub struct TaggedHeroPool {
    inner: TaggedStrategy,
}

impl TaggedHeroPool {
    /// The state of the current match's draft.
    pub closed spec fn state(self) -> Assignment {
        self.inner.state()
    }

    pub open spec fn wf(self) -> bool {
        self.state().wf()
    }

    pub fn new() -> (r: TaggedHeroPool)
        ensures
            r.wf(),
    {
        TaggedHeroPool { inner: TaggedStrategy::new() }
    }

    /// Every participant of the match with their heroes; no hero is handed out twice.
    pub fn assign_heroes(&mut self, hero_pools: Vec<(PlayerInfo, Vec<Hero>)>) -> (r: Vec<(PlayerInfo, Vec<Hero>)>)
        requires
            old(self).wf(),
        ensures
            final(self).wf(),
            all_distinct(hero_lists(r@)),
            r@.len() == final(self).state().members().len(),
            hero_lists(r@) == final(self).state().lists(),
            forall|i: int| 0 <= i < r@.len() ==> (#[trigger] r@[i]).0.name@ == final(self).state().members()[i].name@,
            grows_from(old(self).state(), final(self).state()),
            exists|d: Seq<(DraftPlayer, Vec<Hero>)>|
                converted(d, hero_pools@) && kept_or_drawn(old(self).state(), final(self).state(), d) && forall|k: int|
                    0 <= k < d.len() ==> has_served_slot(final(self).state(), #[trigger] d[k].0, d[k].1@),
    {
        let drafts = to_drafts(&hero_pools);
        let res = self.inner.assign_heroes(drafts);
        let out = from_drafts(&res);
        proof {
            lemma_distinct_transfers(res@, out@);
            assert(hero_lists(out@) =~= lists_of(res@));
        }
        out
    }

    /// A fresh draw for the player called `username`; empty when nobody drew yet or the
    /// player is not in the match.
    pub fn reroll_user_heroes(&mut self, username: &DiscordUsername, hero_pool: Vec<Hero>) -> (r: Vec<Hero>)
        requires
            old(self).wf(),
        ensures
            final(self).wf(),
            forall|h: Hero| r@.contains(h) ==> hero_pool@.contains(h),
            holds_player(old(self).state(), username@) ==> rerolled(old(self).state(), final(self).state(), username@, hero_pool@, r@),
            !holds_player(old(self).state(), username@) ==> r@.len() == 0 && final(self).state() == old(self).state(),
    {
        match self.inner.reroll(username, hero_pool) {
            Ok(v) => v,
            Err(_) => Vec::new(),
        }
    }

    /// The role of `hero` in the hero table.
    pub fn deduce_tag(&self, hero: &Hero) -> (r: HeroTag)
        ensures
            r == hero.tag_spec(),
    {
        hero.tag()
    }

    pub fn clear(&mut self)
        ensures
            final(self).wf(),
    {
        self.inner.clear();
    }
}

impl HeroPoolGenerator for TaggedHeroPool {
    open spec fn ready(&self) -> bool {
        self.wf()
    }

    fn assign_heroes(&mut self, hero_pools: Vec<(PlayerInfo, Vec<Hero>)>) -> (r: Vec<(PlayerInfo, Vec<Hero>)>) {
        TaggedHeroPool::assign_heroes(self, hero_pools)
    }

    fn reroll_user_heroes(&mut self, player: &DiscordUsername, hero_pool: Vec<Hero>) -> (r: Vec<Hero>) {
        TaggedHeroPool::reroll_user_heroes(self, player, hero_pool)
    }

    fn clear(&mut self) {
        TaggedHeroPool::clear(self)
    }
}

} // verus!
