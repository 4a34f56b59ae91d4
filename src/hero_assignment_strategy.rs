use vstd::prelude::*;

pub mod random_hero_pool;
pub mod tagged_hero_pool;
use crate::chance::random_index;
use crate::heroes::{Hero, HeroTag};
use crate::ids::DiscordUsername;

verus! {

broadcast use vstd::seq_lib::group_seq_properties;

/// Side of a Dota match.
#[derive(Debug, Clone, Copy, PartialEq, Eq, Structural, Hash, PartialOrd, Ord)]
pub enum DotaTeam {
    Radiant,
    Dire,
}

/// A player taking part in a hero draft.
#[derive(Debug, Clone, Eq, Hash, PartialOrd, Ord)]
pub struct PlayerInfo {
    pub name: DiscordUsername,
    pub elo: i32,
    pub dota_team: DotaTeam,
    pub number_of_heroes_shown: u32,
}

/// Two descriptions name the same draft participant.
pub open spec fn same_player(a: PlayerInfo, b: PlayerInfo) -> bool {
    &&& a.name@ == b.name@
    &&& a.elo == b.elo
    &&& a.dota_team == b.dota_team
    &&& a.number_of_heroes_shown == b.number_of_heroes_shown
}

impl PlayerInfo {
    pub fn duplicate(&self) -> (r: PlayerInfo)
        ensures
            same_player(r, *self),
    {
        PlayerInfo {
            name: self.name.duplicate(),
            elo: self.elo,
            dota_team: self.dota_team,
            number_of_heroes_shown: self.number_of_heroes_shown,
        }
    }

    pub fn same(&self, other: &PlayerInfo) -> (r: bool)
        ensures
            r == same_player(*self, *other),
    {
        self.name.same(&other.name) && self.elo == other.elo && self.dota_team == other.dota_team
            && self.number_of_heroes_shown == other.number_of_heroes_shown
    }
}

impl PartialEq for PlayerInfo {
    fn eq(&self, other: &PlayerInfo) -> (r: bool) {
        self.same(other)
    }
}

impl vstd::std_specs::cmp::PartialEqSpecImpl for PlayerInfo {
    open spec fn obeys_eq_spec() -> bool {
        true
    }

    open spec fn eq_spec(&self, other: &PlayerInfo) -> bool {
        same_player(*self, *other)
    }
}

/// A way of handing heroes out to the players of a match.
pub trait HeroAssignmentStrategy {
    /// The strategy's state is consistent.
    spec fn ready(&self) -> bool;

    /// The state of the current match's draft.
    spec fn draft(&self) -> Assignment;

    /// Gives each player up to their number of heroes from their pool; returns every
    /// participant of the match with their heroes.
    fn assign_heroes(&mut self, hero_pools: Vec<(PlayerInfo, Vec<Hero>)>) -> (r: Vec<(PlayerInfo, Vec<Hero>)>)
        requires
            old(self).ready(),
        ensures
            final(self).ready(),
            assign_outcome(old(self).draft(), final(self).draft(), hero_pools@, r@),
    ;

    /// Replaces the heroes of one player by a fresh draw from `hero_pool`.
    fn reroll(&mut self, player: &DiscordUsername, hero_pool: Vec<Hero>) -> (r: Result<Vec<Hero>, RerollError>)
        requires
            old(self).ready(),
        ensures
            final(self).ready(),
            reroll_outcome(old(self).draft(), final(self).draft(), player@, hero_pool@, r),
    ;

    /// Starts a new match.
    fn clear(&mut self)
        ensures
            final(self).ready(),
            final(self).draft().wf(),
            final(self).draft().members().len() == 0,
            final(self).draft().taken_set().len() == 0,
    ;
}

/// Error of a reroll for a player who is not in the current draft.
#[derive(Debug, Clone)]
pub struct RerollError {
    pub player: DiscordUsername,
}

impl RerollError {
    /// The message shown for this error.
    pub fn to_string(&self) -> (r: String)
        ensures
            r@ == "Player "@ + self.player@ + " is not in the current game."@,
    {
        String::from_str("Player ").concat(self.player.as_str()).concat(" is not in the current game.")
    }
}

/// No hero stands twice in the lists, neither within one list nor across two.
pub open spec fn all_distinct(lists: Seq<Seq<Hero>>) -> bool {
    forall|i: int, j: int, a: int, b: int|
        0 <= i < lists.len() && 0 <= j < lists.len() && 0 <= a < lists[i].len() && 0 <= b
            < lists[j].len() && (i != j || a != b) ==> #[trigger] lists[i][a] != #[trigger] lists[j][b]
}

/// `h` is in the pool of some draft entry for player `p`.
pub open spec fn drawn_from(hero_pools: Seq<(PlayerInfo, Vec<Hero>)>, p: PlayerInfo, h: Hero) -> bool {
    exists|k: int|
        0 <= k < hero_pools.len() && same_player(hero_pools[k].0, p) && #[trigger] hero_pools[k].1@.contains(h)
}

/// Each hero on a list of `after` was already there in `before`, at the same place, or was
/// drawn from a pool that `hero_pools` gives for that player.
pub open spec fn kept_or_drawn(
    before: Assignment,
    after: Assignment,
    hero_pools: Seq<(PlayerInfo, Vec<Hero>)>,
) -> bool {
    forall|s: int, a: int|
        0 <= s < after.lists().len() && 0 <= a < after.lists()[s].len() ==> ((s < before.lists().len() && a
            < before.lists()[s].len() && #[trigger] after.lists()[s][a] == before.lists()[s][a])
            || drawn_from(hero_pools, after.members()[s], after.lists()[s][a]))
}

/// The participant at `slot` holds at least `want` heroes, or every hero of `pool` is taken.
pub open spec fn served(d: Assignment, slot: int, want: int, pool: Seq<Hero>) -> bool {
    d.lists()[slot].len() >= want || (forall|h: Hero| pool.contains(h) ==> #[trigger] d.taken_set().contains(h))
}

/// Some participant equal to `p` holds all the heroes `p` is shown, or every hero of `pool`
/// is taken.
pub open spec fn has_served_slot(d: Assignment, p: PlayerInfo, pool: Seq<Hero>) -> bool {
    exists|s: int|
        0 <= s < d.members().len() && same_player(#[trigger] d.members()[s], p) && served(
            d,
            s,
            p.number_of_heroes_shown as int,
            pool,
        )
}

/// `after` is `before` with the list at the first participant called `name` replaced by
/// `new`: heroes of `pool` that nobody held before, as many as the player is shown unless the
/// pool ran out, with the old picks handed back.
pub open spec fn rerolled(
    before: Assignment,
    after: Assignment,
    name: Seq<char>,
    pool: Seq<Hero>,
    new: Seq<Hero>,
) -> bool {
    exists|s: int|
        0 <= s < before.members().len() && (#[trigger] before.members()[s]).name@ == name && (forall|i: int|
            0 <= i < s ==> before.members()[i].name@ != name) && after.members() == before.members()
            && after.lists() == before.lists().update(s, new) && (new.len()
            >= before.members()[s].number_of_heroes_shown || (forall|h: Hero|
            pool.contains(h) ==> before.taken_set().contains(h) || new.contains(h))) && (forall|h: Hero|
            new.contains(h) ==> pool.contains(h) && !before.taken_set().contains(h)) && (forall|h: Hero|
            #[trigger] after.taken_set().contains(h) <==> ((before.taken_set().contains(h)
                && !before.lists()[s].contains(h)) || new.contains(h)))
}

/// After a draw that started from an empty match, every hero a player holds comes from that
/// player's pool.
pub proof fn lemma_fresh_draw_from_pools(
    before: Assignment,
    after: Assignment,
    hero_pools: Seq<(PlayerInfo, Vec<Hero>)>,
)
    requires
        before.members().len() == 0,
        before.wf(),
        kept_or_drawn(before, after, hero_pools),
    ensures
        forall|s: int, a: int|
            0 <= s < after.lists().len() && 0 <= a < after.lists()[s].len() ==> drawn_from(
                hero_pools,
                after.members()[s],
                #[trigger] after.lists()[s][a],
            ),
{
}

/// `h` stands on a list of `after` at a place that `before` did not fill.
pub open spec fn newly_listed(before: Assignment, after: Assignment, h: Hero) -> bool {
    exists|s: int, a: int|
        0 <= s < after.lists().len() && 0 <= a < after.lists()[s].len() && (s >= before.lists().len() || a
            >= before.lists()[s].len()) && #[trigger] after.lists()[s][a] == h
}

/// `after` extends `before`: the same first participants, each earlier list a prefix of the
/// new one, and the taken heroes are the earlier ones plus those newly listed.
pub open spec fn grows_from(before: Assignment, after: Assignment) -> bool {
    &&& before.members().len() <= after.members().len()
    &&& before.lists().len() <= after.lists().len()
    &&& forall|i: int| 0 <= i < before.members().len() ==> #[trigger] after.members()[i] == before.members()[i]
    &&& forall|i: int|
        0 <= i < before.lists().len() ==> before.lists()[i].len() <= (#[trigger] after.lists()[i]).len()
            && after.lists()[i].subrange(0, before.lists()[i].len() as int) == before.lists()[i]
    &&& forall|h: Hero| #[trigger] after.taken_set().contains(h) <==> (before.taken_set().contains(h) || newly_listed(before, after, h))
}

/// What a draw for `hero_pools` promises: `r` mirrors the new state, no hero is listed twice,
/// the state only grew, every new hero comes from its player's pool, and every player holds
/// their number of heroes unless their pool ran out.
pub open spec fn assign_outcome(
    before: Assignment,
    after: Assignment,
    hero_pools: Seq<(PlayerInfo, Vec<Hero>)>,
    r: Seq<(PlayerInfo, Vec<Hero>)>,
) -> bool {
    &&& after.wf()
    &&& r.len() == after.members().len()
    &&& lists_of(r) == after.lists()
    &&& forall|i: int| 0 <= i < r.len() ==> same_player(#[trigger] r[i].0, after.members()[i])
    &&& all_distinct(lists_of(r))
    &&& grows_from(before, after)
    &&& kept_or_drawn(before, after, hero_pools)
    &&& forall|k: int| 0 <= k < hero_pools.len() ==> has_served_slot(after, #[trigger] hero_pools[k].0, hero_pools[k].1@)
}

/// What a reroll of the player called `name` from `pool` promises.
pub open spec fn reroll_outcome(
    before: Assignment,
    after: Assignment,
    name: Seq<char>,
    pool: Seq<Hero>,
    r: Result<Vec<Hero>, RerollError>,
) -> bool {
    &&& after.wf()
    &&& before.members().len() == 0 ==> r is Ok && r->Ok_0@.len() == 0 && after == before
    &&& before.members().len() > 0 ==> (r is Err <==> forall|i: int|
        0 <= i < before.members().len() ==> (#[trigger] before.members()[i]).name@ != name)
    &&& r is Err ==> r->Err_0.player@ == name && after == before
    &&& r is Ok ==> forall|h: Hero| r->Ok_0@.contains(h) ==> pool.contains(h)
    &&& before.members().len() > 0 && r is Ok ==> rerolled(before, after, name, pool, r->Ok_0@)
}

pub proof fn lemma_give_grows(entry: Assignment, d0: Assignment, d1: Assignment, slot: int, h: Hero)
    requires
        grows_from(entry, d0),
        0 <= slot < d0.lists().len(),
        d1.members() == d0.members(),
        d1.lists() == d0.lists().update(slot, d0.lists()[slot].push(h)),
        d1.taken_set() == d0.taken_set().push(h),
    ensures
        grows_from(entry, d1),
{
    assert forall|i: int| 0 <= i < entry.lists().len() implies entry.lists()[i].len() <= (#[trigger] d1.lists()[i]).len()
        && d1.lists()[i].subrange(0, entry.lists()[i].len() as int) == entry.lists()[i] by {
        if i == slot {
            assert(d1.lists()[i].subrange(0, entry.lists()[i].len() as int) =~= d0.lists()[i].subrange(0, entry.lists()[i].len() as int));
        }
    }
    assert forall|x: Hero| #[trigger] d1.taken_set().contains(x) <==> (entry.taken_set().contains(x) || newly_listed(entry, d1, x)) by {
        let n0 = d0.lists()[slot].len() as int;
        if newly_listed(entry, d0, x) {
            let (s, a) = choose|s: int, a: int|
                0 <= s < d0.lists().len() && 0 <= a < d0.lists()[s].len() && (s >= entry.lists().len() || a
                    >= entry.lists()[s].len()) && #[trigger] d0.lists()[s][a] == x;
            assert(d1.lists()[s][a] == x);
            assert(newly_listed(entry, d1, x));
        }
        if x == h {
            assert(d1.lists()[slot][n0] == h);
            assert(slot >= entry.lists().len() || n0 >= entry.lists()[slot].len());
            assert(newly_listed(entry, d1, x));
            assert(d1.taken_set().last() == h);
        }
        if newly_listed(entry, d1, x) && x != h {
            let (s, a) = choose|s: int, a: int|
                0 <= s < d1.lists().len() && 0 <= a < d1.lists()[s].len() && (s >= entry.lists().len() || a
                    >= entry.lists()[s].len()) && #[trigger] d1.lists()[s][a] == x;
            assert(d0.lists()[s][a] == x);
            assert(newly_listed(entry, d0, x));
        }
        if d1.taken_set().contains(x) && x != h {
            let i = choose|i: int| 0 <= i < d1.taken_set().len() && d1.taken_set()[i] == x;
            assert(d0.taken_set()[i] == x);
        }
        if d0.taken_set().contains(x) {
            let i = choose|i: int| 0 <= i < d0.taken_set().len() && d0.taken_set()[i] == x;
            assert(d1.taken_set()[i] == x);
        }
    }
}

/// The hero lists of a draft result.
pub open spec fn lists_of(r: Seq<(PlayerInfo, Vec<Hero>)>) -> Seq<Seq<Hero>> {
    r.map_values(|e: (PlayerInfo, Vec<Hero>)| e.1@)
}

pub fn contains_hero(v: &Vec<Hero>, h: Hero) -> (r: bool)
    ensures
        r == v@.contains(h),
{
    let mut i: usize = 0;
    while i < v.len()
        invariant
            i <= v@.len(),
            forall|j: int| 0 <= j < i ==> v@[j] != h,
        decreases v@.len() - i,
    {
        if v[i] == h {
            return true;
        }
        i = i + 1;
    }
    false
}

/// The heroes of `pool` that `taken` does not hold, in pool order.
pub fn untaken(pool: &Vec<Hero>, taken: &Vec<Hero>) -> (r: Vec<Hero>)
    ensures
        forall|h: Hero| r@.contains(h) <==> (pool@.contains(h) && !taken@.contains(h)),
{
    let mut out: Vec<Hero> = Vec::new();
    let mut i: usize = 0;
    while i < pool.len()
        invariant
            i <= pool@.len(),
            forall|h: Hero|
                out@.contains(h) <==> (pool@.subrange(0, i as int).contains(h) && !taken@.contains(h)),
        decreases pool@.len() - i,
    {
        let h = pool[i];
        if !contains_hero(taken, h) {
            out.push(h);
        }
        proof {
            assert(pool@.subrange(0, i + 1) == pool@.subrange(0, i as int).push(h));
        }
        i = i + 1;
    }
    proof {
        assert(pool@.subrange(0, pool@.len() as int) == pool@);
    }
    out
}

/// One of `candidates`, drawn at random; none when there is none.
pub fn pick_random(candidates: &Vec<Hero>) -> (r: Option<Hero>)
    ensures
        r is None <==> candidates@.len() == 0,
        r is Some ==> candidates@.contains(r->0),
{
    if candidates.len() == 0 {
        None
    } else {
        let k = random_index(candidates.len());
        Some(candidates[k])
    }
}

/// An untaken hero of `pool`, drawn at random; none when the pool is all taken.
pub fn pick_untaken(pool: &Vec<Hero>, taken: &Vec<Hero>) -> (r: Option<Hero>)
    ensures
        r is None <==> (forall|h: Hero| pool@.contains(h) ==> taken@.contains(h)),
        r is Some ==> pool@.contains(r->0) && !taken@.contains(r->0),
{
    let candidates = untaken(pool, taken);
    let r = pick_random(&candidates);
    proof {
        if r is None {
            assert forall|h: Hero| pool@.contains(h) implies taken@.contains(h) by {
                if !taken@.contains(h) {
                    assert(candidates@.contains(h));
                }
            }
        } else {
            assert(candidates@.contains(r->0));
        }
    }
    r
}

/// An untaken hero of `pool` with role `tag`, drawn at random; failing that, any untaken hero
/// of `pool`; none when the pool is all taken.
pub fn assign_tagged_hero(pool: &Vec<Hero>, taken: &Vec<Hero>, tag: HeroTag) -> (r: Option<Hero>)
    ensures
        r is None <==> (forall|h: Hero| pool@.contains(h) ==> taken@.contains(h)),
        r is Some ==> pool@.contains(r->0) && !taken@.contains(r->0),
        (exists|h: Hero| pool@.contains(h) && !taken@.contains(h) && h.tag_spec() == tag) ==> (r is Some
            && r->0.tag_spec() == tag),
{
    let mut candidates: Vec<Hero> = Vec::new();
    let mut i: usize = 0;
    while i < pool.len()
        invariant
            i <= pool@.len(),
            forall|h: Hero|
                #[trigger] candidates@.contains(h) <==> (pool@.subrange(0, i as int).contains(h)
                    && !taken@.contains(h) && h.tag_spec() == tag),
        decreases pool@.len() - i,
    {
        let h = pool[i];
        if h.tag() == tag && !contains_hero(taken, h) {
            candidates.push(h);
        }
        proof {
            assert(pool@.subrange(0, i + 1) == pool@.subrange(0, i as int).push(h));
        }
        i = i + 1;
    }
    proof {
        assert(pool@.subrange(0, pool@.len() as int) == pool@);
    }
    if candidates.len() == 0 {
        let r = pick_untaken(pool, taken);
        proof {
            if exists|h: Hero| pool@.contains(h) && !taken@.contains(h) && h.tag_spec() == tag {
                let h = choose|h: Hero| pool@.contains(h) && !taken@.contains(h) && h.tag_spec() == tag;
                assert(candidates@.contains(h));
            }
        }
        r
    } else {
        let r = pick_random(&candidates);
        proof {
            let x = r->0;
            assert(candidates@.contains(x));
            assert(pool@.subrange(0, pool@.len() as int).contains(x));
            assert(pool@.contains(x));
        }
        r
    }
}

/// A draw by role `tag` when given, else a plain random draw.
pub fn draw(pool: &Vec<Hero>, taken: &Vec<Hero>, tag: Option<HeroTag>) -> (r: Option<Hero>)
    ensures
        r is None <==> (forall|h: Hero| pool@.contains(h) ==> taken@.contains(h)),
        r is Some ==> pool@.contains(r->0) && !taken@.contains(r->0),
        tag is Some && (exists|h: Hero| pool@.contains(h) && !taken@.contains(h) && h.tag_spec() == tag->0) ==> (r is Some
            && r->0.tag_spec() == tag->0),
{
    match tag {
        Some(t) => assign_tagged_hero(pool, taken, t),
        None => pick_untaken(pool, taken),
    }
}

pub open spec fn min_of(a: int, b: int) -> int {
    if a < b {
        a
    } else {
        b
    }
}

/// Growth of lists and of the taken heroes keeps a participant served.
pub proof fn lemma_served_grows(d0: Assignment, d1: Assignment, s: int, want: int, pool: Seq<Hero>)
    requires
        0 <= s < d0.lists().len(),
        d1.lists().len() == d0.lists().len(),
        d1.lists()[s].len() >= d0.lists()[s].len(),
        forall|h: Hero| d0.taken_set().contains(h) ==> d1.taken_set().contains(h),
        served(d0, s, want, pool),
    ensures
        served(d1, s, want, pool),
{
    if d0.lists()[s].len() < want {
        assert forall|h: Hero| pool.contains(h) implies #[trigger] d1.taken_set().contains(h) by {
            assert(d0.taken_set().contains(h));
        }
    }
}

/// Hands `hero`, drawn from the pool of entry `k`, to that entry's slot.
pub proof fn lemma_give_keeps(
    entry: Assignment,
    d0: Assignment,
    d1: Assignment,
    hero_pools: Seq<(PlayerInfo, Vec<Hero>)>,
    k: int,
    s0: int,
    h: Hero,
)
    requires
        0 <= k < hero_pools.len(),
        0 <= s0 < d0.lists().len(),
        same_player(d0.members()[s0], hero_pools[k].0),
        hero_pools[k].1@.contains(h),
        d1.members() == d0.members(),
        d1.lists() == d0.lists().update(s0, d0.lists()[s0].push(h)),
        d0.members().len() == d0.lists().len(),
        kept_or_drawn(entry, d0, hero_pools),
    ensures
        kept_or_drawn(entry, d1, hero_pools),
{
    assert forall|s: int, a: int|
        0 <= s < d1.lists().len() && 0 <= a < d1.lists()[s].len() implies ((s < entry.lists().len() && a
        < entry.lists()[s].len() && #[trigger] d1.lists()[s][a] == entry.lists()[s][a])
        || drawn_from(hero_pools, d1.members()[s], d1.lists()[s][a])) by {
        if s == s0 && a == d0.lists()[s0].len() {
            assert(d1.lists()[s][a] == h);
            assert(same_player(hero_pools[k].0, d1.members()[s]));
        } else {
            assert(d1.lists()[s][a] == d0.lists()[s][a]);
        }
    }
}

/// The untaken heroes of `pool` with role `t`.
pub open spec fn role_candidates(pool: Seq<Hero>, taken: Seq<Hero>, t: HeroTag) -> Set<Hero> {
    Set::new(|h: Hero| pool.contains(h) && h.tag_spec() == t && !taken.contains(h))
}

/// The state of one match's draft: who got which heroes, and every hero handed out.
pub struct Assignment {
    players: Vec<PlayerInfo>,
    picks: Vec<Vec<Hero>>,
    taken: Vec<Hero>,
}

impl Assignment {
    /// The participants, in order of their first draw.
    pub closed spec fn members(self) -> Seq<PlayerInfo> {
        self.players@
    }

    /// The hero list of each participant.
    pub closed spec fn lists(self) -> Seq<Seq<Hero>> {
        self.picks@.map_values(|v: Vec<Hero>| v@)
    }

    /// Every hero handed out during this match.
    pub closed spec fn taken_set(self) -> Seq<Hero> {
        self.taken@
    }

    pub open spec fn wf(self) -> bool {
        &&& self.members().len() == self.lists().len()
        &&& all_distinct(self.lists())
        &&& forall|i: int, a: int|
            0 <= i < self.lists().len() && 0 <= a < self.lists()[i].len()
                ==> self.taken_set().contains(#[trigger] self.lists()[i][a])
        &&& forall|i: int|
            0 <= i < self.lists().len() ==> #[trigger] self.lists()[i].len()
                <= self.members()[i].number_of_heroes_shown
    }

    pub fn new() -> (r: Assignment)
        ensures
            r.wf(),
            r.members().len() == 0,
            r.taken_set().len() == 0,
    {
        let r = Assignment { players: Vec::new(), picks: Vec::new(), taken: Vec::new() };
        assert(r.lists().len() == 0);
        r
    }

    pub fn is_empty(&self) -> (r: bool)
        ensures
            r == (self.members().len() == 0),
    {
        self.players.len() == 0
    }

    pub fn taken(&self) -> (r: &Vec<Hero>)
        ensures
            r@ == self.taken_set(),
    {
        &self.taken
    }

    /// Position of the first participant equal to `p`.
    pub fn slot_of(&self, p: &PlayerInfo) -> (r: Option<usize>)
        ensures
            r is Some ==> r->0 < self.members().len() && same_player(self.members()[r->0 as int], *p),
            r is None ==> forall|i: int|
                0 <= i < self.members().len() ==> !same_player(#[trigger] self.members()[i], *p),
    {
        let mut i: usize = 0;
        while i < self.players.len()
            invariant
                i <= self.players@.len(),
                forall|j: int| 0 <= j < i ==> !same_player(#[trigger] self.players@[j], *p),
            decreases self.players@.len() - i,
        {
            if self.players[i].same(p) {
                return Some(i);
            }
            i = i + 1;
        }
        None
    }

    /// Position of the first participant called `name`.
    pub fn slot_named(&self, name: &DiscordUsername) -> (r: Option<usize>)
        ensures
            r is Some ==> r->0 < self.members().len() && self.members()[r->0 as int].name@ == name@
                && forall|i: int| 0 <= i < r->0 ==> (#[trigger] self.members()[i]).name@ != name@,
            r is None ==> forall|i: int|
                0 <= i < self.members().len() ==> (#[trigger] self.members()[i]).name@ != name@,
    {
        let mut i: usize = 0;
        while i < self.players.len()
            invariant
                i <= self.players@.len(),
                forall|j: int| 0 <= j < i ==> (#[trigger] self.players@[j]).name@ != name@,
            decreases self.players@.len() - i,
        {
            if self.players[i].name.same(name) {
                return Some(i);
            }
            i = i + 1;
        }
        None
    }

    /// Position of `p`, added with an empty list when it is not there yet.
    pub fn slot_for(&mut self, p: &PlayerInfo) -> (r: usize)
        requires
            old(self).wf(),
        ensures
            final(self).wf(),
            r < final(self).members().len(),
            same_player(final(self).members()[r as int], *p),
            final(self).taken_set() == old(self).taken_set(),
            old(self).members().len() <= final(self).members().len() <= old(self).members().len() + 1,
            r < old(self).members().len() || final(self).lists()[r as int].len() == 0,
            forall|i: int|
                old(self).members().len() <= i < final(self).members().len()
                    ==> #[trigger] final(self).lists()[i].len() == 0,
            forall|i: int|
                0 <= i < old(self).members().len() ==> final(self).members()[i] == old(self).members()[i]
                    && final(self).lists()[i] == old(self).lists()[i],
    {
        match self.slot_of(p) {
            Some(i) => i,
            None => {
                let n = self.players.len();
                self.players.push(p.duplicate());
                self.picks.push(Vec::new());
                proof {
                    assert forall|i: int| 0 <= i < n implies self.lists()[i] == old(self).lists()[i] by {}
                    assert(self.lists()[n as int].len() == 0);
                    let l = self.lists();
                    assert forall|i: int, j: int, a: int, b: int|
                        0 <= i < l.len() && 0 <= j < l.len() && 0 <= a < l[i].len() && 0 <= b
                            < l[j].len() && (i != j || a != b) implies #[trigger] l[i][a] != #[trigger] l[j][b] by {
                        assert(i < n && j < n);
                    }
                }
                n
            },
        }
    }

    /// Gives each draft entry a position, adding the players not there yet with empty lists.
    pub fn enter_all(&mut self, hero_pools: &Vec<(PlayerInfo, Vec<Hero>)>) -> (slots: Vec<usize>)
        requires
            old(self).wf(),
        ensures
            final(self).wf(),
            slots@.len() == hero_pools@.len(),
            old(self).members().len() <= final(self).members().len(),
            forall|i: int|
                0 <= i < old(self).members().len() ==> final(self).members()[i] == old(self).members()[i]
                    && final(self).lists()[i] == old(self).lists()[i],
            forall|i: int|
                old(self).members().len() <= i < final(self).members().len()
                    ==> #[trigger] final(self).lists()[i].len() == 0,
            final(self).taken_set() == old(self).taken_set(),
            grows_from(*old(self), *final(self)),
            forall|j: int|
                0 <= j < slots@.len() ==> #[trigger] slots@[j] < final(self).members().len() && same_player(
                    final(self).members()[slots@[j] as int],
                    hero_pools@[j].0,
                ),
    {
        let n = hero_pools.len();
        let ghost entry = *self;
        let mut slots: Vec<usize> = Vec::new();
        let mut k: usize = 0;
        while k < n
            invariant
                n == hero_pools@.len(),
                k <= n,
                self.wf(),
                slots@.len() == k,
                entry.members().len() <= self.members().len(),
                forall|i: int|
                    0 <= i < entry.members().len() ==> self.members()[i] == entry.members()[i]
                        && self.lists()[i] == entry.lists()[i],
                forall|i: int|
                    entry.members().len() <= i < self.members().len()
                        ==> #[trigger] self.lists()[i].len() == 0,
                self.taken_set() == entry.taken_set(),
                forall|j: int|
                    0 <= j < k ==> #[trigger] slots@[j] < self.members().len() && same_player(
                        self.members()[slots@[j] as int],
                        hero_pools@[j].0,
                    ),
            decreases n - k,
        {
            let s = self.slot_for(&hero_pools[k].0);
            slots.push(s);
            k = k + 1;
        }
        proof {
            let after = *self;
            assert forall|x: int| 0 <= x < entry.lists().len() implies entry.lists()[x].len() <= (#[trigger] after.lists()[x]).len()
                && after.lists()[x].subrange(0, entry.lists()[x].len() as int) == entry.lists()[x] by {
                assert(after.lists()[x] == entry.lists()[x]);
                assert(after.lists()[x].subrange(0, entry.lists()[x].len() as int) =~= entry.lists()[x]);
            }
            assert forall|h: Hero| !newly_listed(entry, after, h) by {
                if newly_listed(entry, after, h) {
                    let (s, a) = choose|s: int, a: int|
                        0 <= s < after.lists().len() && 0 <= a < after.lists()[s].len() && (s >= entry.lists().len() || a
                            >= entry.lists()[s].len()) && #[trigger] after.lists()[s][a] == h;
                    if s < entry.lists().len() {
                        assert(after.lists()[s] == entry.lists()[s]);
                    }
                }
            }
        }
        slots
    }

    /// Hands `hero` to the participant at `slot`.
    pub fn give(&mut self, slot: usize, hero: Hero)
        requires
            old(self).wf(),
            slot < old(self).members().len(),
            !old(self).taken_set().contains(hero),
            old(self).lists()[slot as int].len() < old(self).members()[slot as int].number_of_heroes_shown,
        ensures
            final(self).wf(),
            final(self).members() == old(self).members(),
            final(self).lists() == old(self).lists().update(slot as int, old(self).lists()[slot as int].push(hero)),
            final(self).taken_set() == old(self).taken_set().push(hero),
    {
        let ghost l0 = self.lists();
        self.picks[slot].push(hero);
        self.taken.push(hero);
        proof {
            let l = self.lists();
            assert(l =~= l0.update(slot as int, l0[slot as int].push(hero)));
            assert forall|i: int, j: int, a: int, b: int|
                0 <= i < l.len() && 0 <= j < l.len() && 0 <= a < l[i].len() && 0 <= b < l[j].len() && (
                i != j || a != b) implies #[trigger] l[i][a] != #[trigger] l[j][b] by {
                let ni = l0[i].len();
                let nj = l0[j].len();
                if i == slot && a == ni {
                    assert(l[i][a] == hero);
                    assert(old(self).taken_set().contains(l0[j][b]));
                } else if j == slot && b == nj {
                    assert(l[j][b] == hero);
                    assert(old(self).taken_set().contains(l0[i][a]));
                } else {
                    assert(l[i][a] == l0[i][a]);
                    assert(l[j][b] == l0[j][b]);
                }
            }
            assert forall|i: int, a: int|
                0 <= i < l.len() && 0 <= a < l[i].len() implies self.taken_set().contains(
                #[trigger] l[i][a]) by {
                if i == slot && a == l0[i].len() {
                    assert(self.taken_set().last() == hero);
                } else {
                    assert(old(self).taken_set().contains(l0[i][a]));
                }
            }
        }
    }

    /// Number of heroes the participant at `slot` holds.
    pub fn list_len(&self, slot: usize) -> (r: usize)
        requires
            self.wf(),
            slot < self.members().len(),
        ensures
            r == self.lists()[slot as int].len(),
    {
        self.picks[slot].len()
    }

    /// The heroes the participant at `slot` holds.
    pub fn list_at(&self, slot: usize) -> (r: Vec<Hero>)
        requires
            self.wf(),
            slot < self.members().len(),
        ensures
            r@ == self.lists()[slot as int],
    {
        copy_heroes(&self.picks[slot])
    }

    /// How many heroes the participant at `slot` is shown.
    pub fn wanted_at(&self, slot: usize) -> (r: u32)
        requires
            self.wf(),
            slot < self.members().len(),
        ensures
            r == self.members()[slot as int].number_of_heroes_shown,
    {
        self.players[slot].number_of_heroes_shown
    }

    /// Empties the list of the participant at `slot`; the heroes stay taken.
    pub fn clear_slot(&mut self, slot: usize)
        requires
            old(self).wf(),
            slot < old(self).members().len(),
        ensures
            final(self).wf(),
            final(self).members() == old(self).members(),
            final(self).lists() == old(self).lists().update(slot as int, Seq::<Hero>::empty()),
            final(self).taken_set() == old(self).taken_set(),
    {
        let ghost l0 = self.lists();
        self.picks.set(slot, Vec::new());
        proof {
            let l = self.lists();
            assert(l =~= l0.update(slot as int, Seq::<Hero>::empty()));
            assert forall|i: int, j: int, a: int, b: int|
                0 <= i < l.len() && 0 <= j < l.len() && 0 <= a < l[i].len() && 0 <= b < l[j].len() && (
                i != j || a != b) implies #[trigger] l[i][a] != #[trigger] l[j][b] by {
                assert(l[i][a] == l0[i][a]);
                assert(l[j][b] == l0[j][b]);
            }
            assert forall|i: int, a: int|
                0 <= i < l.len() && 0 <= a < l[i].len() implies self.taken_set().contains(
                #[trigger] l[i][a]) by {
                assert(l[i][a] == l0[i][a]);
            }
        }
    }

    /// Returns `heroes` to the undrafted ones; none of them may be on any list.
    pub fn release(&mut self, heroes: &Vec<Hero>)
        requires
            old(self).wf(),
            forall|i: int, a: int|
                0 <= i < old(self).lists().len() && 0 <= a < old(self).lists()[i].len()
                    ==> !heroes@.contains(#[trigger] old(self).lists()[i][a]),
        ensures
            final(self).wf(),
            final(self).members() == old(self).members(),
            final(self).lists() == old(self).lists(),
            forall|h: Hero|
                #[trigger] final(self).taken_set().contains(h) <==> (old(self).taken_set().contains(h)
                    && !heroes@.contains(h)),
    {
        let mut kept: Vec<Hero> = Vec::new();
        let mut i: usize = 0;
        while i < self.taken.len()
            invariant
                i <= self.taken@.len(),
                forall|h: Hero|
                    kept@.contains(h) <==> (self.taken@.subrange(0, i as int).contains(h)
                        && !heroes@.contains(h)),
            decreases self.taken@.len() - i,
        {
            let h = self.taken[i];
            if !contains_hero(heroes, h) {
                kept.push(h);
            }
            proof {
                assert(self.taken@.subrange(0, i + 1) == self.taken@.subrange(0, i as int).push(h));
            }
            i = i + 1;
        }
        proof {
            assert(self.taken@.subrange(0, self.taken@.len() as int) == self.taken@);
        }
        self.taken = kept;
    }

    /// Replaces the list at `slot` by a fresh draw from `hero_pool` (by role `tag` when
    /// given) that avoids every taken hero, then hands the old list back.
    pub fn redraw(&mut self, slot: usize, hero_pool: &Vec<Hero>, tag: Option<HeroTag>) -> (r: Vec<Hero>)
        requires
            old(self).wf(),
            slot < old(self).members().len(),
        ensures
            final(self).wf(),
            final(self).members() == old(self).members(),
            final(self).lists() == old(self).lists().update(slot as int, r@),
            r@.len() >= old(self).members()[slot as int].number_of_heroes_shown || (forall|h: Hero|
                hero_pool@.contains(h) ==> old(self).taken_set().contains(h) || r@.contains(h)),
            forall|h: Hero| r@.contains(h) ==> hero_pool@.contains(h) && !old(self).taken_set().contains(h),
            forall|h: Hero|
                #[trigger] final(self).taken_set().contains(h) <==> ((old(self).taken_set().contains(h)
                    && !old(self).lists()[slot as int].contains(h)) || r@.contains(h)),
            tag is Some && role_candidates(hero_pool@, old(self).taken_set(), tag->0).len()
                >= old(self).members()[slot as int].number_of_heroes_shown ==> forall|h: Hero|
                r@.contains(h) ==> h.tag_spec() == tag->0,
    {
        let ghost d0 = *self;
        let old_picks = self.list_at(slot);
        let want = self.wanted_at(slot);
        self.clear_slot(slot);
        let mut i: u32 = 0;
        while i < want
            invariant
                d0.wf(),
                self.wf(),
                slot < d0.members().len(),
                want == d0.members()[slot as int].number_of_heroes_shown,
                old_picks@ == d0.lists()[slot as int],
                i <= want,
                self.members() == d0.members(),
                self.lists().len() == d0.lists().len(),
                forall|x: int| 0 <= x < d0.lists().len() && x != slot ==> #[trigger] self.lists()[x] == d0.lists()[x],
                self.lists()[slot as int].len() <= i,
                forall|a: int|
                    0 <= a < self.lists()[slot as int].len() ==> hero_pool@.contains(
                        #[trigger] self.lists()[slot as int][a],
                    ) && !d0.taken_set().contains(self.lists()[slot as int][a]),
                forall|h: Hero|
                    #[trigger] self.taken_set().contains(h) <==> (d0.taken_set().contains(h)
                        || self.lists()[slot as int].contains(h)),
                served(*self, slot as int, i as int, hero_pool@),
                tag is Some && role_candidates(hero_pool@, d0.taken_set(), tag->0).len() >= want ==> forall|a: int|
                    0 <= a < self.lists()[slot as int].len() ==> (#[trigger] self.lists()[slot as int][a]).tag_spec() == tag->0,
            decreases want - i,
        {
            let ghost d1 = *self;
            proof {
                broadcast use vstd::seq_lib::seq_to_set_is_finite;
                if tag is Some && role_candidates(hero_pool@, d0.taken_set(), tag->0).len() >= want {
                    let t = tag->0;
                    let c = role_candidates(hero_pool@, d0.taken_set(), t);
                    let cur = self.lists()[slot as int];
                    let l = cur.to_set();
                    assert(c.subset_of(hero_pool@.to_set()));
                    vstd::set_lib::lemma_len_subset(c, hero_pool@.to_set());
                    if c.subset_of(l) {
                        vstd::set_lib::lemma_len_subset(c, l);
                        cur.lemma_cardinality_of_set();
                        assert(false);
                    }
                    let h = choose|h: Hero| c.contains(h) && !l.contains(h);
                    assert(!cur.contains(h));
                    assert(!self.taken_set().contains(h));
                    assert(hero_pool@.contains(h) && h.tag_spec() == t);
                }
            }
            match draw(hero_pool, &self.taken, tag) {
                Some(h) => {
                    self.give(slot, h);
                    proof {
                        let d2 = *self;
                        assert(d2.lists()[slot as int] == d1.lists()[slot as int].push(h));
                        assert forall|x: Hero| #[trigger] d2.taken_set().contains(x) <==> (
                        d0.taken_set().contains(x) || d2.lists()[slot as int].contains(x)) by {
                            if x == h {
                                assert(d2.lists()[slot as int].last() == h);
                                assert(d2.taken_set().last() == h);
                            } else {
                                if d2.taken_set().contains(x) {
                                    let j = choose|j: int| 0 <= j < d2.taken_set().len() && d2.taken_set()[j] == x;
                                    assert(d1.taken_set()[j] == x);
                                }
                                if d2.lists()[slot as int].contains(x) {
                                    let j = choose|j: int|
                                        0 <= j < d2.lists()[slot as int].len() && d2.lists()[slot as int][j] == x;
                                    assert(d1.lists()[slot as int][j] == x);
                                }
                                if d1.taken_set().contains(x) {
                                    let j = choose|j: int| 0 <= j < d1.taken_set().len() && d1.taken_set()[j] == x;
                                    assert(d2.taken_set()[j] == x);
                                }
                                if d1.lists()[slot as int].contains(x) {
                                    let j = choose|j: int|
                                        0 <= j < d1.lists()[slot as int].len() && d1.lists()[slot as int][j] == x;
                                    assert(d2.lists()[slot as int][j] == x);
                                }
                            }
                        }
                        assert(!d0.taken_set().contains(h));
                    }
                },
                None => {},
            }
            i = i + 1;
        }
        let new_picks = self.list_at(slot);
        let ghost d1 = *self;
        proof {
            assert forall|x: int, a: int|
                0 <= x < d1.lists().len() && 0 <= a < d1.lists()[x].len() implies !old_picks@.contains(
                #[trigger] d1.lists()[x][a]) by {
                if x == slot {
                    if old_picks@.contains(d1.lists()[x][a]) {
                        let b = choose|b: int| 0 <= b < old_picks@.len() && old_picks@[b] == d1.lists()[x][a];
                        assert(d0.taken_set().contains(d0.lists()[slot as int][b]));
                    }
                } else {
                    if old_picks@.contains(d1.lists()[x][a]) {
                        let b = choose|b: int| 0 <= b < old_picks@.len() && old_picks@[b] == d1.lists()[x][a];
                        assert(d0.lists()[x][a] == d0.lists()[slot as int][b]);
                    }
                }
            }
        }
        self.release(&old_picks);
        proof {
            let d2 = *self;
            assert(d2.lists() =~= d0.lists().update(slot as int, new_picks@));
            assert forall|h: Hero| new_picks@.contains(h) implies hero_pool@.contains(h) && !d0.taken_set().contains(h) by {
                let a = choose|a: int| 0 <= a < new_picks@.len() && new_picks@[a] == h;
                assert(new_picks@[a] == d2.lists()[slot as int][a]);
            }
            assert forall|h: Hero| #[trigger] d2.taken_set().contains(h) <==> ((d0.taken_set().contains(h)
                && !d0.lists()[slot as int].contains(h)) || new_picks@.contains(h)) by {
                assert(d1.taken_set().contains(h) <==> (d0.taken_set().contains(h) || d1.lists()[slot as int].contains(h)));
                assert(d2.taken_set().contains(h) <==> (d1.taken_set().contains(h) && !old_picks@.contains(h)));
                assert(new_picks@ == d1.lists()[slot as int]);
                if new_picks@.contains(h) {
                    let a = choose|a: int| 0 <= a < new_picks@.len() && new_picks@[a] == h;
                    assert(new_picks@[a] == d1.lists()[slot as int][a]);
                    assert(!d0.taken_set().contains(h));
                    if old_picks@.contains(h) {
                        let b = choose|b: int| 0 <= b < old_picks@.len() && old_picks@[b] == h;
                        assert(d0.taken_set().contains(d0.lists()[slot as int][b]));
                    }
                }
            }
            assert(served(d1, slot as int, want as int, hero_pool@));
            if new_picks@.len() < want {
                assert forall|h: Hero| hero_pool@.contains(h) implies d0.taken_set().contains(h)
                    || new_picks@.contains(h) by {
                    assert(d1.taken_set().contains(h));
                }
            }
        }
        new_picks
    }

    /// A copy of each participant with their heroes.
    pub fn snapshot(&self) -> (r: Vec<(PlayerInfo, Vec<Hero>)>)
        requires
            self.wf(),
        ensures
            r@.len() == self.members().len(),
            lists_of(r@) == self.lists(),
            forall|i: int| 0 <= i < r@.len() ==> same_player(#[trigger] r@[i].0, self.members()[i]),
    {
        let mut out: Vec<(PlayerInfo, Vec<Hero>)> = Vec::new();
        let mut i: usize = 0;
        while i < self.players.len()
            invariant
                self.wf(),
                i <= self.players@.len(),
                out@.len() == i,
                forall|j: int| 0 <= j < i ==> (#[trigger] out@[j]).1@ == self.lists()[j],
                forall|j: int| 0 <= j < i ==> same_player(#[trigger] out@[j].0, self.members()[j]),
            decreases self.players@.len() - i,
        {
            out.push((self.players[i].duplicate(), copy_heroes(&self.picks[i])));
            i = i + 1;
        }
        assert(lists_of(out@) =~= self.lists());
        out
    }
}

/// A copy of a hero list.
pub fn copy_heroes(v: &Vec<Hero>) -> (r: Vec<Hero>)
    ensures
        r@ == v@,
{
    let mut out: Vec<Hero> = Vec::new();
    let mut i: usize = 0;
    while i < v.len()
        invariant
            i <= v@.len(),
            out@ == v@.subrange(0, i as int),
        decreases v@.len() - i,
    {
        out.push(v[i]);
        i = i + 1;
    }
    out
}

} // verus!
