use vstd::prelude::*;
use crate::chance::{random_index, shuffle};
use crate::hero_assignment_strategy::{
    role_candidates,
    assign_outcome, grows_from, lemma_give_grows, reroll_outcome,
    HeroAssignmentStrategy,
    lemma_give_keeps, lemma_served_grows, min_of, served, has_served_slot,
    all_distinct, assign_tagged_hero, contains_hero, copy_heroes, drawn_from, kept_or_drawn, lists_of, pick_random,
    pick_untaken, rerolled, same_player, Assignment, DotaTeam, PlayerInfo, RerollError,
};
use crate::heroes::{Hero, HeroTag};
use crate::ids::DiscordUsername;

verus! {

broadcast use vstd::seq_lib::group_seq_properties, vstd::seq_lib::group_to_multiset_ensures;

/// `row` is the first similarity row of `hero`.
pub open spec fn first_row(similarity: Seq<(Hero, Vec<Hero>)>, hero: Hero, row: int) -> bool {
    0 <= row < similarity.len() && similarity[row].0 == hero && forall|j: int|
        0 <= j < row ==> (#[trigger] similarity[j]).0 != hero
}

/// Position of the similarity row of `hero`.
fn similarity_row(similarity: &Vec<(Hero, Vec<Hero>)>, hero: Hero) -> (r: Option<usize>)
    ensures
        r is Some ==> first_row(similarity@, hero, r->0 as int),
        r is None ==> forall|i: int| 0 <= i < similarity@.len() ==> (#[trigger] similarity@[i]).0 != hero,
{
    let mut i: usize = 0;
    while i < similarity.len()
        invariant
            i <= similarity@.len(),
            forall|j: int| 0 <= j < i ==> (#[trigger] similarity@[j]).0 != hero,
        decreases similarity@.len() - i,
    {
        if similarity[i].0 == hero {
            return Some(i);
        }
        i = i + 1;
    }
    None
}

/// A hero of `pool` close to `hero`: one of the first three untaken ones of its similarity
/// row, drawn at random; failing that, a draw by role as `assign_tagged_hero` makes it.
pub fn assign_similar_hero(
    similarity: &Vec<(Hero, Vec<Hero>)>,
    hero: Hero,
    pool: &Vec<Hero>,
    taken: &Vec<Hero>,
    tag: HeroTag,
) -> (r: Option<Hero>)
    ensures
        r is None <==> (forall|h: Hero| pool@.contains(h) ==> taken@.contains(h)),
        r is Some ==> pool@.contains(r->0) && !taken@.contains(r->0),
        forall|row: int, x: Hero|
            first_row(similarity@, hero, row) && (#[trigger] similarity@[row].1@.contains(x)) && pool@.contains(x)
                && !taken@.contains(x) ==> r is Some && similarity@[row].1@.contains(r->0),
{
    match similarity_row(similarity, hero) {
        Some(row) => {
            let similar = &similarity[row].1;
            let mut sampled: Vec<Hero> = Vec::new();
            let mut i: usize = 0;
            while i < similar.len() && sampled.len() < 3
                invariant
                    i <= similar@.len(),
                    *similar == similarity@[row as int].1,
                    forall|h: Hero| sampled@.contains(h) ==> pool@.contains(h) && !taken@.contains(h) && similar@.contains(h),
                    sampled@.len() == 0 ==> forall|j: int|
                        0 <= j < i ==> !(pool@.contains(#[trigger] similar@[j]) && !taken@.contains(similar@[j])),
                decreases similar@.len() - i,
            {
                let h = similar[i];
                if contains_hero(pool, h) && !contains_hero(taken, h) {
                    let ghost before = sampled@;
                    sampled.push(h);
                    proof {
                        assert forall|x: Hero| sampled@.contains(x) implies pool@.contains(x) && !taken@.contains(x)
                            && similar@.contains(x) by {
                            let q = choose|q: int| 0 <= q < sampled@.len() && sampled@[q] == x;
                            if q < before.len() {
                                assert(before[q] == x);
                            } else {
                                assert(similar@[i as int] == x);
                            }
                        }
                    }
                }
                i = i + 1;
            }
            if sampled.len() > 0 {
                let k = random_index(sampled.len());
                let r = sampled[k];
                proof {
                    assert(sampled@.contains(r));
                }
                return Some(r);
            }
            proof {
                assert forall|rw: int, x: Hero|
                    first_row(similarity@, hero, rw) && (#[trigger] similarity@[rw].1@.contains(x)) && pool@.contains(x)
                        && !taken@.contains(x) implies false by {
                    assert(rw == row);
                    let j = choose|j: int| 0 <= j < similar@.len() && similar@[j] == x;
                }
            }
        },
        None => {},
    }
    assign_tagged_hero(pool, taken, tag)
}

/// `(key, index)` pairs in ascending order of keys, equal keys in ascending order of index.
pub open spec fn key_order(a: (i64, usize), b: (i64, usize)) -> bool {
    a.0 < b.0 || (a.0 == b.0 && a.1 < b.1)
}

/// Relies on itertools' `Itertools::sorted_by_key` on the key: the same pairs, in ascending
/// order of keys, and, as the sort is stable, pairs with equal keys in their input order.
#[verifier::external_body]
fn sorted_by_key(v: Vec<(i64, usize)>) -> (r: Vec<(i64, usize)>)
    requires
        forall|i: int, j: int| 0 <= i < j < v@.len() ==> (#[trigger] v@[i]).1 < (#[trigger] v@[j]).1,
    ensures
        r@.to_multiset() == v@.to_multiset(),
        forall|i: int, j: int| 0 <= i < j < r@.len() ==> key_order(#[trigger] r@[i], #[trigger] r@[j]),
{
    itertools::Itertools::sorted_by_key(v.into_iter(), |p| p.0).collect()
}

/// Draft members of team `team`, by descending rating, ties in input order.
pub fn team_order(hero_pools: &Vec<(PlayerInfo, Vec<Hero>)>, team: DotaTeam) -> (r: Vec<usize>)
    ensures
        forall|p: int| 0 <= p < r@.len() ==> #[trigger] r@[p] < hero_pools@.len(),
        forall|p: int| 0 <= p < r@.len() ==> hero_pools@[#[trigger] r@[p] as int].0.dota_team == team,
        forall|k: usize| k < hero_pools@.len() && hero_pools@[k as int].0.dota_team == team ==> r@.contains(k),
        forall|p: int, q: int|
            0 <= p < q < r@.len() ==> hero_pools@[#[trigger] r@[p] as int].0.elo >= hero_pools@[#[trigger] r@[q] as int].0.elo,
{
    broadcast use vstd::seq_lib::group_to_multiset_ensures;

    let n = hero_pools.len();
    let mut keyed: Vec<(i64, usize)> = Vec::new();
    let mut i: usize = 0;
    while i < n
        invariant
            i <= n,
            n == hero_pools@.len(),
            forall|p: int| 0 <= p < keyed@.len() ==> (#[trigger] keyed@[p]).1 < i,
            forall|p: int| 0 <= p < keyed@.len() ==> hero_pools@[(#[trigger] keyed@[p]).1 as int].0.dota_team == team,
            forall|p: int| 0 <= p < keyed@.len() ==> (#[trigger] keyed@[p]).0 == -(hero_pools@[keyed@[p].1 as int].0.elo as int),
            forall|p: int, q: int| 0 <= p < q < keyed@.len() ==> (#[trigger] keyed@[p]).1 < (#[trigger] keyed@[q]).1,
            forall|k: usize| k < i && hero_pools@[k as int].0.dota_team == team ==> exists|p: int|
                0 <= p < keyed@.len() && (#[trigger] keyed@[p]).1 == k,
        decreases n - i,
    {
        if hero_pools[i].0.dota_team == team {
            let ghost before = keyed@;
            keyed.push((-(hero_pools[i].0.elo as i64), i));
            proof {
                assert forall|k: usize| k < i + 1 && hero_pools@[k as int].0.dota_team == team implies exists|p: int|
                    0 <= p < keyed@.len() && (#[trigger] keyed@[p]).1 == k by {
                    if k == i {
                        assert(keyed@[before.len() as int].1 == k);
                    } else {
                        let p = choose|p: int| 0 <= p < before.len() && (#[trigger] before[p]).1 == k;
                        assert(keyed@[p] == before[p]);
                    }
                }
            }
        }
        i = i + 1;
    }
    let ghost unsorted = keyed@;
    let sorted = sorted_by_key(keyed);
    let mut out: Vec<usize> = Vec::new();
    let mut j: usize = 0;
    while j < sorted.len()
        invariant
            j <= sorted@.len(),
            n == hero_pools@.len(),
            out@.len() == j,
            forall|p: int| 0 <= p < j ==> out@[p] == (#[trigger] sorted@[p]).1,
        decreases sorted@.len() - j,
    {
        out.push(sorted[j].1);
        j = j + 1;
    }
    proof {
        assert forall|p: int| 0 <= p < sorted@.len() implies unsorted.contains(#[trigger] sorted@[p]) by {
            assert(sorted@.to_multiset().count(sorted@[p]) > 0);
        }
        assert forall|p: int| 0 <= p < out@.len() implies #[trigger] out@[p] < hero_pools@.len()
            && hero_pools@[out@[p] as int].0.dota_team == team by {
            assert(unsorted.contains(sorted@[p]));
            let q = choose|q: int| 0 <= q < unsorted.len() && unsorted[q] == sorted@[p];
            assert(out@[p] == sorted@[p].1);
        }
        assert forall|k: usize| k < hero_pools@.len() && hero_pools@[k as int].0.dota_team == team implies out@.contains(k) by {
            let q = choose|q: int| 0 <= q < unsorted.len() && (#[trigger] unsorted[q]).1 == k;
            assert(unsorted.to_multiset().count(unsorted[q]) > 0);
            assert(sorted@.contains(unsorted[q]));
            let p = choose|p: int| 0 <= p < sorted@.len() && sorted@[p] == unsorted[q];
            assert(out@[p] == k);
        }
        assert forall|p: int, q: int| 0 <= p < q < out@.len() implies hero_pools@[#[trigger] out@[p] as int].0.elo
            >= hero_pools@[#[trigger] out@[q] as int].0.elo by {
            assert(key_order(sorted@[p], sorted@[q]));
            assert(unsorted.contains(sorted@[p]));
            assert(unsorted.contains(sorted@[q]));
            let a = choose|a: int| 0 <= a < unsorted.len() && unsorted[a] == sorted@[p];
            let b = choose|b: int| 0 <= b < unsorted.len() && unsorted[b] == sorted@[q];
        }
    }
    out
}

/// The order in which pairs draw: the full pairs in random order, then the positions that
/// only the larger team fills.
pub fn players_pairing(t1_len: usize, t2_len: usize) -> (r: Vec<usize>)
    ensures
        r@.len() == if t1_len < t2_len { t2_len } else { t1_len },
        forall|p: int| 0 <= p < r@.len() ==> #[trigger] r@[p] < r@.len(),
        forall|i: usize| i < r@.len() ==> r@.contains(i),
{
    let (t_min, t_max) = if t2_len < t1_len { (t2_len, t1_len) } else { (t1_len, t2_len) };
    let mut order: Vec<usize> = Vec::new();
    let mut i: usize = 0;
    while i < t_min
        invariant
            i <= t_min,
            order@.len() == i,
            forall|j: int| 0 <= j < i ==> order@[j] == j,
        decreases t_min - i,
    {
        order.push(i);
        i = i + 1;
    }
    let ghost before = order@;
    shuffle(&mut order);
    proof {
        assert forall|k: usize| k < t_min implies order@.contains(k) by {
            assert(before[k as int] == k);
            assert(before.contains(k));
            assert(before.to_multiset().count(k) > 0);
        }
        assert forall|p: int| 0 <= p < order@.len() implies #[trigger] order@[p] < t_min by {
            assert(order@.contains(order@[p]));
            assert(order@.to_multiset().count(order@[p]) > 0);
            assert(before.contains(order@[p]));
        }
        assert(order@.len() == before.to_multiset().len());
    }
    let mut i: usize = t_min;
    while i < t_max
        invariant
            t_min <= i <= t_max,
            order@.len() == i,
            forall|p: int| 0 <= p < order@.len() ==> #[trigger] order@[p] < i,
            forall|k: usize| k < i ==> order@.contains(k),
        decreases t_max - i,
    {
        order.push(i);
        proof {
            assert(order@[i as int] == i);
        }
        i = i + 1;
    }
    order
}

/// The player at position `pair_id` of `team`, if there is one, is served for `round` rounds.
pub open spec fn done_in_round(
    d: Assignment,
    slots: Seq<usize>,
    team: Seq<usize>,
    hero_pools: Seq<(PlayerInfo, Vec<Hero>)>,
    pair_id: usize,
    round: int,
) -> bool {
    pair_id < team.len() ==> served(
        d,
        slots[team[pair_id as int] as int] as int,
        min_of(round, hero_pools[team[pair_id as int] as int].0.number_of_heroes_shown as int),
        hero_pools[team[pair_id as int] as int].1@,
    )
}

proof fn lemma_after_visit(
    d0: Assignment,
    d1: Assignment,
    slots: Seq<usize>,
    radiant: Seq<usize>,
    dire: Seq<usize>,
    pairing: Seq<usize>,
    hero_pools: Seq<(PlayerInfo, Vec<Hero>)>,
    idx: int,
    round: int,
    k: int,
)
    requires
        0 <= idx < pairing.len(),
        0 <= k < hero_pools.len(),
        slots.len() == hero_pools.len(),
        d0.members().len() == d0.lists().len(),
        d1.members() == d0.members(),
        d1.lists().len() == d0.lists().len(),
        forall|p: int| 0 <= p < radiant.len() ==> #[trigger] radiant[p] < hero_pools.len(),
        forall|p: int| 0 <= p < dire.len() ==> #[trigger] dire[p] < hero_pools.len(),
        forall|j: int| 0 <= j < hero_pools.len() ==> #[trigger] slots[j] < d0.members().len(),
        forall|x: int| 0 <= x < d0.lists().len() ==> #[trigger] d1.lists()[x].len() >= d0.lists()[x].len(),
        forall|h: Hero| d0.taken_set().contains(h) ==> d1.taken_set().contains(h),
        forall|j: int|
            0 <= j < hero_pools.len() ==> served(
                d0,
                #[trigger] slots[j] as int,
                min_of(round, hero_pools[j].0.number_of_heroes_shown as int),
                hero_pools[j].1@,
            ),
        served(
            d1,
            slots[k] as int,
            min_of(d0.lists()[slots[k] as int].len() as int + 1, hero_pools[k].0.number_of_heroes_shown as int),
            hero_pools[k].1@,
        ),
        forall|q: int| 0 <= q < idx ==> done_in_round(d0, slots, radiant, hero_pools, #[trigger] pairing[q], round + 1),
        forall|q: int| 0 <= q < idx ==> done_in_round(d0, slots, dire, hero_pools, #[trigger] pairing[q], round + 1),
    ensures
        forall|j: int|
            0 <= j < hero_pools.len() ==> served(
                d1,
                #[trigger] slots[j] as int,
                min_of(round, hero_pools[j].0.number_of_heroes_shown as int),
                hero_pools[j].1@,
            ),
        served(
            d1,
            slots[k] as int,
            min_of(round + 1, hero_pools[k].0.number_of_heroes_shown as int),
            hero_pools[k].1@,
        ),
        forall|q: int| 0 <= q < idx ==> done_in_round(d1, slots, radiant, hero_pools, #[trigger] pairing[q], round + 1),
        forall|q: int| 0 <= q < idx ==> done_in_round(d1, slots, dire, hero_pools, #[trigger] pairing[q], round + 1),
{
    assert forall|j: int| 0 <= j < hero_pools.len() implies served(
        d1,
        #[trigger] slots[j] as int,
        min_of(round, hero_pools[j].0.number_of_heroes_shown as int),
        hero_pools[j].1@,
    ) by {
        lemma_served_grows(d0, d1, slots[j] as int, min_of(round, hero_pools[j].0.number_of_heroes_shown as int), hero_pools[j].1@);
    }
    assert forall|q: int| 0 <= q < idx implies done_in_round(d1, slots, radiant, hero_pools, #[trigger] pairing[q], round + 1) by {
        if pairing[q] < radiant.len() {
            let j = radiant[pairing[q] as int] as int;
            lemma_served_grows(d0, d1, slots[j] as int, min_of(round + 1, hero_pools[j].0.number_of_heroes_shown as int), hero_pools[j].1@);
        }
    }
    assert forall|q: int| 0 <= q < idx implies done_in_round(d1, slots, dire, hero_pools, #[trigger] pairing[q], round + 1) by {
        if pairing[q] < dire.len() {
            let j = dire[pairing[q] as int] as int;
            lemma_served_grows(d0, d1, slots[j] as int, min_of(round + 1, hero_pools[j].0.number_of_heroes_shown as int), hero_pools[j].1@);
        }
    }
    assert(served(d0, slots[k] as int, min_of(round, hero_pools[k].0.number_of_heroes_shown as int), hero_pools[k].1@));
    if d0.lists()[slots[k] as int].len() < min_of(round, hero_pools[k].0.number_of_heroes_shown as int) {
        assert forall|h: Hero| hero_pools[k].1@.contains(h) implies #[trigger] d1.taken_set().contains(h) by {
            assert(d0.taken_set().contains(h));
        }
    }
}

/// The role a reroll keeps: that of the player's first hero, or Support when they hold none.
pub open spec fn reroll_role(list: Seq<Hero>) -> HeroTag {
    if list.len() > 0 {
        list[0].tag_spec()
    } else {
        HeroTag::Support
    }
}

/// When the pool still offers enough untaken heroes of the rerolled player's role, every
/// new hero has that role.
#[verifier::opaque]
pub open spec fn keeps_role(before: Assignment, name: Seq<char>, pool: Seq<Hero>, r: Result<Vec<Hero>, RerollError>) -> bool {
    forall|s: int|
        0 <= s < before.members().len() && (#[trigger] before.members()[s]).name@ == name && (forall|i: int|
            0 <= i < s ==> before.members()[i].name@ != name) && r is Ok && role_candidates(
            pool,
            before.taken_set(),
            reroll_role(before.lists()[s]),
        ).len() >= before.members()[s].number_of_heroes_shown ==> forall|h: Hero|
            r->Ok_0@.contains(h) ==> h.tag_spec() == reroll_role(before.lists()[s])
}

/// Draws heroes by role. The players of the two teams are paired by rating, each pair gets
/// a role in turn (Core, Support, Carry, Core, ...), and the second player of a pair gets a
/// hero close to the first one's pick.
pub struct TaggedHeroPool {
    hero_similarity: Vec<(Hero, Vec<Hero>)>,
    draft: Assignment,
}

impl TaggedHeroPool {
    /// The state of the current match's draft.
    pub closed spec fn state(self) -> Assignment {
        self.draft
    }

    pub open spec fn wf(self) -> bool {
        self.state().wf()
    }

    /// A pool with no similarity table: second players of a pair draw by role.
    pub fn new() -> (r: TaggedHeroPool)
        ensures
            r.wf(),
            r.state().members().len() == 0,
            r.state().taken_set().len() == 0,
    {
        TaggedHeroPool { hero_similarity: Vec::new(), draft: Assignment::new() }
    }

    /// The same pool with `similarity`: for a hero, the other heroes from closest to farthest.
    pub fn with_similarity(self, similarity: Vec<(Hero, Vec<Hero>)>) -> (r: TaggedHeroPool)
        ensures
            r.state() == self.state(),
    {
        TaggedHeroPool { hero_similarity: similarity, draft: self.draft }
    }

    /// The role of `hero` in the hero table.
    pub fn deduce_tag(&self, hero: &Hero) -> (r: HeroTag)
        ensures
            r == hero.tag_spec(),
    {
        hero.tag()
    }

    /// Forgets the current match: no assignment and no taken hero.
    pub fn clear(&mut self)
        ensures
            final(self).wf(),
            final(self).state().members().len() == 0,
            final(self).state().taken_set().len() == 0,
    {
        self.draft = Assignment::new();
    }

    /// One draw for the draft entry `k`, at `slot`; `paired` is the pick of the first player of
    /// the pair, if any.
    fn visit(
        &mut self,
        hero_pools: &Vec<(PlayerInfo, Vec<Hero>)>,
        k: usize,
        slot: usize,
        tag: HeroTag,
        paired: Option<Hero>,
        Ghost(entry): Ghost<Assignment>,
    ) -> (r: Option<Hero>)
        requires
            old(self).wf(),
            k < hero_pools@.len(),
            slot < old(self).state().members().len(),
            same_player(old(self).state().members()[slot as int], hero_pools@[k as int].0),
            kept_or_drawn(entry, old(self).state(), hero_pools@),
            grows_from(entry, old(self).state()),
        ensures
            final(self).wf(),
            final(self).state().members() == old(self).state().members(),
            kept_or_drawn(entry, final(self).state(), hero_pools@),
            grows_from(entry, final(self).state()),
            forall|x: int|
                0 <= x < old(self).state().lists().len() ==> #[trigger] final(self).state().lists()[x].len()
                    >= old(self).state().lists()[x].len(),
            forall|h: Hero| old(self).state().taken_set().contains(h) ==> final(self).state().taken_set().contains(h),
            served(
                final(self).state(),
                slot as int,
                min_of(
                    old(self).state().lists()[slot as int].len() as int + 1,
                    hero_pools@[k as int].0.number_of_heroes_shown as int,
                ),
                hero_pools@[k as int].1@,
            ),
    {
        if self.draft.list_len(slot) as u64 >= self.draft.wanted_at(slot) as u64 {
            return None;
        }
        let pick = match paired {
            Some(p) => assign_similar_hero(&self.hero_similarity, p, &hero_pools[k].1, self.draft.taken(), tag),
            None => assign_tagged_hero(&hero_pools[k].1, self.draft.taken(), tag),
        };
        match pick {
            Some(h) => {
                let ghost d0 = self.draft;
                self.draft.give(slot, h);
                proof {
                    lemma_give_keeps(entry, d0, self.draft, hero_pools@, k as int, slot as int, h);
                    lemma_give_grows(entry, d0, self.draft, slot as int, h);
                    assert forall|x: Hero| d0.taken_set().contains(x) implies self.draft.taken_set().contains(x) by {
                        let i = choose|i: int| 0 <= i < d0.taken_set().len() && d0.taken_set()[i] == x;
                        assert(self.draft.taken_set()[i] == x);
                    }
                }
            },
            None => {},
        }
        pick
    }

    /// Gives every player of `hero_pools` up to their number of heroes, a hero per player and
    /// round, by the role of their pair, with no hero handed out twice in the match.
    pub fn assign_heroes(&mut self, hero_pools: Vec<(PlayerInfo, Vec<Hero>)>) -> (r: Vec<
        (PlayerInfo, Vec<Hero>),
    >)
        requires
            old(self).wf(),
        ensures
            final(self).wf(),
            r@.len() == final(self).state().members().len(),
            lists_of(r@) == final(self).state().lists(),
            forall|i: int| 0 <= i < r@.len() ==> same_player(#[trigger] r@[i].0, final(self).state().members()[i]),
            all_distinct(lists_of(r@)),
            kept_or_drawn(old(self).state(), final(self).state(), hero_pools@),
            assign_outcome(old(self).state(), final(self).state(), hero_pools@, r@),
            forall|k: int|
                0 <= k < hero_pools@.len() ==> has_served_slot(
                    final(self).state(),
                    #[trigger] hero_pools@[k].0,
                    hero_pools@[k].1@,
                ),
    {
        let ghost entry = self.draft;
        let slots = self.draft.enter_all(&hero_pools);
        let radiant = team_order(&hero_pools, DotaTeam::Radiant);
        let dire = team_order(&hero_pools, DotaTeam::Dire);
        let n = hero_pools.len();
        let mut rounds: u32 = 0;
        let mut j: usize = 0;
        while j < n
            invariant
                n == hero_pools@.len(),
                j <= n,
                forall|i: int| 0 <= i < j ==> hero_pools@[i].0.number_of_heroes_shown <= rounds,
            decreases n - j,
        {
            if hero_pools[j].0.number_of_heroes_shown > rounds {
                rounds = hero_pools[j].0.number_of_heroes_shown;
            }
            j = j + 1;
        }
        let pairing = players_pairing(radiant.len(), dire.len());
        let ghost mem = self.draft.members();
        proof {
            assert(kept_or_drawn(entry, self.draft, hero_pools@));
            assert forall|k: int| 0 <= k < n implies served(
                self.draft,
                #[trigger] slots@[k] as int,
                min_of(0, hero_pools@[k].0.number_of_heroes_shown as int),
                hero_pools@[k].1@,
            ) by {}
        }
        let mut round: u32 = 0;
        while round < rounds
            invariant
                n == hero_pools@.len(),
                round <= rounds,
                self.draft.wf(),
                self.draft.members() == mem,
                slots@.len() == n,
                forall|p: int| 0 <= p < radiant@.len() ==> #[trigger] radiant@[p] < n,
                forall|p: int| 0 <= p < dire@.len() ==> #[trigger] dire@[p] < n,
                forall|p: int| 0 <= p < radiant@.len() ==> hero_pools@[#[trigger] radiant@[p] as int].0.dota_team == DotaTeam::Radiant,
                forall|p: int| 0 <= p < dire@.len() ==> hero_pools@[#[trigger] dire@[p] as int].0.dota_team == DotaTeam::Dire,
                forall|k: usize| k < n && hero_pools@[k as int].0.dota_team == DotaTeam::Radiant ==> radiant@.contains(k),
                forall|k: usize| k < n && hero_pools@[k as int].0.dota_team == DotaTeam::Dire ==> dire@.contains(k),
                pairing@.len() == if radiant@.len() < dire@.len() { dire@.len() } else { radiant@.len() },
                forall|i: usize| i < pairing@.len() ==> pairing@.contains(i),
                forall|j: int|
                    0 <= j < n ==> #[trigger] slots@[j] < mem.len() && same_player(
                        mem[slots@[j] as int],
                        hero_pools@[j].0,
                    ),
                kept_or_drawn(entry, self.draft, hero_pools@),
                grows_from(entry, self.draft),
                forall|k: int|
                    0 <= k < n ==> served(
                        self.draft,
                        #[trigger] slots@[k] as int,
                        min_of(round as int, hero_pools@[k].0.number_of_heroes_shown as int),
                        hero_pools@[k].1@,
                    ),
            decreases rounds - round,
        {
            let mut idx: usize = 0;
            while idx < pairing.len()
                invariant
                    n == hero_pools@.len(),
                    self.draft.wf(),
                    self.draft.members() == mem,
                    slots@.len() == n,
                    idx <= pairing@.len(),
                    forall|p: int| 0 <= p < radiant@.len() ==> #[trigger] radiant@[p] < n,
                    forall|p: int| 0 <= p < dire@.len() ==> #[trigger] dire@[p] < n,
                    forall|j: int|
                        0 <= j < n ==> #[trigger] slots@[j] < mem.len() && same_player(
                            mem[slots@[j] as int],
                            hero_pools@[j].0,
                        ),
                    kept_or_drawn(entry, self.draft, hero_pools@),
                    grows_from(entry, self.draft),
                grows_from(entry, self.draft),
                    forall|k: int|
                        0 <= k < n ==> served(
                            self.draft,
                            #[trigger] slots@[k] as int,
                            min_of(round as int, hero_pools@[k].0.number_of_heroes_shown as int),
                            hero_pools@[k].1@,
                        ),
                    forall|q: int|
                        0 <= q < idx ==> done_in_round(self.draft, slots@, radiant@, hero_pools@, #[trigger] pairing@[q], round as int + 1),
                    forall|q: int|
                        0 <= q < idx ==> done_in_round(self.draft, slots@, dire@, hero_pools@, #[trigger] pairing@[q], round as int + 1),
                decreases pairing@.len() - idx,
            {
                let pair_id = pairing[idx];
                let tag = HeroTag::next_tag(idx);
                let mut paired: Option<Hero> = None;
                if pair_id < radiant.len() {
                    let k = radiant[pair_id];
                    let ghost d0 = self.draft;
                    paired = self.visit(&hero_pools, k, slots[k], tag, None, Ghost(entry));
                    proof {
                        lemma_after_visit(d0, self.draft, slots@, radiant@, dire@, pairing@, hero_pools@, idx as int, round as int, k as int);
                    }
                }
                if pair_id < dire.len() {
                    let k = dire[pair_id];
                    let ghost d0 = self.draft;
                    self.visit(&hero_pools, k, slots[k], tag, paired, Ghost(entry));
                    proof {
                        lemma_after_visit(d0, self.draft, slots@, radiant@, dire@, pairing@, hero_pools@, idx as int, round as int, k as int);
                    }
                }
                idx = idx + 1;
            }
            proof {
                assert forall|kk: int| 0 <= kk < n implies served(
                    self.draft,
                    #[trigger] slots@[kk] as int,
                    min_of(round + 1, hero_pools@[kk].0.number_of_heroes_shown as int),
                    hero_pools@[kk].1@,
                ) by {
                    let team = if hero_pools@[kk].0.dota_team == DotaTeam::Radiant { radiant@ } else { dire@ };
                    assert(team.contains(kk as usize));
                    let p = choose|p: int| 0 <= p < team.len() && team[p] == kk as usize;
                    assert(pairing@.contains(p as usize));
                    let q = choose|q: int| 0 <= q < pairing@.len() && pairing@[q] == p as usize;
                    assert(done_in_round(self.draft, slots@, team, hero_pools@, pairing@[q], round as int + 1));
                }
            }
            round = round + 1;
        }
        let r = self.draft.snapshot();
        proof {
            assert forall|k: int| 0 <= k < hero_pools@.len() implies has_served_slot(
                self.draft,
                #[trigger] hero_pools@[k].0,
                hero_pools@[k].1@,
            ) by {
                let s = slots@[k] as int;
                assert(served(
                    self.draft,
                    s,
                    min_of(rounds as int, hero_pools@[k].0.number_of_heroes_shown as int),
                    hero_pools@[k].1@,
                ));
                assert(same_player(self.draft.members()[s], hero_pools@[k].0));
            }
        }
        r
    }


    /// Replaces the heroes of the player called `username` by a fresh draw of the role of
    /// their first hero, avoiding every hero taken in this match, the player's own included.
    pub fn reroll(&mut self, username: &DiscordUsername, hero_pool: Vec<Hero>) -> (r: Result<
        Vec<Hero>,
        RerollError,
    >)
        requires
            old(self).wf(),
        ensures
            final(self).wf(),
            old(self).state().members().len() == 0 ==> r is Ok && r->Ok_0@.len() == 0 && final(self).state() == old(self).state(),
            old(self).state().members().len() > 0 ==> (r is Err <==> forall|i: int|
                0 <= i < old(self).state().members().len() ==> (#[trigger] old(self).state().members()[i]).name@ != username@),
            r is Err ==> r->Err_0.player@ == username@ && final(self).state() == old(self).state(),
            r is Ok ==> forall|h: Hero| r->Ok_0@.contains(h) ==> hero_pool@.contains(h),
            reroll_outcome(old(self).state(), final(self).state(), username@, hero_pool@, r),
            keeps_role(old(self).state(), username@, hero_pool@, r),
            old(self).state().members().len() > 0 && r is Ok ==> rerolled(
                old(self).state(),
                final(self).state(),
                username@,
                hero_pool@,
                r->Ok_0@,
            ),
    {
        proof {
            reveal(keeps_role);
        }
        if self.draft.is_empty() {
            return Ok(Vec::new());
        }
        let slot = match self.draft.slot_named(username) {
            Some(s) => s,
            None => {
                return Err(RerollError { player: username.duplicate() });
            },
        };
        let ghost d0 = self.draft;
        let current = self.draft.list_at(slot);
        let tag = if current.len() > 0 {
            current[0].tag()
        } else {
            HeroTag::Support
        };
        proof {
            assert(tag == reroll_role(d0.lists()[slot as int]));
        }
        let new_picks = self.draft.redraw(slot, &hero_pool, Some(tag));
        proof {
            assert(d0.members()[slot as int].name@ == username@);
            reveal(keeps_role);
        }
        Ok(new_picks)
    }
}

impl Default for TaggedHeroPool {
    fn default() -> (r: TaggedHeroPool)
        ensures
            r.wf(),
            r.state().members().len() == 0,
            r.state().taken_set().len() == 0,
    {
        TaggedHeroPool::new()
    }
}

impl HeroAssignmentStrategy for TaggedHeroPool {
    open spec fn ready(&self) -> bool {
        self.wf()
    }

    open spec fn draft(&self) -> Assignment {
        self.state()
    }

    fn assign_heroes(&mut self, hero_pools: Vec<(PlayerInfo, Vec<Hero>)>) -> (r: Vec<(PlayerInfo, Vec<Hero>)>) {
        TaggedHeroPool::assign_heroes(self, hero_pools)
    }

    fn reroll(&mut self, player: &DiscordUsername, hero_pool: Vec<Hero>) -> (r: Result<Vec<Hero>, RerollError>) {
        TaggedHeroPool::reroll(self, player, hero_pool)
    }

    fn clear(&mut self) {
        TaggedHeroPool::clear(self)
    }
}

} // verus!
