use vstd::prelude::*;
use crate::chance::shuffle;
use crate::hero_assignment_strategy::{
    assign_outcome, grows_from, lemma_give_grows, reroll_outcome,
    HeroAssignmentStrategy,
    lemma_give_keeps, lemma_served_grows, min_of,
    all_distinct, drawn_from, kept_or_drawn, has_served_slot, lists_of, rerolled, pick_untaken, same_player, served, Assignment,
    PlayerInfo, RerollError,
};
use crate::heroes::Hero;
use crate::ids::DiscordUsername;

verus! {

broadcast use vstd::seq_lib::group_seq_properties, vstd::seq_lib::group_to_multiset_ensures;

/// Pool sizes of the draft entries.
pub open spec fn pool_len(hero_pools: Seq<(PlayerInfo, Vec<Hero>)>, k: int) -> int {
    hero_pools[k].1@.len() as int
}

/// The order in which players draw: ascending pool size, ties in random order.
pub fn visiting_order(hero_pools: &Vec<(PlayerInfo, Vec<Hero>)>) -> (r: Vec<usize>)
    ensures
        forall|p: int| 0 <= p < r@.len() ==> #[trigger] r@[p] < hero_pools@.len(),
        forall|k: usize| k < hero_pools@.len() ==> r@.contains(k),
        forall|p: int, q: int|
            0 <= p < q < r@.len() ==> pool_len(hero_pools@, #[trigger] r@[p] as int) <= pool_len(
                hero_pools@,
                #[trigger] r@[q] as int,
            ),
{
    let n = hero_pools.len();
    let mut base: Vec<usize> = Vec::new();
    let mut i: usize = 0;
    while i < n
        invariant
            i <= n,
            n == hero_pools@.len(),
            base@.len() == i,
            forall|j: int| 0 <= j < i ==> base@[j] == j,
        decreases n - i,
    {
        base.push(i);
        i = i + 1;
    }
    let ghost before = base@;
    shuffle(&mut base);
    proof {
        assert forall|k: usize| k < n implies base@.contains(k) by {
            assert(before[k as int] == k);
            assert(before.contains(k));
            assert(before.to_multiset().count(k) > 0);
        }
        assert forall|p: int| 0 <= p < base@.len() implies #[trigger] base@[p] < n by {
            assert(base@.contains(base@[p]));
            assert(base@.to_multiset().count(base@[p]) > 0);
            assert(before.contains(base@[p]));
        }
    }
    let mut out: Vec<usize> = Vec::new();
    let mut i: usize = 0;
    while i < base.len()
        invariant
            i <= base@.len(),
            n == hero_pools@.len(),
            forall|p: int| 0 <= p < base@.len() ==> #[trigger] base@[p] < n,
            forall|p: int| 0 <= p < out@.len() ==> #[trigger] out@[p] < n,
            forall|j: int| 0 <= j < i ==> out@.contains(#[trigger] base@[j]),
            forall|k: usize| k < n ==> base@.contains(k),
            forall|p: int, q: int|
                0 <= p < q < out@.len() ==> pool_len(hero_pools@, #[trigger] out@[p] as int)
                    <= pool_len(hero_pools@, #[trigger] out@[q] as int),
        decreases base@.len() - i,
    {
        let x = base[i];
        let key = hero_pools[x].1.len();
        let mut pos: usize = 0;
        while pos < out.len() && hero_pools[out[pos]].1.len() <= key
            invariant
                pos <= out@.len(),
                n == hero_pools@.len(),
                forall|p: int| 0 <= p < out@.len() ==> #[trigger] out@[p] < n,
                forall|p: int| 0 <= p < pos ==> pool_len(hero_pools@, #[trigger] out@[p] as int) <= key,
            decreases out@.len() - pos,
        {
            pos = pos + 1;
        }
        let ghost prev = out@;
        out.insert(pos, x);
        proof {
            assert(out@ == prev.insert(pos as int, x));
            assert forall|p: int| 0 <= p < out@.len() implies #[trigger] out@[p] < n by {
                if p < pos {
                    assert(out@[p] == prev[p]);
                } else if p > pos {
                    assert(out@[p] == prev[p - 1]);
                }
            }
            assert forall|j: int| 0 <= j < i + 1 implies out@.contains(#[trigger] base@[j]) by {
                if j == i {
                    assert(out@[pos as int] == x);
                } else {
                    let p = choose|p: int| 0 <= p < prev.len() && prev[p] == base@[j];
                    if p < pos {
                        assert(out@[p] == prev[p]);
                    } else {
                        assert(out@[p + 1] == prev[p]);
                    }
                }
            }
            assert forall|p: int, q: int|
                0 <= p < q < out@.len() implies pool_len(hero_pools@, #[trigger] out@[p] as int)
                <= pool_len(hero_pools@, #[trigger] out@[q] as int) by {
                if pos < prev.len() {
                    assert(pool_len(hero_pools@, prev[pos as int] as int) > key);
                }
                if q < pos {
                    assert(out@[p] == prev[p] && out@[q] == prev[q]);
                } else if q == pos {
                    assert(out@[p] == prev[p]);
                } else if p < pos {
                    assert(out@[p] == prev[p] && out@[q] == prev[q - 1]);
                    assert(pool_len(hero_pools@, prev[pos as int] as int) <= pool_len(
                        hero_pools@,
                        prev[q - 1] as int,
                    ));
                } else if p == pos {
                    assert(out@[q] == prev[q - 1]);
                    assert(pool_len(hero_pools@, prev[pos as int] as int) <= pool_len(
                        hero_pools@,
                        prev[q - 1] as int,
                    ));
                } else {
                    assert(out@[p] == prev[p - 1] && out@[q] == prev[q - 1]);
                }
            }
        }
        i = i + 1;
    }
    proof {
        assert(i == base@.len());
        assert forall|k: usize| k < n implies out@.contains(k) by {
            assert(base@.contains(k));
            let j = choose|j: int| 0 <= j < base@.len() && base@[j] == k;
            assert(out@.contains(base@[j]));
        }
    }
    out
}


/// Draws heroes at random from each player's pool, smallest pools first.
pub struct RandomHeroPool {
    draft: Assignment,
}

impl RandomHeroPool {
    /// The state of the current match's draft.
    pub closed spec fn state(self) -> Assignment {
        self.draft
    }

    pub open spec fn wf(self) -> bool {
        self.state().wf()
    }

    pub fn new() -> (r: RandomHeroPool)
        ensures
            r.wf(),
            r.state().members().len() == 0,
            r.state().taken_set().len() == 0,
    {
        RandomHeroPool { draft: Assignment::new() }
    }

    /// Forgets the current match: no assignment and no taken hero.
    pub fn clear(&mut self)
        ensures
            final(self).wf(),
            final(self).state().members().len() == 0,
            final(self).state().taken_set().len() == 0,
    {
        self.draft = Assignment::new();
    }

    /// Gives every player of `hero_pools` up to their number of heroes from their pool, a
    /// hero per player and round, with no hero handed out twice in the match.
    pub fn assign_heroes(&mut self, hero_pools: Vec<(PlayerInfo, Vec<Hero>)>) -> (r: Vec<
        (PlayerInfo, Vec<Hero>),
    >)
        requires
            old(self).wf(),
        ensures
            final(self).wf(),
            r@.len() == final(self).state().members().len(),
            lists_of(r@) == final(self).state().lists(),
            forall|i: int| 0 <= i < r@.len() ==> same_player(#[trigger] r@[i].0, final(self).state().members()[i]),
            all_distinct(lists_of(r@)),
            kept_or_drawn(old(self).state(), final(self).state(), hero_pools@),
            assign_outcome(old(self).state(), final(self).state(), hero_pools@, r@),
            forall|k: int|
                0 <= k < hero_pools@.len() ==> has_served_slot(
                    final(self).state(),
                    #[trigger] hero_pools@[k].0,
                    hero_pools@[k].1@,
                ),
    {
        let n = hero_pools.len();
        let ghost entry = self.draft;
        let slots = self.draft.enter_all(&hero_pools);
        let order = visiting_order(&hero_pools);
        let mut rounds: u32 = 0;
        let mut j: usize = 0;
        while j < n
            invariant
                n == hero_pools@.len(),
                j <= n,
                forall|i: int| 0 <= i < j ==> hero_pools@[i].0.number_of_heroes_shown <= rounds,
            decreases n - j,
        {
            if hero_pools[j].0.number_of_heroes_shown > rounds {
                rounds = hero_pools[j].0.number_of_heroes_shown;
            }
            j = j + 1;
        }
        let ghost mem = self.draft.members();
        proof {
            assert(kept_or_drawn(entry, self.draft, hero_pools@));
            assert forall|k: int| 0 <= k < n implies served(
                self.draft,
                #[trigger] slots@[k] as int,
                min_of(0, hero_pools@[k].0.number_of_heroes_shown as int),
                hero_pools@[k].1@,
            ) by {}
        }
        let mut round: u32 = 0;
        while round < rounds
            invariant
                n == hero_pools@.len(),
                round <= rounds,
                self.draft.wf(),
                self.draft.members() == mem,
                slots@.len() == n,
                forall|i: int| 0 <= i < order@.len() ==> #[trigger] order@[i] < n,
                forall|k: usize| k < n ==> order@.contains(k),
                forall|j: int|
                    0 <= j < n ==> #[trigger] slots@[j] < mem.len() && same_player(
                        mem[slots@[j] as int],
                        hero_pools@[j].0,
                    ),
                kept_or_drawn(entry, self.draft, hero_pools@),
                grows_from(entry, self.draft),
                forall|k: int|
                    0 <= k < n ==> served(
                        self.draft,
                        #[trigger] slots@[k] as int,
                        min_of(round as int, hero_pools@[k].0.number_of_heroes_shown as int),
                        hero_pools@[k].1@,
                    ),
            decreases rounds - round,
        {
            let mut pos: usize = 0;
            while pos < order.len()
                invariant
                    n == hero_pools@.len(),
                    pos <= order@.len(),
                    self.draft.wf(),
                    self.draft.members() == mem,
                    slots@.len() == n,
                    forall|i: int| 0 <= i < order@.len() ==> #[trigger] order@[i] < n,
                    forall|j: int|
                        0 <= j < n ==> #[trigger] slots@[j] < mem.len() && same_player(
                            mem[slots@[j] as int],
                            hero_pools@[j].0,
                        ),
                    kept_or_drawn(entry, self.draft, hero_pools@),
                    grows_from(entry, self.draft),
                grows_from(entry, self.draft),
                    forall|k: int|
                        0 <= k < n ==> served(
                            self.draft,
                            #[trigger] slots@[k] as int,
                            min_of(round as int, hero_pools@[k].0.number_of_heroes_shown as int),
                            hero_pools@[k].1@,
                        ),
                    forall|p: int|
                        0 <= p < pos ==> served(
                            self.draft,
                            slots@[#[trigger] order@[p] as int] as int,
                            min_of(
                                round + 1,
                                hero_pools@[order@[p] as int].0.number_of_heroes_shown as int,
                            ),
                            hero_pools@[order@[p] as int].1@,
                        ),
                decreases order@.len() - pos,
            {
                let k = order[pos];
                let s = slots[k];
                let want = self.draft.wanted_at(s);
                let ghost d0 = self.draft;
                if (self.draft.list_len(s) as u64) < want as u64 {
                    match pick_untaken(&hero_pools[k].1, self.draft.taken()) {
                        Some(h) => {
                            self.draft.give(s, h);
                            proof {
                                lemma_give_keeps(entry, d0, self.draft, hero_pools@, k as int, s as int, h);
                                lemma_give_grows(entry, d0, self.draft, s as int, h);
                            }
                        },
                        None => {},
                    }
                }
                proof {
                    let d1 = self.draft;
                    assert forall|h: Hero| d0.taken_set().contains(h) implies d1.taken_set().contains(h) by {
                        if d1.taken_set() != d0.taken_set() {
                            let i = choose|i: int| 0 <= i < d0.taken_set().len() && d0.taken_set()[i] == h;
                            assert(d1.taken_set()[i] == h);
                        }
                    }
                    assert forall|x: int| 0 <= x < d0.lists().len() implies #[trigger] d1.lists()[x].len()
                        >= d0.lists()[x].len() by {}
                    assert forall|kk: int| 0 <= kk < n implies served(
                        self.draft,
                        #[trigger] slots@[kk] as int,
                        min_of(round as int, hero_pools@[kk].0.number_of_heroes_shown as int),
                        hero_pools@[kk].1@,
                    ) by {
                        lemma_served_grows(
                            d0,
                            d1,
                            slots@[kk] as int,
                            min_of(round as int, hero_pools@[kk].0.number_of_heroes_shown as int),
                            hero_pools@[kk].1@,
                        );
                    }
                    assert forall|p: int| 0 <= p < pos + 1 implies served(
                        self.draft,
                        slots@[#[trigger] order@[p] as int] as int,
                        min_of(round + 1, hero_pools@[order@[p] as int].0.number_of_heroes_shown as int),
                        hero_pools@[order@[p] as int].1@,
                    ) by {
                        if p < pos {
                            lemma_served_grows(
                                d0,
                                d1,
                                slots@[order@[p] as int] as int,
                                min_of(round + 1, hero_pools@[order@[p] as int].0.number_of_heroes_shown as int),
                                hero_pools@[order@[p] as int].1@,
                            );
                        } else {
                            assert(served(d0, s as int, min_of(round as int, want as int), hero_pools@[k as int].1@));
                        }
                    }
                }
                pos = pos + 1;
            }
            proof {
                assert forall|kk: int| 0 <= kk < n implies served(
                    self.draft,
                    #[trigger] slots@[kk] as int,
                    min_of(round + 1, hero_pools@[kk].0.number_of_heroes_shown as int),
                    hero_pools@[kk].1@,
                ) by {
                    assert(order@.contains(kk as usize));
                    let p = choose|p: int| 0 <= p < order@.len() && order@[p] == kk as usize;
                    assert(served(
                        self.draft,
                        slots@[order@[p] as int] as int,
                        min_of(round + 1, hero_pools@[order@[p] as int].0.number_of_heroes_shown as int),
                        hero_pools@[order@[p] as int].1@,
                    ));
                }
            }
            round = round + 1;
        }
        let r = self.draft.snapshot();
        proof {
            assert forall|k: int| 0 <= k < hero_pools@.len() implies has_served_slot(
                self.draft,
                #[trigger] hero_pools@[k].0,
                hero_pools@[k].1@,
            ) by {
                let s = slots@[k] as int;
                assert(served(
                    self.draft,
                    s,
                    min_of(rounds as int, hero_pools@[k].0.number_of_heroes_shown as int),
                    hero_pools@[k].1@,
                ));
                assert(same_player(self.draft.members()[s], hero_pools@[k].0));
            }
        }
        r
    }

    /// Replaces the heroes of the player called `username` by a fresh draw from `hero_pool`
    /// that avoids every hero taken in this match, the player's own included.
    pub fn reroll(&mut self, username: &DiscordUsername, hero_pool: Vec<Hero>) -> (r: Result<
        Vec<Hero>,
        RerollError,
    >)
        requires
            old(self).wf(),
        ensures
            final(self).wf(),
            old(self).state().members().len() == 0 ==> r is Ok && r->Ok_0@.len() == 0 && final(self).state() == old(self).state(),
            old(self).state().members().len() > 0 ==> (r is Err <==> forall|i: int|
                0 <= i < old(self).state().members().len() ==> (#[trigger] old(self).state().members()[i]).name@ != username@),
            r is Err ==> r->Err_0.player@ == username@ && final(self).state() == old(self).state(),
            r is Ok ==> forall|h: Hero| r->Ok_0@.contains(h) ==> hero_pool@.contains(h),
            reroll_outcome(old(self).state(), final(self).state(), username@, hero_pool@, r),
            old(self).state().members().len() > 0 && r is Ok ==> rerolled(
                old(self).state(),
                final(self).state(),
                username@,
                hero_pool@,
                r->Ok_0@,
            ),
    {
        if self.draft.is_empty() {
            return Ok(Vec::new());
        }
        let slot = match self.draft.slot_named(username) {
            Some(s) => s,
            None => {
                return Err(RerollError { player: username.duplicate() });
            },
        };
        let ghost d0 = self.draft;
        let new_picks = self.draft.redraw(slot, &hero_pool, None);
        proof {
            assert(d0.members()[slot as int].name@ == username@);
        }
        Ok(new_picks)
    }
}

impl Default for RandomHeroPool {
    fn default() -> (r: RandomHeroPool)
        ensures
            r.wf(),
            r.state().members().len() == 0,
            r.state().taken_set().len() == 0,
    {
        RandomHeroPool::new()
    }
}

impl HeroAssignmentStrategy for RandomHeroPool {
    open spec fn ready(&self) -> bool {
        self.wf()
    }

    open spec fn draft(&self) -> Assignment {
        self.state()
    }

    fn assign_heroes(&mut self, hero_pools: Vec<(PlayerInfo, Vec<Hero>)>) -> (r: Vec<(PlayerInfo, Vec<Hero>)>) {
        RandomHeroPool::assign_heroes(self, hero_pools)
    }

    fn reroll(&mut self, player: &DiscordUsername, hero_pool: Vec<Hero>) -> (r: Result<Vec<Hero>, RerollError>) {
        RandomHeroPool::reroll(self, player, hero_pool)
    }

    fn clear(&mut self) {
        RandomHeroPool::clear(self)
    }
}

} // verus!
