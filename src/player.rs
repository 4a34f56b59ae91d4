use vstd::prelude::*;
use crate::ids::{DiscordUsername, GameId, PlayerId};

verus! {

/// Rating of game `g` in a list of (game, rating): its first entry.
pub open spec fn elo_for(elo: Seq<(GameId, i32)>, g: Seq<char>) -> Option<i32>
    decreases elo.len(),
{
    if elo.len() == 0 {
        None
    } else if elo[0].0@ == g {
        Some(elo[0].1)
    } else {
        elo_for(elo.drop_first(), g)
    }
}

/// Position of the first entry of game `g`.
fn elo_index(elo: &Vec<(GameId, i32)>, g: &GameId) -> (r: Option<usize>)
    ensures
        r is None ==> elo_for(elo@, g@) is None && forall|i: int| 0 <= i < elo@.len() ==> (#[trigger] elo@[i]).0@ != g@,
        r is Some ==> r->0 < elo@.len() && elo_for(elo@, g@) == Some(elo@[r->0 as int].1) && elo@[r->0 as int].0@ == g@
            && forall|i: int| 0 <= i < r->0 ==> (#[trigger] elo@[i]).0@ != g@,
{
    let ghost full = elo@;
    assert(full.subrange(0, full.len() as int) == full);
    let mut i: usize = 0;
    while i < elo.len()
        invariant
            i <= elo@.len(),
            full == elo@,
            elo_for(full, g@) == elo_for(full.subrange(i as int, full.len() as int), g@),
            forall|j: int| 0 <= j < i ==> (#[trigger] elo@[j]).0@ != g@,
        decreases elo@.len() - i,
    {
        let ghost rest = full.subrange(i as int, full.len() as int);
        if elo[i].0.same(g) {
            assert(rest[0] == full[i as int]);
            return Some(i);
        }
        assert(rest.drop_first() == full.subrange(i + 1, full.len() as int));
        i = i + 1;
    }
    None
}

proof fn lemma_elo_for_update(elo: Seq<(GameId, i32)>, k: int, v: (GameId, i32), g: Seq<char>)
    requires
        0 <= k < elo.len(),
        v.0@ == elo[k].0@,
        forall|i: int| 0 <= i < k ==> (#[trigger] elo[i]).0@ != elo[k].0@,
    ensures
        elo_for(elo.update(k, v), g) == if g == elo[k].0@ { Some(v.1) } else { elo_for(elo, g) },
    decreases k,
{
    if k > 0 {
        assert(elo.update(k, v).drop_first() == elo.drop_first().update(k - 1, v));
        lemma_elo_for_update(elo.drop_first(), k - 1, v, g);
    } else {
        assert(elo.update(k, v).drop_first() == elo.drop_first());
    }
}

proof fn lemma_elo_for_push(elo: Seq<(GameId, i32)>, v: (GameId, i32), g: Seq<char>)
    requires
        forall|i: int| 0 <= i < elo.len() ==> (#[trigger] elo[i]).0@ != v.0@,
    ensures
        elo_for(elo.push(v), g) == if g == v.0@ { Some(v.1) } else { elo_for(elo, g) },
    decreases elo.len(),
{
    if elo.len() > 0 {
        assert(elo.push(v).drop_first() == elo.drop_first().push(v));
        assert(elo.push(v)[0] == elo[0]);
        assert(elo[0].0@ != v.0@);
        lemma_elo_for_push(elo.drop_first(), v, g);
    } else {
        assert(elo.push(v)[0] == v);
        assert(elo.push(v).drop_first() =~= Seq::<(GameId, i32)>::empty());
        assert(elo_for(Seq::<(GameId, i32)>::empty(), g) is None);
    }
}

proof fn lemma_elo_for_remove(elo: Seq<(GameId, i32)>, k: int, g: Seq<char>)
    requires
        0 <= k < elo.len(),
        forall|i: int| 0 <= i < k ==> (#[trigger] elo[i]).0@ != elo[k].0@,
        forall|i: int| k < i < elo.len() ==> (#[trigger] elo[i]).0@ != elo[k].0@,
    ensures
        elo_for(elo.remove(k), g) == if g == elo[k].0@ { None } else { elo_for(elo, g) },
    decreases k,
{
    if k > 0 {
        assert(elo.remove(k).drop_first() == elo.drop_first().remove(k - 1));
        lemma_elo_for_remove(elo.drop_first(), k - 1, g);
    } else {
        assert(elo.remove(0) == elo.drop_first());
        lemma_elo_for_absent(elo.drop_first(), elo[0].0@);
    }
}

proof fn lemma_elo_for_absent(elo: Seq<(GameId, i32)>, g: Seq<char>)
    requires
        forall|i: int| 0 <= i < elo.len() ==> (#[trigger] elo[i]).0@ != g,
    ensures
        elo_for(elo, g) is None,
    decreases elo.len(),
{
    if elo.len() > 0 {
        lemma_elo_for_absent(elo.drop_first(), g);
    }
}

/// No game has two rating entries.
pub open spec fn games_unique(elo: Seq<(GameId, i32)>) -> bool {
    forall|i: int, j: int| 0 <= i < j < elo.len() ==> (#[trigger] elo[i]).0@ != (#[trigger] elo[j]).0@
}

/// Names and handles of a player.
#[derive(Debug)]
pub struct PlayerConfig {
    pub id: PlayerId,
    pub display_name: Option<String>,
    pub discord_username: Option<DiscordUsername>,
    pub fosiaudio_name: Option<String>,
    pub dota_name: Option<String>,
}

impl PlayerConfig {
    /// A configuration with the id alone.
    pub fn with_id(id: &PlayerId) -> (r: PlayerConfig)
        ensures
            r.id@ == id@,
            r.display_name is None,
            r.discord_username is None,
            r.fosiaudio_name is None,
            r.dota_name is None,
    {
        PlayerConfig {
            id: id.duplicate(),
            display_name: None,
            discord_username: None,
            fosiaudio_name: None,
            dota_name: None,
        }
    }
}

/// A player with a rating per game.
#[derive(Debug)]
pub struct Player {
    pub id: PlayerId,
    pub elo: Vec<(GameId, i32)>,
    pub config: PlayerConfig,
}

impl Player {
    /// Ratings per game.
    pub open spec fn ratings(self) -> Seq<(GameId, i32)> {
        self.elo@
    }

    pub open spec fn settings(self) -> PlayerConfig {
        self.config
    }

    pub open spec fn wf(self) -> bool {
        games_unique(self.ratings())
    }

    pub fn new(id: PlayerId) -> (r: Player)
        ensures
            r.wf(),
            r.id@ == id@,
            r.ratings().len() == 0,
            r.settings().id@ == id@,
            r.settings().display_name is None && r.settings().discord_username is None,
            r.settings().fosiaudio_name is None && r.settings().dota_name is None,
    {
        let config = PlayerConfig::with_id(&id);
        Player { id, elo: Vec::new(), config }
    }

    pub fn with_opt_discord_username(id: PlayerId, discord_username: Option<DiscordUsername>) -> (r: Player)
        ensures
            r.wf(),
            r.id@ == id@,
            r.ratings().len() == 0,
            r.settings().id@ == id@,
            r.settings().discord_username == discord_username,
            r.settings().display_name is None,
    {
        let mut config = PlayerConfig::with_id(&id);
        config.discord_username = discord_username;
        Player { id, elo: Vec::new(), config }
    }

    /// A player made from their configuration, with no rating yet.
    pub fn from_config(config: PlayerConfig) -> (r: Player)
        ensures
            r.wf(),
            r.id@ == config.id@,
            r.ratings().len() == 0,
            r.settings() == config,
    {
        Player { id: config.id.duplicate(), elo: Vec::new(), config }
    }

    /// The configuration of the player.
    pub fn config(&self) -> (r: &PlayerConfig)
        ensures
            *r == self.settings(),
    {
        &self.config
    }

    pub fn default_elo() -> (r: i32)
        ensures
            r == 1000,
    {
        1000
    }

    pub fn get_elo(&self, game: &GameId) -> (r: Option<i32>)
        ensures
            r == elo_for(self.ratings(), game@),
    {
        match elo_index(&self.elo, game) {
            Some(i) => Some(self.elo[i].1),
            None => None,
        }
    }

    /// Sets the rating of `game`, adding an entry when there is none.
    pub fn set_elo(&mut self, game: &GameId, value: i32)
        requires
            old(self).wf(),
        ensures
            final(self).wf(),
            final(self).id == old(self).id,
            final(self).settings() == old(self).settings(),
            forall|g: Seq<char>| #[trigger] elo_for(final(self).ratings(), g) == if g == game@ {
                Some(value)
            } else {
                elo_for(old(self).ratings(), g)
            },
    {
        match elo_index(&self.elo, game) {
            Some(i) => {
                let ghost before = self.elo@;
                let entry = (game.duplicate(), value);
                self.elo.set(i, entry);
                proof {
                    assert forall|g: Seq<char>| #[trigger] elo_for(self.elo@, g) == if g == game@ {
                        Some(value)
                    } else {
                        elo_for(before, g)
                    } by {
                        lemma_elo_for_update(before, i as int, entry, g);
                    }
                    assert forall|a: int, b: int| 0 <= a < b < self.elo@.len() implies (#[trigger] self.elo@[a]).0@
                        != (#[trigger] self.elo@[b]).0@ by {
                        assert(before[a].0@ != before[b].0@);
                    }
                }
            },
            None => {
                let ghost before = self.elo@;
                let entry = (game.duplicate(), value);
                self.elo.push(entry);
                proof {
                    assert forall|g: Seq<char>| #[trigger] elo_for(self.elo@, g) == if g == game@ {
                        Some(value)
                    } else {
                        elo_for(before, g)
                    } by {
                        lemma_elo_for_push(before, entry, g);
                    }
                    assert forall|a: int, b: int| 0 <= a < b < self.elo@.len() implies (#[trigger] self.elo@[a]).0@
                        != (#[trigger] self.elo@[b]).0@ by {
                        if b < before.len() {
                            assert(before[a].0@ != before[b].0@);
                        }
                    }
                }
            },
        }
    }

    /// The rating of `game`, set to the default one first when there is none.
    pub fn get_elo_mut(&mut self, game: &GameId) -> (r: i32)
        requires
            old(self).wf(),
        ensures
            final(self).wf(),
            final(self).id == old(self).id,
            final(self).settings() == old(self).settings(),
            elo_for(old(self).ratings(), game@) is Some ==> r == elo_for(old(self).ratings(), game@)->0
                && final(self).ratings() == old(self).ratings(),
            elo_for(old(self).ratings(), game@) is None ==> r == 1000 && forall|g: Seq<char>|
                #[trigger] elo_for(final(self).ratings(), g) == if g == game@ {
                    Some(1000i32)
                } else {
                    elo_for(old(self).ratings(), g)
                },
    {
        match self.get_elo(game) {
            Some(e) => e,
            None => {
                self.set_elo(game, Player::default_elo());
                Player::default_elo()
            },
        }
    }

    pub fn remove_elo(&mut self, game: &GameId)
        requires
            old(self).wf(),
        ensures
            final(self).wf(),
            final(self).id == old(self).id,
            final(self).settings() == old(self).settings(),
            forall|g: Seq<char>| #[trigger] elo_for(final(self).ratings(), g) == if g == game@ {
                None
            } else {
                elo_for(old(self).ratings(), g)
            },
    {
        match elo_index(&self.elo, game) {
            Some(i) => {
                let ghost before = self.elo@;
                self.elo.remove(i);
                proof {
                    assert forall|g: Seq<char>| #[trigger] elo_for(self.elo@, g) == if g == game@ {
                        None
                    } else {
                        elo_for(before, g)
                    } by {
                        assert forall|j: int| i < j < before.len() implies (#[trigger] before[j]).0@ != before[i as int].0@ by {
                            assert(before[i as int].0@ != before[j].0@);
                        }
                        lemma_elo_for_remove(before, i as int, g);
                    }
                    assert forall|a: int, b: int| 0 <= a < b < self.elo@.len() implies (#[trigger] self.elo@[a]).0@
                        != (#[trigger] self.elo@[b]).0@ by {
                        let a0 = if a < i { a } else { a + 1 };
                        let b0 = if b < i { b } else { b + 1 };
                        assert(before[a0].0@ != before[b0].0@);
                    }
                }
            },
            None => {},
        }
    }

    /// The display name, else the id.
    pub fn get_display_name(&self) -> (r: &str)
        ensures
            self.settings().display_name is Some ==> r@ == self.settings().display_name->0@,
            self.settings().display_name is None ==> r@ == self.id@,
    {
        match &self.config.display_name {
            Some(n) => n.as_str(),
            None => self.id.as_str(),
        }
    }

    /// The name for audio call-outs, else the id.
    pub fn get_fosiaudio_name(&self) -> (r: &str)
        ensures
            self.settings().fosiaudio_name is Some ==> r@ == self.settings().fosiaudio_name->0@,
            self.settings().fosiaudio_name is None ==> r@ == self.id@,
    {
        match &self.config.fosiaudio_name {
            Some(n) => n.as_str(),
            None => self.id.as_str(),
        }
    }

    pub fn discord_username(&self) -> (r: Option<&DiscordUsername>)
        ensures
            r is Some <==> self.settings().discord_username is Some,
            r is Some ==> *r->0 == self.settings().discord_username->0,
    {
        match &self.config.discord_username {
            Some(n) => Some(n),
            None => None,
        }
    }
}

/// `e` is one of the first `upto` players, and no later one of them has its id.
pub open spec fn last_of_id(players: Seq<Player>, e: Player, upto: int) -> bool {
    exists|j: int| 0 <= j < upto && players[j] == e && forall|j2: int| j < j2 < upto ==> (#[trigger] players[j2]).id@ != e.id@
}

/// No two players share an id, and each player's ratings are consistent.
pub open spec fn db_wf(players: Seq<Player>) -> bool {
    &&& forall|i: int, j: int| 0 <= i < j < players.len() ==> (#[trigger] players[i]).id@ != (#[trigger] players[j]).id@
    &&& forall|i: int| 0 <= i < players.len() ==> (#[trigger] players[i]).wf()
}

/// `e` is a known player with their rating in `game`, or `default_elo` when they have none.
pub open spec fn ranked_entry(players: Seq<Player>, e: (PlayerId, i32), game: Seq<char>, default_elo: i32) -> bool {
    exists|k: int|
        0 <= k < players.len() && (#[trigger] players[k]).id@ == e.0@ && e.1 == match elo_for(players[k].ratings(), game) {
            Some(x) => x,
            None => default_elo,
        }
}

/// The known players.
#[derive(Debug)]
pub struct PlayerDb {
    players: Vec<Player>,
}

impl PlayerDb {
    pub closed spec fn entries(self) -> Seq<Player> {
        self.players@
    }

    pub open spec fn wf(self) -> bool {
        db_wf(self.entries())
    }

    /// A database of `players`; of two players with one id the later stays.
    pub fn new(players: Vec<Player>) -> (r: PlayerDb)
        requires
            forall|i: int| 0 <= i < players@.len() ==> (#[trigger] players@[i]).wf(),
        ensures
            r.wf(),
            forall|i: int| 0 <= i < r.entries().len() ==> players@.contains(#[trigger] r.entries()[i]),
            forall|j: int| 0 <= j < players@.len() ==> r.has((#[trigger] players@[j]).id@),
            forall|i: int| 0 <= i < r.entries().len() ==> last_of_id(players@, #[trigger] r.entries()[i], players@.len() as int),
    {
        let mut db = PlayerDb { players: Vec::new() };
        let mut rest = players;
        let ghost all = rest@;
        let ghost mut k: int = 0;
        while rest.len() > 0
            invariant
                db.wf(),
                0 <= k <= all.len(),
                rest@ == all.subrange(k, all.len() as int),
                forall|i: int| 0 <= i < all.len() ==> (#[trigger] all[i]).wf(),
                forall|i: int| 0 <= i < db.entries().len() ==> all.contains(#[trigger] db.entries()[i]),
                forall|j: int| 0 <= j < k ==> db.has((#[trigger] all[j]).id@),
                forall|i: int| 0 <= i < db.entries().len() ==> last_of_id(all, #[trigger] db.entries()[i], k),
            decreases rest@.len(),
        {
            let p = rest.remove(0);
            proof {
                assert(p == all[k]);
                assert(rest@ == all.subrange(k + 1, all.len() as int));
            }
            let ghost before = db.entries();
            db.insert(p);
            proof {
                assert forall|i: int| 0 <= i < db.entries().len() implies all.contains(#[trigger] db.entries()[i]) by {
                    if db.entries()[i] != all[k] {
                        assert(before.contains(db.entries()[i]));
                        let j = choose|j: int| 0 <= j < before.len() && before[j] == db.entries()[i];
                        assert(all.contains(before[j]));
                    }
                }
                assert forall|i: int| 0 <= i < db.entries().len() implies last_of_id(all, #[trigger] db.entries()[i], k + 1) by {
                    let e = db.entries()[i];
                    if e == all[k] {
                        assert(all[k] == e);
                    } else {
                        assert(before.contains(e));
                        let i0 = choose|i0: int| 0 <= i0 < before.len() && before[i0] == e;
                        assert(last_of_id(all, before[i0], k));
                        let j = choose|j: int| 0 <= j < k && all[j] == e && forall|j2: int| j < j2 < k ==> all[j2].id@ != e.id@;
                        assert(all[j] == e && forall|j2: int| j < j2 < k + 1 ==> all[j2].id@ != e.id@);
                    }
                }
                assert forall|j: int| 0 <= j < k + 1 implies db.has((#[trigger] all[j]).id@) by {
                    if j < k && all[j].id@ != all[k].id@ {
                        let i = choose|i: int| 0 <= i < before.len() && before[i].id@ == all[j].id@;
                        assert(db.entries().contains(before[i]));
                    }
                }
                k = k + 1;
            }
        }
        proof {
            assert forall|j: int| 0 <= j < players@.len() implies db.has((#[trigger] players@[j]).id@) by {
                assert(all[j] == players@[j]);
            }
            assert(all == players@);
        }
        db
    }

    /// Some player has id `id`.
    pub open spec fn has(self, id: Seq<char>) -> bool {
        exists|i: int| 0 <= i < self.entries().len() && (#[trigger] self.entries()[i]).id@ == id
    }

    /// Position of the player with id `id`.
    fn index_of(&self, id: &PlayerId) -> (r: Option<usize>)
        ensures
            r is None ==> !self.has(id@),
            r is Some ==> r->0 < self.entries().len() && self.entries()[r->0 as int].id@ == id@,
    {
        let mut i: usize = 0;
        while i < self.players.len()
            invariant
                i <= self.players@.len(),
                forall|j: int| 0 <= j < i ==> (#[trigger] self.players@[j]).id@ != id@,
            decreases self.players@.len() - i,
        {
            if self.players[i].id.same(id) {
                return Some(i);
            }
            i = i + 1;
        }
        None
    }

    pub fn get(&self, id: &PlayerId) -> (r: Option<&Player>)
        ensures
            r is Some <==> self.has(id@),
            r is Some ==> r->0.id@ == id@ && self.entries().contains(*r->0),
    {
        match self.index_of(id) {
            Some(i) => Some(&self.players[i]),
            None => None,
        }
    }

    pub fn all(&self) -> (r: &Vec<Player>)
        ensures
            r@ == self.entries(),
    {
        &self.players
    }

    /// Adds `player`, in place of the player with the same id if there is one.
    pub fn insert(&mut self, player: Player)
        requires
            old(self).wf(),
            player.wf(),
        ensures
            final(self).wf(),
            final(self).entries().contains(player),
            old(self).has(player.id@) ==> final(self).entries().len() == old(self).entries().len(),
            !old(self).has(player.id@) ==> final(self).entries().len() == old(self).entries().len() + 1,
            forall|i: int| 0 <= i < final(self).entries().len() ==> #[trigger] final(self).entries()[i] == player || (
                old(self).entries().contains(final(self).entries()[i]) && final(self).entries()[i].id@ != player.id@),
            forall|j: int| 0 <= j < old(self).entries().len() && (#[trigger] old(self).entries()[j]).id@ != player.id@
                ==> final(self).entries().contains(old(self).entries()[j]),
    {
        let ghost before = self.players@;
        match self.index_of(&player.id) {
            Some(i) => {
                self.players.set(i, player);
                proof {
                    assert(self.players@[i as int] == player);
                    assert forall|j: int| 0 <= j < before.len() && (#[trigger] before[j]).id@ != player.id@ implies self.players@.contains(before[j]) by {
                        assert(self.players@[j] == before[j]);
                    }
                    assert forall|a: int| 0 <= a < self.players@.len() implies #[trigger] self.players@[a] == player || (
                        before.contains(self.players@[a]) && self.players@[a].id@ != player.id@) by {
                        if a != i {
                            assert(self.players@[a] == before[a]);
                            assert(before[a].id@ != before[i as int].id@);
                        }
                    }
                }
            },
            None => {
                self.players.push(player);
                proof {
                    assert(self.players@[before.len() as int] == player);
                    assert forall|j: int| 0 <= j < before.len() && (#[trigger] before[j]).id@ != player.id@ implies self.players@.contains(before[j]) by {
                        assert(self.players@[j] == before[j]);
                    }
                    assert forall|a: int| 0 <= a < self.players@.len() implies #[trigger] self.players@[a] == player || (
                        before.contains(self.players@[a]) && self.players@[a].id@ != player.id@) by {
                        if a < before.len() {
                            assert(self.players@[a] == before[a]);
                        }
                    }
                }
            },
        }
    }

    /// Takes out the player with id `id`, if any.
    pub fn remove(&mut self, id: &PlayerId) -> (r: Option<Player>)
        requires
            old(self).wf(),
        ensures
            final(self).wf(),
            r is Some <==> old(self).has(id@),
            r is Some ==> r->0.id@ == id@ && old(self).entries().contains(r->0),
            !final(self).has(id@),
            forall|i: int| 0 <= i < final(self).entries().len() ==> old(self).entries().contains(#[trigger] final(self).entries()[i]),
            forall|j: int| 0 <= j < old(self).entries().len() && (#[trigger] old(self).entries()[j]).id@ != id@
                ==> final(self).entries().contains(old(self).entries()[j]),
    {
        let ghost before = self.players@;
        match self.index_of(id) {
            Some(i) => {
                let p = self.players.remove(i);
                proof {
                    assert(self.players@ == before.remove(i as int));
                    assert forall|a: int| 0 <= a < self.players@.len() implies old(self).entries().contains(#[trigger] self.players@[a]) by {
                        let a0 = if a < i { a } else { a + 1 };
                        assert(self.players@[a] == before[a0]);
                    }
                    assert forall|j: int| 0 <= j < before.len() && (#[trigger] before[j]).id@ != id@ implies self.players@.contains(before[j]) by {
                        if j < i {
                            assert(self.players@[j] == before[j]);
                        } else {
                            assert(self.players@[j - 1] == before[j]);
                        }
                    }
                    if self.has(id@) {
                        let a = choose|a: int| 0 <= a < self.players@.len() && (#[trigger] self.players@[a]).id@ == id@;
                        let a0 = if a < i { a } else { a + 1 };
                        assert(self.players@[a] == before[a0]);
                        assert(before[a0].id@ != before[i as int].id@);
                    }
                    assert forall|x: int, y: int| 0 <= x < y < self.players@.len() implies (#[trigger] self.players@[x]).id@
                        != (#[trigger] self.players@[y]).id@ by {
                        let x0 = if x < i { x } else { x + 1 };
                        let y0 = if y < i { y } else { y + 1 };
                        assert(before[x0].id@ != before[y0].id@);
                    }
                    assert forall|x: int| 0 <= x < self.players@.len() implies (#[trigger] self.players@[x]).wf() by {
                        let x0 = if x < i { x } else { x + 1 };
                        assert(self.players@[x] == before[x0]);
                    }
                }
                Some(p)
            },
            None => None,
        }
    }

    /// Rating of the player `player_id`, who must be known, in `game`.
    pub fn get_rank(&self, player_id: &PlayerId, game: &GameId) -> (r: Option<i32>)
        requires
            self.has(player_id@),
        ensures
            exists|i: int| 0 <= i < self.entries().len() && (#[trigger] self.entries()[i]).id@ == player_id@ && r == elo_for(self.entries()[i].ratings(), game@),
    {
        let i = self.index_of(player_id).unwrap();
        self.players[i].get_elo(game)
    }

    /// Sets (`Some`) or removes (`None`) the rating of `player_id` in `selected_game`; an
    /// unknown player is left alone.
    pub fn set_rank_impl(&mut self, player_id: &PlayerId, selected_game: &GameId, new_elo: Option<i32>)
        requires
            old(self).wf(),
        ensures
            final(self).wf(),
            final(self).entries().len() == old(self).entries().len(),
            forall|i: int| 0 <= i < old(self).entries().len() ==> {
                let (a, b) = (#[trigger] old(self).entries()[i], final(self).entries()[i]);
                &&& b.id == a.id
                &&& b.config == a.config
                &&& a.id@ != player_id@ ==> b == a
                &&& a.id@ == player_id@ ==> forall|g: Seq<char>| #[trigger] elo_for(b.ratings(), g) == if g == selected_game@ {
                    new_elo
                } else {
                    elo_for(a.ratings(), g)
                }
            },
    {
        let ghost before = self.players@;
        match self.index_of(player_id) {
            Some(i) => {
                match new_elo {
                    Some(e) => self.players[i].set_elo(selected_game, e),
                    None => self.players[i].remove_elo(selected_game),
                }
                proof {
                    assert forall|j: int| 0 <= j < before.len() && j != i implies self.players@[j] == before[j] by {}
                    assert forall|j: int| 0 <= j < before.len() && j != i implies before[j].id@ != player_id@ by {
                        assert(before[j].id@ != before[i as int].id@);
                    }
                    assert forall|x: int, y: int| 0 <= x < y < self.players@.len() implies (#[trigger] self.players@[x]).id@
                        != (#[trigger] self.players@[y]).id@ by {
                        assert(before[x].id@ != before[y].id@);
                    }
                }
            },
            None => {},
        }
    }

    pub fn set_rank(&mut self, player_id: &PlayerId, selected_game: &GameId, new_elo: i32)
        requires
            old(self).wf(),
        ensures
            final(self).wf(),
            final(self).entries().len() == old(self).entries().len(),
            forall|i: int| 0 <= i < old(self).entries().len() ==> {
                let (a, b) = (#[trigger] old(self).entries()[i], final(self).entries()[i]);
                &&& b.id == a.id
                &&& b.config == a.config
                &&& a.id@ != player_id@ ==> b == a
                &&& a.id@ == player_id@ ==> forall|g: Seq<char>| #[trigger] elo_for(b.ratings(), g) == if g == selected_game@ {
                    Some(new_elo)
                } else {
                    elo_for(a.ratings(), g)
                }
            },
    {
        self.set_rank_impl(player_id, selected_game, Some(new_elo));
    }

    pub fn remove_rank(&mut self, player_id: &PlayerId, selected_game: &GameId)
        requires
            old(self).wf(),
        ensures
            final(self).wf(),
            final(self).entries().len() == old(self).entries().len(),
            forall|i: int| 0 <= i < old(self).entries().len() ==> {
                let (a, b) = (#[trigger] old(self).entries()[i], final(self).entries()[i]);
                &&& b.id == a.id
                &&& b.config == a.config
                &&& a.id@ != player_id@ ==> b == a
                &&& a.id@ == player_id@ ==> forall|g: Seq<char>| #[trigger] elo_for(b.ratings(), g) == if g == selected_game@ {
                    None
                } else {
                    elo_for(a.ratings(), g)
                }
            },
    {
        self.set_rank_impl(player_id, selected_game, None);
    }

    /// The known players among `players`, in database order, with their rating in `game`, or
    /// `default_elo` for those without one.
    pub fn get_ranked(&self, players: &Vec<PlayerId>, game: &GameId, default_elo: i32) -> (r: Vec<(PlayerId, i32)>)
        ensures
            r@.len() <= self.entries().len(),
            forall|i: int| 0 <= i < r@.len() ==> crate::spawelo::ids(players@).contains((#[trigger] r@[i]).0@),
            forall|i: int| 0 <= i < r@.len() ==> ranked_entry(self.entries(), #[trigger] r@[i], game@, default_elo),
            forall|j: int| 0 <= j < self.entries().len() && crate::spawelo::ids(players@).contains((#[trigger] self.entries()[j]).id@)
                ==> exists|i: int| 0 <= i < r@.len() && (#[trigger] r@[i]).0@ == self.entries()[j].id@,
    {
        let mut out: Vec<(PlayerId, i32)> = Vec::new();
        let mut j: usize = 0;
        while j < self.players.len()
            invariant
                j <= self.players@.len(),
                out@.len() <= j,
                forall|i: int| 0 <= i < out@.len() ==> crate::spawelo::ids(players@).contains((#[trigger] out@[i]).0@),
                forall|i: int| 0 <= i < out@.len() ==> ranked_entry(self.players@, #[trigger] out@[i], game@, default_elo),

                forall|k: int| 0 <= k < j && crate::spawelo::ids(players@).contains((#[trigger] self.players@[k]).id@)
                    ==> exists|i: int| 0 <= i < out@.len() && (#[trigger] out@[i]).0@ == self.players@[k].id@,
            decreases self.players@.len() - j,
        {
            let p = &self.players[j];
            let ghost before = out@;
            if crate::history::contains_id(players, &p.id) {
                let e = match p.get_elo(game) {
                    Some(e) => e,
                    None => default_elo,
                };
                out.push((p.id.duplicate(), e));
                proof {
                    let n = out@.len() - 1;
                    assert(out@[n].0@ == self.players@[j as int].id@);
                    assert(ranked_entry(self.players@, out@[n], game@, default_elo));
                }
            }
            proof {
                assert forall|k: int| 0 <= k < j + 1 && crate::spawelo::ids(players@).contains((#[trigger] self.players@[k]).id@)
                    implies exists|i: int| 0 <= i < out@.len() && (#[trigger] out@[i]).0@ == self.players@[k].id@ by {
                    if k < j {
                        let i = choose|i: int| 0 <= i < before.len() && (#[trigger] before[i]).0@ == self.players@[k].id@;
                        assert(out@[i] == before[i]);
                    } else {
                        assert(out@[before.len() as int].0@ == self.players@[k].id@);
                    }
                }
            }
            j = j + 1;
        }
        out
    }

    /// The same as `get_ranked`.
    pub fn get_ranked_owned(&self, players: &Vec<PlayerId>, game: &GameId, default_elo: i32) -> (r: Vec<(PlayerId, i32)>)
        ensures
            r@.len() <= self.entries().len(),
            forall|i: int| 0 <= i < r@.len() ==> crate::spawelo::ids(players@).contains((#[trigger] r@[i]).0@),
            forall|i: int| 0 <= i < r@.len() ==> ranked_entry(self.entries(), #[trigger] r@[i], game@, default_elo),
            forall|j: int| 0 <= j < self.entries().len() && crate::spawelo::ids(players@).contains((#[trigger] self.entries()[j]).id@)
                ==> exists|i: int| 0 <= i < r@.len() && (#[trigger] r@[i]).0@ == self.entries()[j].id@,
    {
        self.get_ranked(players, game, default_elo)
    }
}

} // verus!
