use vstd::prelude::*;
use crate::ids::{GameId, PlayerId, WinScale};
use crate::spawelo::ids;

verus! {

/// Seconds in a day.
pub const SECONDS_PER_DAY: i64 = 86400;

/// One played match.
#[derive(Debug)]
pub struct HistoryEntry {
    /// Seconds since the Unix epoch.
    pub timestamp: i64,
    pub winner: Vec<PlayerId>,
    pub loser: Vec<PlayerId>,
    pub scale: WinScale,
    /// Length of the match in seconds.
    pub duration: u64,
    /// A practice match: left out of lose streaks.
    pub fake: bool,
}

/// Default length of a match, in seconds.
pub fn default_match_duration() -> (r: u64)
    ensures
        r == 45 * 60,
{
    45 * 60
}

/// Target win probability of a result of scale `s`, in percent.
pub open spec fn target_percent(s: WinScale) -> int {
    match s {
        WinScale::Even => 75,
        WinScale::Advantage => 85,
        WinScale::Pwnage => 95,
    }
}

/// `p` is among the winners or the losers of `e`.
pub open spec fn plays_in(e: HistoryEntry, p: Seq<char>) -> bool {
    ids(e.winner@).contains(p) || ids(e.loser@).contains(p)
}

pub fn contains_id(v: &Vec<PlayerId>, p: &PlayerId) -> (r: bool)
    ensures
        r == ids(v@).contains(p@),
{
    let mut i: usize = 0;
    while i < v.len()
        invariant
            i <= v@.len(),
            forall|j: int| 0 <= j < i ==> v@[j]@ != p@,
        decreases v@.len() - i,
    {
        if v[i].same(p) {
            proof {
                assert(ids(v@)[i as int] == p@);
            }
            return true;
        }
        i = i + 1;
    }
    proof {
        if ids(v@).contains(p@) {
            let j = choose|j: int| 0 <= j < ids(v@).len() && ids(v@)[j] == p@;
            assert(v@[j]@ == p@);
        }
    }
    false
}

impl HistoryEntry {
    /// Winners, then losers.
    pub fn all_players(&self) -> (r: Vec<PlayerId>)
        ensures
            ids(r@) == ids(self.winner@) + ids(self.loser@),
    {
        let mut out: Vec<PlayerId> = Vec::new();
        let mut i: usize = 0;
        while i < self.winner.len()
            invariant
                i <= self.winner@.len(),
                ids(out@) == ids(self.winner@).subrange(0, i as int),
            decreases self.winner@.len() - i,
        {
            let ghost before = out@;
            out.push(self.winner[i].duplicate());
            proof {
                assert(ids(out@) =~= ids(before).push(self.winner@[i as int]@));
                assert(ids(self.winner@).subrange(0, i + 1) =~= ids(self.winner@).subrange(0, i as int).push(
                    self.winner@[i as int]@,
                ));
            }
            i = i + 1;
        }
        let mut i: usize = 0;
        while i < self.loser.len()
            invariant
                i <= self.loser@.len(),
                ids(out@) == ids(self.winner@) + ids(self.loser@).subrange(0, i as int),
            decreases self.loser@.len() - i,
        {
            let ghost before = out@;
            out.push(self.loser[i].duplicate());
            proof {
                assert(ids(out@) =~= ids(before).push(self.loser@[i as int]@));
                assert(ids(self.winner@) + ids(self.loser@).subrange(0, i + 1) =~= (ids(self.winner@) + ids(
                    self.loser@,
                ).subrange(0, i as int)).push(self.loser@[i as int]@));
            }
            i = i + 1;
        }
        proof {
            assert(ids(self.loser@).subrange(0, i as int) == ids(self.loser@));
            assert(ids(self.winner@).subrange(0, self.winner@.len() as int) == ids(self.winner@));
        }
        out
    }

    /// Target win probability of this result in percent: 75, 85 or 95 by scale.
    pub fn advantage_percent(&self) -> (r: u32)
        ensures
            r == target_percent(self.scale),
    {
        match self.scale {
            WinScale::Even => 75,
            WinScale::Advantage => 85,
            WinScale::Pwnage => 95,
        }
    }
}

/// Consecutive recent losses of `p` at the end of `entries`: practice matches are skipped;
/// a win, or a match older than `cutoff`, ends the count; matches without `p` do not count.
pub open spec fn lose_streak(entries: Seq<HistoryEntry>, p: Seq<char>, cutoff: Option<int>) -> int
    decreases entries.len(),
{
    if entries.len() == 0 {
        0
    } else {
        let e = entries.last();
        let rest = lose_streak(entries.drop_last(), p, cutoff);
        if e.fake {
            rest
        } else if cutoff is Some && e.timestamp < cutoff->0 {
            0
        } else if ids(e.winner@).contains(p) {
            0
        } else if ids(e.loser@).contains(p) {
            rest + 1
        } else {
            rest
        }
    }
}

proof fn lemma_lose_streak_bound(entries: Seq<HistoryEntry>, p: Seq<char>, cutoff: Option<int>)
    ensures
        0 <= lose_streak(entries, p, cutoff) <= entries.len(),
    decreases entries.len(),
{
    if entries.len() > 0 {
        lemma_lose_streak_bound(entries.drop_last(), p, cutoff);
    }
}

pub open spec fn cutoff_view(c: Option<i64>) -> Option<int> {
    match c {
        Some(t) => Some(t as int),
        None => None,
    }
}

/// Lose streak of `p` over `entries`, the newest last.
pub fn lose_streak_of(entries: &Vec<HistoryEntry>, p: &PlayerId, cutoff: Option<i64>) -> (r: i32)
    requires
        entries@.len() <= i32::MAX,
    ensures
        r == lose_streak(entries@, p@, cutoff_view(cutoff)),
{
    let ghost cut = cutoff_view(cutoff);
    let mut count: i32 = 0;
    let mut i: usize = entries.len();
    assert(entries@.subrange(0, i as int) == entries@);
    while i > 0
        invariant
            i <= entries@.len() <= i32::MAX,
            cut == cutoff_view(cutoff),
            0 <= count <= entries@.len() - i,
            lose_streak(entries@, p@, cut) == count + lose_streak(entries@.subrange(0, i as int), p@, cut),
        decreases i,
    {
        let ghost pre = entries@.subrange(0, i as int);
        proof {
            assert(pre.drop_last() == entries@.subrange(0, i - 1));
            assert(pre.last() == entries@[i - 1]);
        }
        let e = &entries[i - 1];
        let ghost rest = lose_streak(pre.drop_last(), p@, cut);
        assert(lose_streak(pre, p@, cut) == if e.fake {
            rest
        } else if cut is Some && e.timestamp < cut->0 {
            0
        } else if ids(e.winner@).contains(p@) {
            0
        } else if ids(e.loser@).contains(p@) {
            rest + 1
        } else {
            rest
        });
        if !e.fake {
            let stale = match cutoff {
                Some(c) => e.timestamp < c,
                None => false,
            };
            assert(stale == (cut is Some && e.timestamp < cut->0));
            if stale || contains_id(&e.winner, p) {
                return count;
            }
            if contains_id(&e.loser, p) {
                proof {
                    lemma_lose_streak_bound(pre.drop_last(), p@, cut);
                }
                count = count + 1;
            }
        }
        i = i - 1;
    }
    assert(entries@.subrange(0, 0).len() == 0);
    count
}

/// The oldest time a lose streak looks back to: `max_days` days before `now`; none when
/// `max_days` is absent or 0.
pub open spec fn horizon(now: int, max_days: Option<u64>) -> Option<int> {
    match max_days {
        Some(d) => if d > 0 {
            Some(now - d * SECONDS_PER_DAY)
        } else {
            None
        },
        None => None,
    }
}

proof fn lemma_cutoff_below_all(entries: Seq<HistoryEntry>, p: Seq<char>, c: int)
    requires
        c <= i64::MIN,
    ensures
        lose_streak(entries, p, Some(c)) == lose_streak(entries, p, None),
    decreases entries.len(),
{
    if entries.len() > 0 {
        lemma_cutoff_below_all(entries.drop_last(), p, c);
    }
}

/// The match records of one game, if it has any.
pub open spec fn game_entries(h: Seq<(GameId, Vec<HistoryEntry>)>, g: Seq<char>) -> Option<Seq<HistoryEntry>>
    decreases h.len(),
{
    if h.len() == 0 {
        None
    } else if h[0].0@ == g {
        Some(h[0].1@)
    } else {
        game_entries(h.drop_first(), g)
    }
}

/// Match records of every game, each game's newest last.
#[derive(Debug, Default)]
pub struct History {
    pub entries: Vec<(GameId, Vec<HistoryEntry>)>,
}

impl History {
    /// Position of the records of `game`.
    pub fn game_index(&self, game: &GameId) -> (r: Option<usize>)
        ensures
            r is None ==> game_entries(self.entries@, game@) is None,
            r is Some ==> r->0 < self.entries@.len() && game_entries(self.entries@, game@) == Some(
                self.entries@[r->0 as int].1@,
            ),
    {
        let ghost full = self.entries@;
        let mut i: usize = 0;
        assert(full.subrange(0, full.len() as int) == full);
        while i < self.entries.len()
            invariant
                i <= self.entries@.len(),
                full == self.entries@,
                game_entries(full, game@) == game_entries(full.subrange(i as int, full.len() as int), game@),
            decreases self.entries@.len() - i,
        {
            let ghost rest = full.subrange(i as int, full.len() as int);
            if self.entries[i].0.same(game) {
                assert(rest[0] == full[i as int]);
                return Some(i);
            }
            assert(rest.drop_first() == full.subrange(i + 1, full.len() as int));
            i = i + 1;
        }
        None
    }

    /// Lose streak of each of `players` in `game`, looking back at most `max_days` days from
    /// `now` (seconds since the epoch); empty when the game has no records.
    pub fn calculate_lose_streaks(
        &self,
        game: &GameId,
        players: &Vec<PlayerId>,
        max_days: Option<u64>,
        now: i64,
    ) -> (r: Vec<(PlayerId, i32)>)
        requires
            forall|g: int| 0 <= g < self.entries@.len() ==> (#[trigger] self.entries@[g]).1@.len() <= i32::MAX,
        ensures
            game_entries(self.entries@, game@) is None ==> r@.len() == 0,
            game_entries(self.entries@, game@) is Some ==> r@.len() == players@.len() && forall|i: int|
                0 <= i < r@.len() ==> (#[trigger] r@[i]).0@ == players@[i]@ && r@[i].1 == lose_streak(
                    game_entries(self.entries@, game@)->0,
                    players@[i]@,
                    horizon(now as int, max_days),
                ),
    {
        let mut out: Vec<(PlayerId, i32)> = Vec::new();
        let g = match self.game_index(game) {
            Some(g) => g,
            None => {
                return out;
            },
        };
        let entries = &self.entries[g].1;
        let cutoff: Option<i64> = match max_days {
            Some(d) => if d > 0 {
                let c: i128 = now as i128 - (d as i128) * (SECONDS_PER_DAY as i128);
                if c < i64::MIN as i128 {
                    None
                } else {
                    Some(c as i64)
                }
            } else {
                None
            },
            None => None,
        };
        let ghost h = horizon(now as int, max_days);
        proof {
            assert forall|e: Seq<HistoryEntry>, p: Seq<char>| lose_streak(e, p, cutoff_view(cutoff))
                == #[trigger] lose_streak(e, p, h) by {
                if cutoff is None && h is Some {
                    lemma_cutoff_below_all(e, p, h->0);
                }
            }
        }
        let mut i: usize = 0;
        while i < players.len()
            invariant
                i <= players@.len(),
                entries@ == game_entries(self.entries@, game@)->0,
                entries@.len() <= i32::MAX,
                h == horizon(now as int, max_days),
                forall|e: Seq<HistoryEntry>, p: Seq<char>| lose_streak(e, p, cutoff_view(cutoff)) == #[trigger] lose_streak(e, p, h),
                out@.len() == i,
                forall|j: int|
                    0 <= j < i ==> (#[trigger] out@[j]).0@ == players@[j]@ && out@[j].1 == lose_streak(
                        entries@,
                        players@[j]@,
                        h,
                    ),
            decreases players@.len() - i,
        {
            let s = lose_streak_of(entries, &players[i], cutoff);
            out.push((players[i].duplicate(), s));
            i = i + 1;
        }
        out
    }
}

} // verus!
