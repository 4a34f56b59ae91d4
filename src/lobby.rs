use vstd::prelude::*;
use crate::history::HistoryEntry;
use crate::ids::{PlayerId, Team, WinScale};
use crate::spawelo::ids;

verus! {

/// Takes the first occurrence of `player_id` out of `players`.
pub fn remove_player_id(players: &mut Vec<PlayerId>, player_id: &PlayerId) -> (r: Option<PlayerId>)
    ensures
        r is None ==> !ids(old(players)@).contains(player_id@) && final(players)@ == old(players)@,
        r is Some ==> r->0@ == player_id@ && exists|i: int|
            0 <= i < old(players)@.len() && old(players)@[i]@ == player_id@ && (forall|j: int|
                0 <= j < i ==> (#[trigger] old(players)@[j])@ != player_id@) && final(players)@ == old(players)@.remove(i),
{
    let mut i: usize = 0;
    while i < players.len()
        invariant
            i <= players@.len(),
            players@ == old(players)@,
            forall|j: int| 0 <= j < i ==> (#[trigger] players@[j])@ != player_id@,
        decreases players@.len() - i,
    {
        if players[i].same(player_id) {
            let p = players.remove(i);
            return Some(p);
        }
        i = i + 1;
    }
    proof {
        if ids(players@).contains(player_id@) {
            let j = choose|j: int| 0 <= j < ids(players@).len() && ids(players@)[j] == player_id@;
            assert(players@[j]@ == player_id@);
        }
    }
    None
}

pub open spec fn sum_ranks(ranks: Seq<i32>) -> int
    decreases ranks.len(),
{
    if ranks.len() == 0 {
        0
    } else {
        sum_ranks(ranks.drop_last()) + ranks.last()
    }
}

proof fn lemma_sum_bounds(ranks: Seq<i32>)
    ensures
        i32::MIN * ranks.len() <= sum_ranks(ranks) <= i32::MAX * ranks.len(),
    decreases ranks.len(),
{
    if ranks.len() > 0 {
        lemma_sum_bounds(ranks.drop_last());
    }
}

/// Rating given to players without one: the average of the known `ranks`, rounded toward zero,
/// or 1000 when none is known.
pub fn default_elo_for(ranks: &Vec<i32>) -> (r: i32)
    requires
        ranks@.len() < 0x8000_0000,
    ensures
        ranks@.len() == 0 ==> r == 1000,
        ranks@.len() > 0 ==> r as int == crate::spawelo::trunc_div(sum_ranks(ranks@), ranks@.len() as int),
{
    if ranks.len() == 0 {
        return 1000;
    }
    let mut sum: i64 = 0;
    let mut i: usize = 0;
    while i < ranks.len()
        invariant
            i <= ranks@.len() < 0x8000_0000,
            sum == sum_ranks(ranks@.subrange(0, i as int)),
        decreases ranks@.len() - i,
    {
        proof {
            assert(ranks@.subrange(0, i + 1).drop_last() == ranks@.subrange(0, i as int));
            lemma_sum_bounds(ranks@.subrange(0, i as int));
        }
        sum = sum + ranks[i] as i64;
        i = i + 1;
    }
    assert(ranks@.subrange(0, i as int) == ranks@);
    let n = ranks.len() as i64;
    proof {
        lemma_sum_bounds(ranks@);
        let s = sum as int;
        let m = n as int;
        assert(i32::MIN * m <= s <= i32::MAX * m);
        if s >= 0 {
            assert(s / m <= i32::MAX) by (nonlinear_arith)
                requires s <= i32::MAX * m, m >= 1, s >= 0;
        } else {
            assert((-s) / m <= 0x8000_0000) by (nonlinear_arith)
                requires -s <= 0x8000_0000 * m, m >= 1, -s >= 0;
        }
    }
    let q = if sum >= 0 {
        sum / n
    } else {
        -((-sum) / n)
    };
    q as i32
}

/// Position from which the rating fit reads a history of `len` matches: only the last
/// `max_elo_history` ones when that is positive and smaller than the history.
pub fn elo_history_start(len: usize, max_elo_history: usize) -> (r: usize)
    ensures
        max_elo_history > 0 && len > max_elo_history ==> r == len - max_elo_history,
        !(max_elo_history > 0 && len > max_elo_history) ==> r == 0,
{
    if max_elo_history > 0 && len > max_elo_history {
        len - max_elo_history
    } else {
        0
    }
}

fn copy_ids(v: &Vec<PlayerId>) -> (r: Vec<PlayerId>)
    ensures
        ids(r@) == ids(v@),
{
    let mut out: Vec<PlayerId> = Vec::new();
    let mut i: usize = 0;
    while i < v.len()
        invariant
            i <= v@.len(),
            ids(out@) == ids(v@).subrange(0, i as int),
        decreases v@.len() - i,
    {
        let ghost before = out@;
        out.push(v[i].duplicate());
        proof {
            assert(ids(out@) =~= ids(before).push(v@[i as int]@));
            assert(ids(v@).subrange(0, i + 1) =~= ids(v@).subrange(0, i as int).push(v@[i as int]@));
        }
        i = i + 1;
    }
    proof {
        assert(ids(v@).subrange(0, i as int) == ids(v@));
    }
    out
}

/// The record of a finished match between `left` and `right` won by `winner`, at `timestamp`.
pub fn make_history_entry(
    left: &Vec<PlayerId>,
    right: &Vec<PlayerId>,
    winner: Team,
    scale: WinScale,
    duration: u64,
    fake: bool,
    timestamp: i64,
) -> (r: HistoryEntry)
    ensures
        winner == Team::Left ==> ids(r.winner@) == ids(left@) && ids(r.loser@) == ids(right@),
        winner == Team::Right ==> ids(r.winner@) == ids(right@) && ids(r.loser@) == ids(left@),
        r.scale == scale && r.duration == duration && r.fake == fake && r.timestamp == timestamp,
{
    let (w, l) = match winner {
        Team::Left => (copy_ids(left), copy_ids(right)),
        Team::Right => (copy_ids(right), copy_ids(left)),
    };
    HistoryEntry { timestamp, winner: w, loser: l, scale, duration, fake }
}

} // verus!
