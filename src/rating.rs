use vstd::prelude::*;
use crate::history::{contains_id, plays_in, HistoryEntry};
use crate::ids::PlayerId;
use crate::spawelo::ids;

verus! {

/// `p` plays in some match of `history`.
pub open spec fn in_history(history: Seq<HistoryEntry>, p: Seq<char>) -> bool {
    exists|i: int| 0 <= i < history.len() && plays_in(#[trigger] history[i], p)
}

proof fn lemma_push_contains(s: Seq<Seq<char>>, x: Seq<char>, p: Seq<char>)
    ensures
        s.push(x).contains(p) <==> (s.contains(p) || p == x),
{
    if s.push(x).contains(p) && p != x {
        let i = choose|i: int| 0 <= i < s.push(x).len() && s.push(x)[i] == p;
        assert(s[i] == p);
    }
    if s.contains(p) {
        let i = choose|i: int| 0 <= i < s.len() && s[i] == p;
        assert(s.push(x)[i] == p);
    }
    if p == x {
        assert(s.push(x)[s.len() as int] == p);
    }
}

/// Adds to `out` each player of `v` not in it yet.
fn add_new(out: &mut Vec<PlayerId>, v: &Vec<PlayerId>)
    requires
        ids(old(out)@).no_duplicates(),
    ensures
        ids(final(out)@).no_duplicates(),
        forall|p: Seq<char>| #[trigger] ids(final(out)@).contains(p) <==> (ids(old(out)@).contains(p) || ids(v@).contains(p)),
{
    let mut i: usize = 0;
    while i < v.len()
        invariant
            i <= v@.len(),
            ids(out@).no_duplicates(),
            forall|p: Seq<char>| #[trigger] ids(out@).contains(p) <==> (ids(old(out)@).contains(p) || ids(v@).subrange(0, i as int).contains(p)),
        decreases v@.len() - i,
    {
        let ghost before = out@;
        let ghost x = v@[i as int]@;
        if !contains_id(out, &v[i]) {
            out.push(v[i].duplicate());
            proof {
                assert(ids(out@) =~= ids(before).push(x));
                assert forall|a: int, b: int| 0 <= a < b < ids(out@).len() implies ids(out@)[a] != ids(out@)[b] by {
                    if b == ids(before).len() {
                        assert(ids(before)[a] == ids(out@)[a]);
                    }
                }
            }
        }
        proof {
            assert(ids(v@).subrange(0, i + 1) =~= ids(v@).subrange(0, i as int).push(x));
            assert forall|p: Seq<char>| #[trigger] ids(out@).contains(p) <==> (ids(old(out)@).contains(p) || ids(
                v@,
            ).subrange(0, i + 1).contains(p)) by {
                lemma_push_contains(ids(v@).subrange(0, i as int), x, p);
                lemma_push_contains(ids(before), x, p);
            }
        }
        i = i + 1;
    }
    proof {
        assert(ids(v@).subrange(0, i as int) == ids(v@));
    }
}

/// The players the rating estimator rates: everyone who plays in `history`, once each, in
/// order of first appearance. Every one of them starts at the default rating.
pub fn rated_players(history: &Vec<HistoryEntry>) -> (r: Vec<PlayerId>)
    ensures
        ids(r@).no_duplicates(),
        forall|p: Seq<char>| #[trigger] ids(r@).contains(p) <==> in_history(history@, p),
{
    let mut out: Vec<PlayerId> = Vec::new();
    let mut k: usize = 0;
    while k < history.len()
        invariant
            k <= history@.len(),
            ids(out@).no_duplicates(),
            forall|p: Seq<char>| #[trigger] ids(out@).contains(p) <==> in_history(history@.subrange(0, k as int), p),
        decreases history@.len() - k,
    {
        add_new(&mut out, &history[k].winner);
        add_new(&mut out, &history[k].loser);
        proof {
            let h1 = history@.subrange(0, k + 1);
            let h0 = history@.subrange(0, k as int);
            assert forall|p: Seq<char>| #[trigger] ids(out@).contains(p) <==> in_history(h1, p) by {
                if in_history(h1, p) {
                    let i = choose|i: int| 0 <= i < h1.len() && plays_in(#[trigger] h1[i], p);
                    if i < k {
                        assert(h0[i] == h1[i]);
                    }
                }
                if in_history(h0, p) {
                    let i = choose|i: int| 0 <= i < h0.len() && plays_in(#[trigger] h0[i], p);
                    assert(h0[i] == h1[i]);
                }
                if plays_in(history@[k as int], p) {
                    assert(h1[k as int] == history@[k as int]);
                }
            }
        }
        k = k + 1;
    }
    proof {
        assert(history@.subrange(0, k as int) == history@);
    }
    out
}

/// With no match there is nobody to rate.
pub proof fn lemma_empty_history_rates_nobody()
    ensures
        forall|p: Seq<char>| !in_history(Seq::<HistoryEntry>::empty(), p),
{
}

} // verus!
