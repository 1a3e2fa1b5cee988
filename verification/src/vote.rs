use vstd::prelude::*;

verus! {

use crate::views::opt_view_seq;

/// Number of votes for `ip` among the per-endpoint candidates `cs`.
pub open spec fn vote_count(cs: Seq<Option<Seq<char>>>, ip: Seq<char>) -> nat
    decreases cs.len(),
{
    if cs.len() == 0 {
        0
    } else {
        vote_count(cs.drop_last(), ip) + if cs.last() == Some(ip) {
            1nat
        } else {
            0nat
        }
    }
}

/// `ip` received at least one vote.
pub open spec fn occurs(cs: Seq<Option<Seq<char>>>, ip: Seq<char>) -> bool {
    exists|j: int| 0 <= j < cs.len() && cs[j] == Some(ip)
}

/// Some endpoint of the pool yielded a candidate.
pub open spec fn has_vote(cs: Seq<Option<Seq<char>>>) -> bool {
    exists|j: int| 0 <= j < cs.len() && cs[j] is Some
}

/// Index of the first occurrence of `Some(ip)` in `cs`.
pub open spec fn first_idx(cs: Seq<Option<Seq<char>>>, ip: Seq<char>) -> int
    decreases cs.len(),
{
    if cs.len() == 0 {
        0
    } else if cs[0] == Some(ip) {
        0
    } else {
        1 + first_idx(cs.drop_first(), ip)
    }
}

/// `w` is the plurality winner of the pool `cs`: it received a vote, no
/// candidate outpolls it, and every candidate first seen before `w` polls
/// strictly fewer votes — a tie goes to the candidate encountered first.
pub open spec fn is_winner(cs: Seq<Option<Seq<char>>>, w: Seq<char>) -> bool {
    &&& occurs(cs, w)
    &&& forall|x: Seq<char>| occurs(cs, x) ==> vote_count(cs, x) <= vote_count(cs, w)
    &&& forall|j: int|
        0 <= j < first_idx(cs, w) && cs[j] is Some ==> vote_count(cs, cs[j]->0) < vote_count(
            cs,
            w,
        )
}

/// The first occurrence of a candidate that occurs is a real index, holds the
/// candidate, and nothing before it does.
pub proof fn lemma_first_idx(cs: Seq<Option<Seq<char>>>, ip: Seq<char>)
    requires
        occurs(cs, ip),
    ensures
        0 <= first_idx(cs, ip) < cs.len(),
        cs[first_idx(cs, ip)] == Some(ip),
        forall|j: int| 0 <= j < first_idx(cs, ip) ==> cs[j] != Some(ip),
    decreases cs.len(),
{
    if cs.len() == 0 {
    } else if cs[0] == Some(ip) {
    } else {
        let tail = cs.drop_first();
        let w = choose|j: int| 0 <= j < cs.len() && cs[j] == Some(ip);
        assert(tail[w - 1] == Some(ip));
        assert(occurs(tail, ip));
        lemma_first_idx(tail, ip);
        let f = first_idx(tail, ip);
        assert(cs[1 + f] == tail[f]);
        assert(forall|j: int| 0 <= j < 1 + f ==> cs[j] != Some(ip)) by {
            assert(forall|j: int| 1 <= j < 1 + f ==> cs[j] == tail[j - 1]);
        }
    }
}

/// A candidate with a vote makes the pool non-empty.
pub proof fn lemma_occurs_has_vote(cs: Seq<Option<Seq<char>>>, ip: Seq<char>)
    requires
        occurs(cs, ip),
    ensures
        has_vote(cs),
{
    let j = choose|j: int| 0 <= j < cs.len() && cs[j] == Some(ip);
    assert(0 <= j < cs.len() && cs[j] is Some);
}

/// The plurality winner with first-encountered tie-break is unique.
pub proof fn lemma_winner_unique(cs: Seq<Option<Seq<char>>>, w1: Seq<char>, w2: Seq<char>)
    requires
        is_winner(cs, w1),
        is_winner(cs, w2),
    ensures
        w1 == w2,
{
    lemma_first_idx(cs, w1);
    lemma_first_idx(cs, w2);
    let f1 = first_idx(cs, w1);
    let f2 = first_idx(cs, w2);
    if f1 < f2 {
        assert(cs[f1] is Some && cs[f1]->0 == w1);
        assert(vote_count(cs, w1) < vote_count(cs, w2));
        assert(vote_count(cs, w2) <= vote_count(cs, w1));
        assert(false);
    } else if f2 < f1 {
        assert(cs[f2] is Some && cs[f2]->0 == w2);
        assert(vote_count(cs, w2) < vote_count(cs, w1));
        assert(vote_count(cs, w1) <= vote_count(cs, w2));
        assert(false);
    } else {
        assert(cs[f1] == Some(w1) && cs[f2] == Some(w2));
    }
}

proof fn lemma_vote_count_push(cs: Seq<Option<Seq<char>>>, x: Option<Seq<char>>, ip: Seq<char>)
    ensures
        vote_count(cs.push(x), ip) == vote_count(cs, ip) + if x == Some(ip) {
            1nat
        } else {
            0nat
        },
{
    assert(cs.push(x).drop_last() =~= cs);
    assert(cs.push(x).last() == x);
}

/// How many of the candidates equal `ip`.
fn count_votes(cands: &Vec<Option<String>>, ip: &String) -> (c: usize)
    ensures
        c == vote_count(opt_view_seq(cands@), ip@),
{
    let ghost cs = opt_view_seq(cands@);
    let mut c: usize = 0;
    let mut j: usize = 0;
    while j < cands.len()
        invariant
            cs == opt_view_seq(cands@),
            j <= cands@.len(),
            cs.len() == cands@.len(),
            c <= j,
            c == vote_count(cs.subrange(0, j as int), ip@),
        decreases cands@.len() - j,
    {
        proof {
            assert(cs.subrange(0, j + 1) =~= cs.subrange(0, j as int).push(cs[j as int]));
            lemma_vote_count_push(cs.subrange(0, j as int), cs[j as int], ip@);
        }
        match &cands[j] {
            Some(x) => {
                if *x == *ip {
                    c = c + 1;
                }
            }
            None => {}
        }
        j = j + 1;
    }
    proof {
        assert(cs.subrange(0, cands@.len() as int) =~= cs);
    }
    c
}

/// Whether `ip` already appears among the first `upto` candidates.
fn occurs_before(cands: &Vec<Option<String>>, upto: usize, ip: &String) -> (b: bool)
    requires
        upto <= cands@.len(),
    ensures
        b == exists|j: int| 0 <= j < upto && opt_view_seq(cands@)[j] == Some(ip@),
{
    let ghost cs = opt_view_seq(cands@);
    let mut j: usize = 0;
    while j < upto
        invariant
            cs == opt_view_seq(cands@),
            upto <= cands@.len(),
            j <= upto,
            cs.len() == cands@.len(),
            forall|t: int| 0 <= t < j ==> cs[t] != Some(ip@),
        decreases upto - j,
    {
        match &cands[j] {
            Some(x) => {
                if *x == *ip {
                    assert(cs[j as int] == Some(ip@));
                    return true;
                }
            }
            None => {}
        }
        j = j + 1;
    }
    false
}

/// The pool's winning candidate: the address with the most votes, the one
/// encountered first on a tie, or nothing when no endpoint voted at all.
pub fn pool_winner(cands: &Vec<Option<String>>) -> (r: Option<String>)
    ensures
        match r {
            Some(w) => is_winner(opt_view_seq(cands@), w@),
            None => !has_vote(opt_view_seq(cands@)),
        },
{
    let ghost cs = opt_view_seq(cands@);
    let mut best: Option<String> = None;
    let mut best_count: usize = 0;
    let ghost mut best_first: int = 0;
    let mut i: usize = 0;
    while i < cands.len()
        invariant
            cs == opt_view_seq(cands@),
            i <= cands@.len(),
            cs.len() == cands@.len(),
            best is None ==> forall|j: int| 0 <= j < i ==> cs[j] is None,
            best matches Some(w) ==> {
                &&& 0 <= best_first < i
                &&& cs[best_first] == Some(w@)
                &&& best_count == vote_count(cs, w@)
                &&& forall|j: int|
                    0 <= j < i && cs[j] is Some ==> vote_count(cs, cs[j]->0) <= best_count
                &&& forall|j: int|
                    0 <= j < best_first && cs[j] is Some ==> vote_count(cs, cs[j]->0) < best_count
            },
        decreases cands@.len() - i,
    {
        match &cands[i] {
            Some(ip) => {
                assert(cs[i as int] == Some(ip@));
                if occurs_before(cands, i, ip) {
                    proof {
                        let e = choose|j: int| 0 <= j < i && cs[j] == Some(ip@);
                        assert(cs[e] is Some && cs[e]->0 == ip@);
                    }
                } else {
                    let c = count_votes(cands, ip);
                    if best.is_none() || c > best_count {
                        best = Some(ip.clone());
                        best_count = c;
                        proof {
                            best_first = i as int;
                        }
                    }
                }
            }
            None => {}
        }
        i = i + 1;
    }
    match &best {
        Some(w) => {
            proof {
                assert(occurs(cs, w@));
                lemma_first_idx(cs, w@);
                let f = first_idx(cs, w@);
                if f < best_first {
                    assert(cs[f] is Some && cs[f]->0 == w@);
                    assert(false);
                }
                if best_first < f {
                    assert(cs[best_first] != Some(w@));
                    assert(false);
                }
                assert(forall|x: Seq<char>| occurs(cs, x) ==> vote_count(cs, x) <= vote_count(
                    cs,
                    w@,
                )) by {
                    assert forall|x: Seq<char>| occurs(cs, x) implies vote_count(cs, x)
                        <= vote_count(cs, w@) by {
                        let j = choose|j: int| 0 <= j < cs.len() && cs[j] == Some(x);
                        assert(vote_count(cs, cs[j]->0) <= best_count);
                    }
                }
            }
        }
        None => {}
    }
    best
}

} // verus!
