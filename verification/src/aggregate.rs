use vstd::prelude::*;

verus! {

use crate::normalize::{normalize, normalize_spec};
use crate::views::{opt_str_view, opt_view_seq};
use crate::vote::{
    pool_winner, is_winner, has_vote, occurs, vote_count, lemma_winner_unique,
    lemma_occurs_has_vote,
};

/// The outcome of one successful lookup: the address seen by the direct pool,
/// the address seen by the proxied pool if that pool produced one, and whether
/// the two disagree.
#[derive(Debug)]
pub struct IpInfo {
    pub real_ip: String,
    pub proxy_ip: Option<String>,
    pub using_proxy: bool,
}

/// The one failure the whole operation can surface: the direct pool yielded
/// no usable address.
#[derive(Clone, Copy, PartialEq, Eq, Structural, Debug)]
pub enum LookupFailure {
    NoRealIp,
}

impl LookupFailure {
    /// The single human-readable message shown to a caller on failure.
    pub fn message(&self) -> (m: String)
        ensures
            m@ == "Failed to get public IP from all services"@,
    {
        "Failed to get public IP from all services".to_owned()
    }
}

/// The candidate each endpoint of a pool contributes: its body, when it has
/// one, normalized.
pub open spec fn pool_candidates(bodies: Seq<Option<Seq<char>>>) -> Seq<Option<Seq<char>>> {
    bodies.map_values(
        |b: Option<Seq<char>>|
            match b {
                Some(text) => normalize_spec(text),
                None => None,
            },
    )
}

/// Everything `resolve` promises of its result, over the raw bodies of the
/// two pools: on success the real address is the direct pool's plurality
/// winner, the proxy address is the proxied pool's winner or absent when that
/// pool has no vote, and `using_proxy` holds exactly when both addresses are
/// present and differ; failure happens exactly when the direct pool has no
/// vote at all.
pub open spec fn resolve_post(
    nb: Seq<Option<Seq<char>>>,
    pb: Seq<Option<Seq<char>>>,
    r: Result<IpInfo, LookupFailure>,
) -> bool {
    let nc = pool_candidates(nb);
    let pc = pool_candidates(pb);
    match r {
        Ok(info) => {
            &&& is_winner(nc, info.real_ip@)
            &&& match info.proxy_ip {
                Some(p) => is_winner(pc, p@),
                None => !has_vote(pc),
            }
            &&& info.using_proxy == (info.proxy_ip is Some && info.real_ip@
                != opt_str_view(info.proxy_ip)->0)
        },
        Err(e) => {
            &&& !has_vote(nc)
            &&& e == LookupFailure::NoRealIp
        },
    }
}

/// Normalize every body of one pool into its candidate.
fn normalize_pool(bodies: &Vec<Option<String>>) -> (cands: Vec<Option<String>>)
    ensures
        opt_view_seq(cands@) == pool_candidates(opt_view_seq(bodies@)),
{
    let ghost target = pool_candidates(opt_view_seq(bodies@));
    let mut cands: Vec<Option<String>> = Vec::new();
    let mut i: usize = 0;
    while i < bodies.len()
        invariant
            target == pool_candidates(opt_view_seq(bodies@)),
            i <= bodies@.len(),
            target.len() == bodies@.len(),
            cands@.len() == i,
            opt_view_seq(cands@) == target.subrange(0, i as int),
        decreases bodies@.len() - i,
    {
        let c: Option<String> = match &bodies[i] {
            Some(text) => normalize(text.as_str()),
            None => None,
        };
        cands.push(c);
        proof {
            assert(opt_view_seq(cands@) =~= target.subrange(0, i + 1));
        }
        i = i + 1;
    }
    proof {
        assert(target.subrange(0, bodies@.len() as int) =~= target);
    }
    cands
}

/// Resolve the two pools from their raw per-endpoint bodies (`None` where a
/// request failed): normalize every body, pick each pool's plurality winner,
/// and compare. Fails exactly when the direct pool yields no candidate;
/// a proxied pool without a candidate only leaves the proxy address absent.
pub fn resolve(no_proxy_bodies: &Vec<Option<String>>, proxied_bodies: &Vec<Option<String>>) -> (r:
    Result<IpInfo, LookupFailure>)
    ensures
        resolve_post(opt_view_seq(no_proxy_bodies@), opt_view_seq(proxied_bodies@), r),
{
    let no_proxy_cands = normalize_pool(no_proxy_bodies);
    let proxied_cands = normalize_pool(proxied_bodies);
    let real_winner = pool_winner(&no_proxy_cands);
    let proxy_winner = pool_winner(&proxied_cands);
    match real_winner {
        Some(real_ip) => {
            let using_proxy = match &proxy_winner {
                Some(p) => !(real_ip == *p),
                None => false,
            };
            Ok(IpInfo { real_ip, proxy_ip: proxy_winner, using_proxy })
        }
        None => Err(LookupFailure::NoRealIp),
    }
}

/// Two results of one lookup agree: same success, same addresses, same verdict.
pub open spec fn outcome_eq(
    a: Result<IpInfo, LookupFailure>,
    b: Result<IpInfo, LookupFailure>,
) -> bool {
    match (a, b) {
        (Ok(x), Ok(y)) => {
            &&& x.real_ip@ == y.real_ip@
            &&& opt_str_view(x.proxy_ip) == opt_str_view(y.proxy_ip)
            &&& x.using_proxy == y.using_proxy
        },
        (Err(x), Err(y)) => x == y,
        _ => false,
    }
}

/// Resolving the same per-endpoint bodies twice gives the same result: the
/// outcome is a function of the responses alone, with no state across calls.
pub proof fn lemma_resolve_deterministic(
    nb: Seq<Option<Seq<char>>>,
    pb: Seq<Option<Seq<char>>>,
    r1: Result<IpInfo, LookupFailure>,
    r2: Result<IpInfo, LookupFailure>,
)
    ensures
        resolve_post(nb, pb, r1) && resolve_post(nb, pb, r2) ==> outcome_eq(r1, r2),
{
    let nc = pool_candidates(nb);
    let pc = pool_candidates(pb);
    if resolve_post(nb, pb, r1) && resolve_post(nb, pb, r2) {
        match (r1, r2) {
            (Ok(x), Ok(y)) => {
                lemma_winner_unique(nc, x.real_ip@, y.real_ip@);
                match (x.proxy_ip, y.proxy_ip) {
                    (Some(p), Some(q)) => {
                        lemma_winner_unique(pc, p@, q@);
                    },
                    (Some(p), None) => {
                        lemma_occurs_has_vote(pc, p@);
                        assert(false);
                    },
                    (None, Some(q)) => {
                        lemma_occurs_has_vote(pc, q@);
                        assert(false);
                    },
                    (None, None) => {},
                }
            },
            (Ok(x), Err(_)) => {
                lemma_occurs_has_vote(nc, x.real_ip@);
                assert(false);
            },
            (Err(_), Ok(y)) => {
                lemma_occurs_has_vote(nc, y.real_ip@);
                assert(false);
            },
            (Err(_), Err(_)) => {},
        }
    }
}

/// A candidate that strictly outpolls every other candidate of the direct
/// pool is the address a successful lookup reports.
pub proof fn lemma_majority_wins(
    nb: Seq<Option<Seq<char>>>,
    pb: Seq<Option<Seq<char>>>,
    info: IpInfo,
    x: Seq<char>,
)
    ensures
        (resolve_post(nb, pb, Ok(info)) && occurs(pool_candidates(nb), x) && (forall|y: Seq<char>|
            occurs(pool_candidates(nb), y) && y != x ==> vote_count(pool_candidates(nb), y)
                < vote_count(pool_candidates(nb), x))) ==> info.real_ip@ == x,
{
    let nc = pool_candidates(nb);
    if resolve_post(nb, pb, Ok(info)) && occurs(nc, x) && (forall|y: Seq<char>|
        occurs(nc, y) && y != x ==> vote_count(nc, y) < vote_count(nc, x)) {
        if info.real_ip@ != x {
            assert(vote_count(nc, info.real_ip@) < vote_count(nc, x));
            assert(vote_count(nc, x) <= vote_count(nc, info.real_ip@));
            assert(false);
        }
    }
}

/// `using_proxy` holds exactly when both addresses are present and differ;
/// with either absent it is false.
pub proof fn lemma_using_proxy_invariant(
    nb: Seq<Option<Seq<char>>>,
    pb: Seq<Option<Seq<char>>>,
    info: IpInfo,
)
    ensures
        resolve_post(nb, pb, Ok(info)) ==> (info.using_proxy <==> (info.proxy_ip is Some
            && info.real_ip@ != opt_str_view(info.proxy_ip)->0)),
{
}

/// When both pools elect the same winner, the result reports no proxy.
pub proof fn lemma_same_winner_no_proxy(
    nb: Seq<Option<Seq<char>>>,
    pb: Seq<Option<Seq<char>>>,
    info: IpInfo,
    w: Seq<char>,
)
    ensures
        (resolve_post(nb, pb, Ok(info)) && is_winner(pool_candidates(nb), w) && is_winner(
            pool_candidates(pb),
            w,
        )) ==> !info.using_proxy,
{
    let nc = pool_candidates(nb);
    let pc = pool_candidates(pb);
    if resolve_post(nb, pb, Ok(info)) && is_winner(nc, w) && is_winner(pc, w) {
        lemma_winner_unique(nc, info.real_ip@, w);
        match info.proxy_ip {
            Some(p) => {
                lemma_winner_unique(pc, p@, w);
            },
            None => {
                lemma_occurs_has_vote(pc, w);
                assert(false);
            },
        }
    }
}

/// When the two pools elect different winners, the result reports a proxy and
/// carries both addresses.
pub proof fn lemma_diverging_winners_proxy(
    nb: Seq<Option<Seq<char>>>,
    pb: Seq<Option<Seq<char>>>,
    info: IpInfo,
    w1: Seq<char>,
    w2: Seq<char>,
)
    ensures
        (resolve_post(nb, pb, Ok(info)) && is_winner(pool_candidates(nb), w1) && is_winner(
            pool_candidates(pb),
            w2,
        ) && w1 != w2) ==> (info.using_proxy && info.proxy_ip is Some && info.real_ip@ == w1
            && opt_str_view(info.proxy_ip)->0 == w2),
{
    let nc = pool_candidates(nb);
    let pc = pool_candidates(pb);
    if resolve_post(nb, pb, Ok(info)) && is_winner(nc, w1) && is_winner(pc, w2) && w1 != w2 {
        lemma_winner_unique(nc, info.real_ip@, w1);
        match info.proxy_ip {
            Some(p) => {
                lemma_winner_unique(pc, p@, w2);
            },
            None => {
                lemma_occurs_has_vote(pc, w2);
                assert(false);
            },
        }
    }
}

/// A direct pool in which every endpoint failed fails the whole lookup,
/// whatever the proxied pool produced.
pub proof fn lemma_no_proxy_pool_exhausted(
    nb: Seq<Option<Seq<char>>>,
    pb: Seq<Option<Seq<char>>>,
    r: Result<IpInfo, LookupFailure>,
)
    ensures
        (resolve_post(nb, pb, r) && (forall|j: int|
            0 <= j < nb.len() ==> pool_candidates(nb)[j] is None)) ==> (r is Err && r
            == Result::<IpInfo, LookupFailure>::Err(LookupFailure::NoRealIp)),
{
    let nc = pool_candidates(nb);
    if resolve_post(nb, pb, r) && (forall|j: int| 0 <= j < nb.len() ==> nc[j] is None) {
        match r {
            Ok(info) => {
                let j = choose|j: int| 0 <= j < nc.len() && nc[j] == Some(info.real_ip@);
                assert(nc[j] is None);
                assert(false);
            },
            Err(_) => {},
        }
    }
}

/// A proxied pool in which every endpoint failed only degrades the result:
/// when the direct pool has a vote, the lookup still succeeds, with no proxy
/// address and `using_proxy` false.
pub proof fn lemma_proxied_pool_exhausted(
    nb: Seq<Option<Seq<char>>>,
    pb: Seq<Option<Seq<char>>>,
    r: Result<IpInfo, LookupFailure>,
)
    ensures
        (resolve_post(nb, pb, r) && has_vote(pool_candidates(nb)) && (forall|j: int|
            0 <= j < pb.len() ==> pool_candidates(pb)[j] is None)) ==> match r {
            Ok(info) => info.proxy_ip is None && !info.using_proxy,
            Err(_) => false,
        },
{
    let pc = pool_candidates(pb);
    if resolve_post(nb, pb, r) && has_vote(pool_candidates(nb)) && (forall|j: int|
        0 <= j < pb.len() ==> pc[j] is None) {
        match r {
            Ok(info) => {
                match info.proxy_ip {
                    Some(p) => {
                        let j = choose|j: int| 0 <= j < pc.len() && pc[j] == Some(p@);
                        assert(pc[j] is None);
                        assert(false);
                    },
                    None => {},
                }
            },
            Err(_) => {},
        }
    }
}

} // verus!
