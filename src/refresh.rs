//! One refresh cycle's decisions: which candidates are observed and probed,
//! and what a finished probe does to the pool.

use vstd::prelude::*;
use crate::check::ProxyCheckResult;
use crate::pool::DB;
use crate::proxy::{parse_proxy, Proxy};

verus! {

/// The proxies that a feed of candidate lines yields, in feed order; lines
/// that do not parse are skipped.
pub open spec fn candidates(lines: Seq<String>) -> Seq<Proxy>
    decreases lines.len(),
{
    if lines.len() == 0 {
        Seq::empty()
    } else {
        let prev = candidates(lines.drop_last());
        match parse_proxy(lines.last()@) {
            Some(p) => prev.push(p),
            None => prev,
        }
    }
}

/// Parses each line in turn and records every proxy that parses as observed;
/// returns those proxies, each of which is then to be probed.
pub fn dispatch(db: &mut DB, lines: &Vec<String>) -> (r: Vec<Proxy>)
    ensures
        r@ == candidates(lines@),
        final(db)@ == old(db)@.observe_all(candidates(lines@)),
        old(db)@.wf() ==> final(db)@.wf(),
{
    let mut r: Vec<Proxy> = Vec::new();
    let mut i: usize = 0;
    while i < lines.len()
        invariant
            i <= lines.len(),
            r@ == candidates(lines@.take(i as int)),
            db@ == old(db)@.observe_all(r@),
            old(db)@.wf() ==> db@.wf(),
        decreases lines.len() - i,
    {
        proof {
            assert(lines@.take(i as int + 1).drop_last() == lines@.take(i as int));
            assert(lines@.take(i as int + 1).last() == lines@[i as int]);
        }
        match Proxy::from_str(lines[i].as_str()) {
            Ok(p) => {
                let ghost prev = r@;
                db.record_observed(p);
                r.push(p);
                assert(r@.drop_last() == prev);
            },
            Err(_) => {},
        }
        i = i + 1;
    }
    assert(lines@.take(lines.len() as int) == lines@);
    r
}

/// Begins a refresh cycle: clears the pool, then dispatches the feed. Returns
/// the new cycle's number, with which the probes' results are to be reported,
/// and the proxies to probe.
pub fn refresh_proxies(db: &mut DB, lines: &Vec<String>) -> (r: (u64, Vec<Proxy>))
    ensures
        r.0 == old(db)@.after_reset().cycle,
        r.1@ == candidates(lines@),
        final(db)@ == old(db)@.after_reset().observe_all(candidates(lines@)),
        final(db)@.wf(),
{
    let cycle = db.reset();
    let todo = dispatch(db, lines);
    (cycle, todo)
}

/// Applies a finished probe of `p`, launched in cycle `cycle`: a success is
/// recorded as verified (if still current), a failure changes nothing.
pub fn settle(db: &mut DB, p: Proxy, cycle: u64, outcome: ProxyCheckResult) -> (r: bool)
    ensures
        r == (outcome is Ok && old(db)@.accepts(p, cycle)),
        final(db)@ == (if outcome is Ok {
            old(db)@.after_verified(p, cycle)
        } else {
            old(db)@
        }),
        old(db)@.wf() ==> final(db)@.wf(),
{
    match outcome {
        Ok(()) => db.record_verified(p, cycle),
        Err(_) => false,
    }
}

} // verus!
