//! The pool: every proxy observed in the current refresh cycle, and those of
//! them whose probe succeeded.

use vstd::prelude::*;
use crate::proxy::Proxy;

verus! {

/// The abstract state of a pool.
pub struct PoolState {
    pub observed: Seq<Proxy>,
    pub verified: Seq<Proxy>,
    pub cycle: u64,
}

impl PoolState {
    /// Each verified entry has a matching observed entry.
    pub open spec fn wf(self) -> bool {
        forall|i: int| 0 <= i < self.verified.len() ==> self.observed.contains(#[trigger] self.verified[i])
    }

    /// Both collections cleared, and a new cycle begun.
    pub open spec fn after_reset(self) -> PoolState {
        PoolState { observed: Seq::empty(), verified: Seq::empty(), cycle: self.cycle.wrapping_add(1) }
    }

    pub open spec fn after_observed(self, p: Proxy) -> PoolState {
        PoolState { observed: self.observed.push(p), ..self }
    }

    /// Whether a probe result for `p`, from a task of cycle `cycle`, is taken.
    pub open spec fn accepts(self, p: Proxy, cycle: u64) -> bool {
        cycle == self.cycle && self.observed.contains(p)
    }

    pub open spec fn after_verified(self, p: Proxy, cycle: u64) -> PoolState {
        if self.accepts(p, cycle) {
            PoolState { verified: self.verified.push(p), ..self }
        } else {
            self
        }
    }

    /// The state after observing each of `ps` in turn.
    pub open spec fn observe_all(self, ps: Seq<Proxy>) -> PoolState
        decreases ps.len(),
    {
        if ps.len() == 0 {
            self
        } else {
            self.observe_all(ps.drop_last()).after_observed(ps.last())
        }
    }

    /// The state after a successful probe of each of `ps` in turn, all from
    /// tasks of cycle `cycle`.
    pub open spec fn verify_all(self, ps: Seq<Proxy>, cycle: u64) -> PoolState
        decreases ps.len(),
    {
        if ps.len() == 0 {
            self
        } else {
            self.verify_all(ps.drop_last(), cycle).after_verified(ps.last(), cycle)
        }
    }
}

/// Observing a proxy keeps every verified entry matched by an observed one.
pub proof fn lemma_observed_keeps_wf(s: PoolState, p: Proxy)
    requires
        s.wf(),
    ensures
        s.after_observed(p).wf(),
{
    let t = s.after_observed(p);
    assert forall|i: int| 0 <= i < t.verified.len() implies t.observed.contains(
        #[trigger] t.verified[i],
    ) by {
        assert(s.observed.contains(s.verified[i]));
        let j = choose|j: int| 0 <= j < s.observed.len() && s.observed[j] == s.verified[i];
        assert(t.observed[j] == t.verified[i]);
    }
}

/// Taking a probe result keeps every verified entry matched by an observed one.
pub proof fn lemma_verified_keeps_wf(s: PoolState, p: Proxy, cycle: u64)
    requires
        s.wf(),
    ensures
        s.after_verified(p, cycle).wf(),
{
    let t = s.after_verified(p, cycle);
    assert forall|i: int| 0 <= i < t.verified.len() implies t.observed.contains(
        #[trigger] t.verified[i],
    ) by {
        if i < s.verified.len() {
            assert(t.verified[i] == s.verified[i]);
        }
    }
}

/// After a reset both collections are empty.
pub proof fn lemma_reset_empties(s: PoolState)
    ensures
        s.after_reset().observed.len() == 0,
        s.after_reset().verified.len() == 0,
        s.after_reset().wf(),
{
}

/// A proxy enters the verified collection only if it was observed earlier in
/// the same cycle; in particular nothing is verified after a reset until it
/// has been observed again.
pub proof fn lemma_verified_only_if_observed(s: PoolState, p: Proxy, cycle: u64)
    requires
        s.wf(),
    ensures
        s.after_verified(p, cycle).verified.contains(p) ==> s.observed.contains(p),
        s.after_verified(p, cycle).verified.len() > s.verified.len() ==> s.observed.contains(p)
            && cycle == s.cycle,
        s.after_reset().after_verified(p, cycle) == s.after_reset(),
{
    let t = s.after_verified(p, cycle);
    if t.verified.contains(p) {
        let i = choose|i: int| 0 <= i < t.verified.len() && t.verified[i] == p;
        if i < s.verified.len() {
            assert(s.verified[i] == p);
            assert(s.observed.contains(s.verified[i]));
        }
    }
}

/// Observing proxies one after another adds them all, in order, and touches
/// nothing else.
pub proof fn lemma_observe_all(s: PoolState, ps: Seq<Proxy>)
    ensures
        s.observe_all(ps) == (PoolState { observed: s.observed + ps, ..s }),
    decreases ps.len(),
{
    if ps.len() > 0 {
        lemma_observe_all(s, ps.drop_last());
        assert((s.observed + ps.drop_last()).push(ps.last()) =~= s.observed + ps);
    } else {
        assert(s.observed + ps =~= s.observed);
    }
}

/// Successful probes of proxies observed in the current cycle are all taken,
/// in order, and touch nothing else.
pub proof fn lemma_verify_all(s: PoolState, ps: Seq<Proxy>)
    requires
        forall|i: int| 0 <= i < ps.len() ==> s.observed.contains(#[trigger] ps[i]),
    ensures
        s.verify_all(ps, s.cycle) == (PoolState { verified: s.verified + ps, ..s }),
    decreases ps.len(),
{
    if ps.len() > 0 {
        let init = ps.drop_last();
        assert forall|i: int| 0 <= i < init.len() implies s.observed.contains(#[trigger] init[i]) by {
            assert(init[i] == ps[i]);
        }
        lemma_verify_all(s, init);
        assert(s.observed.contains(ps[ps.len() - 1]));
        assert((s.verified + init).push(ps.last()) =~= s.verified + ps);
    } else {
        assert(s.verified + ps =~= s.verified);
    }
}

/// No update is lost: observing `ps` adds exactly `ps.len()` observed
/// entries, and a successful probe of each of them, reported in the same
/// cycle, adds exactly `ps.len()` verified entries.
pub proof fn lemma_no_lost_updates(s: PoolState, ps: Seq<Proxy>)
    ensures
        s.observe_all(ps).observed.len() == s.observed.len() + ps.len(),
        s.observe_all(ps).verify_all(ps, s.cycle).verified.len() == s.verified.len() + ps.len(),
{
    lemma_observe_all(s, ps);
    let t = s.observe_all(ps);
    assert forall|i: int| 0 <= i < ps.len() implies t.observed.contains(#[trigger] ps[i]) by {
        assert(t.observed[s.observed.len() + i] == ps[i]);
    }
    lemma_verify_all(t, ps);
}

/// A probe started before a reset is dropped, however late it reports and
/// whatever the new cycle has observed meanwhile; and nothing of the earlier
/// cycle stays in either collection.
pub proof fn lemma_stale_results_dropped(s: PoolState, fresh: Seq<Proxy>, p: Proxy)
    ensures
        s.after_reset().observe_all(fresh).after_verified(p, s.cycle) == s.after_reset().observe_all(
            fresh,
        ),
        s.after_reset().observe_all(fresh).observed == fresh,
        s.after_reset().observe_all(fresh).verified.len() == 0,
{
    lemma_observe_all(s.after_reset(), fresh);
    assert(Seq::<Proxy>::empty() + fresh =~= fresh);
}

/// The shared pool state: all proxies observed in the current cycle, the
/// verified ones among them, and the number of the current cycle.
pub struct DB {
    valid_proxies: Vec<Proxy>,
    all_proxies: Vec<Proxy>,
    cycle: u64,
}

impl View for DB {
    type V = PoolState;

    closed spec fn view(&self) -> PoolState {
        PoolState { observed: self.all_proxies@, verified: self.valid_proxies@, cycle: self.cycle }
    }
}

fn copy_all(v: &Vec<Proxy>) -> (r: Vec<Proxy>)
    ensures
        r@ == v@,
{
    let mut r: Vec<Proxy> = Vec::new();
    let mut i: usize = 0;
    while i < v.len()
        invariant
            i <= v.len(),
            r@ == v@.take(i as int),
        decreases v.len() - i,
    {
        r.push(v[i]);
        assert(r@ == v@.take(i as int + 1));
        i = i + 1;
    }
    assert(v@.take(v.len() as int) == v@);
    r
}

fn contains(v: &Vec<Proxy>, p: Proxy) -> (r: bool)
    ensures
        r == v@.contains(p),
{
    let mut i: usize = 0;
    while i < v.len()
        invariant
            i <= v.len(),
            forall|j: int| 0 <= j < i ==> v@[j] != p,
        decreases v.len() - i,
    {
        if v[i] == p {
            return true;
        }
        i = i + 1;
    }
    false
}

impl DB {
    /// An empty pool at cycle zero.
    pub fn new() -> (r: DB)
        ensures
            r@ == (PoolState { observed: Seq::empty(), verified: Seq::empty(), cycle: 0 }),
            r@.wf(),
    {
        DB { valid_proxies: Vec::new(), all_proxies: Vec::new(), cycle: 0 }
    }

    /// The number of the current refresh cycle.
    pub fn cycle(&self) -> (r: u64)
        ensures
            r == self@.cycle,
    {
        self.cycle
    }

    /// Clears both collections and begins a new cycle, whose number is returned.
    pub fn reset(&mut self) -> (r: u64)
        ensures
            final(self)@ == old(self)@.after_reset(),
            r == final(self)@.cycle,
            final(self)@.wf(),
    {
        self.valid_proxies = Vec::new();
        self.all_proxies = Vec::new();
        self.cycle = self.cycle.wrapping_add(1);
        self.cycle
    }

    /// Appends `p` to the observed proxies.
    pub fn record_observed(&mut self, p: Proxy)
        ensures
            final(self)@ == old(self)@.after_observed(p),
            old(self)@.wf() ==> final(self)@.wf(),
    {
        self.all_proxies.push(p);
        proof {
            if old(self)@.wf() {
                lemma_observed_keeps_wf(old(self)@, p);
            }
        }
    }

    /// Appends `p` to the verified proxies, if the probe that vouches for it
    /// was started in the current cycle and `p` has been observed in it;
    /// returns whether it was taken.
    pub fn record_verified(&mut self, p: Proxy, cycle: u64) -> (r: bool)
        ensures
            r == old(self)@.accepts(p, cycle),
            final(self)@ == old(self)@.after_verified(p, cycle),
            old(self)@.wf() ==> final(self)@.wf(),
    {
        if cycle != self.cycle || !contains(&self.all_proxies, p) {
            return false;
        }
        self.valid_proxies.push(p);
        proof {
            if old(self)@.wf() {
                lemma_verified_keeps_wf(old(self)@, p, cycle);
            }
        }
        true
    }

    /// A copy of the verified proxies as they stand now.
    pub fn snapshot_verified(&self) -> (r: Vec<Proxy>)
        ensures
            r@ == self@.verified,
    {
        copy_all(&self.valid_proxies)
    }

    /// A copy of the proxies observed in the current cycle.
    pub fn snapshot_observed(&self) -> (r: Vec<Proxy>)
        ensures
            r@ == self@.observed,
    {
        copy_all(&self.all_proxies)
    }
}

} // verus!
