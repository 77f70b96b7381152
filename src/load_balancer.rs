//! Load-balancing strategies: each picks one backend from a candidate list.

use vstd::prelude::*;
use crate::backend::{views, Backend, BackendView};
use crate::table::{find_key, keys_unique, lemma_first_key, lemma_value_after_push, lemma_value_after_set, value_in, Keyed};
use crate::text::same_text;
use std::collections::hash_map::RandomState;
use std::hash::BuildHasher;
use vstd::arithmetic::div_mod::{lemma_div_is_ordered, lemma_fundamental_div_mod, lemma_fundamental_div_mod_converse};

verus! {

/// What every strategy offers.
pub trait LoadBalancer {
    /// Picks one of `backends`; nothing when the list is empty.
    fn select_backend(&mut self, backends: &[Backend]) -> (r: Option<Backend>)
        ensures
            r is Some <==> backends@.len() > 0,
            r is Some ==> exists|i: int| 0 <= i < backends@.len() && r->Some_0@ == backends@[i]@;

    /// Tells the strategy that a request sent to `backend` has completed.
    fn release_backend(&mut self, backend: &Backend);

    /// The strategy's display name.
    fn name(&self) -> &'static str;
}

/// The counter value after `c`, wrapping at the machine word.
pub open spec fn next_tick(c: usize) -> usize {
    if c == usize::MAX {
        0
    } else {
        (c + 1) as usize
    }
}

fn tick(c: usize) -> (r: usize)
    ensures
        r == next_tick(c),
{
    if c == usize::MAX {
        0
    } else {
        c + 1
    }
}

/// Circular selection driven by a counter that every selection advances.
pub struct RoundRobinBalancer {
    pub counter: usize,
}

impl RoundRobinBalancer {
    pub fn new() -> (r: Self)
        ensures
            r.counter == 0,
    {
        RoundRobinBalancer { counter: 0 }
    }

    /// Picks `backends[counter % len]` and advances the counter.
    pub fn select(&mut self, backends: &[Backend]) -> (r: Option<Backend>)
        ensures
            backends@.len() == 0 ==> r is None && final(self).counter == old(self).counter,
            backends@.len() > 0 ==> r is Some && r->Some_0@ == backends@[old(self).counter as int
                % (backends@.len() as int)]@ && final(self).counter == next_tick(old(self).counter),
    {
        if backends.len() == 0 {
            return None;
        }
        let index = self.counter % backends.len();
        self.counter = tick(self.counter);
        Some(backends[index].duplicate())
    }
}

impl LoadBalancer for RoundRobinBalancer {
    fn select_backend(&mut self, backends: &[Backend]) -> (r: Option<Backend>)
        ensures
            backends@.len() == 0 ==> r is None && final(self).counter == old(self).counter,
            backends@.len() > 0 ==> r is Some && r->Some_0@ == backends@[old(self).counter as int
                % (backends@.len() as int)]@ && final(self).counter == next_tick(old(self).counter),
    {
        self.select(backends)
    }

    fn release_backend(&mut self, backend: &Backend)
        ensures
            final(self).counter == old(self).counter,
    {
    }

    fn name(&self) -> (r: &'static str)
        ensures
            r@ == "RoundRobin"@,
    {
        "RoundRobin"
    }
}


/// In-flight requests that the least-connections strategy has counted for
/// one backend, keyed by its identifier.
pub type ConnectionCount = Keyed<usize>;

/// The count that a table holds for `id`; zero when it has no entry.
pub open spec fn count_in(es: Seq<ConnectionCount>, id: Seq<char>) -> nat {
    match value_in(es, id) {
        Some(c) => c as nat,
        None => 0,
    }
}

/// The sum of the counts of a table.
pub open spec fn total_in(es: Seq<ConnectionCount>) -> nat
    decreases es.len(),
{
    if es.len() == 0 {
        0
    } else {
        total_in(es.drop_last()) + es.last().value as nat
    }
}

/// A count raised by one, staying at the machine maximum.
pub open spec fn bumped(c: nat) -> nat {
    if c < usize::MAX {
        c + 1
    } else {
        c
    }
}

/// A count lowered by one, staying at zero.
pub open spec fn dropped(c: nat) -> nat {
    if c > 0 {
        (c - 1) as nat
    } else {
        0
    }
}

proof fn lemma_total_update(es: Seq<ConnectionCount>, k: int, e: ConnectionCount)
    requires
        0 <= k < es.len(),
    ensures
        total_in(es.update(k, e)) == total_in(es) - es[k].value + e.value,
    decreases es.len(),
{
    let fs = es.update(k, e);
    if k < es.len() - 1 {
        assert(fs.drop_last() =~= es.drop_last().update(k, e));
        lemma_total_update(es.drop_last(), k, e);
    } else {
        assert(fs.drop_last() =~= es.drop_last());
    }
}

/// Picks the backend with the fewest counted requests, the first such in
/// list order, and counts one more request for it.
pub struct LeastConnectionsBalancer {
    pub connections: Vec<ConnectionCount>,
}

impl LeastConnectionsBalancer {
    pub fn new() -> (r: Self)
        ensures
            r.connections@.len() == 0,
            r.wf(),
    {
        LeastConnectionsBalancer { connections: Vec::new() }
    }

    /// Each backend has at most one entry.
    pub open spec fn wf(&self) -> bool {
        keys_unique(self.connections@)
    }

    /// The count held for `id`.
    pub open spec fn count_of(&self, id: Seq<char>) -> nat {
        count_in(self.connections@, id)
    }

    /// The sum of all counts.
    pub open spec fn total(&self) -> nat {
        total_in(self.connections@)
    }

    /// `i` is the first position of `bs` with the smallest count.
    pub open spec fn is_least_loaded(&self, bs: Seq<BackendView>, i: int) -> bool {
        &&& 0 <= i < bs.len()
        &&& forall|j: int| 0 <= j < bs.len() ==> self.count_of(bs[j].server_id) >= self.count_of(bs[i].server_id)
        &&& forall|j: int| 0 <= j < i ==> self.count_of(bs[j].server_id) > self.count_of(bs[i].server_id)
    }

    /// One selection over `bs` turns `self` into `after` and returns `r`:
    /// nothing and no change on an empty list; else the least-loaded
    /// candidate, whose count alone rises by one.
    pub open spec fn select_spec(&self, after: &Self, bs: Seq<BackendView>, r: Option<Backend>) -> bool {
        &&& bs.len() == 0 ==> r is None && after.connections@ == self.connections@
        &&& bs.len() > 0 ==> r is Some && exists|i: int| #[trigger] self.is_least_loaded(bs, i) && r->Some_0@ == bs[i]
        &&& r is Some ==> forall|id: Seq<char>| #[trigger] after.count_of(id) == if id == r->Some_0.server_id@ {
            bumped(self.count_of(id))
        } else {
            self.count_of(id)
        }
        &&& r is Some ==> after.total() == self.total() + bumped(self.count_of(r->Some_0.server_id@)) - self.count_of(
            r->Some_0.server_id@,
        )
        &&& self.wf() ==> after.wf()
    }

    /// A release for `id` turns `self` into `after`: the count of `id` alone
    /// drops by one, staying at zero, and the total with it.
    pub open spec fn release_spec(&self, after: &Self, id: Seq<char>) -> bool {
        &&& forall|x: Seq<char>| #[trigger] after.count_of(x) == if x == id {
            dropped(self.count_of(x))
        } else {
            self.count_of(x)
        }
        &&& after.total() == self.total() + dropped(self.count_of(id)) - self.count_of(id)
        &&& self.wf() ==> after.wf()
    }

    /// The number of requests counted for `server_id`.
    pub fn connections_of(&self, server_id: &str) -> (r: usize)
        ensures
            r as nat == self.count_of(server_id@),
    {
        match find_key(&self.connections, server_id) {
            Some(k) => self.connections[k].value,
            None => 0,
        }
    }

    /// Picks the least-loaded candidate and counts one more request for it.
    pub fn select(&mut self, backends: &[Backend]) -> (r: Option<Backend>)
        ensures
            old(self).select_spec(final(self), views(backends@), r),
    {
        let ghost bs = views(backends@);
        if backends.len() == 0 {
            return None;
        }
        let mut best: usize = 0;
        let mut best_count = self.connections_of(backends[0].server_id.as_str());
        let mut i: usize = 1;
        while i < backends.len()
            invariant
                bs == views(backends@),
                1 <= i <= backends@.len(),
                best < i,
                best_count as nat == self.count_of(bs[best as int].server_id),
                forall|j: int| 0 <= j < i ==> self.count_of(bs[j].server_id) >= best_count,
                forall|j: int| 0 <= j < best ==> self.count_of(bs[j].server_id) > best_count,
            decreases backends.len() - i,
        {
            let c = self.connections_of(backends[i].server_id.as_str());
            if c < best_count {
                best = i;
                best_count = c;
            }
            i = i + 1;
        }
        assert(self.is_least_loaded(bs, best as int));
        let chosen = backends[best].duplicate();
        assert(bs[best as int] == backends@[best as int]@);
        let ghost before = self.connections@;
        match find_key(&self.connections, chosen.server_id.as_str()) {
            Some(k) => {
                let c = self.connections[k].value;
                let next = if c < usize::MAX {
                    c + 1
                } else {
                    c
                };
                let entry = Keyed { key: self.connections[k].key.clone(), value: next };
                self.connections.set(k, entry);
                proof {
                    lemma_first_key(before, chosen.server_id@);
                    lemma_total_update(before, k as int, entry);
                    lemma_value_after_set(before, k as int, entry, chosen.server_id@);
                }
            },
            None => {
                let entry = Keyed { key: chosen.server_id.clone(), value: 1 };
                self.connections.push(entry);
                proof {
                    lemma_value_after_push(before, entry);
                    assert(self.connections@.drop_last() =~= before);
                }
            },
        }
        Some(chosen)
    }

    /// Counts one request fewer for `backend`, never below zero.
    pub fn release(&mut self, backend: &Backend)
        ensures
            old(self).release_spec(final(self), backend.server_id@),
    {
        let ghost before = self.connections@;
        match find_key(&self.connections, backend.server_id.as_str()) {
            Some(k) => {
                let c = self.connections[k].value;
                let next = if c > 0 {
                    c - 1
                } else {
                    0
                };
                let entry = Keyed { key: self.connections[k].key.clone(), value: next };
                self.connections.set(k, entry);
                proof {
                    lemma_first_key(before, backend.server_id@);
                    lemma_total_update(before, k as int, entry);
                    lemma_value_after_set(before, k as int, entry, backend.server_id@);
                }
            },
            None => {},
        }
    }
}

impl LoadBalancer for LeastConnectionsBalancer {
    fn select_backend(&mut self, backends: &[Backend]) -> (r: Option<Backend>)
        ensures
            old(self).select_spec(final(self), views(backends@), r),
    {
        let r = self.select(backends);
        proof {
            if backends@.len() > 0 {
                let i = choose|i: int| #[trigger] old(self).is_least_loaded(views(backends@), i)
                    && r->Some_0@ == views(backends@)[i];
                assert(views(backends@)[i] == backends@[i]@);
            }
        }
        r
    }

    fn release_backend(&mut self, backend: &Backend)
        ensures
            old(self).release_spec(final(self), backend.server_id@),
    {
        self.release(backend)
    }

    fn name(&self) -> (r: &'static str)
        ensures
            r@ == "LeastConnections"@,
    {
        "LeastConnections"
    }
}

/// Relies on `RandomState::new`: a hasher state whose keys are drawn anew
/// for every call. Nothing is promised of them.
#[verifier::external_body]
fn fresh_random_state() -> RandomState {
    RandomState::new()
}

/// Relies on `BuildHasher::hash_one`: the hash of `word` under `state`.
/// Nothing is promised of its value.
#[verifier::external_body]
fn hash_word(state: &RandomState, word: u64) -> u64 {
    state.hash_one(word)
}

/// The candidate at position `word % len`.
pub fn pick_at(backends: &[Backend], word: u64) -> (r: Option<Backend>)
    ensures
        backends@.len() == 0 ==> r is None,
        backends@.len() > 0 ==> r is Some && r->Some_0@ == backends@[word as int % (backends@.len() as int)]@,
{
    if backends.len() == 0 {
        return None;
    }
    let index = (word % (backends.len() as u64)) as usize;
    Some(backends[index].duplicate())
}

/// Picks a candidate at a position drawn afresh for every selection.
pub struct RandomBalancer {}

impl RandomBalancer {
    pub fn new() -> (r: Self) {
        RandomBalancer {  }
    }

    /// Picks one candidate, at a position that the contract leaves open.
    pub fn select(&self, backends: &[Backend]) -> (r: Option<Backend>)
        ensures
            r is Some <==> backends@.len() > 0,
            r is Some ==> exists|i: int| 0 <= i < backends@.len() && r->Some_0@ == backends@[i]@,
    {
        let word = hash_word(&fresh_random_state(), 0);
        let r = pick_at(backends, word);
        proof {
            if backends@.len() > 0 {
                let i = word as int % (backends@.len() as int);
                assert(0 <= i < backends@.len());
            }
        }
        r
    }
}

impl LoadBalancer for RandomBalancer {
    fn select_backend(&mut self, backends: &[Backend]) -> (r: Option<Backend>) {
        self.select(backends)
    }

    fn release_backend(&mut self, backend: &Backend) {
    }

    fn name(&self) -> (r: &'static str)
        ensures
            r@ == "Random"@,
    {
        "Random"
    }
}

/// How many slots a backend of `provider` takes in the weighted rotation.
pub open spec fn weight_of(provider: Seq<char>) -> nat {
    if provider == "supabase"@ {
        3
    } else {
        1
    }
}

/// The candidates with each repeated as often as its weight, in list order.
pub open spec fn expand(bs: Seq<BackendView>) -> Seq<BackendView>
    decreases bs.len(),
{
    if bs.len() == 0 {
        Seq::<BackendView>::empty()
    } else {
        expand(bs.drop_last()) + Seq::new(weight_of(bs.last().provider), |k: int| bs.last())
    }
}

pub proof fn lemma_expand_len(bs: Seq<BackendView>)
    ensures
        expand(bs).len() >= bs.len(),
    decreases bs.len(),
{
    if bs.len() > 0 {
        lemma_expand_len(bs.drop_last());
    }
}

pub proof fn lemma_expand_members(bs: Seq<BackendView>, p: int)
    requires
        0 <= p < expand(bs).len(),
    ensures
        exists|i: int| 0 <= i < bs.len() && expand(bs)[p] == bs[i],
    decreases bs.len(),
{
    if bs.len() > 0 {
        let front = expand(bs.drop_last());
        if p < front.len() {
            lemma_expand_members(bs.drop_last(), p);
            let i = choose|i: int| 0 <= i < bs.drop_last().len() && front[p] == bs.drop_last()[i];
            assert(expand(bs)[p] == bs[i]);
        } else {
            assert(expand(bs)[p] == bs[bs.len() - 1]);
        }
    }
}

/// Round-robin over the candidates, each repeated as often as its weight.
pub struct WeightedRoundRobinBalancer {
    pub counter: usize,
}

impl WeightedRoundRobinBalancer {
    pub fn new() -> (r: Self)
        ensures
            r.counter == 0,
    {
        WeightedRoundRobinBalancer { counter: 0 }
    }

    /// The weight of a provider: three for `supabase`, one otherwise.
    pub fn get_weight(provider: &str) -> (r: usize)
        ensures
            r as nat == weight_of(provider@),
    {
        if same_text(provider, "supabase") {
            3
        } else if same_text(provider, "gdrive") {
            1
        } else {
            1
        }
    }

    /// Picks `expand(backends)[counter % len]` and advances the counter.
    pub fn select(&mut self, backends: &[Backend]) -> (r: Option<Backend>)
        ensures
            backends@.len() == 0 ==> r is None && final(self).counter == old(self).counter,
            backends@.len() > 0 ==> r is Some && r->Some_0@ == expand(views(backends@))[old(
                self,
            ).counter as int % (expand(views(backends@)).len() as int)] && final(self).counter
                == next_tick(old(self).counter),
    {
        if backends.len() == 0 {
            return None;
        }
        let ghost bs = views(backends@);
        let mut weighted: Vec<Backend> = Vec::new();
        let mut i: usize = 0;
        assert(bs.subrange(0, 0) =~= Seq::<BackendView>::empty());
        assert(views(weighted@) =~= Seq::<BackendView>::empty());
        while i < backends.len()
            invariant
                bs == views(backends@),
                i <= backends@.len(),
                views(weighted@) == expand(bs.subrange(0, i as int)),
            decreases backends.len() - i,
        {
            let w = Self::get_weight(backends[i].provider.as_str());
            let ghost base = views(weighted@);
            let mut j: usize = 0;
            assert(base + Seq::new(0, |k: int| bs[i as int]) =~= base);
            while j < w
                invariant
                    bs == views(backends@),
                    i < backends@.len(),
                    j <= w,
                    views(weighted@) == base + Seq::new(j as nat, |k: int| bs[i as int]),
                decreases w - j,
            {
                let ghost prev = weighted@;
                let copy = backends[i].duplicate();
                assert(copy@ == bs[i as int]);
                weighted.push(copy);
                assert(views(weighted@) =~= views(prev).push(bs[i as int]));
                assert(views(weighted@) =~= base + Seq::new((j + 1) as nat, |k: int| bs[i as int]));
                j = j + 1;
            }
            assert(bs.subrange(0, i + 1).drop_last() =~= bs.subrange(0, i as int));
            assert(bs[i as int] == backends@[i as int]@);
            i = i + 1;
        }
        assert(bs.subrange(0, backends@.len() as int) =~= bs);
        proof {
            lemma_expand_len(bs);
        }
        if weighted.len() == 0 {
            return None;
        }
        let index = self.counter % weighted.len();
        self.counter = tick(self.counter);
        let picked = weighted[index].duplicate();
        assert(views(weighted@)[index as int] == weighted@[index as int]@);
        Some(picked)
    }
}

impl LoadBalancer for WeightedRoundRobinBalancer {
    fn select_backend(&mut self, backends: &[Backend]) -> (r: Option<Backend>)
        ensures
            backends@.len() == 0 ==> r is None && final(self).counter == old(self).counter,
            backends@.len() > 0 ==> r is Some && r->Some_0@ == expand(views(backends@))[old(
                self,
            ).counter as int % (expand(views(backends@)).len() as int)] && final(self).counter
                == next_tick(old(self).counter),
    {
        let ghost c = self.counter;
        let r = self.select(backends);
        proof {
            if backends@.len() > 0 {
                let bs = views(backends@);
                lemma_expand_len(bs);
                lemma_expand_members(bs, c as int % (expand(bs).len() as int));
                let i = choose|i: int| 0 <= i < bs.len() && expand(bs)[c as int % (expand(bs).len() as int)] == bs[i];
                assert(bs[i] == backends@[i]@);
            }
        }
        r
    }

    fn release_backend(&mut self, backend: &Backend)
        ensures
            final(self).counter == old(self).counter,
    {
    }

    fn name(&self) -> (r: &'static str)
        ensures
            r@ == "WeightedRoundRobin"@,
    {
        "WeightedRoundRobin"
    }
}


/// The four strategies.
#[derive(Debug, Clone, Copy, PartialEq, Eq, Structural)]
pub enum StrategyKind {
    RoundRobin,
    LeastConnections,
    Random,
    WeightedRoundRobin,
}

/// The strategy a lower-cased name asks for; unknown names get round-robin.
pub open spec fn kind_for_name(name: Seq<char>) -> StrategyKind {
    if name == "least-connections"@ || name == "leastconnections"@ {
        StrategyKind::LeastConnections
    } else if name == "random"@ {
        StrategyKind::Random
    } else if name == "weighted-round-robin"@ || name == "weightedroundrobin"@ {
        StrategyKind::WeightedRoundRobin
    } else {
        StrategyKind::RoundRobin
    }
}

/// Any one of the strategies, chosen by name at startup.
pub enum Balancer {
    RoundRobin(RoundRobinBalancer),
    LeastConnections(LeastConnectionsBalancer),
    Random(RandomBalancer),
    WeightedRoundRobin(WeightedRoundRobinBalancer),
}

impl Balancer {
    pub open spec fn kind(&self) -> StrategyKind {
        match self {
            Balancer::RoundRobin(_) => StrategyKind::RoundRobin,
            Balancer::LeastConnections(_) => StrategyKind::LeastConnections,
            Balancer::Random(_) => StrategyKind::Random,
            Balancer::WeightedRoundRobin(_) => StrategyKind::WeightedRoundRobin,
        }
    }

    /// No selection has been made yet.
    pub open spec fn is_fresh(&self) -> bool {
        match self {
            Balancer::RoundRobin(b) => b.counter == 0,
            Balancer::LeastConnections(b) => b.connections@.len() == 0,
            Balancer::Random(_) => true,
            Balancer::WeightedRoundRobin(b) => b.counter == 0,
        }
    }

    /// Which strategy this is.
    pub fn strategy(&self) -> (r: StrategyKind)
        ensures
            r == self.kind(),
    {
        match self {
            Balancer::RoundRobin(_) => StrategyKind::RoundRobin,
            Balancer::LeastConnections(_) => StrategyKind::LeastConnections,
            Balancer::Random(_) => StrategyKind::Random,
            Balancer::WeightedRoundRobin(_) => StrategyKind::WeightedRoundRobin,
        }
    }
}

impl Balancer {
    /// Exactly what one selection over `bs` does to the strategy `self`,
    /// becoming `after` and returning `r`.
    pub open spec fn selects(&self, after: &Balancer, bs: Seq<BackendView>, r: Option<Backend>) -> bool {
        &&& (r is Some <==> bs.len() > 0)
        &&& (r is Some ==> exists|i: int| 0 <= i < bs.len() && r->Some_0@ == bs[i])
        &&& match (self, after) {
            (Balancer::RoundRobin(a), Balancer::RoundRobin(b)) => if bs.len() > 0 {
                r->Some_0@ == bs[a.counter as int % (bs.len() as int)] && b.counter == next_tick(a.counter)
            } else {
                b.counter == a.counter
            },
            (Balancer::LeastConnections(a), Balancer::LeastConnections(b)) => a.select_spec(b, bs, r),
            (Balancer::Random(_), Balancer::Random(_)) => true,
            (Balancer::WeightedRoundRobin(a), Balancer::WeightedRoundRobin(b)) => if bs.len() > 0 {
                r->Some_0@ == expand(bs)[a.counter as int % (expand(bs).len() as int)] && b.counter
                    == next_tick(a.counter)
            } else {
                b.counter == a.counter
            },
            _ => false,
        }
    }

    /// One selection, with the exact effect of the strategy at hand.
    pub fn select(&mut self, backends: &[Backend]) -> (r: Option<Backend>)
        ensures
            old(self).selects(final(self), views(backends@), r),
    {
        let ghost bs = views(backends@);
        assert(forall|i: int| 0 <= i < backends@.len() ==> bs[i] == backends@[i]@);
        match self {
            Balancer::RoundRobin(b) => {
                let ghost c = b.counter;
                let r = b.select(backends);
                proof {
                    if backends@.len() > 0 {
                        let i = c as int % (backends@.len() as int);
                        assert(bs.len() == backends@.len());
                        assert(0 <= i < bs.len());
                        assert(r->Some_0@ == bs[i]);
                    }
                }
                r
            },
            Balancer::LeastConnections(b) => {
                let r = b.select(backends);
                proof {
                    if backends@.len() > 0 {
                        let i = choose|i: int| #[trigger] old(self)->LeastConnections_0.is_least_loaded(bs, i)
                            && r->Some_0@ == backends@[i]@;
                        assert(0 <= i < bs.len() && r->Some_0@ == bs[i]);
                    }
                }
                r
            },
            Balancer::Random(b) => {
                let r = b.select(backends);
                proof {
                    if backends@.len() > 0 {
                        let i = choose|i: int| 0 <= i < backends@.len() && r->Some_0@ == backends@[i]@;
                        assert(r->Some_0@ == bs[i]);
                    }
                }
                r
            },
            Balancer::WeightedRoundRobin(b) => {
                let r = b.select(backends);
                proof {
                    if backends@.len() > 0 {
                        lemma_expand_len(bs);
                        lemma_expand_members(bs, old(self)->WeightedRoundRobin_0.counter as int % (expand(bs).len() as int));
                    }
                }
                r
            },
        }
    }

    /// Exactly what a release for `id` does to the strategy `self`,
    /// becoming `after`.
    pub open spec fn releases(&self, after: &Balancer, id: Seq<char>) -> bool {
        match (self, after) {
            (Balancer::LeastConnections(a), Balancer::LeastConnections(b)) => a.release_spec(b, id),
            (Balancer::RoundRobin(a), Balancer::RoundRobin(b)) => a.counter == b.counter,
            (Balancer::WeightedRoundRobin(a), Balancer::WeightedRoundRobin(b)) => a.counter == b.counter,
            (Balancer::Random(_), Balancer::Random(_)) => true,
            _ => false,
        }
    }

    /// Ends the request that a selection started.
    pub fn release(&mut self, backend: &Backend)
        ensures
            old(self).releases(final(self), backend.server_id@),
    {
        match self {
            Balancer::LeastConnections(b) => b.release(backend),
            _ => {},
        }
    }
}

/// The display name of a strategy.
pub open spec fn name_of(kind: StrategyKind) -> Seq<char> {
    match kind {
        StrategyKind::RoundRobin => "RoundRobin"@,
        StrategyKind::LeastConnections => "LeastConnections"@,
        StrategyKind::Random => "Random"@,
        StrategyKind::WeightedRoundRobin => "WeightedRoundRobin"@,
    }
}

impl LoadBalancer for Balancer {
    fn select_backend(&mut self, backends: &[Backend]) -> (r: Option<Backend>)
        ensures
            old(self).selects(final(self), views(backends@), r),
    {
        let r = self.select(backends);
        proof {
            if backends@.len() > 0 {
                let i = choose|i: int| 0 <= i < views(backends@).len() && r->Some_0@ == views(backends@)[i];
                assert(views(backends@)[i] == backends@[i]@);
            }
        }
        r
    }

    fn release_backend(&mut self, backend: &Backend)
        ensures
            old(self).releases(final(self), backend.server_id@),
    {
        self.release(backend)
    }

    fn name(&self) -> (r: &'static str)
        ensures
            r@ == name_of(self.kind()),
    {
        match self {
            Balancer::RoundRobin(b) => b.name(),
            Balancer::LeastConnections(b) => b.name(),
            Balancer::Random(b) => b.name(),
            Balancer::WeightedRoundRobin(b) => b.name(),
        }
    }
}

/// What `str::to_lowercase` returns for a text.
pub uninterp spec fn lower_of(s: Seq<char>) -> Seq<char>;

/// Relies on `str::to_lowercase`: its result depends on the characters alone.
#[verifier::external_body]
fn lowercase(s: &str) -> (r: String)
    ensures
        r@ == lower_of(s@),
{
    s.to_lowercase()
}

/// A fresh balancer for an already lower-cased strategy name.
pub fn strategy_for_name(name: &str) -> (r: Balancer)
    ensures
        r.kind() == kind_for_name(name@),
        r.is_fresh(),
{
    if same_text(name, "least-connections") || same_text(name, "leastconnections") {
        Balancer::LeastConnections(LeastConnectionsBalancer::new())
    } else if same_text(name, "random") {
        Balancer::Random(RandomBalancer::new())
    } else if same_text(name, "weighted-round-robin") || same_text(name, "weightedroundrobin") {
        Balancer::WeightedRoundRobin(WeightedRoundRobinBalancer::new())
    } else {
        Balancer::RoundRobin(RoundRobinBalancer::new())
    }
}

/// A fresh balancer for a strategy name, matched without regard to case.
pub fn create_load_balancer(strategy: &str) -> (r: Balancer)
    ensures
        r.kind() == kind_for_name(lower_of(strategy@)),
        r.is_fresh(),
{
    let lowered = lowercase(strategy);
    strategy_for_name(lowered.as_str())
}


/// Among the counter values `start .. start + n`, how many select position
/// `j` of a list of length `k`.
pub open spec fn rr_hits(start: int, n: nat, k: int, j: int) -> nat
    decreases n,
{
    if n == 0 {
        0
    } else {
        rr_hits(start, (n - 1) as nat, k, j) + if (start + n - 1) % k == j {
            1nat
        } else {
            0nat
        }
    }
}

proof fn lemma_div_step(m: int, k: int, j: int)
    requires
        0 <= m,
        0 <= j < k,
    ensures
        (m + k - j) / k == (m + k - 1 - j) / k + if m % k == j {
            1int
        } else {
            0int
        },
{
    let a = m + k - 1 - j;
    lemma_fundamental_div_mod(a, k);
    let q = a / k;
    let r = a % k;
    assert(a == q * k + r);
    if r + 1 < k {
        lemma_fundamental_div_mod_converse(a + 1, k, q, r + 1);
        if r + 1 + j < k {
            assert(m == (q - 1) * k + (r + 1 + j)) by (nonlinear_arith)
                requires
                    a == q * k + r,
                    a == m + k - 1 - j,
            ;
            lemma_fundamental_div_mod_converse(m, k, q - 1, r + 1 + j);
        } else {
            assert(m == q * k + (r + 1 + j - k)) by (nonlinear_arith)
                requires
                    a == q * k + r,
                    a == m + k - 1 - j,
            ;
            lemma_fundamental_div_mod_converse(m, k, q, r + 1 + j - k);
        }
    } else {
        assert(a + 1 == (q + 1) * k + 0) by (nonlinear_arith)
            requires
                a == q * k + r,
                r + 1 == k,
        ;
        lemma_fundamental_div_mod_converse(a + 1, k, q + 1, 0);
        assert(m == q * k + j) by (nonlinear_arith)
            requires
                a == q * k + r,
                a == m + k - 1 - j,
                r + 1 == k,
        ;
        lemma_fundamental_div_mod_converse(m, k, q, j);
    }
}

proof fn lemma_rr_hits_closed(start: int, n: nat, k: int, j: int)
    requires
        0 <= start,
        0 <= j < k,
    ensures
        rr_hits(start, n, k, j) == (start + n + k - 1 - j) / k - (start + k - 1 - j) / k,
    decreases n,
{
    if n > 0 {
        lemma_rr_hits_closed(start, (n - 1) as nat, k, j);
        lemma_div_step(start + n - 1, k, j);
    }
}

proof fn lemma_shifted_div(x: int, n: int, k: int)
    requires
        0 <= x,
        0 <= n,
        0 < k,
    ensures
        (x + n) / k - x / k == (x % k + n) / k,
{
    lemma_fundamental_div_mod(x, k);
    lemma_fundamental_div_mod(x % k + n, k);
    let q = x / k;
    let y = x % k + n;
    let q2 = y / k;
    let r2 = y % k;
    assert(x + n == (q + q2) * k + r2) by (nonlinear_arith)
        requires
            x == k * q + x % k,
            y == k * q2 + r2,
            y == x % k + n,
    ;
    lemma_fundamental_div_mod_converse(x + n, k, q + q2, r2);
}

/// Round-robin is fair: over `n` consecutive selections from a list of
/// length `k` (the counter not wrapping meanwhile), every position is
/// picked `floor(n / k)` or `ceil(n / k)` times.
pub proof fn lemma_round_robin_fair(start: usize, n: nat, k: nat, j: nat)
    requires
        k > 0,
        j < k,
        start + n <= usize::MAX + 1,
    ensures
        (n as int) / (k as int) <= rr_hits(start as int, n, k as int, j as int) as int <= (n + k - 1) as int / (
            k as int),
{
    let ki = k as int;
    let x = start + ki - 1 - j;
    lemma_rr_hits_closed(start as int, n, ki, j as int);
    lemma_shifted_div(x, n as int, ki);
    lemma_div_is_ordered(n as int, x % ki + n, ki);
    lemma_div_is_ordered(x % ki + n, n + ki - 1, ki);
}


/// With a single candidate every strategy picks it; least-connections
/// also counts one more request for it.
pub proof fn lemma_single_candidate(a: Balancer, after: Balancer, bs: Seq<BackendView>, r: Option<Backend>)
    requires
        bs.len() == 1,
        a.selects(&after, bs, r),
    ensures
        r is Some,
        r->Some_0@ == bs[0],
        after.kind() == a.kind(),
        a is LeastConnections ==> after->LeastConnections_0.count_of(bs[0].server_id) == bumped(
            a->LeastConnections_0.count_of(bs[0].server_id),
        ),
{
    let i = choose|i: int| 0 <= i < bs.len() && r->Some_0@ == bs[i];
    assert(i == 0);
    if a is LeastConnections {
        assert(r->Some_0.server_id@ == bs[0].server_id);
    }
}


/// For each slot of `expand(bs)`, the position in `bs` it repeats.
pub open spec fn owners(bs: Seq<BackendView>) -> Seq<int>
    decreases bs.len(),
{
    if bs.len() == 0 {
        Seq::<int>::empty()
    } else {
        owners(bs.drop_last()) + Seq::new(weight_of(bs.last().provider), |k: int| (bs.len() - 1) as int)
    }
}

/// How many entries of `s` equal `v`.
pub open spec fn occurrences(s: Seq<int>, v: int) -> nat
    decreases s.len(),
{
    if s.len() == 0 {
        0
    } else {
        occurrences(s.drop_last(), v) + if s.last() == v {
            1nat
        } else {
            0nat
        }
    }
}

proof fn lemma_owners(bs: Seq<BackendView>)
    ensures
        owners(bs).len() == expand(bs).len(),
        forall|p: int| 0 <= p < owners(bs).len() ==> 0 <= #[trigger] owners(bs)[p] < bs.len() && expand(bs)[p]
            == bs[owners(bs)[p]],
    decreases bs.len(),
{
    if bs.len() > 0 {
        let front = bs.drop_last();
        lemma_owners(front);
        assert forall|p: int| 0 <= p < owners(bs).len() implies 0 <= #[trigger] owners(bs)[p] < bs.len()
            && expand(bs)[p] == bs[owners(bs)[p]] by {
            if p < owners(front).len() {
                assert(owners(bs)[p] == owners(front)[p]);
                assert(expand(bs)[p] == expand(front)[p]);
            }
        }
    }
}

proof fn lemma_occurrences_concat(a: Seq<int>, b: Seq<int>, v: int)
    ensures
        occurrences(a + b, v) == occurrences(a, v) + occurrences(b, v),
    decreases b.len(),
{
    if b.len() == 0 {
        assert(a + b =~= a);
    } else {
        lemma_occurrences_concat(a, b.drop_last(), v);
        assert((a + b).drop_last() =~= a + b.drop_last());
    }
}

proof fn lemma_occurrences_repeat(w: nat, c: int, v: int)
    ensures
        occurrences(Seq::new(w, |k: int| c), v) == if c == v {
            w
        } else {
            0
        },
    decreases w,
{
    if w > 0 {
        lemma_occurrences_repeat((w - 1) as nat, c, v);
        assert(Seq::new(w, |k: int| c).drop_last() =~= Seq::new((w - 1) as nat, |k: int| c));
    }
}

proof fn lemma_occurrences_absent(s: Seq<int>, v: int)
    requires
        forall|p: int| 0 <= p < s.len() ==> s[p] != v,
    ensures
        occurrences(s, v) == 0,
    decreases s.len(),
{
    if s.len() > 0 {
        lemma_occurrences_absent(s.drop_last(), v);
    }
}

proof fn lemma_owner_count(bs: Seq<BackendView>, i: int)
    requires
        0 <= i < bs.len(),
    ensures
        occurrences(owners(bs), i) == weight_of(bs[i].provider),
    decreases bs.len(),
{
    let front = bs.drop_last();
    let last = (bs.len() - 1) as int;
    lemma_occurrences_concat(owners(front), Seq::new(weight_of(bs.last().provider), |k: int| last), i);
    lemma_occurrences_repeat(weight_of(bs.last().provider), last, i);
    if i < last {
        lemma_owner_count(front, i);
    } else {
        lemma_owners(front);
        lemma_occurrences_absent(owners(front), i);
    }
}

/// Among the counter values `start .. start + n`, how many select position
/// `i` of the candidate list under weighted round-robin.
pub open spec fn weighted_hits(bs: Seq<BackendView>, start: int, n: nat, i: int) -> nat
    decreases n,
{
    if n == 0 {
        0
    } else {
        weighted_hits(bs, start, (n - 1) as nat, i) + if owners(bs)[(start + n - 1) % (owners(bs).len() as int)]
            == i {
            1nat
        } else {
            0nat
        }
    }
}

proof fn lemma_weighted_hits_from_zero(bs: Seq<BackendView>, n: nat, i: int)
    requires
        0 < n <= owners(bs).len(),
    ensures
        weighted_hits(bs, 0, n, i) == occurrences(owners(bs).subrange(0, n as int), i),
    decreases n,
{
    let o = owners(bs);
    let l = o.len() as int;
    assert((n - 1) % l == n - 1) by {
        lemma_fundamental_div_mod_converse(n - 1, l, 0, n - 1);
    }
    assert(o.subrange(0, n as int).drop_last() =~= o.subrange(0, n - 1));
    assert(o.subrange(0, n as int).last() == o[n - 1]);
    if n > 1 {
        lemma_weighted_hits_from_zero(bs, (n - 1) as nat, i);
    } else {
        assert(o.subrange(0, 0) =~= Seq::<int>::empty());
        assert(occurrences(o.subrange(0, 0), i) == 0);
        assert(weighted_hits(bs, 0, 0, i) == 0);
    }
}

proof fn lemma_weighted_hits_shift(bs: Seq<BackendView>, start: int, n: nat, i: int)
    requires
        owners(bs).len() > 0,
    ensures
        weighted_hits(bs, start + 1, n, i) + (if owners(bs)[start % (owners(bs).len() as int)] == i {
            1int
        } else {
            0int
        }) == weighted_hits(bs, start, n, i) + (if owners(bs)[(start + n) % (owners(bs).len() as int)] == i {
            1int
        } else {
            0int
        }),
    decreases n,
{
    if n > 0 {
        lemma_weighted_hits_shift(bs, start, (n - 1) as nat, i);
    }
}

proof fn lemma_weighted_period_invariant(bs: Seq<BackendView>, start: nat, i: int)
    requires
        owners(bs).len() > 0,
    ensures
        weighted_hits(bs, start as int, owners(bs).len(), i) == weighted_hits(bs, 0, owners(bs).len(), i),
    decreases start,
{
    if start > 0 {
        let l = owners(bs).len() as int;
        let s = start - 1;
        lemma_weighted_period_invariant(bs, (start - 1) as nat, i);
        lemma_weighted_hits_shift(bs, s, owners(bs).len(), i);
        lemma_fundamental_div_mod(s, l);
        assert(s + l == (s / l + 1) * l + s % l) by (nonlinear_arith)
            requires
                s == l * (s / l) + s % l,
        ;
        lemma_fundamental_div_mod_converse(s + l, l, s / l + 1, s % l);
    }
}

/// Weighted round-robin keeps the ratio of the weights exactly: over any
/// full period of `|expand(bs)|` consecutive selections (the counter not
/// wrapping meanwhile), position `i` is picked `weight_of(bs[i].provider)`
/// times. `owners` says which position each slot of the rotation belongs to.
pub proof fn lemma_weighted_ratio(bs: Seq<BackendView>, start: usize, i: int)
    requires
        bs.len() > 0,
        0 <= i < bs.len(),
        start + expand(bs).len() <= usize::MAX + 1,
    ensures
        weighted_hits(bs, start as int, expand(bs).len(), i) == weight_of(bs[i].provider),
        owners(bs).len() == expand(bs).len(),
        forall|p: int| 0 <= p < expand(bs).len() ==> expand(bs)[p] == bs[#[trigger] owners(bs)[p]],
{
    lemma_owners(bs);
    lemma_expand_len(bs);
    let l = owners(bs).len();
    lemma_weighted_period_invariant(bs, start as nat, i);
    lemma_weighted_hits_from_zero(bs, l, i);
    assert(owners(bs).subrange(0, l as int) =~= owners(bs));
    lemma_owner_count(bs, i);
}

} // verus!
