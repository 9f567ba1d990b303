//! Pools of backends among which one is chosen for each request.

use vstd::prelude::*;

verus! {

/// How a pool chooses among its backends.
#[derive(Clone, Copy, Debug, PartialEq, Eq, Structural)]
pub enum LoadBalanceStrategy {
    /// By a seed that differs from choice to choice.
    Shuffle,
    /// One after the other.
    RoundRobin,
}

impl Default for LoadBalanceStrategy {
    fn default() -> (r: Self)
        ensures
            r == LoadBalanceStrategy::Shuffle,
    {
        LoadBalanceStrategy::Shuffle
    }
}

/// A pool of backends among which one is chosen for each request.
#[derive(Debug)]
pub struct LoadBalancerConfig {
    pub strategy: LoadBalanceStrategy,
    pub backends: Vec<String>,
    /// How often the pool has chosen in turn.
    pub counter: usize,
}

/// What [`LoadBalancerConfig`] holds.
pub struct PoolView {
    pub strategy: LoadBalanceStrategy,
    pub backends: Seq<Seq<char>>,
    pub counter: usize,
}

impl DeepView for LoadBalancerConfig {
    type V = PoolView;

    open spec fn deep_view(&self) -> PoolView {
        PoolView {
            strategy: self.strategy,
            backends: self.backends.deep_view(),
            counter: self.counter,
        }
    }
}

/// The number after `n`, and 0 after the last.
pub open spec fn next_count(n: usize) -> usize {
    if n == usize::MAX {
        0
    } else {
        (n + 1) as usize
    }
}

impl PoolView {
    /// The index that the pool chooses next.
    pub open spec fn chosen(self, seed: usize) -> int {
        match self.strategy {
            LoadBalanceStrategy::Shuffle => seed as int % self.backends.len() as int,
            LoadBalanceStrategy::RoundRobin => self.counter as int % self.backends.len() as int,
        }
    }

    /// The pool after it has chosen.
    pub open spec fn advanced(self) -> PoolView {
        match self.strategy {
            LoadBalanceStrategy::Shuffle => self,
            LoadBalanceStrategy::RoundRobin => PoolView {
                counter: next_count(self.counter),
                ..self
            },
        }
    }
}

impl LoadBalancerConfig {
    /// Chooses the index of a backend: by the seed, or in turn.
    pub fn select_index(&mut self, seed: usize) -> (r: usize)
        requires
            old(self).backends@.len() > 0,
        ensures
            r == old(self).deep_view().chosen(seed),
            r < old(self).backends@.len(),
            final(self).deep_view() == old(self).deep_view().advanced(),
    {
        let len: usize = self.backends.len();
        match self.strategy {
            LoadBalanceStrategy::Shuffle => seed % len,
            LoadBalanceStrategy::RoundRobin => {
                let now: usize = self.counter;
                self.counter = now.wrapping_add(1);
                now % len
            },
        }
    }

    /// The name of the backend at `index`.
    pub fn get_backend(&self, index: usize) -> (r: Option<&str>)
        ensures
            match r {
                Some(name) => index < self.backends@.len() && name@ == self.deep_view().backends[index as int],
                None => index >= self.backends@.len(),
            },
    {
        if index < self.backends.len() {
            Some(self.backends[index].as_str())
        } else {
            None
        }
    }
}

/// The pool after `n` choices.
pub open spec fn after_choices(pool: PoolView, n: nat) -> PoolView
    decreases n,
{
    if n == 0 {
        pool
    } else {
        after_choices(pool, (n - 1) as nat).advanced()
    }
}

/// A pool that chooses in turn comes to its backends one after the other: after
/// `n` choices it chooses the `n`th from where it was, counted around, whatever
/// the seed.
pub proof fn law_round_robin_takes_turns(pool: PoolView, n: nat, seed: usize)
    requires
        pool.strategy == LoadBalanceStrategy::RoundRobin,
        pool.backends.len() > 0,
        pool.counter + n <= usize::MAX,
    ensures
        after_choices(pool, n) == (PoolView { counter: (pool.counter + n) as usize, ..pool }),
        after_choices(pool, n).chosen(seed) == (pool.counter + n) % pool.backends.len() as int,
    decreases n,
{
    if n > 0 {
        law_round_robin_takes_turns(pool, (n - 1) as nat, seed);
    }
}

/// In any row of as many choices as it has backends, a pool that chooses in turn
/// comes to every one of them.
pub proof fn law_round_robin_leaves_none_out(pool: PoolView, index: nat, seed: usize) -> (n: nat)
    requires
        pool.strategy == LoadBalanceStrategy::RoundRobin,
        index < pool.backends.len(),
        pool.counter + pool.backends.len() <= usize::MAX,
    ensures
        n < pool.backends.len(),
        after_choices(pool, n).chosen(seed) == index,
{
    let len = pool.backends.len() as int;
    let at = pool.counter as int % len;
    let n = if at <= index {
        (index - at) as nat
    } else {
        (index + len - at) as nat
    };
    law_round_robin_takes_turns(pool, n, seed);
    let q = pool.counter as int / len;
    assert(pool.counter as int == q * len + at) by (nonlinear_arith)
        requires
            q == pool.counter as int / len,
            at == pool.counter as int % len,
            len > 0,
    ;
    if at <= index {
        assert((q * len + index) % len == index as int) by (nonlinear_arith)
            requires
                0 <= index < len,
        ;
    } else {
        assert((q * len + len + index) % len == index as int) by (nonlinear_arith)
            requires
                0 <= index < len,
        ;
    }
    n
}

/// Choosing by a seed changes nothing: the same seed chooses the same backend again.
pub proof fn law_shuffle_keeps_the_pool(pool: PoolView, n: nat, seed: usize)
    requires
        pool.strategy == LoadBalanceStrategy::Shuffle,
    ensures
        after_choices(pool, n) == pool,
        after_choices(pool, n).chosen(seed) == pool.chosen(seed),
    decreases n,
{
    if n > 0 {
        law_shuffle_keeps_the_pool(pool, (n - 1) as nat, seed);
    }
}

/// What a pool chooses is the index of one of its backends.
pub proof fn law_choice_is_a_member(pool: PoolView, seed: usize)
    requires
        pool.backends.len() > 0,
    ensures
        0 <= pool.chosen(seed) < pool.backends.len(),
{
}

} // verus!
