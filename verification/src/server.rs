//! The state of the router: its backends with their health, its pools and its routes.

use crate::balance::{LoadBalancerConfig, PoolView};
use crate::clock::{elapsed, instant_now, unix_nanos};
use crate::config::{
    config_of, law_configured_names, BackendConfig, BackendView, Config, ConfigView, Env, Worths,
};
use crate::duration::MAX_NANOS;
use crate::health::{BackendHealth, HealthView};
use crate::names::{distinct, lemma_absent, lemma_upsert_lookup, lookup, upsert, NameMap};
use crate::routes::clone_names;
use crate::text::same;
use crate::toml_doc::Toml;
use vstd::prelude::*;

verus! {

/// A backend and its health.
pub struct Backend {
    pub config: BackendConfig,
    pub health: BackendHealth,
}

/// What [`Backend`] holds.
pub struct BackendState {
    pub config: BackendView,
    pub health: HealthView,
}

impl DeepView for Backend {
    type V = BackendState;

    open spec fn deep_view(&self) -> BackendState {
        BackendState { config: self.config.deep_view(), health: self.health@ }
    }
}

/// The state of the router.
pub struct Server {
    backends: NameMap<Backend>,
    load_balancers: NameMap<LoadBalancerConfig>,
    aliases: NameMap<String>,
    router: NameMap<Vec<String>>,
    time_base: std::time::Instant,
}

/// What [`Server`] holds.
pub struct ServerView {
    pub backends: Seq<(Seq<char>, BackendState)>,
    pub load_balancers: Seq<(Seq<char>, PoolView)>,
    pub aliases: Seq<(Seq<char>, Seq<char>)>,
    pub router: Seq<(Seq<char>, Seq<Seq<char>>)>,
    /// The instant at which the router was started, from which times are counted.
    pub time_base: std::time::Instant,
}

impl View for Server {
    type V = ServerView;

    closed spec fn view(&self) -> ServerView {
        ServerView {
            backends: self.backends@,
            load_balancers: self.load_balancers@,
            aliases: self.aliases@,
            router: self.router@,
            time_base: self.time_base,
        }
    }
}

/// Why a backend cannot be chosen.
#[derive(Clone, Copy, Debug, PartialEq, Eq, Structural)]
pub enum Stuck {
    /// The pool to choose from is empty.
    EmptyPool,
    /// The machine's clock, which gives the seed, stands before the Unix epoch.
    ClockBeforeEpoch,
}

/// What is read from the clocks for one choice: a seed, and the nanoseconds since the
/// router was started.
#[derive(Clone, Copy, Debug, PartialEq, Eq, Structural)]
pub struct Reading {
    pub seed: Option<usize>,
    pub now: u128,
}

/// The reading that clocks give that stand at `unix_nanos` since the Unix epoch, if not
/// before it, and at `now` since the router was started: the seed is what of the former
/// fits.
pub open spec fn reading_of(unix_nanos: Option<u128>, now: u128) -> Reading {
    Reading {
        seed: match unix_nanos {
            Some(nanos) => Some(nanos as usize),
            None => None,
        },
        now,
    }
}

impl Reading {
    /// The reading that clocks give that stand at `unix_nanos` since the Unix epoch, if
    /// not before it, and at `now` since the router was started.
    pub fn from_clocks(unix_nanos: Option<u128>, now: u128) -> (r: Self)
        ensures
            r == reading_of(unix_nanos, now),
    {
        let seed = match unix_nanos {
            Some(nanos) => Some(nanos as usize),
            None => None,
        };
        Reading { seed, now }
    }
}

/// A reading that clocks can give: both stand at no more than the longest span.
pub open spec fn possible(r: Reading) -> bool {
    exists|unix_nanos: Option<u128>, now: u128|
        (unix_nanos matches Some(nanos) ==> nanos <= MAX_NANOS) && now <= MAX_NANOS && r
            == #[trigger] reading_of(unix_nanos, now)
}

/// Readings that clocks can give.
pub open spec fn all_possible(readings: Seq<Reading>) -> bool {
    forall|i: int| 0 <= i < readings.len() ==> possible(#[trigger] readings[i])
}

/// The state of a router that is started at an instant with a configuration: the
/// backends are fresh, and their times are counted from that instant too.
pub open spec fn started(config: ConfigView, time_base: std::time::Instant) -> ServerView {
    ServerView {
        backends: Seq::new(
            config.backend.len(),
            |i: int|
                (
                    config.backend[i].0,
                    BackendState {
                        config: config.backend[i].1,
                        health: HealthView::fresh(time_base),
                    },
                ),
        ),
        load_balancers: config.load_balancer,
        aliases: config.aliases,
        router: config.router,
        time_base,
    }
}

impl ServerView {
    /// The route that a model name leads to: through an alias, or by itself.
    pub open spec fn route_name(self, model: Seq<char>) -> Seq<char> {
        match lookup(self.aliases, model) {
            Some(route) => route,
            None => model,
        }
    }

    /// What a pool chooses, if there is one of this name, and the state then.
    pub open spec fn picked(self, pool: Seq<char>, seed: Option<usize>) -> (
        ServerView,
        Result<Option<Seq<char>>, Stuck>,
    ) {
        match lookup(self.load_balancers, pool) {
            None => (self, Ok(None)),
            Some(p) => match seed {
                None => (self, Err(Stuck::ClockBeforeEpoch)),
                Some(seed) => if p.backends.len() == 0 {
                    (self, Err(Stuck::EmptyPool))
                } else {
                    (
                        ServerView {
                            load_balancers: upsert(self.load_balancers, pool, p.advanced()),
                            ..self
                        },
                        Ok(Some(p.backends[p.chosen(seed)])),
                    )
                },
            },
        }
    }

    /// The backend that an entry of a route stands for: what the pool of that name
    /// chooses, or the backend of that name.
    pub open spec fn resolved(self, entry: Seq<char>, seed: Option<usize>) -> (
        ServerView,
        Result<Seq<char>, Stuck>,
    ) {
        match self.picked(entry, seed) {
            (next, Ok(Some(name))) => (next, Ok(name)),
            (next, Ok(None)) => (next, Ok(entry)),
            (next, Err(stuck)) => (next, Err(stuck)),
        }
    }

    /// The backend of this name is there and healthy.
    pub open spec fn healthy(self, name: Seq<char>, now: nat) -> bool {
        match lookup(self.backends, name) {
            Some(backend) => backend.health.healthy(now),
            None => false,
        }
    }

    /// The first healthy backend that the entries from the `i`th on stand for, with
    /// a reading for each entry.
    pub open spec fn first_healthy(self, entries: Seq<Seq<char>>, readings: Seq<Reading>, i: int) -> (
        ServerView,
        Result<Option<Seq<char>>, Stuck>,
    )
        decreases entries.len() - i,
    {
        if i < 0 || i >= entries.len() {
            (self, Ok(None))
        } else {
            match self.resolved(entries[i], readings[i].seed) {
                (next, Err(stuck)) => (next, Err(stuck)),
                (next, Ok(name)) => if next.healthy(name, readings[i].now as nat) {
                    (next, Ok(Some(name)))
                } else {
                    next.first_healthy(entries, readings, i + 1)
                },
            }
        }
    }

    /// The backend for a model: the first healthy one on its route, or else the
    /// first, healthy or not.
    pub open spec fn found(self, model: Seq<char>, readings: Seq<Reading>) -> (
        ServerView,
        Result<Option<Seq<char>>, Stuck>,
    ) {
        match lookup(self.router, self.route_name(model)) {
            None => (self, Ok(None)),
            Some(entries) => match self.first_healthy(entries, readings, 0) {
                (next, Err(stuck)) => (next, Err(stuck)),
                (next, Ok(Some(name))) => (next, Ok(Some(name))),
                (next, Ok(None)) => if entries.len() == 0 {
                    (next, Ok(None))
                } else {
                    match next.resolved(entries[0], readings[entries.len() as int].seed) {
                        (last, Err(stuck)) => (last, Err(stuck)),
                        (last, Ok(name)) => if lookup(last.backends, name) is Some {
                            (last, Ok(Some(name)))
                        } else {
                            (last, Ok(None))
                        },
                    }
                },
            },
        }
    }

    /// The first backend that the entries from the `i`th on stand for that is there
    /// and was not tried.
    pub open spec fn first_untried(
        self,
        entries: Seq<Seq<char>>,
        tried: Seq<Seq<char>>,
        readings: Seq<Reading>,
        i: int,
    ) -> (ServerView, Result<Option<Seq<char>>, Stuck>)
        decreases entries.len() - i,
    {
        if i < 0 || i >= entries.len() {
            (self, Ok(None))
        } else {
            match self.resolved(entries[i], readings[i].seed) {
                (next, Err(stuck)) => (next, Err(stuck)),
                (next, Ok(name)) => if !tried.contains(name) && lookup(next.backends, name) is Some {
                    (next, Ok(Some(name)))
                } else {
                    next.first_untried(entries, tried, readings, i + 1)
                },
            }
        }
    }

    /// The number of entries on the route of a model.
    pub open spec fn route_len(self, model: Seq<char>) -> nat {
        match lookup(self.router, model) {
            Some(entries) => entries.len(),
            None => 0,
        }
    }

    /// The times of the router and of the health of its backends are counted from the
    /// same instant.
    pub open spec fn one_time_base(self) -> bool {
        forall|name: Seq<char>|
            (#[trigger] lookup(self.backends, name)) matches Some(backend) ==> backend.health.time_base
                == self.time_base
    }

    /// The state with the health of one backend changed.
    pub open spec fn with_health(self, name: Seq<char>, health: HealthView) -> ServerView {
        match lookup(self.backends, name) {
            Some(backend) => ServerView {
                backends: upsert(self.backends, name, BackendState { health, ..backend }),
                ..self
            },
            None => self,
        }
    }

    /// The state after a request to a backend succeeded.
    pub open spec fn succeeded(self, name: Seq<char>) -> ServerView {
        match lookup(self.backends, name) {
            Some(backend) => self.with_health(name, backend.health.succeeded()),
            None => self,
        }
    }

    /// The state after a request to a backend failed.
    pub open spec fn failed(self, name: Seq<char>, now: nat) -> ServerView {
        match lookup(self.backends, name) {
            Some(backend) => self.with_health(
                name,
                backend.health.after_failure(backend.config.retry, backend.config.cooldown, now),
            ),
            None => self,
        }
    }
}

/// What a choice gives, without the state.
pub open spec fn choice(r: Result<Option<String>, Stuck>) -> Result<Option<Seq<char>>, Stuck> {
    match r {
        Ok(name) => Ok(name.deep_view()),
        Err(stuck) => Err(stuck),
    }
}

impl Server {
    /// Starts a router with a configuration.
    pub fn new(config: Config) -> (r: Self)
        ensures
            r@ == started(config.deep_view(), r@.time_base),
    {
        let ghost all = config.backend@;
        let time_base = instant_now();
        let mut backends: NameMap<Backend> = NameMap::new();
        let mut rest = config.backend.into_entries();
        let ghost entries = rest@;
        let ghost goal = started(config.deep_view(), time_base).backends;
        proof {
            assert(goal.take(0) =~= Seq::empty());
        }
        while rest.len() > 0
            invariant
                rest@.len() <= entries.len(),
                rest@ == entries.skip(entries.len() - rest@.len()),
                entries.len() == all.len(),
                goal.len() == all.len(),
                distinct(all),
                forall|i: int|
                    0 <= i < entries.len() ==> all[i] == (
                        (#[trigger] entries[i]).0@,
                        entries[i].1.deep_view(),
                    ),
                forall|i: int|
                    0 <= i < all.len() ==> #[trigger] goal[i] == (
                        all[i].0,
                        BackendState { config: all[i].1, health: HealthView::fresh(time_base) },
                    ),
                backends@ == goal.take(entries.len() - rest@.len()),
            decreases rest@.len(),
        {
            let ghost at = entries.len() - rest@.len();
            let (name, config) = rest.remove(0);
            proof {
                assert((name, config) == entries[at]);
                assert(goal[at].0 == name@);
                assert forall|j: int| 0 <= j < backends@.len() implies (#[trigger] backends@[j]).0
                    != name@ by {
                    assert(goal[j].0 == all[j].0);
                    assert(all[at].0 == name@);
                }
                lemma_absent(
                    backends@,
                    name@,
                    BackendState {
                        config: config.deep_view(),
                        health: HealthView::fresh(time_base),
                    },
                );
                assert(goal.take(at + 1) =~= goal.take(at).push(goal[at]));
                assert(rest@ =~= entries.skip(at + 1));
            }
            backends.insert(
                name,
                Backend { config, health: BackendHealth::counted_from(time_base) },
            );
        }
        assert(goal.take(entries.len() as int) =~= goal);
        Server {
            backends,
            load_balancers: config.load_balancer,
            aliases: config.aliases,
            router: config.router,
            time_base,
        }
    }

    /// Reads the clocks.
    fn read_clocks(&self) -> (r: Reading)
        ensures
            possible(r),
    {
        Reading::from_clocks(unix_nanos(), self.now())
    }

    /// Chooses from a pool with a seed from the clock.
    pub fn select_from_load_balancer(&mut self, lb_name: &str) -> (r: Result<Option<String>, Stuck>)
        ensures
            exists|reading: Reading| #[trigger]
                possible(reading) && (final(self)@, choice(r)) == old(self)@.picked(
                    lb_name@,
                    reading.seed,
                ),
    {
        let reading = self.read_clocks();
        self.select_from_load_balancer_with(lb_name, reading.seed)
    }

    /// Chooses from a pool with this seed.
    pub fn select_from_load_balancer_with(&mut self, lb_name: &str, seed: Option<usize>) -> (r: Result<
        Option<String>,
        Stuck,
    >)
        ensures
            (final(self)@, choice(r)) == old(self)@.picked(lb_name@, seed),
    {
        let empty = match self.load_balancers.get(lb_name) {
            Some(pool) => {
                assert(pool.deep_view().backends.len() == pool.backends@.len());
                pool.backends.len() == 0
            },
            None => {
                return Ok(None);
            },
        };
        let seed: usize = match seed {
            Some(seed) => seed,
            None => {
                return Err(Stuck::ClockBeforeEpoch);
            },
        };
        if empty {
            return Err(Stuck::EmptyPool);
        }
        match self.load_balancers.get_mut(lb_name) {
            Some(pool) => {
                assert(pool.deep_view().backends.len() == pool.backends@.len());
                let index: usize = pool.select_index(seed);
                match pool.get_backend(index) {
                    Some(name) => Ok(Some(name.to_owned())),
                    None => Ok(None),
                }
            },
            None => Ok(None),
        }
    }

    /// The backend that an entry of a route stands for.
    fn resolve(&mut self, entry: &str, seed: Option<usize>) -> (r: Result<String, Stuck>)
        ensures
            final(self)@ == old(self)@.resolved(entry@, seed).0,
            match r {
                Ok(name) => old(self)@.resolved(entry@, seed).1 == Ok::<Seq<char>, Stuck>(name@),
                Err(stuck) => old(self)@.resolved(entry@, seed).1 == Err::<Seq<char>, Stuck>(stuck),
            },
    {
        match self.select_from_load_balancer_with(entry, seed) {
            Ok(Some(name)) => Ok(name),
            Ok(None) => Ok(entry.to_owned()),
            Err(stuck) => Err(stuck),
        }
    }

    /// Whether the backend of this name is there and healthy.
    fn is_healthy(&self, name: &str, now: u128) -> (r: bool)
        ensures
            r == self@.healthy(name@, now as nat),
    {
        match self.backends.get(name) {
            Some(backend) => backend.health.is_healthy_at(now),
            None => false,
        }
    }

    fn find_healthy(&mut self, entries: &Vec<String>, readings: &Vec<Reading>) -> (r: Result<
        Option<String>,
        Stuck,
    >)
        requires
            entries@.len() <= readings@.len(),
        ensures
            (final(self)@, choice(r)) == old(self)@.first_healthy(
                entries.deep_view(),
                readings@,
                0,
            ),
    {
        let ghost all = entries.deep_view();
        let ghost start = self@;
        let mut i: usize = 0;
        while i < entries.len()
            invariant
                0 <= i <= entries@.len() <= readings@.len(),
                all == entries.deep_view(),
                all.len() == entries@.len(),
                start == old(self)@,
                start.first_healthy(all, readings@, 0) == self@.first_healthy(
                    all,
                    readings@,
                    i as int,
                ),
            decreases entries@.len() - i,
        {
            assert(all[i as int] == entries@[i as int]@);
            match self.resolve(entries[i].as_str(), readings[i].seed) {
                Ok(name) => {
                    if self.is_healthy(name.as_str(), readings[i].now) {
                        return Ok(Some(name));
                    }
                },
                Err(stuck) => {
                    return Err(stuck);
                },
            }
            i = i + 1;
        }
        Ok(None)
    }

    /// Finds the backend for a model, with readings of the clocks: one for each entry
    /// of its route, and one more.
    pub fn find_backend_with(&mut self, model: &str, readings: &Vec<Reading>) -> (r: Result<
        Option<String>,
        Stuck,
    >)
        requires
            old(self)@.route_len(old(self)@.route_name(model@)) < readings@.len(),
        ensures
            (final(self)@, choice(r)) == old(self)@.found(model@, readings@),
    {
        let entries = match self.route_of(model) {
            Some(entries) => entries,
            None => {
                return Ok(None);
            },
        };
        assert(entries.deep_view().len() == entries@.len());
        match self.find_healthy(&entries, readings) {
            Ok(Some(name)) => {
                return Ok(Some(name));
            },
            Ok(None) => {},
            Err(stuck) => {
                return Err(stuck);
            },
        }
        if entries.len() == 0 {
            return Ok(None);
        }
        assert(entries.deep_view()[0] == entries@[0]@);
        match self.resolve(entries[0].as_str(), readings[entries.len()].seed) {
            Ok(name) => if self.backends.contains_key(name.as_str()) {
                Ok(Some(name))
            } else {
                Ok(None)
            },
            Err(stuck) => Err(stuck),
        }
    }

    /// The entries of the route that a model name leads to.
    fn route_of(&self, model: &str) -> (r: Option<Vec<String>>)
        ensures
            r.deep_view() == lookup(self@.router, self@.route_name(model@)),
    {
        let name = match self.aliases.get(model) {
            Some(route) => route.as_str(),
            None => model,
        };
        match self.router.get(name) {
            Some(entries) => Some(clone_names(entries)),
            None => None,
        }
    }

    /// Reads the clocks once more than `n` times.
    fn read_clocks_beyond(&self, n: usize) -> (r: Vec<Reading>)
        ensures
            r@.len() == n + 1,
            all_possible(r@),
    {
        let mut out: Vec<Reading> = Vec::new();
        out.push(self.read_clocks());
        while out.len() <= n
            invariant
                1 <= out@.len() <= n + 1,
                all_possible(out@),
            decreases n + 1 - out@.len(),
        {
            out.push(self.read_clocks());
        }
        out
    }

    /// Finds the backend for a model: the first healthy one on its route, or else the
    /// first, healthy or not.
    pub fn find_backend(&mut self, model: &str) -> (r: Result<Option<String>, Stuck>)
        ensures
            exists|readings: Seq<Reading>|
                readings.len() == old(self)@.route_len(old(self)@.route_name(model@)) + 1
                    && all_possible(readings) && (
                    final(self)@,
                    choice(r),
                ) == #[trigger] old(self)@.found(model@, readings),
    {
        let n: usize = match self.route_of(model) {
            Some(entries) => {
                assert(entries.deep_view().len() == entries@.len());
                entries.len()
            },
            None => 0,
        };
        let readings = self.read_clocks_beyond(n);
        self.find_backend_with(model, &readings)
    }

    /// Reads the clocks for the choice of a backend on the route of a model, whether
    /// its name is taken as an alias or not.
    pub(crate) fn read_clocks_for(&self, model: &str) -> (r: Vec<Reading>)
        ensures
            r@.len() > self@.route_len(self@.route_name(model@)),
            r@.len() > self@.route_len(model@),
            all_possible(r@),
    {
        let n: usize = match self.route_of(model) {
            Some(entries) => {
                assert(entries.deep_view().len() == entries@.len());
                entries.len()
            },
            None => 0,
        };
        let m: usize = match self.router.get(model) {
            Some(entries) => {
                assert(entries.deep_view().len() == entries@.len());
                entries.len()
            },
            None => 0,
        };
        if n < m {
            self.read_clocks_beyond(m)
        } else {
            self.read_clocks_beyond(n)
        }
    }

    /// The nanoseconds since the router was started.
    pub(crate) fn now(&self) -> (r: u128)
        ensures
            r <= MAX_NANOS,
    {
        elapsed(&self.time_base)
    }

    /// The backend of this name.
    pub fn backend(&self, name: &str) -> (r: Option<&Backend>)
        ensures
            match r {
                Some(backend) => lookup(self@.backends, name@) == Some(backend.deep_view()),
                None => lookup(self@.backends, name@) is None,
            },
    {
        self.backends.get(name)
    }

    /// The route that a model name leads to: through an alias, or by itself.
    pub fn route_name(&self, model: &str) -> (r: String)
        ensures
            r@ == self@.route_name(model@),
    {
        match self.aliases.get(model) {
            Some(route) => route.clone(),
            None => model.to_owned(),
        }
    }

    /// The names of the routes, in order.
    pub fn route_names(&self) -> (r: Vec<String>)
        ensures
            r.deep_view() == Seq::new(self@.router.len(), |i: int| self@.router[i].0),
    {
        let n: usize = self.router.len();
        let mut out: Vec<String> = Vec::new();
        let mut i: usize = 0;
        while i < n
            invariant
                n == self@.router.len(),
                0 <= i <= n,
                out@.len() == i,
                forall|j: int| 0 <= j < i ==> (#[trigger] out@[j])@ == self@.router[j].0,
            decreases n - i,
        {
            out.push(self.router.name_at(i).to_owned());
            i = i + 1;
        }
        assert(out.deep_view() =~= Seq::new(self@.router.len(), |j: int| self@.router[j].0));
        out
    }

    /// Finds the first backend on a route that was not tried, with a reading of the
    /// clocks for each entry of the route.
    pub fn find_untried_with(
        &mut self,
        route: &str,
        tried: &Vec<String>,
        readings: &Vec<Reading>,
    ) -> (r: Result<Option<String>, Stuck>)
        requires
            old(self)@.route_len(route@) <= readings@.len(),
        ensures
            (final(self)@, choice(r)) == (match lookup(old(self)@.router, route@) {
                Some(entries) => old(self)@.first_untried(
                    entries,
                    tried.deep_view(),
                    readings@,
                    0,
                ),
                None => (old(self)@, Ok(None)),
            }),
    {
        let entries = match self.router.get(route) {
            Some(entries) => clone_names(entries),
            None => {
                return Ok(None);
            },
        };
        let ghost all = entries.deep_view();
        let ghost start = self@;
        let mut i: usize = 0;
        while i < entries.len()
            invariant
                0 <= i <= entries@.len() <= readings@.len(),
                all == entries.deep_view(),
                all.len() == entries@.len(),
                start.first_untried(all, tried.deep_view(), readings@, 0)
                    == self@.first_untried(all, tried.deep_view(), readings@, i as int),
                lookup(start.router, route@) == Some(all),
                start == old(self)@,
            decreases entries@.len() - i,
        {
            assert(all[i as int] == entries@[i as int]@);
            match self.resolve(entries[i].as_str(), readings[i].seed) {
                Ok(name) => {
                    if !holds(tried, name.as_str()) && self.backends.contains_key(name.as_str()) {
                        return Ok(Some(name));
                    }
                },
                Err(stuck) => {
                    return Err(stuck);
                },
            }
            i = i + 1;
        }
        Ok(None)
    }

    /// Notes that a request to a backend succeeded.
    pub fn record_success(&mut self, name: &str)
        ensures
            final(self)@ == old(self)@.succeeded(name@),
    {
        if let Some(backend) = self.backends.get_mut(name) {
            backend.health.record_success();
        }
    }

    /// Notes that a request to a backend failed, and gives it a cooldown where one is
    /// due.
    pub fn handle_backend_failure(&mut self, name: &str)
        ensures
            exists|now: nat|
                now <= MAX_NANOS && final(self)@ == #[trigger] old(self)@.failed(name@, now),
    {
        let ghost before = self@;
        let now: u128 = self.now();
        self.handle_backend_failure_at(name, now);
        assert(self@ == before.failed(name@, now as nat));
    }

    /// Notes that a request to a backend failed at `now`, in nanoseconds since the
    /// router was started.
    pub fn handle_backend_failure_at(&mut self, name: &str, now: u128)
        requires
            now <= MAX_NANOS,
        ensures
            final(self)@ == old(self)@.failed(name@, now as nat),
    {
        if let Some(backend) = self.backends.get_mut(name) {
            if backend.health.record_failure(backend.config.retry) {
                backend.health.set_cooldown_at(now, backend.config.cooldown);
            }
        }
    }
}

/// Whether a name is among the names.
fn holds(names: &Vec<String>, name: &str) -> (r: bool)
    ensures
        r == names.deep_view().contains(name@),
{
    let ghost all = names.deep_view();
    let mut i: usize = 0;
    while i < names.len()
        invariant
            0 <= i <= names@.len(),
            all == names.deep_view(),
            all.len() == names@.len(),
            forall|j: int| 0 <= j < i ==> all[j] != name@,
        decreases names@.len() - i,
    {
        assert(all[i as int] == names@[i as int]@);
        if same(names[i].as_str(), name) {
            return true;
        }
        i = i + 1;
    }
    false
}

/// The two states differ at most in how often their pools have chosen.
pub open spec fn same_but_for_counters(a: ServerView, b: ServerView) -> bool {
    &&& a.backends == b.backends
    &&& a.aliases == b.aliases
    &&& a.router == b.router
    &&& a.time_base == b.time_base
    &&& forall|pool: Seq<char>|
        match #[trigger] lookup(a.load_balancers, pool) {
            Some(p) => lookup(b.load_balancers, pool) matches Some(q) && p.strategy == q.strategy
                && p.backends == q.backends,
            None => lookup(b.load_balancers, pool) is None,
        }
}

/// An entry of a route may stand for a backend: it is a pool that holds it, or the
/// backend itself.
pub open spec fn stands_for(s: ServerView, entry: Seq<char>, name: Seq<char>) -> bool {
    match lookup(s.load_balancers, entry) {
        Some(pool) => pool.backends.contains(name),
        None => name == entry,
    }
}

/// Some entry of a route may stand for a backend.
pub open spec fn on_route(s: ServerView, entries: Seq<Seq<char>>, name: Seq<char>) -> bool {
    exists|i: int| 0 <= i < entries.len() && stands_for(s, #[trigger] entries[i], name)
}

proof fn lemma_on_route(a: ServerView, b: ServerView, entries: Seq<Seq<char>>, name: Seq<char>)
    requires
        same_but_for_counters(a, b),
        on_route(b, entries, name),
    ensures
        on_route(a, entries, name),
{
    let i = choose|i: int| 0 <= i < entries.len() && stands_for(b, #[trigger] entries[i], name);
    let p = lookup(a.load_balancers, entries[i]);
    assert(stands_for(a, entries[i], name));
}

proof fn lemma_resolved(s: ServerView, entry: Seq<char>, seed: Option<usize>)
    ensures
        same_but_for_counters(s, s.resolved(entry, seed).0),
        s.resolved(entry, seed).1 matches Ok(name) ==> stands_for(s, entry, name),
{
    let next = s.resolved(entry, seed).0;
    assert forall|pool: Seq<char>|
        match #[trigger] lookup(s.load_balancers, pool) {
            Some(p) => lookup(next.load_balancers, pool) matches Some(q) && p.strategy == q.strategy
                && p.backends == q.backends,
            None => lookup(next.load_balancers, pool) is None,
        } by {
        if let Some(p) = lookup(s.load_balancers, entry) {
            lemma_upsert_lookup(s.load_balancers, entry, p.advanced(), pool);
        }
    }
    if let Some(p) = lookup(s.load_balancers, entry) {
        if let Some(seed) = seed {
            if p.backends.len() > 0 {
                assert(p.backends[p.chosen(seed)] == s.resolved(entry, Some(seed)).1->Ok_0);
            }
        }
    }
}

proof fn lemma_first_healthy(
    s: ServerView,
    entries: Seq<Seq<char>>,
    readings: Seq<Reading>,
    i: int,
)
    ensures
        same_but_for_counters(s, s.first_healthy(entries, readings, i).0),
        s.first_healthy(entries, readings, i).1 matches Ok(Some(name)) ==> lookup(
            s.backends,
            name,
        ) is Some && on_route(s, entries, name),
    decreases entries.len() - i,
{
    if 0 <= i < entries.len() {
        let (next, r) = s.resolved(entries[i], readings[i].seed);
        lemma_resolved(s, entries[i], readings[i].seed);
        if let Ok(name) = r {
            assert(stands_for(s, entries[i], name));
            if !next.healthy(name, readings[i].now as nat) {
                lemma_first_healthy(next, entries, readings, i + 1);
                if let Ok(Some(found)) = next.first_healthy(entries, readings, i + 1).1 {
                    lemma_on_route(s, next, entries, found);
                }
            }
        }
    }
}

pub(crate) proof fn lemma_first_untried(
    s: ServerView,
    entries: Seq<Seq<char>>,
    tried: Seq<Seq<char>>,
    readings: Seq<Reading>,
    i: int,
)
    ensures
        same_but_for_counters(s, s.first_untried(entries, tried, readings, i).0),
        s.first_untried(entries, tried, readings, i).1 matches Ok(Some(name)) ==> lookup(
            s.backends,
            name,
        ) is Some && !tried.contains(name) && on_route(s, entries, name),
    decreases entries.len() - i,
{
    if 0 <= i < entries.len() {
        let (next, r) = s.resolved(entries[i], readings[i].seed);
        lemma_resolved(s, entries[i], readings[i].seed);
        if let Ok(name) = r {
            assert(stands_for(s, entries[i], name));
            if !(!tried.contains(name) && lookup(next.backends, name) is Some) {
                lemma_first_untried(next, entries, tried, readings, i + 1);
                if let Ok(Some(found)) = next.first_untried(entries, tried, readings, i + 1).1 {
                    lemma_on_route(s, next, entries, found);
                }
            }
        }
    }
}

/// To find a backend changes nothing but how often pools have chosen, and what is
/// found is a configured backend on the route of the model.
pub proof fn law_finding_changes_only_counters(
    s: ServerView,
    model: Seq<char>,
    readings: Seq<Reading>,
)
    ensures
        same_but_for_counters(s, s.found(model, readings).0),
        s.found(model, readings).1 matches Ok(Some(name)) ==> {
            &&& lookup(s.backends, name) is Some
            &&& lookup(s.router, s.route_name(model)) matches Some(entries)
            &&& on_route(s, entries, name)
        },
{
    if let Some(entries) = lookup(s.router, s.route_name(model)) {
        lemma_first_healthy(s, entries, readings, 0);
        let (next, r) = s.first_healthy(entries, readings, 0);
        if r == Ok::<Option<Seq<char>>, Stuck>(None) && entries.len() > 0 {
            let seed = readings[entries.len() as int].seed;
            lemma_resolved(next, entries[0], seed);
            if let Ok(name) = next.resolved(entries[0], seed).1 {
                assert(stands_for(next, entries[0], name));
                lemma_on_route(s, next, entries, name);
            }
        }
    }
}

/// No entry of the route is a pool.
pub open spec fn without_pools(s: ServerView, entries: Seq<Seq<char>>) -> bool {
    forall|i: int| 0 <= i < entries.len() ==> lookup(s.load_balancers, #[trigger] entries[i]) is None
}

proof fn lemma_first_healthy_without_pools(
    s: ServerView,
    entries: Seq<Seq<char>>,
    readings: Seq<Reading>,
    i: int,
    at: int,
)
    requires
        without_pools(s, entries),
        0 <= i <= at <= entries.len(),
        forall|j: int|
            i <= j < at ==> !s.healthy(#[trigger] entries[j], readings[j].now as nat),
        at < entries.len() ==> s.healthy(entries[at], readings[at].now as nat),
    ensures
        s.first_healthy(entries, readings, i) == (
            s,
            Ok::<Option<Seq<char>>, Stuck>(
                if at < entries.len() {
                    Some(entries[at])
                } else {
                    None
                },
            ),
        ),
    decreases at - i,
{
    if i < at {
        lemma_first_healthy_without_pools(s, entries, readings, i + 1, at);
        assert(!s.healthy(entries[i], readings[i].now as nat));
    }
    if i < entries.len() {
        assert(lookup(s.load_balancers, entries[i]) is None);
    }
}

/// On a route without pools, the backend that is found is the first that is healthy:
/// the one at `at`, where those before it are not.
pub proof fn law_first_healthy_backend_is_found(
    s: ServerView,
    model: Seq<char>,
    readings: Seq<Reading>,
    at: int,
)
    requires
        lookup(s.router, s.route_name(model)) is Some,
        without_pools(s, lookup(s.router, s.route_name(model))->0),
        0 <= at < lookup(s.router, s.route_name(model))->0.len(),
        forall|j: int|
            0 <= j < at ==> !s.healthy(
                #[trigger] lookup(s.router, s.route_name(model))->0[j],
                readings[j].now as nat,
            ),
        s.healthy(lookup(s.router, s.route_name(model))->0[at], readings[at].now as nat),
    ensures
        s.found(model, readings) == (
            s,
            Ok::<Option<Seq<char>>, Stuck>(
                Some(lookup(s.router, s.route_name(model))->0[at]),
            ),
        ),
{
    let entries = lookup(s.router, s.route_name(model))->0;
    lemma_first_healthy_without_pools(s, entries, readings, 0, at);
}

/// On a route without pools on which no backend is healthy, the first one is found
/// all the same, if it is configured.
pub proof fn law_the_first_backend_is_the_last_resort(
    s: ServerView,
    model: Seq<char>,
    readings: Seq<Reading>,
)
    requires
        lookup(s.router, s.route_name(model)) is Some,
        without_pools(s, lookup(s.router, s.route_name(model))->0),
        lookup(s.router, s.route_name(model))->0.len() > 0,
        forall|j: int|
            0 <= j < lookup(s.router, s.route_name(model))->0.len() ==> !s.healthy(
                #[trigger] lookup(s.router, s.route_name(model))->0[j],
                readings[j].now as nat,
            ),
    ensures
        s.found(model, readings) == (
            s,
            Ok::<Option<Seq<char>>, Stuck>(
                if lookup(s.backends, lookup(s.router, s.route_name(model))->0[0]) is Some {
                    Some(lookup(s.router, s.route_name(model))->0[0])
                } else {
                    None
                },
            ),
        ),
{
    let entries = lookup(s.router, s.route_name(model))->0;
    lemma_first_healthy_without_pools(s, entries, readings, 0, entries.len() as int);
    assert(lookup(s.load_balancers, entries[0]) is None);
}

/// A success and a failure of a backend change the health of that backend alone.
pub proof fn law_health_is_kept_apart(s: ServerView, name: Seq<char>, now: nat, other: Seq<char>)
    ensures
        ({
            let after = s.succeeded(name);
            &&& after.load_balancers == s.load_balancers
            &&& after.aliases == s.aliases
            &&& after.router == s.router
            &&& after.time_base == s.time_base
            &&& lookup(after.backends, other) == (match lookup(s.backends, other) {
                Some(b) => Some(
                    if other == name {
                        BackendState { health: b.health.succeeded(), ..b }
                    } else {
                        b
                    },
                ),
                None => None,
            })
        }),
        ({
            let after = s.failed(name, now);
            &&& after.load_balancers == s.load_balancers
            &&& after.aliases == s.aliases
            &&& after.router == s.router
            &&& after.time_base == s.time_base
            &&& lookup(after.backends, other) == (match lookup(s.backends, other) {
                Some(b) => Some(
                    if other == name {
                        BackendState {
                            health: b.health.after_failure(b.config.retry, b.config.cooldown, now),
                            ..b
                        }
                    } else {
                        b
                    },
                ),
                None => None,
            })
        }),
{
    if let Some(b) = lookup(s.backends, name) {
        lemma_upsert_lookup(
            s.backends,
            name,
            BackendState { health: b.health.succeeded(), ..b },
            other,
        );
        lemma_upsert_lookup(
            s.backends,
            name,
            BackendState {
                health: b.health.after_failure(b.config.retry, b.config.cooldown, now),
                ..b
            },
            other,
        );
    }
}

/// A router that was just started has exactly the configured backends, and every one
/// of them is healthy.
pub proof fn law_started_backends_are_healthy(
    config: ConfigView,
    time_base: std::time::Instant,
    name: Seq<char>,
    now: nat,
)
    ensures
        lookup(started(config, time_base).backends, name) == (match lookup(config.backend, name) {
            Some(backend) => Some(
                BackendState { config: backend, health: HealthView::fresh(time_base) },
            ),
            None => None,
        }),
        started(config, time_base).healthy(name, now) <==> lookup(config.backend, name) is Some,
{
    lemma_started_lookup(config.backend, started(config, time_base).backends, time_base, name);
}

proof fn lemma_started_lookup(
    configs: Seq<(Seq<char>, BackendView)>,
    states: Seq<(Seq<char>, BackendState)>,
    time_base: std::time::Instant,
    name: Seq<char>,
)
    requires
        configs.len() == states.len(),
        forall|i: int|
            0 <= i < configs.len() ==> #[trigger] states[i] == (
                configs[i].0,
                BackendState { config: configs[i].1, health: HealthView::fresh(time_base) },
            ),
    ensures
        lookup(states, name) == (match lookup(configs, name) {
            Some(backend) => Some(
                BackendState { config: backend, health: HealthView::fresh(time_base) },
            ),
            None => None,
        }),
    decreases configs.len(),
{
    if configs.len() > 0 {
        assert(states[0].0 == configs[0].0);
        assert forall|i: int| 0 <= i < configs.drop_first().len() implies #[trigger]
            states.drop_first()[i] == (
            configs.drop_first()[i].0,
            BackendState { config: configs.drop_first()[i].1, health: HealthView::fresh(time_base) },
        ) by {
            assert(states[i + 1] == states.drop_first()[i]);
        }
        lemma_started_lookup(configs.drop_first(), states.drop_first(), time_base, name);
    }
}

/// A model name that is an alias leads to what its route leads to.
pub proof fn law_an_alias_leads_where_its_route_leads(
    s: ServerView,
    alias: Seq<char>,
    route: Seq<char>,
    readings: Seq<Reading>,
)
    requires
        lookup(s.aliases, alias) == Some(route),
        lookup(s.aliases, route) is None,
    ensures
        s.found(alias, readings) == s.found(route, readings),
{
}

/// In a router that is started with a configuration, the route of a model is no alias
/// itself: to look for it twice is to look for it once.
pub proof fn law_routes_of_a_configuration_are_no_aliases(
    doc: Toml,
    env: Env,
    worths: Worths,
    time_base: std::time::Instant,
    model: Seq<char>,
)
    requires
        config_of(doc, env, worths) is Ok,
    ensures
        ({
            let s = started(config_of(doc, env, worths)->Ok_0, time_base);
            s.route_name(s.route_name(model)) == s.route_name(model)
        }),
{
    let c = config_of(doc, env, worths)->Ok_0;
    law_configured_names(doc, env, worths, model);
    if let Some(route) = lookup(c.aliases, model) {
        law_configured_names(doc, env, worths, route);
    }
}

} // verus!
