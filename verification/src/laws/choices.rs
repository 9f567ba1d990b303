//! Which backend is chosen for a request.

use crate::balance::PoolView;
use crate::config::ConfigView;
use crate::failover::{EventView, FailoverView, StepView};
use crate::forward::ParamsView;
use crate::laws::attempts::one_more;
use crate::names::{lemma_upsert_lookup, lookup};
use crate::server::{
    law_first_healthy_backend_is_found, law_started_backends_are_healthy, reading_of, started,
    BackendState, Reading, ServerView, Stuck,
};
use vstd::prelude::*;

verus! {

/// A pool that goes by a seed takes the backend at the remainder of the seed and stays as
/// it is. A pool that goes in turn takes the backend at the remainder of its counter, which
/// goes up by one. Nothing else changes.
pub proof fn law_what_a_pool_picks(
    s: ServerView,
    name: Seq<char>,
    pool: PoolView,
    seed: usize,
    other: Seq<char>,
)
    requires
        lookup(s.load_balancers, name) == Some(pool),
        pool.backends.len() > 0,
    ensures
        ({
            let (next, r) = s.picked(name, Some(seed));
            let len = pool.backends.len() as int;
            &&& next.backends == s.backends
            &&& next.aliases == s.aliases
            &&& next.router == s.router
            &&& next.time_base == s.time_base
            &&& other != name ==> lookup(next.load_balancers, other) == lookup(
                s.load_balancers,
                other,
            )
            &&& pool.strategy is Shuffle ==> {
                &&& r == Ok::<Option<Seq<char>>, Stuck>(Some(pool.backends[seed as int % len]))
                &&& lookup(next.load_balancers, name) == Some(pool)
            }
            &&& pool.strategy is RoundRobin ==> {
                &&& r == Ok::<Option<Seq<char>>, Stuck>(
                    Some(pool.backends[pool.counter as int % len]),
                )
                &&& lookup(next.load_balancers, name) matches Some(after)
                &&& after.strategy == pool.strategy
                &&& after.backends == pool.backends
                &&& after.counter == one_more(pool.counter)
            }
        }),
{
    lemma_upsert_lookup(s.load_balancers, name, pool.advanced(), name);
    lemma_upsert_lookup(s.load_balancers, name, pool.advanced(), other);
}

/// Where a pool is empty or there is no seed, nothing is picked and nothing changes; and
/// what is no pool is not picked from.
pub proof fn law_when_nothing_is_picked(s: ServerView, name: Seq<char>, seed: Option<usize>)
    ensures
        lookup(s.load_balancers, name) is None ==> s.picked(name, seed) == (
            s,
            Ok::<Option<Seq<char>>, Stuck>(None),
        ),
        lookup(s.load_balancers, name) is Some && seed is None ==> s.picked(name, seed) == (
            s,
            Err::<Option<Seq<char>>, Stuck>(Stuck::ClockBeforeEpoch),
        ),
        lookup(s.load_balancers, name) matches Some(pool) ==> pool.backends.len() == 0 && seed
            is Some ==> s.picked(name, seed) == (
            s,
            Err::<Option<Seq<char>>, Stuck>(Stuck::EmptyPool),
        ),
{
}

/// Two requests in a row to a pool that goes in turn get two backends that stand next to
/// each other, counted around.
pub proof fn law_two_picks_in_a_row(
    s: ServerView,
    name: Seq<char>,
    pool: PoolView,
    first: usize,
    second: usize,
    at: int,
)
    requires
        lookup(s.load_balancers, name) == Some(pool),
        pool.strategy is RoundRobin,
        0 <= at < pool.backends.len(),
        pool.counter as int % pool.backends.len() as int == at,
        pool.counter < usize::MAX,
    ensures
        s.picked(name, Some(first)).1 == Ok::<Option<Seq<char>>, Stuck>(Some(pool.backends[at])),
        s.picked(name, Some(first)).0.picked(name, Some(second)).1 == Ok::<
            Option<Seq<char>>,
            Stuck,
        >(
            Some(
                pool.backends[if at + 1 < pool.backends.len() {
                    at + 1
                } else {
                    0
                }],
            ),
        ),
{
    let len = pool.backends.len() as int;
    let counter = pool.counter as int;
    law_what_a_pool_picks(s, name, pool, first, name);
    let q = counter / len;
    assert(counter == q * len + at) by (nonlinear_arith)
        requires
            q == counter / len,
            at == counter % len,
            len > 0,
    ;
    if at + 1 < len {
        assert((counter + 1) % len == at + 1) by (nonlinear_arith)
            requires
                counter == q * len + at,
                0 <= at + 1 < len,
        ;
    } else {
        assert((counter + 1) % len == 0) by (nonlinear_arith)
            requires
                counter == q * len + at,
                at + 1 == len,
                len > 0,
        ;
    }
}

/// The backend of this name is configured, and has no cooldown or one that is over.
pub open spec fn up(s: ServerView, name: Seq<char>, now: u128) -> bool {
    match lookup(s.backends, name) {
        Some(backend) => backend.health.cooldown_until == 0 || backend.health.cooldown_until <= now,
        None => false,
    }
}

/// On a route, an entry that is a backend is taken if that is up, and an entry that is a
/// pool is replaced by what the pool picks, which is taken if that is up. Otherwise the
/// search goes on with the next entry, in the state that the pick left, and it ends at the
/// end of the route.
pub proof fn law_how_a_route_is_searched(
    s: ServerView,
    entries: Seq<Seq<char>>,
    readings: Seq<Reading>,
    i: int,
)
    requires
        0 <= i <= entries.len(),
    ensures
        i == entries.len() ==> s.first_healthy(entries, readings, i) == (
            s,
            Ok::<Option<Seq<char>>, Stuck>(None),
        ),
        i < entries.len() && lookup(s.load_balancers, entries[i]) is None ==> s.first_healthy(
            entries,
            readings,
            i,
        ) == (if up(s, entries[i], readings[i].now) {
            (s, Ok::<Option<Seq<char>>, Stuck>(Some(entries[i])))
        } else {
            s.first_healthy(entries, readings, i + 1)
        }),
        i < entries.len() && lookup(s.load_balancers, entries[i]) is Some ==> match s.picked(
            entries[i],
            readings[i].seed,
        ) {
            (next, Ok(Some(name))) => s.first_healthy(entries, readings, i) == (if up(
                s,
                name,
                readings[i].now,
            ) {
                (next, Ok::<Option<Seq<char>>, Stuck>(Some(name)))
            } else {
                next.first_healthy(entries, readings, i + 1)
            }),
            (next, r) => r is Err && s.first_healthy(entries, readings, i) == (next, r),
        },
{
    if i < entries.len() {
        let (next, r) = s.picked(entries[i], readings[i].seed);
        assert(next.backends == s.backends);
    }
}

/// For the next backend a route is searched in the same way, for one that is configured
/// and was not tried.
pub proof fn law_how_the_next_backend_is_searched(
    s: ServerView,
    entries: Seq<Seq<char>>,
    tried: Seq<Seq<char>>,
    readings: Seq<Reading>,
    i: int,
)
    requires
        0 <= i <= entries.len(),
    ensures
        i == entries.len() ==> s.first_untried(entries, tried, readings, i) == (
            s,
            Ok::<Option<Seq<char>>, Stuck>(None),
        ),
        i < entries.len() && lookup(s.load_balancers, entries[i]) is None ==> s.first_untried(
            entries,
            tried,
            readings,
            i,
        ) == (if lookup(s.backends, entries[i]) is Some && !tried.contains(entries[i]) {
            (s, Ok::<Option<Seq<char>>, Stuck>(Some(entries[i])))
        } else {
            s.first_untried(entries, tried, readings, i + 1)
        }),
        i < entries.len() && lookup(s.load_balancers, entries[i]) is Some ==> match s.picked(
            entries[i],
            readings[i].seed,
        ) {
            (next, Ok(Some(name))) => s.first_untried(entries, tried, readings, i) == (if lookup(
                s.backends,
                name,
            ) is Some && !tried.contains(name) {
                (next, Ok::<Option<Seq<char>>, Stuck>(Some(name)))
            } else {
                next.first_untried(entries, tried, readings, i + 1)
            }),
            (next, r) => r is Err && s.first_untried(entries, tried, readings, i) == (next, r),
        },
{
    if i < entries.len() {
        let (next, r) = s.picked(entries[i], readings[i].seed);
        assert(next.backends == s.backends);
    }
}

/// For a model, its route is searched; an alias stands for its route. Where no backend on
/// it is up, the first entry is taken all the same: itself, or what its pool then picks, if
/// that is configured. A model without a route has no backend.
pub proof fn law_how_a_backend_is_found(
    s: ServerView,
    model: Seq<char>,
    readings: Seq<Reading>,
    route: Seq<char>,
)
    requires
        route == (match lookup(s.aliases, model) {
            Some(route) => route,
            None => model,
        }),
    ensures
        lookup(s.router, route) is None ==> s.found(model, readings) == (
            s,
            Ok::<Option<Seq<char>>, Stuck>(None),
        ),
        lookup(s.router, route) matches Some(entries) ==> match s.first_healthy(
            entries,
            readings,
            0,
        ) {
            (next, Ok(None)) => {
                &&& entries.len() == 0 ==> s.found(model, readings) == (
                    next,
                    Ok::<Option<Seq<char>>, Stuck>(None),
                )
                &&& entries.len() > 0 && lookup(next.load_balancers, entries[0]) is None
                    ==> s.found(model, readings) == (
                    next,
                    Ok::<Option<Seq<char>>, Stuck>(
                        if lookup(next.backends, entries[0]) is Some {
                            Some(entries[0])
                        } else {
                            None
                        },
                    ),
                )
                &&& entries.len() > 0 && lookup(next.load_balancers, entries[0]) is Some
                    ==> match next.picked(entries[0], readings[entries.len() as int].seed) {
                    (last, Ok(Some(name))) => s.found(model, readings) == (
                        last,
                        Ok::<Option<Seq<char>>, Stuck>(
                            if lookup(last.backends, name) is Some {
                                Some(name)
                            } else {
                                None
                            },
                        ),
                    ),
                    (last, r) => r is Err && s.found(model, readings) == (last, r),
                }
            },
            (next, r) => s.found(model, readings) == (next, r),
        },
{
}

/// A new request is sent to the first backend that is up on the route of its model.
pub proof fn law_a_new_request_goes_to_the_first_backend_that_is_up(
    s: ServerView,
    params: ParamsView,
    route: Seq<char>,
    entries: Seq<Seq<char>>,
    readings: Seq<Reading>,
    now: nat,
    at: int,
    backend: BackendState,
)
    requires
        route == (match lookup(s.aliases, params.original_model) {
            Some(route) => route,
            None => params.original_model,
        }),
        lookup(s.aliases, route) is None,
        lookup(s.router, route) == Some(entries),
        forall|i: int|
            0 <= i < entries.len() ==> lookup(s.load_balancers, #[trigger] entries[i]) is None,
        0 <= at < entries.len(),
        forall|j: int| 0 <= j < at ==> !up(s, #[trigger] entries[j], readings[j].now),
        up(s, entries[at], readings[at].now),
        lookup(s.backends, entries[at]) == Some(backend),
        backend.config.retry > 0,
    ensures
        ({
            let (next, after, step) = FailoverView::begun(s, params).advanced(
                s,
                EventView::Ready,
                readings,
                now,
            );
            &&& step matches Ok(StepView::Send(request))
            &&& request.uri == backend.config.base_url + params.uri
            &&& next == s
            &&& after.tried == seq![entries[at]]
            &&& after.current == Some(entries[at])
            &&& after.attempt == 0
            &&& after.params == (ParamsView { original_model: route, ..params })
        }),
{
    let f = FailoverView::begun(s, params);
    assert forall|j: int| 0 <= j < at implies !s.healthy(
        #[trigger] lookup(s.router, s.route_name(route))->0[j],
        readings[j].now as nat,
    ) by {
        assert(!up(s, entries[j], readings[j].now));
    }
    law_first_healthy_backend_is_found(s, route, readings, at);
    assert(Seq::empty().push(entries[at]) =~= seq![entries[at]]);
}

/// At first the backend for the model is chosen, and after that the next on its route.
pub proof fn law_what_is_chosen(f: FailoverView, s: ServerView, readings: Seq<Reading>)
    ensures
        f.tried.len() == 0 ==> f.chosen(s, readings) == s.found(f.params.original_model, readings),
        f.tried.len() > 0 ==> f.chosen(s, readings) == (match lookup(
            s.router,
            f.params.original_model,
        ) {
            Some(entries) => s.first_untried(entries, f.tried, readings, 0),
            None => (s, Ok::<Option<Seq<char>>, Stuck>(None)),
        }),
{
}

/// Where a choice is stuck, the request stays as it is.
pub proof fn law_being_stuck_leaves_the_request_as_it_is(
    f: FailoverView,
    s: ServerView,
    e: EventView,
    readings: Seq<Reading>,
    now: nat,
)
    ensures
        f.advanced(s, e, readings, now).2 is Err ==> e is Ready && f.advanced(
            s,
            e,
            readings,
            now,
        ).1 == f,
{
}

/// A router starts with what is configured: its backends, with no failure and no cooldown,
/// its pools, aliases and routes.
pub proof fn law_what_a_router_starts_with(
    config: ConfigView,
    time_base: std::time::Instant,
    name: Seq<char>,
)
    ensures
        ({
            let s = started(config, time_base);
            &&& s.load_balancers == config.load_balancer
            &&& s.aliases == config.aliases
            &&& s.router == config.router
            &&& s.time_base == time_base
            &&& s.backends.len() == config.backend.len()
            &&& lookup(config.backend, name) is None ==> lookup(s.backends, name) is None
            &&& lookup(config.backend, name) matches Some(backend) ==> {
                &&& lookup(s.backends, name) matches Some(state)
                &&& state.config == backend
                &&& state.health.failure_count == 0
                &&& state.health.cooldown_until == 0
                &&& state.health.time_base == time_base
            }
        }),
{
    law_started_backends_are_healthy(config, time_base, name, 0);
}

/// The seed of a reading is the time of the clock where it fits, and there is none where the
/// clock stands before the epoch.
pub proof fn law_the_seed_is_the_time(unix_nanos: u128, now: u128)
    ensures
        unix_nanos <= usize::MAX ==> (reading_of(Some(unix_nanos), now).seed matches Some(seed)
            && seed == unix_nanos),
        reading_of(None, now).seed is None,
        reading_of(Some(unix_nanos), now).seed == Some(unix_nanos as usize),
        reading_of(Some(unix_nanos), now).now == now,
        reading_of(None, now).now == now,
{
}

} // verus!
