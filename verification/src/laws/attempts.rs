//! What becomes of a request at a backend, and of the backend.

use crate::duration::MAX_NANOS;
use crate::failover::{lemma_chosen, same_setup, EventView, FailoverView, StepView};
use crate::health::HealthView;
use crate::http::ResponseView;
use crate::names::{lemma_upsert_lookup, lookup};
use crate::run::{run, Moment};
use crate::server::{law_health_is_kept_apart, BackendState, Reading, ServerView, Stuck};
use vstd::prelude::*;
use vstd::utf8::encode_utf8;

verus! {

/// One more than `n`, and none after the largest number.
pub open spec fn one_more(n: usize) -> int {
    if n < usize::MAX {
        n + 1
    } else {
        0
    }
}

/// A backend that cannot be reached is asked again as long as it was asked less often
/// than it is configured for, with nothing noted; and only then has it failed, which is
/// noted once.
pub proof fn law_an_unreachable_backend_is_asked_again(
    f: FailoverView,
    s: ServerView,
    readings: Seq<Reading>,
    now: nat,
    name: Seq<char>,
    backend: BackendState,
)
    requires
        f.current == Some(name),
        lookup(s.backends, name) == Some(backend),
    ensures
        ({
            let (next, after, step) = f.advanced(s, EventView::Unreachable, readings, now);
            &&& f.attempt + 1 < backend.config.retry ==> {
                &&& step matches Ok(StepView::Send(request))
                &&& request.uri == backend.config.base_url + f.params.uri
                &&& next == s
                &&& after.current == Some(name)
                &&& after.attempt == f.attempt + 1
                &&& after.tried == f.tried
            }
            &&& f.attempt + 1 >= backend.config.retry ==> {
                &&& step == Ok::<StepView, Stuck>(StepView::Choose)
                &&& after.current is None
                &&& after.tried == f.tried
                &&& lookup(next.backends, name) matches Some(noted)
                &&& noted.health.failure_count == one_more(backend.health.failure_count)
                &&& noted.config == backend.config
            }
        }),
{
    law_a_backend_that_keeps_failing_is_left_alone(s, name, backend, now, 0);
}

/// How often a request was sent in the course of a run.
pub open spec fn sends(f: FailoverView, moments: Seq<Moment>) -> nat
    decreases moments.len(),
{
    if moments.len() == 0 {
        0
    } else {
        sends(f, moments.drop_last()) + (match run(f, moments).1 {
            Some(Ok(StepView::Send(_))) => 1nat,
            _ => 0nat,
        })
    }
}

/// From the moment at which a backend is chosen, as long as it cannot be reached, a
/// request is sent to it exactly as often as it is configured for, at one moment after the
/// other; and at the next moment it is given up.
pub proof fn law_attempts_are_as_many_as_configured(
    f: FailoverView,
    moments: Seq<Moment>,
    name: Seq<char>,
    backend: BackendState,
)
    requires
        moments.len() > 0,
        moments[0].event is Ready,
        run(f, moments.take(1)).0.tried == f.tried.push(name),
        lookup(moments[0].server.backends, name) == Some(backend),
        forall|i: int|
            1 <= i < moments.len() ==> {
                &&& (#[trigger] moments[i]).event is Unreachable
                &&& same_setup(moments[0].server, moments[i].server)
            },
        moments.len() <= backend.config.retry + 1,
    ensures
        moments.len() <= backend.config.retry ==> {
            &&& sends(f, moments) == moments.len()
            &&& run(f, moments).1 matches Some(Ok(StepView::Send(_)))
            &&& run(f, moments).0.current == Some(name)
            &&& run(f, moments).0.attempt == moments.len() - 1
        },
        moments.len() == backend.config.retry + 1 ==> {
            &&& sends(f, moments) == backend.config.retry
            &&& run(f, moments).1 == Some(Ok::<StepView, Stuck>(StepView::Choose))
            &&& run(f, moments).0.current is None
        },
    decreases moments.len(),
{
    let before = moments.drop_last();
    let m = moments.last();
    if moments.len() == 1 {
        assert(moments.take(1) =~= moments);
        assert(before =~= Seq::empty());
        assert(run(f, before).0 == f);
        lemma_chosen(f, m.server, m.readings);
        let chosen = f.chosen(m.server, m.readings);
        assert(f.tried.push(name).len() == f.tried.len() + 1);
        assert(chosen.1 matches Ok(Some(_)));
        assert(f.tried.push(name).last() == name);
        assert(f.tried.push(chosen.1->Ok_0->0).last() == chosen.1->Ok_0->0);
        assert(sends(f, before) == 0);
    } else {
        assert(before.take(1) =~= moments.take(1));
        assert(before[0] == moments[0]);
        assert forall|i: int| 1 <= i < before.len() implies {
            &&& (#[trigger] before[i]).event is Unreachable
            &&& same_setup(before[0].server, before[i].server)
        } by {
            assert(before[i] == moments[i]);
        }
        law_attempts_are_as_many_as_configured(f, before, name, backend);
        assert(moments[moments.len() - 1].event is Unreachable);
        assert(lookup(moments[0].server.backends, name) is Some);
        assert(lookup(m.server.backends, name) is Some);
    }
}

/// An answer with a status from 500 to 599 counts as a failure of the backend, and the
/// next backend is chosen; any other answer is the answer to the client, and nothing is
/// held against the backend.
pub proof fn law_what_an_answer_does(
    f: FailoverView,
    s: ServerView,
    readings: Seq<Reading>,
    now: nat,
    response: ResponseView,
    name: Seq<char>,
    backend: BackendState,
)
    requires
        f.current == Some(name),
        lookup(s.backends, name) == Some(backend),
    ensures
        ({
            let (next, after, step) = f.advanced(
                s,
                EventView::Answered(response),
                readings,
                now,
            );
            &&& after.current is None
            &&& after.tried == f.tried
            &&& lookup(next.backends, name) matches Some(noted)
            &&& noted.config == backend.config
            &&& if 500 <= response.status <= 599 {
                &&& step == Ok::<StepView, Stuck>(StepView::Choose)
                &&& noted.health.failure_count == one_more(backend.health.failure_count)
            } else {
                &&& step == Ok::<StepView, Stuck>(StepView::Respond(response))
                &&& noted.health.failure_count == 0
                &&& noted.health.cooldown_until == 0
            }
        }),
{
    law_a_backend_that_keeps_failing_is_left_alone(s, name, backend, now, 0);
    lemma_upsert_lookup(
        s.backends,
        name,
        BackendState { health: backend.health.succeeded(), ..backend },
        name,
    );
}

/// Where no backend is chosen, the client is told so with the status 502.
pub proof fn law_what_is_said_where_no_backend_is_left(
    f: FailoverView,
    s: ServerView,
    readings: Seq<Reading>,
    now: nat,
)
    ensures
        ({
            let (next, after, step) = f.advanced(s, EventView::Ready, readings, now);
            &&& step matches Ok(StepView::Respond(response)) ==> {
                &&& response.status == 502
                &&& response.headers == seq![("content-type"@, encode_utf8("text/plain"@))]
                &&& response.body == encode_utf8("All backends unavailable"@)
                &&& after == f
            }
            &&& (step matches Ok(StepView::Respond(_))) == (f.chosen(s, readings).1 matches Ok(None))
        }),
{
}

/// A failure is counted. It calls for a cooldown if it is at least the `retry`th in a row
/// and none is set; the cooldown then lasts for the configured time from the failure on:
/// the backend is unhealthy until it is over and healthy from then on. Otherwise the
/// cooldown stays as it is.
pub proof fn law_a_backend_that_keeps_failing_is_left_alone(
    s: ServerView,
    name: Seq<char>,
    backend: BackendState,
    now: nat,
    t: nat,
)
    requires
        lookup(s.backends, name) == Some(backend),
    ensures
        ({
            let after = s.failed(name, now);
            let due = one_more(backend.health.failure_count) >= backend.config.retry
                && backend.health.cooldown_until == 0;
            &&& lookup(after.backends, name) matches Some(noted)
            &&& noted.config == backend.config
            &&& noted.health.time_base == backend.health.time_base
            &&& noted.health.failure_count == one_more(backend.health.failure_count)
            &&& due ==> {
                &&& noted.health.cooldown_until == now + backend.config.cooldown
                &&& now + backend.config.cooldown > 0 ==> (after.healthy(name, t) <==> t >= now
                    + backend.config.cooldown)
            }
            &&& !due ==> noted.health.cooldown_until == backend.health.cooldown_until
        }),
{
    let health = if backend.health.due(backend.config.retry) {
        backend.health.failed().cooled(now, backend.config.cooldown)
    } else {
        backend.health.failed()
    };
    lemma_upsert_lookup(s.backends, name, BackendState { health, ..backend }, name);
}

/// A backend is healthy if it is configured and has no cooldown, or one that is over.
pub proof fn law_when_a_backend_is_healthy(s: ServerView, name: Seq<char>, now: nat)
    ensures
        s.healthy(name, now) <==> (lookup(s.backends, name) matches Some(backend) && (
        backend.health.cooldown_until == 0 || backend.health.cooldown_until <= now)),
{
}

/// A backend that failed as often as it may is passed over on its route until its
/// cooldown is over, and comes first again from then on, where it stands first and another
/// backend that has no cooldown stands next.
pub proof fn law_a_failed_backend_is_passed_over_for_its_cooldown(
    s: ServerView,
    route: Seq<char>,
    name: Seq<char>,
    other: Seq<char>,
    now: nat,
    readings: Seq<Reading>,
)
    requires
        lookup(s.aliases, route) is None,
        lookup(s.router, route) == Some(seq![name, other]),
        lookup(s.load_balancers, name) is None,
        lookup(s.load_balancers, other) is None,
        name != other,
        lookup(s.backends, name) matches Some(backend) && backend.health.cooldown_until == 0
            && backend.health.failure_count + 1 >= backend.config.retry
            && backend.health.failure_count < usize::MAX && now + backend.config.cooldown > 0,
        lookup(s.backends, other) matches Some(backend) && backend.health.cooldown_until == 0,
    ensures
        s.failed(name, now).found(route, readings).1 == Ok::<Option<Seq<char>>, Stuck>(
            Some(
                if readings[0].now < now + lookup(s.backends, name)->0.config.cooldown {
                    other
                } else {
                    name
                },
            ),
        ),
{
    let after = s.failed(name, now);
    let entries = seq![name, other];
    let backend = lookup(s.backends, name)->0;
    law_a_backend_that_keeps_failing_is_left_alone(s, name, backend, now, readings[0].now as nat);
    law_health_is_kept_apart(s, name, now, other);
    reveal_with_fuel(ServerView::first_healthy, 3);
    assert(entries[0] == name && entries[1] == other && entries.len() == 2);
    assert(after.resolved(name, readings[0].seed) == (after, Ok::<Seq<char>, Stuck>(name)));
    assert(after.resolved(other, readings[1].seed) == (after, Ok::<Seq<char>, Stuck>(other)));
    assert(after.healthy(other, readings[1].now as nat));
}

/// A backend that was chosen is noted as tried. It is sent the request, with its address
/// before the path that is asked for, unless it may not be asked at all: then it has failed,
/// which is noted, and the next one is to be chosen.
pub proof fn law_what_becomes_of_a_chosen_backend(
    f: FailoverView,
    s: ServerView,
    readings: Seq<Reading>,
    now: nat,
    name: Seq<char>,
    backend: BackendState,
)
    requires
        f.chosen(s, readings).1 == Ok::<Option<Seq<char>>, Stuck>(Some(name)),
        lookup(s.backends, name) == Some(backend),
    ensures
        ({
            let (next, after, step) = f.advanced(s, EventView::Ready, readings, now);
            &&& after.params == f.params
            &&& after.tried == f.tried.push(name)
            &&& after.attempt == 0
            &&& lookup(next.backends, name) matches Some(noted)
            &&& backend.config.retry > 0 ==> {
                &&& step matches Ok(StepView::Send(request))
                &&& request.uri == backend.config.base_url + f.params.uri
                &&& after.current == Some(name)
                &&& noted == backend
            }
            &&& backend.config.retry == 0 ==> {
                &&& step == Ok::<StepView, Stuck>(StepView::Choose)
                &&& after.current is None
                &&& noted.config == backend.config
                &&& noted.health.failure_count == one_more(backend.health.failure_count)
                &&& backend.health.cooldown_until == 0 ==> noted.health.cooldown_until == now
                    + backend.config.cooldown
                &&& backend.health.cooldown_until != 0 ==> noted.health.cooldown_until
                    == backend.health.cooldown_until
            }
        }),
{
    lemma_chosen(f, s, readings);
    let next = f.chosen(s, readings).0;
    law_a_backend_that_keeps_failing_is_left_alone(next, name, backend, now, 0);
}

/// Where no backend's answer is awaited, or it is not configured, nothing is noted: an answer
/// that is no failure is the answer all the same, and otherwise the next backend is chosen.
pub proof fn law_events_of_no_backend(
    f: FailoverView,
    s: ServerView,
    readings: Seq<Reading>,
    now: nat,
    response: ResponseView,
)
    requires
        f.current matches Some(name) ==> lookup(s.backends, name) is None,
    ensures
        ({
            let (next, after, step) = f.advanced(s, EventView::Unreachable, readings, now);
            &&& next == s
            &&& after.current is None
            &&& after.tried == f.tried
            &&& step == Ok::<StepView, Stuck>(StepView::Choose)
        }),
        ({
            let (next, after, step) = f.advanced(
                s,
                EventView::Answered(response),
                readings,
                now,
            );
            &&& next == s
            &&& after.current is None
            &&& after.tried == f.tried
            &&& step == Ok::<StepView, Stuck>(
                if 500 <= response.status <= 599 {
                    StepView::Choose
                } else {
                    StepView::Respond(response)
                },
            )
        }),
{
}

/// The longest span is the largest number of seconds and the nanoseconds short of one more,
/// and of no cooldown is more than that left.
pub proof fn law_the_longest_span(health: HealthView, now: nat)
    ensures
        MAX_NANOS == u64::MAX * 1_000_000_000 + 999_999_999,
        health.cooldown_until > now + MAX_NANOS ==> health.remaining(now) == Some(MAX_NANOS as nat),
        health.cooldown_until == 0 ==> health.remaining(now) is None,
{
}

} // verus!
