//! A request from beginning to end: what its steps come to, one after the other.

use crate::failover::{all_unavailable, same_setup, EventView, FailoverView, StepView};
use crate::forward::ParamsView;
use crate::http::ResponseView;
use crate::names::lookup;
use crate::server::{without_pools, Reading, ServerView, Stuck};
use vstd::prelude::*;

verus! {

/// What a step of a request meets: the state of the router, in which other requests may
/// have left their marks since the step before, what happened, and what the clocks say.
pub struct Moment {
    pub server: ServerView,
    pub event: EventView,
    pub readings: Seq<Reading>,
    pub now: nat,
}

/// The request after steps at these moments, and what the last of them gave.
pub open spec fn run(f: FailoverView, moments: Seq<Moment>) -> (
    FailoverView,
    Option<Result<StepView, Stuck>>,
)
    decreases moments.len(),
{
    if moments.len() == 0 {
        (f, None)
    } else {
        let m = moments.last();
        let (_, after, step) = run(f, moments.drop_last()).0.advanced(
            m.server,
            m.event,
            m.readings,
            m.now,
        );
        (after, Some(step))
    }
}

/// There is more to do after the last step.
pub open spec fn goes_on(step: Option<Result<StepView, Stuck>>) -> bool {
    match step {
        Some(Ok(StepView::Respond(_))) => false,
        Some(Err(_)) => false,
        _ => true,
    }
}

/// The moments are those of one request: at each there is more to do, and what happened
/// is what was awaited.
pub open spec fn of_one_request(f: FailoverView, moments: Seq<Moment>) -> bool
    decreases moments.len(),
{
    moments.len() == 0 || {
        let (before, step) = run(f, moments.drop_last());
        &&& of_one_request(f, moments.drop_last())
        &&& goes_on(step)
        &&& before.expects(moments.last().event)
    }
}

/// At all of the moments the router is set up as in `s`.
pub open spec fn set_up_as(s: ServerView, moments: Seq<Moment>) -> bool {
    forall|i: int| 0 <= i < moments.len() ==> same_setup(s, (#[trigger] moments[i]).server)
}

/// Every answer that came in says that the backend has failed.
pub open spec fn only_failures(moments: Seq<Moment>) -> bool {
    forall|i: int|
        0 <= i < moments.len() ==> ((#[trigger] moments[i]).event matches EventView::Answered(
            response,
        ) ==> response.is_server_error())
}

/// The backends in the order in which they are tried, given the first: then come the
/// others on the route that are configured, in the order of the route, each once.
pub open spec fn order_of_tries(s: ServerView, entries: Seq<Seq<char>>, first: Seq<char>) -> Seq<
    Seq<char>,
>
    decreases entries.len(),
{
    if entries.len() == 0 {
        seq![first]
    } else {
        let before = order_of_tries(s, entries.drop_last(), first);
        if lookup(s.backends, entries.last()) is Some && !before.contains(entries.last()) {
            before.push(entries.last())
        } else {
            before
        }
    }
}

proof fn lemma_order_of_tries(s: ServerView, entries: Seq<Seq<char>>, first: Seq<char>)
    ensures
        order_of_tries(s, entries, first).no_duplicates(),
        order_of_tries(s, entries, first).len() > 0,
        order_of_tries(s, entries, first)[0] == first,
        forall|i: int|
            0 < i < order_of_tries(s, entries, first).len() ==> {
                let name = #[trigger] order_of_tries(s, entries, first)[i];
                entries.contains(name) && lookup(s.backends, name) is Some
            },
    decreases entries.len(),
{
    if entries.len() > 0 {
        let before = order_of_tries(s, entries.drop_last(), first);
        let all = order_of_tries(s, entries, first);
        lemma_order_of_tries(s, entries.drop_last(), first);
        assert forall|i: int| 0 < i < all.len() implies {
            let name = #[trigger] all[i];
            entries.contains(name) && lookup(s.backends, name) is Some
        } by {
            if i < before.len() {
                assert(all[i] == before[i]);
                let rest = entries.drop_last();
                let k = choose|k: int| 0 <= k < rest.len() && rest[k] == before[i];
                assert(entries[k] == all[i]);
            } else {
                assert(entries[entries.len() - 1] == all[i]);
            }
        }
    }
}

/// What is tried in order on part of the route is tried first on the whole of it.
proof fn lemma_order_grows(s: ServerView, entries: Seq<Seq<char>>, first: Seq<char>, j: int)
    requires
        0 <= j <= entries.len(),
    ensures
        order_of_tries(s, entries.take(j), first).is_prefix_of(order_of_tries(s, entries, first)),
    decreases entries.len() - j,
{
    if j < entries.len() {
        let part = entries.take(j + 1);
        assert(part.drop_last() =~= entries.take(j));
        lemma_order_grows(s, entries, first, j + 1);
        let a = order_of_tries(s, entries.take(j), first);
        let b = order_of_tries(s, part, first);
        let c = order_of_tries(s, entries, first);
        assert(a.is_prefix_of(b));
        assert(a =~= c.subrange(0, a.len() as int)) by {
            assert forall|i: int| 0 <= i < a.len() implies a[i] == c[i] by {
                assert(a[i] == b[i]);
                assert(b[i] == c.subrange(0, b.len() as int)[i]);
            }
        }
    } else {
        assert(entries.take(j) =~= entries);
    }
}

/// An entry that would be tried next.
spec fn open_entry(s: ServerView, tried: Seq<Seq<char>>, entry: Seq<char>) -> bool {
    lookup(s.backends, entry) is Some && !tried.contains(entry)
}

/// Finds the first entry that would be tried next.
proof fn lemma_first_open(
    s: ServerView,
    entries: Seq<Seq<char>>,
    tried: Seq<Seq<char>>,
    readings: Seq<Reading>,
    i: int,
) -> (j: int)
    requires
        without_pools(s, entries),
        0 <= i <= entries.len(),
    ensures
        i <= j <= entries.len(),
        forall|k: int| i <= k < j ==> !open_entry(s, tried, #[trigger] entries[k]),
        j < entries.len() ==> open_entry(s, tried, entries[j]),
        s.first_untried(entries, tried, readings, i).1 == Ok::<Option<Seq<char>>, Stuck>(
            if j < entries.len() {
                Some(entries[j])
            } else {
                None
            },
        ),
    decreases entries.len() - i,
{
    if i == entries.len() {
        i
    } else {
        assert(lookup(s.load_balancers, entries[i]) is None);
        assert(s.resolved(entries[i], readings[i].seed) == (s, Ok::<Seq<char>, Stuck>(entries[i])));
        if open_entry(s, tried, entries[i]) {
            i
        } else {
            lemma_first_open(s, entries, tried, readings, i + 1)
        }
    }
}

/// The next backend after the first ones of the order is the next of the order, and there
/// is none where the order is at its end.
proof fn lemma_next_in_order(
    s: ServerView,
    entries: Seq<Seq<char>>,
    first: Seq<char>,
    tried: Seq<Seq<char>>,
    readings: Seq<Reading>,
)
    requires
        without_pools(s, entries),
        tried.len() > 0,
        tried.is_prefix_of(order_of_tries(s, entries, first)),
    ensures
        ({
            let order = order_of_tries(s, entries, first);
            s.first_untried(entries, tried, readings, 0).1 == Ok::<Option<Seq<char>>, Stuck>(
                if tried.len() < order.len() {
                    Some(order[tried.len() as int])
                } else {
                    None
                },
            )
        }),
{
    let order = order_of_tries(s, entries, first);
    let k = tried.len() as int;
    lemma_order_of_tries(s, entries, first);
    let j = lemma_first_open(s, entries, tried, readings, 0);
    let part = order_of_tries(s, entries.take(j), first);
    lemma_order_grows(s, entries, first, j);
    lemma_order_of_tries(s, entries.take(j), first);
    assert(tried == order.take(k));
    assert forall|i: int| 0 <= i < part.len() implies part[i] == order[i] by {
        assert(part[i] == order.subrange(0, part.len() as int)[i]);
    }
    // Whatever stands before the first open entry was tried.
    assert(part.len() <= k) by {
        if part.len() > k {
            let name = part[k];
            assert(entries.take(j).contains(name) && lookup(s.backends, name) is Some);
            let at = choose|at: int| 0 <= at < entries.take(j).len() && entries.take(j)[at] == name;
            assert(entries[at] == name);
            assert(!open_entry(s, tried, entries[at]));
            let t = choose|t: int| 0 <= t < tried.len() && tried[t] == name;
            assert(order[t] == name && order[k] == name);
        }
    }
    if j < entries.len() {
        let longer = entries.take(j + 1);
        assert(longer.drop_last() =~= entries.take(j));
        lemma_order_grows(s, entries, first, j + 1);
        assert(!part.contains(entries[j])) by {
            if part.contains(entries[j]) {
                let t = choose|t: int| 0 <= t < part.len() && part[t] == entries[j];
                assert(tried[t] == order[t]);
                assert(tried.contains(entries[j]));
            }
        }
        let grown = order_of_tries(s, longer, first);
        assert(grown == part.push(entries[j]));
        assert(grown[part.len() as int] == order.subrange(0, grown.len() as int)[part.len() as int]);
        assert(order[part.len() as int] == entries[j]);
        if part.len() < k {
            assert(tried[part.len() as int] == entries[j]);
            assert(tried.contains(entries[j]));
        }
    } else {
        assert(entries.take(j) =~= entries);
    }
}

/// What the setup says is the same wherever it is the same.
proof fn lemma_same_order(a: ServerView, b: ServerView, entries: Seq<Seq<char>>, first: Seq<char>)
    requires
        same_setup(a, b),
    ensures
        order_of_tries(a, entries, first) == order_of_tries(b, entries, first),
        without_pools(a, entries) ==> without_pools(b, entries),
    decreases entries.len(),
{
    if entries.len() > 0 {
        let rest = entries.drop_last();
        lemma_same_order(a, b, rest, first);
        let x = lookup(a.backends, entries.last());
    }
    if without_pools(a, entries) {
        assert forall|i: int| 0 <= i < entries.len() implies lookup(
            b.load_balancers,
            #[trigger] entries[i],
        ) is None by {
            assert(lookup(a.load_balancers, entries[i]) is None);
        }
    }
}

/// What a run is about: a route without pools that is no alias.
pub open spec fn plain_route(s: ServerView, route: Seq<char>, entries: Seq<Seq<char>>) -> bool {
    &&& lookup(s.router, route) == Some(entries)
    &&& without_pools(s, entries)
    &&& s.route_name(route) == route
}

/// The backends were tried in order: first the one that was found for the model at the
/// first moment, then the others on the route.
pub open spec fn tried_in_order(
    s: ServerView,
    entries: Seq<Seq<char>>,
    f: FailoverView,
    moments: Seq<Moment>,
) -> bool {
    f.tried.len() > 0 ==> {
        &&& moments.len() > 0
        &&& moments[0].server.found(f.params.original_model, moments[0].readings).1 == Ok::<
            Option<Seq<char>>,
            Stuck,
        >(Some(f.tried[0]))
        &&& f.tried.is_prefix_of(order_of_tries(s, entries, f.tried[0]))
    }
}

/// The first answer that does not say that the backend has failed is the answer; where
/// there is none and all backends were tried, or none was found, the answer is that none
/// is available.
pub open spec fn answered_well(
    s: ServerView,
    entries: Seq<Seq<char>>,
    f: FailoverView,
    moments: Seq<Moment>,
    response: ResponseView,
) -> bool {
    ||| {
        &&& moments.last().event == EventView::Answered(response)
        &&& !response.is_server_error()
        &&& only_failures(moments.drop_last())
    }
    ||| {
        &&& response == all_unavailable()
        &&& only_failures(moments)
        &&& f.tried.len() > 0 ==> f.tried == order_of_tries(s, entries, f.tried[0])
        &&& f.tried.len() == 0 ==> moments[0].server.found(
            f.params.original_model,
            moments[0].readings,
        ).1 == Ok::<Option<Seq<char>>, Stuck>(None)
    }
}

/// Without pools there is nothing to be stuck at.
proof fn lemma_never_stuck(s: ServerView, entries: Seq<Seq<char>>, readings: Seq<Reading>, i: int)
    requires
        without_pools(s, entries),
        0 <= i,
    ensures
        s.first_healthy(entries, readings, i).0 == s,
        s.first_healthy(entries, readings, i).1 is Ok,
    decreases entries.len() - i,
{
    if i < entries.len() {
        assert(lookup(s.load_balancers, entries[i]) is None);
        assert(s.resolved(entries[i], readings[i].seed) == (s, Ok::<Seq<char>, Stuck>(entries[i])));
        lemma_never_stuck(s, entries, readings, i + 1);
    }
}

proof fn lemma_one_more_step(
    s: ServerView,
    entries: Seq<Seq<char>>,
    f: FailoverView,
    moments: Seq<Moment>,
)
    requires
        moments.len() > 0,
        plain_route(s, f.params.original_model, entries),
        same_setup(s, moments.last().server),
        f.expects(moments.last().event),
        tried_in_order(s, entries, f, moments.drop_last()),
        only_failures(moments.drop_last()),
        f.tried.len() == 0 ==> moments.len() == 1 && f.current is None,
    ensures
        ({
            let m = moments.last();
            let (_, after, step) = f.advanced(m.server, m.event, m.readings, m.now);
            &&& after.params == f.params
            &&& step is Ok
            &&& tried_in_order(s, entries, after, moments)
            &&& goes_on(Some(step)) ==> only_failures(moments) && after.tried.len() > 0
            &&& step matches Ok(StepView::Respond(response)) ==> answered_well(
                s,
                entries,
                after,
                moments,
                response,
            )
        }),
{
    let m = moments.last();
    let before = moments.drop_last();
    let route = f.params.original_model;
    let (_, after, step) = f.advanced(m.server, m.event, m.readings, m.now);
    if before.len() > 0 {
        assert(moments[0] == before[0]);
    }
    let failing = m.event matches EventView::Answered(response) ==> response.is_server_error();
    assert(failing ==> only_failures(moments)) by {
        if failing {
            assert forall|i: int|
                0 <= i < moments.len() implies ((#[trigger] moments[i]).event matches EventView::Answered(
                response,
            ) ==> response.is_server_error()) by {
                if i < before.len() {
                    assert(moments[i] == before[i]);
                }
            }
        }
    }
    if m.event is Ready {
        if f.tried.len() > 0 {
            lemma_same_order(s, m.server, entries, f.tried[0]);
            lemma_next_in_order(m.server, entries, f.tried[0], f.tried, m.readings);
            let order = order_of_tries(s, entries, f.tried[0]);
            assert(f.tried == order.take(f.tried.len() as int));
            if f.tried.len() < order.len() {
                let name = order[f.tried.len() as int];
                assert(after.tried == f.tried.push(name));
                assert(after.tried =~= order.subrange(0, after.tried.len() as int));
            } else {
                assert(f.tried =~= order);
            }
        } else {
            assert(moments[0] == m);
            lemma_same_order(s, m.server, entries, route);
            lemma_never_stuck(m.server, entries, m.readings, 0);
            if entries.len() > 0 {
                assert(lookup(m.server.load_balancers, entries[0]) is None);
            }
            if let Ok(Some(name)) = m.server.found(route, m.readings).1 {
                assert(after.tried =~= seq![name]);
                lemma_order_of_tries(s, entries, name);
                assert(seq![name] =~= order_of_tries(s, entries, name).subrange(0, 1));
            }
        }
    }
}

proof fn lemma_run(
    s: ServerView,
    params: ParamsView,
    entries: Seq<Seq<char>>,
    moments: Seq<Moment>,
)
    requires
        plain_route(s, s.route_name(params.original_model), entries),
        set_up_as(s, moments),
        of_one_request(FailoverView::begun(s, params), moments),
    ensures
        ({
            let begun = FailoverView::begun(s, params);
            let (f, step) = run(begun, moments);
            &&& f.params == begun.params
            &&& !(step matches Some(Err(_)))
            &&& tried_in_order(s, entries, f, moments)
            &&& goes_on(step) ==> only_failures(moments) && (f.tried.len() == 0 ==> moments.len()
                == 0 && f.current is None)
            &&& step matches Some(Ok(StepView::Respond(response))) ==> answered_well(
                s,
                entries,
                f,
                moments,
                response,
            )
        }),
    decreases moments.len(),
{
    let begun = FailoverView::begun(s, params);
    if moments.len() > 0 {
        let before = moments.drop_last();
        assert forall|i: int| 0 <= i < before.len() implies same_setup(
            s,
            (#[trigger] before[i]).server,
        ) by {
            assert(before[i] == moments[i]);
        }
        lemma_run(s, params, entries, before);
        assert(same_setup(s, moments[moments.len() - 1].server));
        lemma_one_more_step(s, entries, run(begun, before).0, moments);
    }
}

/// On a route without pools, whatever the backends answer and whatever other requests do
/// meanwhile, a request is sent first to the backend that is found for its model, then to
/// the others on the route in their order; and its answer is the first that does not say
/// that the backend has failed, or else, when all were tried, that none is available. It
/// is never stuck.
pub proof fn law_a_request_from_beginning_to_end(
    s: ServerView,
    params: ParamsView,
    entries: Seq<Seq<char>>,
    moments: Seq<Moment>,
)
    requires
        plain_route(s, s.route_name(params.original_model), entries),
        set_up_as(s, moments),
        of_one_request(FailoverView::begun(s, params), moments),
    ensures
        ({
            let (f, step) = run(FailoverView::begun(s, params), moments);
            &&& !(step matches Some(Err(_)))
            &&& tried_in_order(s, entries, f, moments)
            &&& goes_on(step) ==> only_failures(moments)
            &&& step matches Some(Ok(StepView::Respond(response))) ==> answered_well(
                s,
                entries,
                f,
                moments,
                response,
            )
        }),
{
    lemma_run(s, params, entries, moments);
}

} // verus!
