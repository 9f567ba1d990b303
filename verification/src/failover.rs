//! A request on its way through the backends: retries, and the next backend where one
//! fails.

use crate::config::ConfigView;
use crate::duration::MAX_NANOS;
use crate::forward::{forward_request, forwarded, ForwardRequestParams, ParamsView};
use crate::http::{text_response, HttpRequest, HttpResponse, RequestView, ResponseView};
use crate::middleware::{ContextView, RequestContext};
use crate::names::{lemma_lookup_exists, lemma_upsert_keeps_len, lookup};
use crate::server::{
    all_possible, choice, law_finding_changes_only_counters, law_health_is_kept_apart,
    law_started_backends_are_healthy, lemma_first_untried, on_route, same_but_for_counters,
    started, without_pools, BackendState, Reading, Server, ServerView, Stuck,
};
use vstd::prelude::*;

verus! {

/// A request on its way through the backends.
pub struct Failover {
    params: ForwardRequestParams,
    tried: Vec<String>,
    current: Option<String>,
    attempt: usize,
}

/// What [`Failover`] holds.
pub struct FailoverView {
    /// What is sent on; the model is the name of a route.
    pub params: ParamsView,
    /// The backends that were tried.
    pub tried: Seq<Seq<char>>,
    /// The backend whose answer is awaited.
    pub current: Option<Seq<char>>,
    /// How often the request was sent to it before.
    pub attempt: usize,
}

impl View for Failover {
    type V = FailoverView;

    closed spec fn view(&self) -> FailoverView {
        FailoverView {
            params: self.params.deep_view(),
            tried: self.tried.deep_view(),
            current: self.current.deep_view(),
            attempt: self.attempt,
        }
    }
}

/// What happened since the last step.
pub enum Event {
    /// There is no answer to wait for: the next backend is to be chosen.
    Ready,
    /// The backend could not be reached.
    Unreachable,
    /// The backend answered.
    Answered(HttpResponse),
}

/// What [`Event`] holds.
pub enum EventView {
    Ready,
    Unreachable,
    Answered(ResponseView),
}

impl DeepView for Event {
    type V = EventView;

    open spec fn deep_view(&self) -> EventView {
        match self {
            Event::Ready => EventView::Ready,
            Event::Unreachable => EventView::Unreachable,
            Event::Answered(response) => EventView::Answered(response.deep_view()),
        }
    }
}

/// What is to be done next.
pub enum Step {
    /// To send this request to the backend, and come back with what happened.
    Send(HttpRequest),
    /// To choose the next backend.
    Choose,
    /// To send this response to the client, which ends the matter.
    Respond(HttpResponse),
}

/// What [`Step`] holds.
pub enum StepView {
    Send(RequestView),
    Choose,
    Respond(ResponseView),
}

impl DeepView for Step {
    type V = StepView;

    open spec fn deep_view(&self) -> StepView {
        match self {
            Step::Send(request) => StepView::Send(request.deep_view()),
            Step::Choose => StepView::Choose,
            Step::Respond(response) => StepView::Respond(response.deep_view()),
        }
    }
}

/// What a step gives, without the states.
pub open spec fn step_taken(r: Result<Step, Stuck>) -> Result<StepView, Stuck> {
    match r {
        Ok(step) => Ok(step.deep_view()),
        Err(stuck) => Err(stuck),
    }
}

/// The answer where no backend is left.
pub open spec fn all_unavailable() -> ResponseView {
    text_response(502, "All backends unavailable"@)
}

impl FailoverView {
    /// A request that was sent to no backend yet.
    pub open spec fn begun(s: ServerView, params: ParamsView) -> FailoverView {
        FailoverView {
            params: ParamsView { original_model: s.route_name(params.original_model), ..params },
            tried: Seq::empty(),
            current: None,
            attempt: 0,
        }
    }

    /// The backend whose answer is awaited is configured and allows the attempt.
    pub open spec fn valid(self, s: ServerView) -> bool {
        self.current matches Some(name) ==> {
            &&& lookup(s.backends, name) matches Some(b)
            &&& self.attempt < b.config.retry
        }
    }

    /// The event is one that can happen: an answer is awaited or not.
    pub open spec fn expects(self, e: EventView) -> bool {
        e is Ready <==> self.current is None
    }

    /// The choice of the next backend: at first the one for the model, and then the
    /// first on the route that was not tried.
    pub open spec fn chosen(self, s: ServerView, readings: Seq<Reading>) -> (
        ServerView,
        Result<Option<Seq<char>>, Stuck>,
    ) {
        if self.tried.len() == 0 {
            s.found(self.params.original_model, readings)
        } else {
            match lookup(s.router, self.params.original_model) {
                Some(entries) => s.first_untried(entries, self.tried, readings, 0),
                None => (s, Ok(None)),
            }
        }
    }

    /// The route on which the next backend is looked for.
    pub open spec fn route(self, s: ServerView) -> Seq<char> {
        if self.tried.len() == 0 {
            s.route_name(self.params.original_model)
        } else {
            self.params.original_model
        }
    }

    /// The request with no answer awaited.
    pub open spec fn idle(self) -> FailoverView {
        FailoverView { current: None, attempt: 0, ..self }
    }

    /// The step where the next backend is to be chosen. A backend that allows no
    /// attempt has failed at once.
    pub open spec fn on_ready(self, s: ServerView, readings: Seq<Reading>, now: nat) -> (
        ServerView,
        FailoverView,
        Result<StepView, Stuck>,
    ) {
        match self.chosen(s, readings) {
            (next, Err(stuck)) => (next, self, Err(stuck)),
            (next, Ok(None)) => (next, self, Ok(StepView::Respond(all_unavailable()))),
            (next, Ok(Some(name))) => {
                let backend = lookup(next.backends, name)->0;
                let tried = self.tried.push(name);
                if backend.config.retry == 0 {
                    (
                        next.failed(name, now),
                        FailoverView { tried, ..self }.idle(),
                        Ok(StepView::Choose),
                    )
                } else {
                    (
                        next,
                        FailoverView { tried, current: Some(name), attempt: 0, ..self },
                        Ok(StepView::Send(forwarded(backend.config, self.params))),
                    )
                }
            },
        }
    }

    /// The step where the backend could not be reached: once more, as long as the
    /// backend allows it, and then it has failed.
    pub open spec fn on_unreachable(self, s: ServerView, now: nat) -> (
        ServerView,
        FailoverView,
        Result<StepView, Stuck>,
    ) {
        match self.current {
            Some(name) => match lookup(s.backends, name) {
                Some(backend) => if self.attempt + 1 < backend.config.retry {
                    (
                        s,
                        FailoverView { attempt: (self.attempt + 1) as usize, ..self },
                        Ok(StepView::Send(forwarded(backend.config, self.params))),
                    )
                } else {
                    (s.failed(name, now), self.idle(), Ok(StepView::Choose))
                },
                None => (s, self.idle(), Ok(StepView::Choose)),
            },
            None => (s, self.idle(), Ok(StepView::Choose)),
        }
    }

    /// The step where the backend answered: it has failed if it says that it has, and
    /// otherwise its answer is the answer.
    pub open spec fn on_answered(self, s: ServerView, response: ResponseView, now: nat) -> (
        ServerView,
        FailoverView,
        Result<StepView, Stuck>,
    ) {
        if response.is_server_error() {
            let next = match self.current {
                Some(name) => s.failed(name, now),
                None => s,
            };
            (next, self.idle(), Ok(StepView::Choose))
        } else {
            let next = match self.current {
                Some(name) => s.succeeded(name),
                None => s,
            };
            (next, self.idle(), Ok(StepView::Respond(response)))
        }
    }

    /// One step: the states after it, and what is to be done next.
    pub open spec fn advanced(
        self,
        s: ServerView,
        e: EventView,
        readings: Seq<Reading>,
        now: nat,
    ) -> (ServerView, FailoverView, Result<StepView, Stuck>) {
        match e {
            EventView::Ready => self.on_ready(s, readings, now),
            EventView::Unreachable => self.on_unreachable(s, now),
            EventView::Answered(response) => self.on_answered(s, response, now),
        }
    }

    /// There are readings enough for a choice.
    pub open spec fn enough(self, s: ServerView, readings: Seq<Reading>) -> bool {
        &&& s.route_len(s.route_name(self.params.original_model)) < readings.len()
        &&& s.route_len(self.params.original_model) <= readings.len()
    }
}

impl Failover {
    /// The context of the answer that is awaited: the route, the backend, and the path
    /// that the client asked for.
    pub fn context(&self) -> (r: RequestContext)
        ensures
            r.deep_view() == (ContextView {
                model: self@.params.original_model,
                backend: self@.current,
                path: self@.params.path,
            }),
    {
        let context = RequestContext::new(
            self.params.original_model.as_str(),
            self.params.path.as_str(),
        );
        match &self.current {
            Some(name) => context.with_backend(name.as_str()),
            None => context,
        }
    }
}

impl Server {
    /// Sets a request on its way.
    pub fn begin(&self, params: ForwardRequestParams) -> (r: Failover)
        ensures
            r@ == FailoverView::begun(self@, params.deep_view()),
    {
        let original_model = self.route_name(params.original_model.as_str());
        let r = Failover {
            params: ForwardRequestParams {
                path: params.path,
                uri: params.uri,
                body_bytes: params.body_bytes,
                original_model,
                original_headers: params.original_headers,
                using_x_api_key: params.using_x_api_key,
            },
            tried: Vec::new(),
            current: None,
            attempt: 0,
        };
        assert(r@.tried =~= Seq::empty());
        r
    }

    /// Takes one step, with readings of the clocks for the choice of a backend, and
    /// the time since the router was started in nanoseconds.
    pub fn advance_with(
        &mut self,
        request: &mut Failover,
        event: Event,
        readings: &Vec<Reading>,
        now: u128,
    ) -> (r: Result<Step, Stuck>)
        requires
            event is Ready ==> old(request)@.enough(old(self)@, readings@),
            now <= MAX_NANOS,
        ensures
            (final(self)@, final(request)@, step_taken(r)) == old(request)@.advanced(
                old(self)@,
                event.deep_view(),
                readings@,
                now as nat,
            ),
    {
        match event {
            Event::Ready => self.choose_next(request, readings, now),
            Event::Unreachable => Ok(self.retry(request, now)),
            Event::Answered(response) => Ok(self.take_answer(request, response, now)),
        }
    }

    fn choose_next(&mut self, request: &mut Failover, readings: &Vec<Reading>, now: u128) -> (r: Result<
        Step,
        Stuck,
    >)
        requires
            old(request)@.enough(old(self)@, readings@),
            now <= MAX_NANOS,
        ensures
            (final(self)@, final(request)@, step_taken(r)) == old(request)@.on_ready(
                old(self)@,
                readings@,
                now as nat,
            ),
    {
        let ghost start = self@;
        let ghost before = request@;
        assert(request.tried.deep_view().len() == request.tried@.len());
        let chosen = if request.tried.len() == 0 {
            self.find_backend_with(request.params.original_model.as_str(), readings)
        } else {
            self.find_untried_with(
                request.params.original_model.as_str(),
                &request.tried,
                readings,
            )
        };
        assert((self@, choice(chosen)) == before.chosen(start, readings@));
        let name = match chosen {
            Ok(Some(name)) => name,
            Ok(None) => {
                return Ok(Step::Respond(HttpResponse::text(502, "All backends unavailable")));
            },
            Err(stuck) => {
                return Err(stuck);
            },
        };
        proof {
            lemma_chosen(before, start, readings@);
        }
        let sent = match self.backend(name.as_str()) {
            Some(backend) => if backend.config.retry == 0 {
                None
            } else {
                Some(forward_request(&backend.config, &request.params))
            },
            None => None,
        };
        let ghost tried = request.tried.deep_view();
        request.tried.push(name.clone());
        assert(request.tried.deep_view() =~= tried.push(name@));
        request.attempt = 0;
        match sent {
            Some(sent) => {
                request.current = Some(name);
                Ok(Step::Send(sent))
            },
            None => {
                request.current = None;
                self.handle_backend_failure_at(name.as_str(), now);
                Ok(Step::Choose)
            },
        }
    }

    fn retry(&mut self, request: &mut Failover, now: u128) -> (r: Step)
        requires
            now <= MAX_NANOS,
        ensures
            (final(self)@, final(request)@, Ok::<StepView, Stuck>(r.deep_view())) == old(
                request,
            )@.on_unreachable(old(self)@, now as nat),
    {
        let name = match &request.current {
            Some(name) => name.clone(),
            None => {
                request.attempt = 0;
                return Step::Choose;
            },
        };
        let again = match self.backend(name.as_str()) {
            Some(backend) => {
                let retry: usize = backend.config.retry;
                if request.attempt < retry && retry - request.attempt > 1 {
                    Some(forward_request(&backend.config, &request.params))
                } else {
                    None
                }
            },
            None => None,
        };
        match again {
            Some(sent) => {
                request.attempt = request.attempt + 1;
                Step::Send(sent)
            },
            None => {
                request.current = None;
                request.attempt = 0;
                self.handle_backend_failure_at(name.as_str(), now);
                Step::Choose
            },
        }
    }

    fn take_answer(&mut self, request: &mut Failover, response: HttpResponse, now: u128) -> (r: Step)
        requires
            now <= MAX_NANOS,
        ensures
            (final(self)@, final(request)@, Ok::<StepView, Stuck>(r.deep_view())) == old(
                request,
            )@.on_answered(old(self)@, response.deep_view(), now as nat),
    {
        let failed = response.is_server_error();
        if let Some(name) = &request.current {
            if failed {
                self.handle_backend_failure_at(name.as_str(), now);
            } else {
                self.record_success(name.as_str());
            }
        }
        request.current = None;
        request.attempt = 0;
        if failed {
            Step::Choose
        } else {
            Step::Respond(response)
        }
    }

    /// Takes one step.
    pub fn advance(&mut self, request: &mut Failover, event: Event) -> (r: Result<Step, Stuck>)
        ensures
            exists|readings: Seq<Reading>, now: nat|
                now <= MAX_NANOS && old(request)@.enough(old(self)@, readings) && all_possible(
                    readings,
                ) && (
                    final(self)@,
                    final(request)@,
                    step_taken(r),
                ) == #[trigger] old(request)@.advanced(
                    old(self)@,
                    event.deep_view(),
                    readings,
                    now,
                ),
    {
        let ghost start = self@;
        let ghost before = request@;
        let readings = self.read_clocks_for(request.params.original_model.as_str());
        let now: u128 = self.now();
        let r = self.advance_with(request, event, &readings, now);
        assert((self@, request@, step_taken(r)) == before.advanced(
            start,
            event.deep_view(),
            readings@,
            now as nat,
        ));
        r
    }
}

pub(crate) proof fn lemma_chosen(f: FailoverView, s: ServerView, readings: Seq<Reading>)
    ensures
        same_but_for_counters(s, f.chosen(s, readings).0),
        f.chosen(s, readings).1 matches Ok(Some(name)) ==> {
            &&& lookup(s.backends, name) is Some
            &&& !f.tried.contains(name)
            &&& lookup(s.router, f.route(s)) matches Some(entries)
            &&& on_route(s, entries, name)
        },
{
    if f.tried.len() == 0 {
        law_finding_changes_only_counters(s, f.params.original_model, readings);
    } else if let Some(entries) = lookup(s.router, f.params.original_model) {
        lemma_first_untried(s, entries, f.tried, readings, 0);
    }
}

/// The two states agree in all that is configured: they differ at most in the health of
/// backends and in how often pools have chosen.
pub open spec fn same_setup(a: ServerView, b: ServerView) -> bool {
    &&& a.aliases == b.aliases
    &&& a.router == b.router
    &&& a.time_base == b.time_base
    &&& a.backends.len() == b.backends.len()
    &&& forall|name: Seq<char>|
        match #[trigger] lookup(a.backends, name) {
            Some(x) => lookup(b.backends, name) matches Some(y) && x.config == y.config
                && x.health.time_base == y.health.time_base,
            None => lookup(b.backends, name) is None,
        }
    &&& forall|pool: Seq<char>|
        match #[trigger] lookup(a.load_balancers, pool) {
            Some(x) => lookup(b.load_balancers, pool) matches Some(y) && x.strategy == y.strategy
                && x.backends == y.backends,
            None => lookup(b.load_balancers, pool) is None,
        }
}

/// A request is on its way as it should be: no backend was tried twice, those tried
/// are configured, and the one whose answer is awaited was tried last.
pub open spec fn in_order(f: FailoverView, s: ServerView) -> bool {
    &&& f.valid(s)
    &&& f.tried.no_duplicates()
    &&& forall|i: int| 0 <= i < f.tried.len() ==> lookup(s.backends, #[trigger] f.tried[i]) is Some
    &&& f.current matches Some(name) ==> f.tried.len() > 0 && f.tried.last() == name
}

proof fn lemma_health_changes_keep_setup(s: ServerView, name: Seq<char>, now: nat)
    ensures
        same_setup(s, s.failed(name, now)),
        same_setup(s, s.succeeded(name)),
{
    assert forall|other: Seq<char>|
        match #[trigger] lookup(s.backends, other) {
            Some(x) => {
                &&& lookup(s.failed(name, now).backends, other) matches Some(y)
                &&& x.config == y.config
                &&& x.health.time_base == y.health.time_base
            },
            None => lookup(s.failed(name, now).backends, other) is None,
        } by {
        law_health_is_kept_apart(s, name, now, other);
    }
    assert forall|other: Seq<char>|
        match #[trigger] lookup(s.backends, other) {
            Some(x) => {
                &&& lookup(s.succeeded(name).backends, other) matches Some(y)
                &&& x.config == y.config
                &&& x.health.time_base == y.health.time_base
            },
            None => lookup(s.succeeded(name).backends, other) is None,
        } by {
        law_health_is_kept_apart(s, name, now, other);
    }
    law_health_is_kept_apart(s, name, now, name);
    if let Some(b) = lookup(s.backends, name) {
        lemma_upsert_keeps_len(
            s.backends,
            name,
            BackendState { health: b.health.succeeded(), ..b },
        );
        lemma_upsert_keeps_len(
            s.backends,
            name,
            BackendState {
                health: b.health.after_failure(b.config.retry, b.config.cooldown, now),
                ..b
            },
        );
    }
}

proof fn lemma_same_setup_chains(a: ServerView, b: ServerView, c: ServerView)
    requires
        same_setup(a, b),
        same_setup(b, c),
    ensures
        same_setup(a, c),
{
    assert forall|name: Seq<char>|
        match #[trigger] lookup(a.backends, name) {
            Some(x) => lookup(c.backends, name) matches Some(y) && x.config == y.config
                && x.health.time_base == y.health.time_base,
            None => lookup(c.backends, name) is None,
        } by {
        let y = lookup(b.backends, name);
    }
    assert forall|pool: Seq<char>|
        match #[trigger] lookup(a.load_balancers, pool) {
            Some(x) => lookup(c.load_balancers, pool) matches Some(y) && x.strategy == y.strategy
                && x.backends == y.backends,
            None => lookup(c.load_balancers, pool) is None,
        } by {
        let y = lookup(b.load_balancers, pool);
    }
}

/// No step changes what is configured.
pub proof fn law_steps_keep_the_setup(
    f: FailoverView,
    s: ServerView,
    e: EventView,
    readings: Seq<Reading>,
    now: nat,
)
    ensures
        same_setup(s, f.advanced(s, e, readings, now).0),
{
    match e {
        EventView::Ready => {
            lemma_chosen(f, s, readings);
            let (next, r) = f.chosen(s, readings);
            assert(same_setup(s, next));
            if let Ok(Some(name)) = r {
                lemma_health_changes_keep_setup(next, name, now);
                lemma_same_setup_chains(s, next, next.failed(name, now));
            }
        },
        _ => {
            if let Some(name) = f.current {
                lemma_health_changes_keep_setup(s, name, now);
            }
        },
    }
}

/// The times of the router and of the health of its backends are counted from the
/// instant at which it was started, and no step changes that.
pub proof fn law_times_are_counted_from_the_start(
    config: ConfigView,
    time_base: std::time::Instant,
    a: ServerView,
    b: ServerView,
)
    ensures
        started(config, time_base).one_time_base(),
        started(config, time_base).time_base == time_base,
        same_setup(a, b) && a.one_time_base() ==> b.one_time_base() && b.time_base == a.time_base,
{
    let s = started(config, time_base);
    assert forall|name: Seq<char>|
        (#[trigger] lookup(s.backends, name)) is Some implies lookup(
        s.backends,
        name,
    )->0.health.time_base == s.time_base by {
        law_started_backends_are_healthy(config, time_base, name, 0);
    }
    if same_setup(a, b) && a.one_time_base() {
        assert forall|name: Seq<char>|
            (#[trigger] lookup(b.backends, name)) is Some implies lookup(
            b.backends,
            name,
        )->0.health.time_base == b.time_base by {
            let x = lookup(a.backends, name);
        }
    }
}

/// What other requests do to the state leaves a request in order.
pub proof fn law_requests_do_not_disturb_each_other(f: FailoverView, a: ServerView, b: ServerView)
    requires
        same_setup(a, b),
        in_order(f, a),
    ensures
        in_order(f, b),
{
    assert forall|i: int| 0 <= i < f.tried.len() implies lookup(
        b.backends,
        #[trigger] f.tried[i],
    ) is Some by {
        assert(lookup(a.backends, f.tried[i]) is Some);
    }
    if let Some(name) = f.current {
        assert(lookup(a.backends, name) is Some);
    }
}

/// A request that was just set on its way is in order.
pub proof fn law_a_new_request_is_in_order(s: ServerView, params: ParamsView)
    ensures
        in_order(FailoverView::begun(s, params), s),
{
}

/// Every step leaves a request in order: no backend is ever tried twice, and none that
/// is not configured or not on the route.
pub proof fn law_no_backend_is_tried_twice(
    f: FailoverView,
    s: ServerView,
    e: EventView,
    readings: Seq<Reading>,
    now: nat,
)
    requires
        in_order(f, s),
        f.expects(e),
    ensures
        ({
            let (next, after, _) = f.advanced(s, e, readings, now);
            &&& in_order(after, next)
            &&& after.params == f.params
            &&& after.tried == f.tried || {
                &&& e is Ready
                &&& after.tried == f.tried.push(after.tried.last())
                &&& lookup(s.router, f.route(s)) matches Some(entries)
                &&& on_route(s, entries, after.tried.last())
            }
        }),
{
    let (next, after, _) = f.advanced(s, e, readings, now);
    law_steps_keep_the_setup(f, s, e, readings, now);
    law_requests_do_not_disturb_each_other(f, s, next);
    if e is Ready {
        lemma_chosen(f, s, readings);
        let (_, r) = f.chosen(s, readings);
        if let Ok(Some(name)) = r {
            assert(after.tried == f.tried.push(name));
            assert forall|i: int| 0 <= i < after.tried.len() implies lookup(
                next.backends,
                #[trigger] after.tried[i],
            ) is Some by {
                if i < f.tried.len() {
                    assert(lookup(s.backends, f.tried[i]) is Some);
                    assert(after.tried[i] == f.tried[i]);
                } else {
                    assert(lookup(s.backends, name) is Some);
                }
            }
        }
    }
}

/// No more backends are tried than there are.
pub proof fn law_tries_are_bounded(f: FailoverView, s: ServerView)
    requires
        in_order(f, s),
    ensures
        f.tried.len() <= s.backends.len(),
{
    let names = Seq::new(s.backends.len(), |i: int| s.backends[i].0);
    f.tried.unique_seq_to_set();
    assert(f.tried.to_set().subset_of(names.to_set())) by {
        assert forall|name: Seq<char>| f.tried.to_set().contains(name) implies names.to_set().contains(
            name,
        ) by {
            let i = choose|i: int| 0 <= i < f.tried.len() && f.tried[i] == name;
            assert(lookup(s.backends, f.tried[i]) is Some);
            lemma_lookup_exists(s.backends, name);
            let j = choose|j: int| 0 <= j < s.backends.len() && (#[trigger] s.backends[j]).0 == name;
            assert(names[j] == name);
        }
    }
    names.lemma_cardinality_of_set();
    vstd::set_lib::lemma_len_subset(f.tried.to_set(), names.to_set());
}

/// How much a request may still go through: the backends that it was not sent to, and
/// the attempts that the awaited one allows.
pub open spec fn still_ahead(f: FailoverView, s: ServerView) -> (int, int) {
    (
        s.backends.len() - f.tried.len(),
        match f.current {
            Some(name) => lookup(s.backends, name)->0.config.retry - f.attempt,
            None => 0,
        },
    )
}

/// Every request comes to an end: a step that does not end it with a response leaves
/// fewer backends ahead of it, or as many and fewer attempts.
pub proof fn law_failover_ends(
    f: FailoverView,
    s: ServerView,
    e: EventView,
    readings: Seq<Reading>,
    now: nat,
)
    requires
        in_order(f, s),
        f.expects(e),
    ensures
        ({
            let (next, after, r) = f.advanced(s, e, readings, now);
            let (backends, attempts) = still_ahead(f, s);
            let (fewer_backends, fewer_attempts) = still_ahead(after, next);
            r matches Ok(step) && !(step is Respond) ==> {
                ||| 0 <= fewer_backends < backends
                ||| fewer_backends == backends && 0 <= fewer_attempts < attempts
            }
        }),
{
    let (next, after, r) = f.advanced(s, e, readings, now);
    law_steps_keep_the_setup(f, s, e, readings, now);
    law_no_backend_is_tried_twice(f, s, e, readings, now);
    law_tries_are_bounded(after, next);
    if let Some(name) = f.current {
        assert(lookup(s.backends, name) is Some);
    }
}

/// A response comes from a backend that has not failed, which is noted as a success;
/// or it says that no backend is available.
pub proof fn law_server_errors_are_not_delivered(
    f: FailoverView,
    s: ServerView,
    e: EventView,
    readings: Seq<Reading>,
    now: nat,
)
    requires
        f.expects(e),
    ensures
        f.advanced(s, e, readings, now).2 matches Ok(StepView::Respond(response)) ==> {
            ||| {
                &&& e == EventView::Answered(response)
                &&& !response.is_server_error()
                &&& f.advanced(s, e, readings, now).0 == s.succeeded(f.current->0)
            }
            ||| {
                &&& e is Ready
                &&& response == all_unavailable()
                &&& f.chosen(s, readings).1 == Ok::<Option<Seq<char>>, Stuck>(None)
            }
        },
{
}

proof fn lemma_nothing_untried(
    s: ServerView,
    entries: Seq<Seq<char>>,
    tried: Seq<Seq<char>>,
    readings: Seq<Reading>,
    i: int,
    j: int,
)
    requires
        without_pools(s, entries),
        0 <= i <= j < entries.len(),
        s.first_untried(entries, tried, readings, i).1 == Ok::<Option<Seq<char>>, Stuck>(None),
    ensures
        tried.contains(entries[j]) || lookup(s.backends, entries[j]) is None,
    decreases j - i,
{
    assert(lookup(s.load_balancers, entries[i]) is None);
    assert(s.resolved(entries[i], readings[i].seed) == (s, Ok::<Seq<char>, Stuck>(entries[i])));
    if i < j {
        lemma_nothing_untried(s, entries, tried, readings, i + 1, j);
    }
}

/// On a route without pools, a request that was sent to a backend is given up only
/// when every configured backend of the route was tried.
pub proof fn law_all_backends_are_tried_before_giving_up(
    f: FailoverView,
    s: ServerView,
    readings: Seq<Reading>,
    now: nat,
    entries: Seq<Seq<char>>,
    j: int,
)
    requires
        lookup(s.router, f.params.original_model) == Some(entries),
        without_pools(s, entries),
        f.tried.len() > 0,
        f.on_ready(s, readings, now).2 matches Ok(StepView::Respond(_)),
        0 <= j < entries.len(),
    ensures
        f.tried.contains(entries[j]) || lookup(s.backends, entries[j]) is None,
{
    lemma_nothing_untried(s, entries, f.tried, readings, 0, j);
}

/// What is sent is the client's request as the backend that is tried is to have it.
pub proof fn law_what_is_sent(
    f: FailoverView,
    s: ServerView,
    e: EventView,
    readings: Seq<Reading>,
    now: nat,
)
    requires
        in_order(f, s),
        f.expects(e),
    ensures
        f.advanced(s, e, readings, now).2 matches Ok(StepView::Send(request)) ==> {
            let (next, after, _) = f.advanced(s, e, readings, now);
            &&& after.current matches Some(name)
            &&& lookup(next.backends, name) matches Some(backend)
            &&& request == forwarded(backend.config, f.params)
        },
{
    if e is Ready {
        lemma_chosen(f, s, readings);
    }
}

} // verus!
