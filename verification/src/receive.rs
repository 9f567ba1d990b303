//! What becomes of a request that comes in, up to the backends, and of the answer on
//! its way back.

use crate::clock::unix_nanos;
use crate::duration::MAX_NANOS;
use crate::forward::{append_headers, ForwardRequestParams, ParamsView};
use crate::http::{
    bare_response, content_type, content_type_of, law_last_header_is_passed_on,
    law_passing_headers_on_again, lower_names, lowered, original_headers, original_headers_of,
    passed_on, text_response, typed_response, Headers, HttpRequest, HttpResponse,
    RequestView, ResponseView,
};
use crate::json::{json_read, json_text, Json};
use crate::middleware::{
    ActionView, ContextView, InterceptAction, Middleware, NoOpMiddleware, RequestContext,
};
use crate::names::lookup;
use crate::protocol::{
    law_protocols_do_not_overlap, model_of, models_json, named_model, AnthropicProtocol, ModelInfo,
    ModelView,
    OpenAiProtocol, Protocol,
};
use crate::server::{Server, ServerView, Stuck};
use crate::text::{join2, same, trim_start_char, without_leading};
use vstd::prelude::*;
use vstd::string::*;
use vstd::utf8::encode_utf8;

verus! {

/// The models that the router lists: its routes.
pub open spec fn listed(s: ServerView, created: u64) -> Seq<ModelView> {
    Seq::new(
        s.router.len(),
        |i: int|
            ModelView {
                id: s.router[i].0,
                object: "model"@,
                created,
                owned_by: "llm-router"@,
            },
    )
}

/// A body reads as the list of the routes.
pub open spec fn reads_as_list(body: Seq<u8>, s: ServerView, created: u64) -> bool {
    json_read(body) == Ok::<Json, Seq<char>>(models_json(listed(s, created)))
}

/// The answer to a request for the list of models, with the seconds since the Unix
/// epoch where the clock gives them.
pub open spec fn models_answer(s: ServerView, path: Seq<char>, unix_secs: Option<u64>) -> Result<
    ResponseView,
    Stuck,
> {
    if path != "/v1/models"@ {
        Ok(text_response(404, "Models endpoint not found"@))
    } else {
        match unix_secs {
            Some(secs) => Ok(
                typed_response(200, "application/json"@, json_text(models_json(listed(s, secs)))),
            ),
            None => Err(Stuck::ClockBeforeEpoch),
        }
    }
}

/// What an answer gives.
pub open spec fn answered(r: Result<HttpResponse, Stuck>) -> Result<ResponseView, Stuck> {
    match r {
        Ok(response) => Ok(response.deep_view()),
        Err(stuck) => Err(stuck),
    }
}

impl Server {
    /// The answer to a request for the list of models. Where the list is sent, its
    /// text reads as the list of the routes.
    pub fn handle_models_list_with(&self, path: &str, unix_secs: Option<u64>) -> (r: Result<
        HttpResponse,
        Stuck,
    >)
        ensures
            answered(r) == models_answer(self@, path@, unix_secs),
            r is Ok && path@ == "/v1/models"@ ==> reads_as_list(
                r->Ok_0.body@,
                self@,
                unix_secs->0,
            ),
    {
        if !same(path, "/v1/models") {
            return Ok(HttpResponse::text(404, "Models endpoint not found"));
        }
        let secs: u64 = match unix_secs {
            Some(secs) => secs,
            None => {
                return Err(Stuck::ClockBeforeEpoch);
            },
        };
        let names = self.route_names();
        let ghost goal = listed(self@, secs);
        let mut models: Vec<ModelInfo> = Vec::new();
        let mut i: usize = 0;
        assert(names.deep_view().len() == names@.len());
        while i < names.len()
            invariant
                0 <= i <= names@.len(),
                models@.len() == i,
                names@.len() == goal.len(),
                names.deep_view() == Seq::new(self@.router.len(), |k: int| self@.router[k].0),
                goal == listed(self@, secs),
                forall|j: int|
                    0 <= j < i ==> (#[trigger] models@[j]).deep_view() == goal[j],
            decreases names@.len() - i,
        {
            assert(names.deep_view()[i as int] == names@[i as int]@);
            models.push(
                ModelInfo {
                    id: names[i].clone(),
                    object: "model".to_owned(),
                    created: secs,
                    owned_by: "llm-router".to_owned(),
                },
            );
            i = i + 1;
        }
        assert(Seq::new(models@.len(), |j: int| models@[j].deep_view()) =~= goal);
        let body = OpenAiProtocol::list_models(models.as_slice());
        Ok(HttpResponse::typed(200, "application/json", body.as_str()))
    }

    /// The answer to a request for the list of models, with the time of the clock.
    pub fn handle_models_list(&self, path: &str) -> (r: Result<HttpResponse, Stuck>)
        ensures
            exists|unix_secs: Option<u64>|
                answered(r) == #[trigger] models_answer(self@, path@, unix_secs) && (r is Ok
                    && path@ == "/v1/models"@ ==> reads_as_list(
                    r->Ok_0.body@,
                    self@,
                    unix_secs->0,
                )),
    {
        let secs = unix_secs();
        self.handle_models_list_with(path, secs)
    }
}

/// The whole seconds in `nanos` nanoseconds, if there are any to count.
pub open spec fn whole_secs_of(nanos: Option<u128>) -> Option<nat> {
    match nanos {
        Some(nanos) => Some(nanos as nat / 1_000_000_000),
        None => None,
    }
}

/// The whole seconds in `nanos` nanoseconds, if there are any to count.
pub fn whole_secs(nanos: Option<u128>) -> (r: Option<u64>)
    requires
        nanos matches Some(nanos) ==> nanos <= MAX_NANOS,
    ensures
        match r {
            Some(secs) => whole_secs_of(nanos) == Some(secs as nat),
            None => whole_secs_of(nanos) is None,
        },
{
    match nanos {
        Some(nanos) => Some((nanos / 1_000_000_000) as u64),
        None => None,
    }
}

/// The whole seconds since the Unix epoch, if the machine's clock stands behind it.
fn unix_secs() -> (r: Option<u64>)
    ensures
        exists|nanos: Option<u128>|
            (nanos matches Some(n) ==> n <= MAX_NANOS) && match #[trigger] whole_secs_of(nanos) {
                Some(secs) => r matches Some(s) && s == secs,
                None => r is None,
            },
{
    let nanos = unix_nanos();
    let r = whole_secs(nanos);
    assert(whole_secs_of(nanos) is Some <==> r is Some);
    r
}

/// What is done with a request of which only the head was read.
pub enum Admission {
    /// It is answered.
    Respond(HttpResponse),
    /// Its body is read.
    ReadBody,
}

/// What [`Admission`] holds.
pub enum AdmissionView {
    Respond(ResponseView),
    ReadBody,
}

impl DeepView for Admission {
    type V = AdmissionView;

    open spec fn deep_view(&self) -> AdmissionView {
        match self {
            Admission::Respond(response) => AdmissionView::Respond(response.deep_view()),
            Admission::ReadBody => AdmissionView::ReadBody,
        }
    }
}

/// What is done with a request by its method: `GET` asks for the list of models,
/// `POST` is sent on, and nothing else is allowed.
pub open spec fn admitted(
    s: ServerView,
    method: Seq<char>,
    path: Seq<char>,
    unix_secs: Option<u64>,
) -> Result<AdmissionView, Stuck> {
    if method == "GET"@ {
        match models_answer(s, path, unix_secs) {
            Ok(response) => Ok(AdmissionView::Respond(response)),
            Err(stuck) => Err(stuck),
        }
    } else if method == "POST"@ {
        Ok(AdmissionView::ReadBody)
    } else {
        Ok(AdmissionView::Respond(text_response(405, "Method not allowed"@)))
    }
}

/// What an admission gives.
pub open spec fn admission(r: Result<Admission, Stuck>) -> Result<AdmissionView, Stuck> {
    match r {
        Ok(admission) => Ok(admission.deep_view()),
        Err(stuck) => Err(stuck),
    }
}

impl Server {
    /// Decides by its head what is done with a request, with the seconds since the
    /// Unix epoch where the clock gives them.
    pub fn consider_with(&self, method: &str, path: &str, unix_secs: Option<u64>) -> (r: Result<
        Admission,
        Stuck,
    >)
        ensures
            admission(r) == admitted(self@, method@, path@, unix_secs),
            method@ == "GET"@ && path@ == "/v1/models"@ && r is Ok ==> reads_as_list(
                r->Ok_0->Respond_0.body@,
                self@,
                unix_secs->0,
            ),
    {
        if same(method, "GET") {
            match self.handle_models_list_with(path, unix_secs) {
                Ok(response) => Ok(Admission::Respond(response)),
                Err(stuck) => Err(stuck),
            }
        } else if same(method, "POST") {
            Ok(Admission::ReadBody)
        } else {
            Ok(Admission::Respond(HttpResponse::text(405, "Method not allowed")))
        }
    }

    /// Decides by its head what is done with a request.
    pub fn consider(&self, method: &str, path: &str) -> (r: Result<Admission, Stuck>)
        ensures
            exists|unix_secs: Option<u64>|
                admission(r) == #[trigger] admitted(self@, method@, path@, unix_secs) && (
                method@ == "GET"@ && path@ == "/v1/models"@ && r is Ok ==> reads_as_list(
                    r->Ok_0->Respond_0.body@,
                    self@,
                    unix_secs->0,
                )),
    {
        let secs = unix_secs();
        self.consider_with(method, path, secs)
    }
}

/// A request that is to be sent on, before an interceptor has seen it.
pub struct Prepared {
    /// What is known of it.
    pub context: RequestContext,
    /// The request as the interceptor sees it.
    pub request: HttpRequest,
    /// Whether keys go into the header `x-api-key`.
    pub using_x_api_key: bool,
}

/// What [`Prepared`] holds.
pub struct PreparedView {
    pub context: ContextView,
    pub request: RequestView,
    pub using_x_api_key: bool,
}

impl DeepView for Prepared {
    type V = PreparedView;

    open spec fn deep_view(&self) -> PreparedView {
        PreparedView {
            context: self.context.deep_view(),
            request: self.request.deep_view(),
            using_x_api_key: self.using_x_api_key,
        }
    }
}

/// What the protocol of a request says: what is said of a body that names no model,
/// and whether keys go into the header `x-api-key`.
pub open spec fn protocol_of(path: Seq<char>, content_type: Option<Seq<char>>) -> Option<
    (Seq<char>, bool),
> {
    if OpenAiProtocol.applies(path, content_type) {
        Some((OpenAiProtocol.missing_model(), OpenAiProtocol.keys_go_into_x_api_key()))
    } else if AnthropicProtocol.applies(path, content_type) {
        Some((AnthropicProtocol.missing_model(), AnthropicProtocol.keys_go_into_x_api_key()))
    } else {
        None
    }
}

/// What a `POST` request is made into, or the answer with which it is refused. There
/// is no body if it could not be read.
pub open spec fn prepared(path: Seq<char>, headers: Headers, body: Option<Seq<u8>>) -> Result<
    PreparedView,
    ResponseView,
> {
    let lines = lowered(headers);
    match body {
        None => Err(text_response(400, "Failed to read request body"@)),
        Some(body) => match protocol_of(path, content_type_of(lines)) {
            None => Err(text_response(404, "No matching protocol"@)),
            Some((missing_model, using_x_api_key)) => match model_of(
                json_read(body),
                missing_model,
            ) {
                Err(message) => Err(text_response(400, "Invalid request: "@ + message)),
                Ok(model) => Ok(
                    PreparedView {
                        context: ContextView { model, backend: None, path },
                        request: RequestView {
                            method: "POST"@,
                            uri: "/"@ + without_leading(path, |c: char| c == '/'),
                            headers: original_headers_of(lines),
                            body,
                        },
                        using_x_api_key,
                    },
                ),
            },
        },
    }
}

/// The bytes of a body, if it could be read.
pub open spec fn bytes_of(body: Option<Vec<u8>>) -> Option<Seq<u8>> {
    match body {
        Some(bytes) => Some(bytes@),
        None => None,
    }
}

/// What the preparation gives.
pub open spec fn preparation(r: Result<Prepared, HttpResponse>) -> Result<PreparedView, ResponseView> {
    match r {
        Ok(prepared) => Ok(prepared.deep_view()),
        Err(response) => Err(response.deep_view()),
    }
}

/// Makes a `POST` request ready to be sent on, or refuses it.
pub fn prepare(path: &str, headers: Vec<(String, Vec<u8>)>, body: Option<Vec<u8>>) -> (r: Result<
    Prepared,
    HttpResponse,
>)
    ensures
        preparation(r) == prepared(path@, headers.deep_view(), bytes_of(body)),
{
    let body = match body {
        Some(body) => body,
        None => {
            return Err(HttpResponse::text(400, "Failed to read request body"));
        },
    };
    let lines = lower_names(headers);
    let kind = content_type(&lines);
    let openai = OpenAiProtocol;
    let anthropic = AnthropicProtocol;
    let (parsed, using_x_api_key) = if openai.matches(path, kind) {
        (openai.parse(body.as_slice()), openai.using_x_api_key())
    } else if anthropic.matches(path, kind) {
        (anthropic.parse(body.as_slice()), anthropic.using_x_api_key())
    } else {
        return Err(HttpResponse::text(404, "No matching protocol"));
    };
    let model = match parsed {
        Ok(parsed) => parsed.model,
        Err(message) => {
            return Err(
                HttpResponse::text(400, join2("Invalid request: ", message.as_str()).as_str()),
            );
        },
    };
    let original_headers = original_headers(lines);
    let mut headers: Vec<(String, Vec<u8>)> = Vec::new();
    append_headers(&mut headers, &original_headers, None);
    assert(headers.deep_view() =~= original_headers@);
    Ok(
        Prepared {
            context: RequestContext::new(model.as_str(), path),
            request: HttpRequest {
                method: "POST".to_owned(),
                uri: join2("/", trim_start_char(path, '/')),
                headers,
                body,
            },
            using_x_api_key,
        },
    )
}

/// What is sent on of a request after an interceptor has seen it, or the answer if it
/// was blocked: the request as the interceptor left it, to the model that it named when
/// it came in.
pub open spec fn passed(prepared: PreparedView, action: ActionView, request: RequestView) -> Result<
    ParamsView,
    ResponseView,
> {
    match action {
        ActionView::Block(body) => Err(bare_response(403, body)),
        ActionView::Continue => Ok(
            ParamsView {
                path: prepared.context.path,
                uri: request.uri,
                body_bytes: request.body,
                original_model: prepared.context.model,
                original_headers: original_headers_of(lowered(request.headers)),
                using_x_api_key: prepared.using_x_api_key,
            },
        ),
    }
}

/// What the passage by an interceptor gives.
pub open spec fn passage(r: Result<ForwardRequestParams, HttpResponse>) -> Result<
    ParamsView,
    ResponseView,
> {
    match r {
        Ok(params) => Ok(params.deep_view()),
        Err(response) => Err(response.deep_view()),
    }
}

/// Takes up a request after an interceptor has seen it. Its `request` is what the
/// interceptor left of it.
pub fn pass(prepared: Prepared, action: InterceptAction) -> (r: Result<
    ForwardRequestParams,
    HttpResponse,
>)
    ensures
        passage(r) == passed(
            prepared.deep_view(),
            action.deep_view(),
            prepared.request.deep_view(),
        ),
{
    match action {
        InterceptAction::Block(body) => Err(HttpResponse::bare(403, body)),
        InterceptAction::Continue => Ok(
            ForwardRequestParams {
                path: prepared.context.path,
                uri: prepared.request.uri,
                body_bytes: prepared.request.body,
                original_model: prepared.context.model,
                original_headers: original_headers(lower_names(prepared.request.headers)),
                using_x_api_key: prepared.using_x_api_key,
            },
        ),
    }
}

/// Takes a `POST` request in, past an interceptor: what is sent on of it, or the
/// answer with which it is refused or blocked.
pub fn receive<M: Middleware>(
    path: &str,
    headers: Vec<(String, Vec<u8>)>,
    body: Option<Vec<u8>>,
    middleware: &M,
) -> (r: Result<ForwardRequestParams, HttpResponse>)
    ensures
        match prepared(path@, headers.deep_view(), bytes_of(body)) {
            Err(response) => passage(r) == Err::<ParamsView, ResponseView>(response),
            Ok(ready) => exists|after: RequestView, action: ActionView|
                middleware.may_intercept_request(ready.request, ready.context, after, action)
                    && passage(r) == #[trigger] passed(ready, action, after),
        },
{
    let mut ready = match prepare(path, headers, body) {
        Ok(ready) => ready,
        Err(response) => {
            return Err(response);
        },
    };
    let ghost before = ready.deep_view();
    let action = middleware.intercept_request(&mut ready.request, &ready.context);
    let ghost after = ready.request.deep_view();
    let r = pass(ready, action);
    assert(passage(r) == passed(before, action.deep_view(), after));
    r
}

/// The answer to the client for the answer of a backend after an interceptor has seen
/// it: what the interceptor left of it, or what it gave in its place.
pub open spec fn returned(action: ActionView, response: ResponseView) -> ResponseView {
    match action {
        ActionView::Block(body) => bare_response(200, body),
        ActionView::Continue => response,
    }
}

/// Takes up the answer of a backend after an interceptor has seen it.
pub fn give_back(action: InterceptAction, response: HttpResponse) -> (r: HttpResponse)
    ensures
        r.deep_view() == returned(action.deep_view(), response.deep_view()),
{
    match action {
        InterceptAction::Block(body) => HttpResponse::bare(200, body),
        InterceptAction::Continue => response,
    }
}

/// Takes the answer of a backend back, past an interceptor.
pub fn answer<M: Middleware>(response: HttpResponse, context: &RequestContext, middleware: &M) -> (r:
    HttpResponse)
    ensures
        exists|after: ResponseView, action: ActionView|
            middleware.may_intercept_response(
                response.deep_view(),
                context.deep_view(),
                after,
                action,
            ) && r.deep_view() == #[trigger] returned(action, after),
{
    let mut response = response;
    let action = middleware.intercept_response(&mut response, context);
    give_back(action, response)
}

/// The protocols are told apart whatever the order in which they are asked.
pub proof fn law_order_of_protocols_does_not_matter(path: Seq<char>, content_type: Option<Seq<char>>)
    ensures
        AnthropicProtocol.applies(path, content_type) ==> protocol_of(path, content_type) == Some(
            (AnthropicProtocol.missing_model(), true),
        ),
        OpenAiProtocol.applies(path, content_type) ==> protocol_of(path, content_type) == Some(
            (OpenAiProtocol.missing_model(), false),
        ),
{
    law_protocols_do_not_overlap(path, content_type);
}

proof fn lemma_uri_of_a_prepared_request(path: Seq<char>, content_type: Option<Seq<char>>)
    requires
        protocol_of(path, content_type) is Some,
    ensures
        "/"@ + without_leading(path, |c: char| c == '/') == path,
{
    reveal_strlit("/");
    reveal_strlit("/chat/completions");
    reveal_strlit("/v1/messages");
    reveal_with_fuel(without_leading, 2);
    if OpenAiProtocol.applies(path, content_type) {
        assert(path[0] == "/chat/completions"@[0]);
        assert(path[1] == "/chat/completions"@[1]);
    } else {
        assert(path[0] == "/v1/messages"@[0]);
        assert(path[1] == "/v1/messages"@[1]);
    }
    assert(path.drop_first()[0] == path[1]);
    assert("/"@ + path.drop_first() =~= path);
}

/// A request that is sent on has a body that names its model. The interceptor sees it
/// with its path and body as they came in, and with the headers that are passed on.
pub proof fn law_what_is_prepared(path: Seq<char>, headers: Headers, body: Option<Seq<u8>>)
    ensures
        prepared(path, headers, body) matches Ok(ready) ==> {
            &&& body matches Some(bytes)
            &&& ready.request.body == bytes
            &&& ready.request.uri == path
            &&& ready.request.headers == original_headers_of(lowered(headers))
            &&& ready.context.path == path
            &&& ready.context.backend is None
            &&& json_read(bytes) matches Ok(json)
            &&& named_model(json) == Some(ready.context.model)
        },
{
    if prepared(path, headers, body) is Ok {
        lemma_uri_of_a_prepared_request(path, content_type_of(lowered(headers)));
    }
}

/// What an interceptor changes in a request that it lets pass is what is sent on: its
/// path, its body, and its headers, of each name the last. The path that the client
/// asked for is kept beside it.
pub proof fn law_changes_by_an_interceptor_are_sent_on(
    ready: PreparedView,
    after: RequestView,
    name: Seq<char>,
)
    ensures
        passed(ready, ActionView::Continue, after) matches Ok(params) && {
            &&& params.path == ready.context.path
            &&& params.uri == after.uri
            &&& params.body_bytes == after.body
            &&& params.original_model == ready.context.model
            &&& lookup(params.original_headers, name) == (if passed_on(name) {
                lookup(lowered(after.headers).reverse(), name)
            } else {
                None
            })
        },
{
    law_last_header_is_passed_on(lowered(after.headers), name);
}

/// An interceptor that does nothing lets every request and every answer pass as it is.
pub proof fn law_no_op_lets_everything_pass(
    path: Seq<char>,
    headers: Headers,
    body: Seq<u8>,
    after: RequestView,
    response: ResponseView,
    later: ResponseView,
    context: ContextView,
    action: ActionView,
)
    ensures
        prepared(path, headers, Some(body)) matches Ok(ready)
            ==> NoOpMiddleware.may_intercept_request(ready.request, ready.context, after, action)
            ==> passed(ready, action, after) == Ok::<ParamsView, ResponseView>(
            ParamsView {
                path,
                uri: path,
                body_bytes: body,
                original_model: ready.context.model,
                original_headers: original_headers_of(lowered(headers)),
                using_x_api_key: ready.using_x_api_key,
            },
        ),
        NoOpMiddleware.may_intercept_response(response, context, later, action) ==> returned(
            action,
            later,
        ) == response,
{
    law_what_is_prepared(path, headers, Some(body));
    law_passing_headers_on_again(headers);
}

} // verus!
