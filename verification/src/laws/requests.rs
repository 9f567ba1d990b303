//! What becomes of a request before it reaches a backend, and of the answer after.

use crate::failover::FailoverView;
use crate::forward::ParamsView;
use crate::http::{content_type_of, lowered, original_headers_of, Headers, RequestView, ResponseView};
use crate::json::{json_read, json_text, Json};
use crate::laws::headers::law_the_clients_headers_are_kept;
use crate::middleware::ActionView;
use crate::names::lookup;
use crate::protocol::{models_json, AnthropicProtocol, OpenAiProtocol, Protocol};
use crate::receive::{
    admitted, law_what_is_prepared, listed, passed, prepared, reads_as_list, returned,
    whole_secs_of, AdmissionView, PreparedView,
};
use crate::server::{ServerView, Stuck};
use crate::text::occurs;
use vstd::prelude::*;
use vstd::utf8::encode_utf8;

verus! {

proof fn lemma_method_names()
    ensures
        "GET"@.len() == 3,
        "POST"@.len() == 4,
{
    reveal_strlit("GET");
    reveal_strlit("POST");
}

/// A `POST` is read further. A `GET` of `/v1/models` is answered with the list of models, as
/// JSON, if the clock can be read, and a `GET` of anything else with 404. Any other method is
/// answered with 405.
pub proof fn law_what_is_done_by_method(
    s: ServerView,
    method: Seq<char>,
    path: Seq<char>,
    unix_secs: Option<u64>,
)
    ensures
        ({
            let r = admitted(s, method, path, unix_secs);
            &&& method == "POST"@ ==> r == Ok::<AdmissionView, Stuck>(AdmissionView::ReadBody)
            &&& method == "GET"@ && path == "/v1/models"@ ==> match unix_secs {
                Some(secs) => {
                    &&& r matches Ok(AdmissionView::Respond(response))
                    &&& response.status == 200
                    &&& response.headers == seq![
                        ("content-type"@, encode_utf8("application/json"@)),
                    ]
                    &&& response.body == encode_utf8(json_text(models_json(listed(s, secs))))
                },
                None => r == Err::<AdmissionView, Stuck>(Stuck::ClockBeforeEpoch),
            }
            &&& method == "GET"@ && path != "/v1/models"@ ==> {
                &&& r matches Ok(AdmissionView::Respond(response))
                &&& response.status == 404
                &&& response.headers == seq![("content-type"@, encode_utf8("text/plain"@))]
                &&& response.body == encode_utf8("Models endpoint not found"@)
            }
            &&& method != "GET"@ && method != "POST"@ ==> {
                &&& r matches Ok(AdmissionView::Respond(response))
                &&& response.status == 405
                &&& response.headers == seq![("content-type"@, encode_utf8("text/plain"@))]
                &&& response.body == encode_utf8("Method not allowed"@)
            }
        }),
{
    lemma_method_names();
}

proof fn lemma_field_names()
    ensures
        "id"@.len() == 2,
        "object"@.len() == 6,
        "created"@.len() == 7,
        "owned_by"@.len() == 8,
        "data"@.len() == 4,
{
    reveal_strlit("id");
    reveal_strlit("object");
    reveal_strlit("created");
    reveal_strlit("owned_by");
    reveal_strlit("data");
}

/// The list of models is an object of the kind `list` whose data are the routes in their
/// order, each with its name as `id`, the time that it is given, and who it belongs to; and
/// with no other fields.
pub proof fn law_what_the_list_of_models_holds(s: ServerView, created: u64, body: Seq<u8>, i: int)
    requires
        reads_as_list(body, s, created),
    ensures
        json_read(body) matches Ok(Json::Object(list)) && {
            &&& list.dom() == set!["object"@, "data"@]
            &&& list["object"@] == Json::String("list"@)
            &&& list["data"@] matches Json::Array(models)
            &&& models.len() == s.router.len()
            &&& 0 <= i < models.len() ==> {
                &&& models[i] matches Json::Object(model)
                &&& model.dom() == set!["id"@, "object"@, "created"@, "owned_by"@]
                &&& model["id"@] == Json::String(s.router[i].0)
                &&& model["object"@] == Json::String("model"@)
                &&& model["created"@] == Json::Integer(created as int)
                &&& model["owned_by"@] == Json::String("llm-router"@)
            }
        },
{
    lemma_field_names();
    let list = json_read(body)->Ok_0->Object_0;
    assert(list.dom() =~= set!["object"@, "data"@]);
    if 0 <= i < s.router.len() {
        let model = list["data"@]->Array_0[i]->Object_0;
        assert(model.dom() =~= set!["id"@, "object"@, "created"@, "owned_by"@]);
    }
}

/// A request is one of OpenAI's if its path begins with `/chat/completions` and the type of
/// its body holds `application/json`, and one of Anthropic's if its path begins with
/// `/v1/messages` and the type of its body holds the same. Keys go into `x-api-key` in the
/// latter alone.
pub proof fn law_which_protocol_applies(path: Seq<char>, content_type: Option<Seq<char>>)
    ensures
        OpenAiProtocol.applies(path, content_type) <==> {
            &&& "/chat/completions"@.is_prefix_of(path)
            &&& content_type matches Some(text)
            &&& occurs(text, "application/json"@)
        },
        AnthropicProtocol.applies(path, content_type) <==> {
            &&& "/v1/messages"@.is_prefix_of(path)
            &&& content_type matches Some(text)
            &&& occurs(text, "application/json"@)
        },
        OpenAiProtocol.missing_model() == "Missing 'model' field in OpenAI request"@,
        AnthropicProtocol.missing_model() == "Missing 'model' field in Anthropic request"@,
        !OpenAiProtocol.keys_go_into_x_api_key(),
        AnthropicProtocol.keys_go_into_x_api_key(),
{
}

/// A text that a request is refused with.
pub open spec fn refused_with(
    r: Result<PreparedView, ResponseView>,
    status: u16,
    text: Seq<char>,
) -> bool {
    &&& r matches Err(response)
    &&& response.status == status
    &&& response.headers == seq![("content-type"@, encode_utf8("text/plain"@))]
    &&& response.body == encode_utf8(text)
}

proof fn lemma_paths_differ(path: Seq<char>)
    ensures
        !("/chat/completions"@.is_prefix_of(path) && "/v1/messages"@.is_prefix_of(path)),
{
    reveal_strlit("/chat/completions");
    reveal_strlit("/v1/messages");
    if "/chat/completions"@.is_prefix_of(path) && "/v1/messages"@.is_prefix_of(path) {
        assert(path[1] == "/chat/completions"@[1]);
        assert(path[1] == "/v1/messages"@[1]);
    }
}

/// A `POST` whose body could not be read is refused with 400; one whose path belongs to no
/// protocol, or whose body is not said to be JSON, with 404; and one whose body does not read
/// or names no model, with 400 and what is wrong with it. Any other is sent on: with the
/// model that its body names, the path and body that came in, the headers that are kept of
/// it, and the header for keys that goes with its path.
pub proof fn law_what_becomes_of_a_post(path: Seq<char>, headers: Headers, body: Seq<u8>)
    ensures
        refused_with(prepared(path, headers, None), 400, "Failed to read request body"@),
        ({
            let r = prepared(path, headers, Some(body));
            let kind = content_type_of(lowered(headers));
            let json_said = kind is Some && occurs(kind->0, "application/json"@);
            let openai = "/chat/completions"@.is_prefix_of(path);
            let anthropic = "/v1/messages"@.is_prefix_of(path);
            if !json_said || !(openai || anthropic) {
                refused_with(r, 404, "No matching protocol"@)
            } else {
                match json_read(body) {
                    Err(message) => refused_with(r, 400, "Invalid request: "@ + message),
                    Ok(json) => if json is Object && json->Object_0.dom().contains("model"@)
                        && json->Object_0["model"@] is String {
                        &&& r matches Ok(ready)
                        &&& ready.context.model == json->Object_0["model"@]->String_0
                        &&& ready.context.path == path
                        &&& ready.context.backend is None
                        &&& ready.request.method == "POST"@
                        &&& ready.request.uri == path
                        &&& ready.request.body == body
                        &&& ready.request.headers == original_headers_of(lowered(headers))
                        &&& ready.using_x_api_key == anthropic
                    } else if openai {
                        refused_with(
                            r,
                            400,
                            "Invalid request: "@ + "Missing 'model' field in OpenAI request"@,
                        )
                    } else {
                        refused_with(
                            r,
                            400,
                            "Invalid request: "@ + "Missing 'model' field in Anthropic request"@,
                        )
                    },
                }
            }
        }),
{
    lemma_paths_differ(path);
    law_what_is_prepared(path, headers, Some(body));
}

/// A request that an interceptor lets pass is sent on as the interceptor left it, for the
/// model that the client named; one that it blocks is answered with 403 and the body that it
/// gives.
pub proof fn law_what_an_interceptor_does_to_a_request(
    ready: PreparedView,
    after: RequestView,
    body: Seq<u8>,
    name: Seq<char>,
)
    ensures
        passed(ready, ActionView::Block(body), after) matches Err(response) && {
            &&& response.status == 403
            &&& response.headers.len() == 0
            &&& response.body == body
        },
        passed(ready, ActionView::Continue, after) matches Ok(params) && {
            &&& params.path == ready.context.path
            &&& params.uri == after.uri
            &&& params.body_bytes == after.body
            &&& params.original_model == ready.context.model
            &&& params.using_x_api_key == ready.using_x_api_key
            &&& name != "host"@ && name != "content-type"@ && name != "content-length"@
                ==> lookup(params.original_headers, name) == lookup(
                lowered(after.headers).reverse(),
                name,
            )
            &&& name == "host"@ || name == "content-type"@ || name == "content-length"@
                ==> lookup(params.original_headers, name) is None
        },
{
    law_the_clients_headers_are_kept(after.headers, name);
}

/// An answer that an interceptor lets pass is the answer as the interceptor left it; in the
/// place of one that it blocks, its body is sent with the status 200.
pub proof fn law_what_an_interceptor_does_to_an_answer(after: ResponseView, body: Seq<u8>)
    ensures
        returned(ActionView::Continue, after) == after,
        returned(ActionView::Block(body), after).status == 200,
        returned(ActionView::Block(body), after).headers.len() == 0,
        returned(ActionView::Block(body), after).body == body,
{
}

/// A request is set on its way to the route of its model, an alias standing for its route,
/// with nothing tried and no answer awaited.
pub proof fn law_how_a_request_begins(s: ServerView, params: ParamsView)
    ensures
        ({
            let f = FailoverView::begun(s, params);
            &&& f.tried.len() == 0
            &&& f.current is None
            &&& f.attempt == 0
            &&& f.params.original_model == (match lookup(s.aliases, params.original_model) {
                Some(route) => route,
                None => params.original_model,
            })
            &&& f.params.path == params.path
            &&& f.params.uri == params.uri
            &&& f.params.body_bytes == params.body_bytes
            &&& f.params.original_headers == params.original_headers
            &&& f.params.using_x_api_key == params.using_x_api_key
        }),
{
}

/// The whole seconds are no more than the time, and one more would be.
pub proof fn law_whole_seconds(nanos: u128)
    ensures
        whole_secs_of(None) is None,
        whole_secs_of(Some(nanos)) matches Some(secs) && secs * 1_000_000_000 <= nanos < (secs + 1)
            * 1_000_000_000,
{
}

} // verus!
