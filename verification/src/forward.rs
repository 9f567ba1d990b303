//! The request that is sent on to a backend.

use crate::config::{BackendConfig, BackendView};
use crate::http::{
    law_last_header_is_passed_on, lemma_bytes_view, original_headers_of, passed_on, Headers,
    HttpRequest, RequestView,
};
use crate::json::{
    alike, all_moderate, json_as_object_mut, json_bytes, json_content, json_from_slice, json_insert,
    json_read, json_string, json_to_vec, nests, Json, MAX_DEPTH,
};
use crate::names::{lemma_lookup_exists, lookup, NameMap};
use crate::protocol::named_model;
use crate::text::{join2, same};
use vstd::prelude::*;
use vstd::string::*;
use vstd::utf8::encode_utf8;

verus! {

/// A JSON value with its field `model` set, if it is an object.
pub open spec fn with_model(body: Json, model: Seq<char>) -> Json {
    match body {
        Json::Object(fields) => Json::Object(fields.insert("model"@, Json::String(model))),
        _ => body,
    }
}

/// Sets the field `model` of a JSON object, and leaves another value as it is.
pub fn set_model(body: &mut serde_json::Value, model: &str)
    ensures
        json_content(*final(body)) == with_model(json_content(*old(body)), model@),
{
    if let Some(fields) = json_as_object_mut(body) {
        json_insert(fields, "model".to_owned(), json_string(model.to_owned()));
    }
}

/// The body that is sent on for a body: with its model set, if it reads as JSON, and
/// as it is if it does not.
pub open spec fn rewritten(body: Seq<u8>, read: Result<Json, Seq<char>>, model: Seq<char>) -> Seq<u8> {
    match read {
        Ok(json) => json_bytes(with_model(json, model)),
        Err(_) => body,
    }
}

/// The model that a backend is asked for: its own, or the one that was asked for.
pub open spec fn model_for(backend: BackendView, original_model: Seq<char>) -> Seq<char> {
    match backend.model {
        Some(model) => model,
        None => original_model,
    }
}

proof fn lemma_with_model_keeps_shape(body: Json, model: Seq<char>, n: nat)
    requires
        nests(body, n),
    ensures
        nests(with_model(body, model), n),
        all_moderate(body, n) ==> all_moderate(with_model(body, model), n),
{
    if let Json::Object(fields) = body {
        let set = fields.insert("model"@, Json::String(model));
        let inner = (n - 1) as nat;
        assert forall|k: Seq<char>| #[trigger] set.dom().contains(k) implies nests(set[k], inner)
            && (all_moderate(body, n) ==> all_moderate(set[k], inner)) by {
            if k != "model"@ {
                assert(fields.dom().contains(k));
            }
        }
    }
}

/// The body that is sent on to a backend. Where the body is a JSON object, what is
/// sent reads as the same object with the model set, but for how numbers held as
/// `f64` are rounded; it does read where these are moderate.
pub fn modify_request_body(body: Vec<u8>, backend: &BackendConfig, original_model: &str) -> (r: Vec<
    u8,
>)
    ensures
        r@ == rewritten(
            body@,
            json_read(body@),
            model_for(backend.deep_view(), original_model@),
        ),
        json_read(body@) matches Ok(json) ==> {
            let set = with_model(json, model_for(backend.deep_view(), original_model@));
            &&& json_read(r@) matches Ok(back) ==> alike(back, set, MAX_DEPTH as nat)
            &&& all_moderate(json, MAX_DEPTH as nat) ==> json_read(r@) is Ok
        },
{
    let mut json = match json_from_slice(body.as_slice()) {
        Ok(json) => json,
        Err(_) => {
            return body;
        },
    };
    let model = match &backend.model {
        Some(model) => model.as_str(),
        None => original_model,
    };
    proof {
        lemma_with_model_keeps_shape(json_content(json), model@, MAX_DEPTH as nat);
    }
    set_model(&mut json, model);
    match json_to_vec(&json) {
        Some(bytes) => bytes,
        None => body,
    }
}

/// What reads like an object with its model set names that model, has the fields of
/// the object and no others but `model`, and keeps the values of the others.
pub proof fn law_only_the_model_changes(fields: Map<Seq<char>, Json>, model: Seq<char>, back: Json)
    requires
        alike(back, with_model(Json::Object(fields), model), MAX_DEPTH as nat),
    ensures
        named_model(back) == Some(model),
        back matches Json::Object(kept) && {
            &&& kept.dom() == fields.dom().insert("model"@)
            &&& forall|k: Seq<char>| #[trigger]
                fields.dom().contains(k) && k != "model"@ ==> alike(
                    kept[k],
                    fields[k],
                    (MAX_DEPTH - 1) as nat,
                )
        },
{
    let set = fields.insert("model"@, Json::String(model));
    if let Json::Object(kept) = back {
        assert(set.dom().contains("model"@));
        assert(kept.dom().contains("model"@));
        assert(alike(kept["model"@], set["model"@], (MAX_DEPTH - 1) as nat));
        assert forall|k: Seq<char>| #[trigger]
            fields.dom().contains(k) && k != "model"@ implies alike(
            kept[k],
            fields[k],
            (MAX_DEPTH - 1) as nat,
        ) by {
            assert(set.dom().contains(k));
            assert(kept.dom().contains(k));
        }
    }
}

/// To set the model twice is to set it once, to the later one.
pub proof fn law_setting_the_model_again(body: Json, first: Seq<char>, second: Seq<char>)
    ensures
        with_model(with_model(body, first), second) == with_model(body, second),
{
    if let Json::Object(fields) = body {
        assert(fields.insert("model"@, Json::String(first)).insert("model"@, Json::String(second))
            =~= fields.insert("model"@, Json::String(second)));
    }
}

/// What is sent on besides the choice of the backend.
pub struct ForwardRequestParams {
    /// The path that the client asked for.
    pub path: String,
    /// The path that the backend is asked for.
    pub uri: String,
    pub body_bytes: Vec<u8>,
    pub original_model: String,
    pub original_headers: NameMap<Vec<u8>>,
    pub using_x_api_key: bool,
}

/// What [`ForwardRequestParams`] holds.
pub struct ParamsView {
    pub path: Seq<char>,
    pub uri: Seq<char>,
    pub body_bytes: Seq<u8>,
    pub original_model: Seq<char>,
    pub original_headers: Headers,
    pub using_x_api_key: bool,
}

impl DeepView for ForwardRequestParams {
    type V = ParamsView;

    open spec fn deep_view(&self) -> ParamsView {
        ParamsView {
            path: self.path@,
            uri: self.uri@,
            body_bytes: self.body_bytes@,
            original_model: self.original_model@,
            original_headers: self.original_headers@,
            using_x_api_key: self.using_x_api_key,
        }
    }
}

/// The headers without those of one name.
pub open spec fn without(headers: Headers, name: Seq<char>) -> Headers
    decreases headers.len(),
{
    if headers.len() == 0 {
        Seq::empty()
    } else {
        let rest = without(headers.drop_last(), name);
        if headers.last().0 == name {
            rest
        } else {
            rest.push(headers.last())
        }
    }
}

/// The header that a key goes into: the one that the client put its own key into, and
/// the one that the protocol uses if the client gave none.
pub open spec fn key_header(headers: Headers, using_x_api_key: bool) -> Seq<char> {
    if lookup(headers, "x-api-key"@) is Some {
        "x-api-key"@
    } else if lookup(headers, "authorization"@) is Some {
        "authorization"@
    } else if using_x_api_key {
        "x-api-key"@
    } else {
        "authorization"@
    }
}

/// A key as it stands in a header.
pub open spec fn key_value(header: Seq<char>, key: Seq<char>) -> Seq<u8> {
    if header == "x-api-key"@ {
        encode_utf8(key)
    } else {
        encode_utf8("Bearer "@ + key)
    }
}

/// The headers that are sent on: the type of the body, the backend's key if it has
/// one, in the place of the client's, and the headers of the client.
pub open spec fn forward_headers(
    api_key: Option<Seq<char>>,
    headers: Headers,
    using_x_api_key: bool,
) -> Headers {
    let body_type = seq![("content-type"@, encode_utf8("application/json"@))];
    match api_key {
        Some(key) => {
            let header = key_header(headers, using_x_api_key);
            body_type.push((header, key_value(header, key))) + without(headers, header)
        },
        None => body_type + headers,
    }
}

/// The request that is sent on to a backend.
pub open spec fn forwarded(backend: BackendView, params: ParamsView) -> RequestView {
    RequestView {
        method: "POST"@,
        uri: backend.base_url + params.uri,
        headers: forward_headers(
            backend.api_key,
            params.original_headers,
            params.using_x_api_key,
        ),
        body: rewritten(
            params.body_bytes,
            json_read(params.body_bytes),
            model_for(backend, params.original_model),
        ),
    }
}

fn clone_bytes(bytes: &Vec<u8>) -> (r: Vec<u8>)
    ensures
        r@ == bytes@,
{
    let mut out: Vec<u8> = Vec::new();
    let mut i: usize = 0;
    while i < bytes.len()
        invariant
            0 <= i <= bytes@.len(),
            out@ == bytes@.take(i as int),
        decreases bytes@.len() - i,
    {
        out.push(bytes[i]);
        assert(bytes@.take(i + 1) =~= bytes@.take(i as int).push(bytes@[i as int]));
        i = i + 1;
    }
    assert(bytes@.take(i as int) =~= bytes@);
    out
}

/// Appends the headers whose name is not `skipped`.
pub(crate) fn append_headers(
    out: &mut Vec<(String, Vec<u8>)>,
    headers: &NameMap<Vec<u8>>,
    skipped: Option<&str>,
)
    ensures
        final(out).deep_view() == old(out).deep_view() + (match skipped {
            Some(name) => without(headers@, name@),
            None => headers@,
        }),
{
    let ghost all = headers@;
    let ghost start = out.deep_view();
    let n: usize = headers.len();
    let mut i: usize = 0;
    proof {
        assert(all.take(0) =~= Seq::empty());
    }
    while i < n
        invariant
            n == all.len(),
            all == headers@,
            0 <= i <= n,
            out.deep_view() =~= start + (match skipped {
                Some(name) => without(all.take(i as int), name@),
                None => all.take(i as int),
            }),
        decreases n - i,
    {
        let ghost before = out.deep_view();
        let name = headers.name_at(i);
        let value = headers.value_at(i);
        let skip = match skipped {
            Some(skipped) => same(name, skipped),
            None => false,
        };
        proof {
            lemma_bytes_view(*value);
            assert(all.take(i + 1).drop_last() =~= all.take(i as int));
            assert(all.take(i + 1).last() == all[i as int]);
            assert(all.take(i + 1) =~= all.take(i as int).push(all[i as int]));
        }
        if !skip {
            let value = clone_bytes(value);
            proof {
                lemma_bytes_view(value);
            }
            out.push((name.to_owned(), value));
            assert(out.deep_view() =~= before.push(all[i as int]));
        }
        i = i + 1;
    }
    assert(all.take(i as int) =~= all);
}

fn push_header(out: &mut Vec<(String, Vec<u8>)>, name: &str, value: &str)
    ensures
        final(out).deep_view() == old(out).deep_view().push((name@, encode_utf8(value@))),
{
    let ghost before = out.deep_view();
    let bytes = value.as_bytes_vec();
    proof {
        lemma_bytes_view(bytes);
    }
    out.push((name.to_owned(), bytes));
    assert(out.deep_view() =~= before.push((name@, encode_utf8(value@))));
}

/// The headers that are sent on.
pub fn headers_to_forward(
    api_key: Option<&str>,
    headers: &NameMap<Vec<u8>>,
    using_x_api_key: bool,
) -> (r: Vec<(String, Vec<u8>)>)
    ensures
        r.deep_view() == forward_headers(api_key.deep_view(), headers@, using_x_api_key),
{
    let mut out: Vec<(String, Vec<u8>)> = Vec::new();
    push_header(&mut out, "content-type", "application/json");
    assert(out.deep_view() =~= seq![("content-type"@, encode_utf8("application/json"@))]);
    match api_key {
        Some(key) => {
            let into_x_api_key = if headers.contains_key("x-api-key") {
                true
            } else if headers.contains_key("authorization") {
                false
            } else {
                using_x_api_key
            };
            proof {
                reveal_strlit("x-api-key");
                reveal_strlit("authorization");
                assert("x-api-key"@.len() != "authorization"@.len());
            }
            if into_x_api_key {
                push_header(&mut out, "x-api-key", key);
                append_headers(&mut out, headers, Some("x-api-key"));
            } else {
                push_header(&mut out, "authorization", join2("Bearer ", key).as_str());
                append_headers(&mut out, headers, Some("authorization"));
            }
        },
        None => {
            append_headers(&mut out, headers, None);
        },
    }
    out
}

/// The request that is sent on to a backend.
pub fn forward_request(backend: &BackendConfig, params: &ForwardRequestParams) -> (r: HttpRequest)
    ensures
        r.deep_view() == forwarded(backend.deep_view(), params.deep_view()),
{
    let api_key = match &backend.api_key {
        Some(key) => Some(key.as_str()),
        None => None,
    };
    let headers = headers_to_forward(api_key, &params.original_headers, params.using_x_api_key);
    let body = modify_request_body(
        clone_bytes(&params.body_bytes),
        backend,
        params.original_model.as_str(),
    );
    HttpRequest {
        method: "POST".to_owned(),
        uri: join2(backend.base_url.as_str(), params.uri.as_str()),
        headers,
        body,
    }
}

pub(crate) proof fn lemma_without(headers: Headers, name: Seq<char>, e: (Seq<char>, Seq<u8>))
    ensures
        without(headers, name).contains(e) <==> headers.contains(e) && e.0 != name,
    decreases headers.len(),
{
    if headers.len() > 0 {
        let rest = headers.drop_last();
        let last = headers.last();
        lemma_without(rest, name, e);
        assert(headers =~= rest.push(last));
        assert(headers.contains(e) <==> rest.contains(e) || e == last) by {
            if rest.contains(e) {
                let i = choose|i: int| 0 <= i < rest.len() && rest[i] == e;
                assert(headers[i] == e);
            }
            if e == last {
                assert(headers[headers.len() - 1] == e);
            }
        }
        if last.0 != name {
            let kept = without(rest, name);
            assert(without(headers, name) == kept.push(last));
            if kept.contains(e) {
                let i = choose|i: int| 0 <= i < kept.len() && kept[i] == e;
                assert(kept.push(last)[i] == e);
            }
            if e == last {
                assert(kept.push(last)[kept.len() as int] == e);
            }
        }
    }
}

/// Of what a backend with a key is sent, the header for the key holds the backend's
/// key and nothing that came from the client.
pub proof fn law_the_key_is_the_backends(key: Seq<char>, headers: Headers, using_x_api_key: bool, i: int)
    requires
        0 <= i < forward_headers(Some(key), headers, using_x_api_key).len(),
    ensures
        ({
            let sent = forward_headers(Some(key), headers, using_x_api_key);
            let header = key_header(headers, using_x_api_key);
            &&& sent[1] == (header, key_value(header, key))
            &&& sent[i].0 == header ==> i == 1
        }),
{
    reveal_strlit("content-type");
    reveal_strlit("x-api-key");
    reveal_strlit("authorization");
    let sent = forward_headers(Some(key), headers, using_x_api_key);
    let header = key_header(headers, using_x_api_key);
    assert("content-type"@.len() != header.len());
    if i >= 2 {
        let kept = without(headers, header);
        lemma_without(headers, header, kept[i - 2]);
        assert(kept.contains(kept[i - 2]));
        assert(sent[i] == kept[i - 2]);
    }
}

/// The client's headers are all sent on, but for the one that the backend's key takes
/// the place of; and besides them nothing is sent but the type of the body and the key.
pub proof fn law_other_headers_are_kept(
    api_key: Option<Seq<char>>,
    headers: Headers,
    using_x_api_key: bool,
    e: (Seq<char>, Seq<u8>),
)
    ensures
        ({
            let sent = forward_headers(api_key, headers, using_x_api_key);
            let header = key_header(headers, using_x_api_key);
            &&& headers.contains(e) && (api_key is None || e.0 != header) ==> sent.contains(e)
            &&& sent.contains(e) ==> {
                ||| headers.contains(e)
                ||| e == ("content-type"@, encode_utf8("application/json"@))
                ||| api_key matches Some(key) && e == (header, key_value(header, key))
            }
        }),
{
    let sent = forward_headers(api_key, headers, using_x_api_key);
    let header = key_header(headers, using_x_api_key);
    let kept = if api_key is Some {
        without(headers, header)
    } else {
        headers
    };
    let at = sent.len() - kept.len();
    lemma_without(headers, header, e);
    if kept.contains(e) {
        let i = choose|i: int| 0 <= i < kept.len() && kept[i] == e;
        assert(sent[at + i] == e);
    }
    if sent.contains(e) {
        let i = choose|i: int| 0 <= i < sent.len() && sent[i] == e;
        if i >= at {
            assert(kept[i - at] == e);
        }
    }
}

/// Where the client's headers are those that are passed on, a backend is never sent
/// its `host` or `content-length`, and the type of the body is said once.
pub proof fn law_connection_headers_stay_behind(
    api_key: Option<Seq<char>>,
    lines: Headers,
    using_x_api_key: bool,
    i: int,
)
    requires
        0 <= i < forward_headers(api_key, original_headers_of(lines), using_x_api_key).len(),
    ensures
        ({
            let sent = forward_headers(api_key, original_headers_of(lines), using_x_api_key);
            &&& sent[i].0 != "host"@
            &&& sent[i].0 != "content-length"@
            &&& sent[i].0 == "content-type"@ ==> i == 0
            &&& sent[0] == ("content-type"@, encode_utf8("application/json"@))
        }),
{
    reveal_strlit("host");
    reveal_strlit("content-length");
    reveal_strlit("content-type");
    reveal_strlit("x-api-key");
    reveal_strlit("authorization");
    assert("host"@.len() == 4);
    assert("content-length"@.len() == 14);
    assert("content-type"@.len() == 12);
    assert("x-api-key"@.len() == 9);
    assert("authorization"@.len() == 13);
    let headers = original_headers_of(lines);
    let sent = forward_headers(api_key, headers, using_x_api_key);
    let header = key_header(headers, using_x_api_key);
    let kept = if api_key is Some {
        without(headers, header)
    } else {
        headers
    };
    let at = sent.len() - kept.len();
    if i >= at {
        let e = kept[i - at];
        assert(sent[i] == e);
        assert(kept.contains(e));
        lemma_without(headers, header, e);
        let j = choose|j: int| 0 <= j < headers.len() && headers[j] == e;
        lemma_lookup_exists(headers, e.0);
        law_last_header_is_passed_on(lines, e.0);
        assert(passed_on(e.0));
    }
}

} // verus!
