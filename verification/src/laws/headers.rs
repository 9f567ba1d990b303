//! Which headers a backend is sent, and the rest of what it is sent.

use crate::config::BackendView;
use crate::forward::{forward_headers, forwarded, lemma_without, without, ParamsView};
use crate::http::{
    bare_response, content_type_of, header_text, law_last_header_is_passed_on,
    lemma_original_headers, lowered, original_headers_of, text_response, typed_response, visible,
    Headers,
};
use crate::json::{json_bytes, json_read, Json};
use crate::names::{distinct, first_at, lemma_first_at, lemma_lookup_exists, lookup};
use crate::text::ascii_lowered;
use vstd::prelude::*;
use vstd::utf8::encode_utf8;

verus! {

proof fn lemma_names_of_headers()
    ensures
        "host"@.len() == 4,
        "x-api-key"@.len() == 9,
        "content-type"@.len() == 12,
        "authorization"@.len() == 13,
        "content-length"@.len() == 14,
{
    reveal_strlit("host");
    reveal_strlit("x-api-key");
    reveal_strlit("content-type");
    reveal_strlit("authorization");
    reveal_strlit("content-length");
}

/// Where `sent` holds `first`, a header and then the headers but those of its name, it holds
/// that header once, and of the others those that were there.
proof fn lemma_replaced(
    sent: Headers,
    first: (Seq<char>, Seq<u8>),
    header: Seq<char>,
    value: Seq<u8>,
    headers: Headers,
    i: int,
)
    requires
        sent == seq![first].push((header, value)) + without(headers, header),
        first.0 != header,
        0 <= i < sent.len(),
    ensures
        sent.len() >= 2,
        sent[0] == first,
        sent[1] == (header, value),
        sent[i].0 == header ==> i == 1,
        i >= 2 ==> headers.contains(sent[i]),
{
    if i >= 2 {
        let kept = without(headers, header);
        lemma_without(headers, header, kept[i - 2]);
        assert(kept.contains(kept[i - 2]));
        assert(sent[i] == kept[i - 2]);
    }
}

proof fn lemma_not_named(headers: Headers, e: (Seq<char>, Seq<u8>), name: Seq<char>)
    requires
        lookup(headers, name) is None,
        headers.contains(e),
    ensures
        e.0 != name,
{
    lemma_lookup_exists(headers, name);
    let i = choose|i: int| 0 <= i < headers.len() && headers[i] == e;
    assert(headers[i].0 == e.0);
}

/// Where the client gave its key in `x-api-key`, the backend is sent its own key there, once,
/// and not the client's.
pub proof fn law_a_key_in_x_api_key_is_replaced(
    key: Seq<char>,
    headers: Headers,
    using_x_api_key: bool,
    i: int,
)
    requires
        lookup(headers, "x-api-key"@) is Some,
        0 <= i < forward_headers(Some(key), headers, using_x_api_key).len(),
    ensures
        ({
            let sent = forward_headers(Some(key), headers, using_x_api_key);
            &&& sent.len() >= 2
            &&& sent[1] == ("x-api-key"@, encode_utf8(key))
            &&& sent[i].0 == "x-api-key"@ ==> i == 1
        }),
{
    lemma_names_of_headers();
    let sent = forward_headers(Some(key), headers, using_x_api_key);
    lemma_replaced(
        sent,
        ("content-type"@, encode_utf8("application/json"@)),
        "x-api-key"@,
        encode_utf8(key),
        headers,
        i,
    );
}

/// Where the client gave its key in `authorization` and not in `x-api-key`, the backend is
/// sent its own key as a bearer token, once, and no `x-api-key`, whatever the protocol.
pub proof fn law_a_bearer_token_is_replaced(
    key: Seq<char>,
    headers: Headers,
    using_x_api_key: bool,
    i: int,
)
    requires
        lookup(headers, "x-api-key"@) is None,
        lookup(headers, "authorization"@) is Some,
        0 <= i < forward_headers(Some(key), headers, using_x_api_key).len(),
    ensures
        ({
            let sent = forward_headers(Some(key), headers, using_x_api_key);
            &&& sent.len() >= 2
            &&& sent[1] == ("authorization"@, encode_utf8("Bearer "@ + key))
            &&& sent[i].0 == "authorization"@ ==> i == 1
            &&& sent[i].0 != "x-api-key"@
        }),
{
    lemma_names_of_headers();
    let sent = forward_headers(Some(key), headers, using_x_api_key);
    lemma_replaced(
        sent,
        ("content-type"@, encode_utf8("application/json"@)),
        "authorization"@,
        encode_utf8("Bearer "@ + key),
        headers,
        i,
    );
    if i >= 2 {
        lemma_not_named(headers, sent[i], "x-api-key"@);
    }
}

/// Where the client gave no key, the backend is sent its own where the protocol has it: in
/// `x-api-key`, or as a bearer token; once, and not in the other place.
pub proof fn law_a_key_is_added(
    key: Seq<char>,
    headers: Headers,
    using_x_api_key: bool,
    i: int,
)
    requires
        lookup(headers, "x-api-key"@) is None,
        lookup(headers, "authorization"@) is None,
        0 <= i < forward_headers(Some(key), headers, using_x_api_key).len(),
    ensures
        ({
            let sent = forward_headers(Some(key), headers, using_x_api_key);
            &&& sent.len() >= 2
            &&& using_x_api_key ==> {
                &&& sent[1] == ("x-api-key"@, encode_utf8(key))
                &&& sent[i].0 == "x-api-key"@ ==> i == 1
                &&& sent[i].0 != "authorization"@
            }
            &&& !using_x_api_key ==> {
                &&& sent[1] == ("authorization"@, encode_utf8("Bearer "@ + key))
                &&& sent[i].0 == "authorization"@ ==> i == 1
                &&& sent[i].0 != "x-api-key"@
            }
        }),
{
    lemma_names_of_headers();
    let sent = forward_headers(Some(key), headers, using_x_api_key);
    lemma_replaced(
        sent,
        ("content-type"@, encode_utf8("application/json"@)),
        if using_x_api_key {
            "x-api-key"@
        } else {
            "authorization"@
        },
        if using_x_api_key {
            encode_utf8(key)
        } else {
            encode_utf8("Bearer "@ + key)
        },
        headers,
        i,
    );
    if i >= 2 {
        lemma_not_named(headers, sent[i], "x-api-key"@);
        lemma_not_named(headers, sent[i], "authorization"@);
    }
}

/// The body that is sent is said to be JSON, first of all. A backend without a key is sent
/// the client's headers after that as they are, the client's key included. A backend with a
/// key is sent all of the client's headers that do not carry a key, and beside an `x-api-key`
/// the client's `authorization` too.
pub proof fn law_headers_without_a_key_in_them_are_sent(
    api_key: Option<Seq<char>>,
    headers: Headers,
    using_x_api_key: bool,
    e: (Seq<char>, Seq<u8>),
)
    ensures
        ({
            let sent = forward_headers(api_key, headers, using_x_api_key);
            &&& sent.len() > 0
            &&& sent[0] == ("content-type"@, encode_utf8("application/json"@))
            &&& api_key is None ==> sent.drop_first() == headers
            &&& headers.contains(e) && e.0 != "x-api-key"@ && e.0 != "authorization"@
                ==> sent.contains(e)
            &&& headers.contains(e) && e.0 == "authorization"@ && lookup(
                headers,
                "x-api-key"@,
            ) is Some ==> sent.contains(e)
        }),
{
    lemma_names_of_headers();
    let sent = forward_headers(api_key, headers, using_x_api_key);
    if api_key is None {
        assert(sent.drop_first() =~= headers);
        if headers.contains(e) {
            let i = choose|i: int| 0 <= i < headers.len() && headers[i] == e;
            assert(sent[i + 1] == e);
        }
    } else {
        let header = sent[1].0;
        let kept = without(headers, header);
        lemma_without(headers, header, e);
        if kept.contains(e) {
            let i = choose|i: int| 0 <= i < kept.len() && kept[i] == e;
            assert(sent[i + 2] == e);
        }
    }
}

/// A backend is sent a `POST` to its address with the path that is asked of it behind. Where
/// the body is a JSON object, its field `model` is the backend's model, or the one that the
/// client asked for where the backend has none, and all the other fields are as they were.
/// Another JSON value is written anew, and what does not read as JSON is sent as it is.
pub proof fn law_what_a_backend_is_sent(backend: BackendView, params: ParamsView)
    ensures
        ({
            let request = forwarded(backend, params);
            let model = match backend.model {
                Some(model) => model,
                None => params.original_model,
            };
            &&& request.method == "POST"@
            &&& request.uri == backend.base_url + params.uri
            &&& request.headers == forward_headers(
                backend.api_key,
                params.original_headers,
                params.using_x_api_key,
            )
            &&& match json_read(params.body_bytes) {
                Ok(Json::Object(fields)) => request.body == json_bytes(
                    Json::Object(fields.insert("model"@, Json::String(model))),
                ),
                Ok(json) => request.body == json_bytes(json),
                Err(_) => request.body == params.body_bytes,
            }
        }),
{
}

/// Of the client's headers, each whose name in lower case is none of `host`, `content-type`
/// and `content-length` is kept for the backend, with the last value that the client gave
/// it. Those three are not kept, and nothing that the client did not send.
pub proof fn law_the_clients_headers_are_kept(headers: Headers, name: Seq<char>)
    ensures
        name != "host"@ && name != "content-type"@ && name != "content-length"@ ==> lookup(
            original_headers_of(lowered(headers)),
            name,
        ) == lookup(lowered(headers).reverse(), name),
        name == "host"@ || name == "content-type"@ || name == "content-length"@ ==> lookup(
            original_headers_of(lowered(headers)),
            name,
        ) is None,
        distinct(original_headers_of(lowered(headers))),
{
    law_last_header_is_passed_on(lowered(headers), name);
    lemma_original_headers(lowered(headers));
}

/// The line at `i`, if none after it has its name in whatever case of letters, is kept for
/// the backend under that name in lower case.
pub proof fn law_the_last_line_of_a_name_is_kept(headers: Headers, i: int)
    requires
        0 <= i < headers.len(),
        forall|j: int|
            i < j < headers.len() ==> ascii_lowered((#[trigger] headers[j]).0) != ascii_lowered(
                headers[i].0,
            ),
        ascii_lowered(headers[i].0) != "host"@,
        ascii_lowered(headers[i].0) != "content-type"@,
        ascii_lowered(headers[i].0) != "content-length"@,
    ensures
        lookup(original_headers_of(lowered(headers)), ascii_lowered(headers[i].0)) == Some(
            headers[i].1,
        ),
{
    let name = ascii_lowered(headers[i].0);
    let back = lowered(headers).reverse();
    let at = headers.len() - 1 - i;
    law_the_clients_headers_are_kept(headers, name);
    assert forall|j: int| 0 <= j < at implies back[j].0 != name by {
        let k = headers.len() - 1 - j;
        assert(back[j].0 == ascii_lowered(headers[k].0));
    }
    lemma_first_at(back, name, at, headers[i].1);
}

/// What the client says in a header that carries no key and does not belong to its
/// connection or its body reaches the backend, and `host` and `content-length` do not.
pub proof fn law_from_the_client_to_the_backend(
    backend: BackendView,
    params: ParamsView,
    headers: Headers,
    name: Seq<char>,
    value: Seq<u8>,
)
    requires
        params.original_headers == original_headers_of(lowered(headers)),
    ensures
        name != "host"@ && name != "content-type"@ && name != "content-length"@ && name
            != "authorization"@ && name != "x-api-key"@ ==> (lookup(
            lowered(headers).reverse(),
            name,
        ) == Some(value) <==> forwarded(backend, params).headers.contains((name, value))),
        name == "host"@ || name == "content-length"@ ==> !forwarded(
            backend,
            params,
        ).headers.contains((name, value)),
{
    let kept = original_headers_of(lowered(headers));
    let sent = forwarded(backend, params).headers;
    let e = (name, value);
    lemma_names_of_headers();
    law_the_clients_headers_are_kept(headers, name);
    law_headers_without_a_key_in_them_are_sent(
        backend.api_key,
        kept,
        params.using_x_api_key,
        e,
    );
    lemma_lookup_exists(kept, name);
    if lookup(kept, name) == Some(value) {
        let i = choose|i: int|
            first_at(kept, name, i) && #[trigger] kept[i] == (name, value);
        assert(kept.contains(e));
    }
    if sent.contains(e) && name != "content-type"@ && name != "authorization"@ && name
        != "x-api-key"@ {
        let i = choose|i: int| 0 <= i < sent.len() && sent[i] == e;
        if let Some(key) = backend.api_key {
            let header = sent[1].0;
            let rest = without(kept, header);
            assert(i >= 2);
            assert(rest[i - 2] == e);
            assert(rest.contains(e));
            lemma_without(kept, header, e);
        } else {
            assert(kept[i - 1] == e);
        }
        let j = choose|j: int| 0 <= j < kept.len() && kept[j] == e;
        assert(first_at(kept, name, j));
        lemma_first_at(kept, name, j, value);
    }
}

/// In lower case, the letters from `A` to `Z` are those that stand 32 further on, and every
/// other character is as it was.
pub proof fn law_lower_case(s: Seq<char>, i: int)
    requires
        0 <= i < s.len(),
    ensures
        ascii_lowered(s).len() == s.len(),
        65 <= s[i] as u32 <= 90 ==> ascii_lowered(s)[i] as u32 == s[i] as u32 + 32,
        !(65 <= s[i] as u32 <= 90) ==> ascii_lowered(s)[i] == s[i],
{
}

/// A header value is a text where all its bytes are from 32 to 126 or 9, and then each byte
/// is a character of it.
pub proof fn law_when_a_header_value_is_a_text(value: Seq<u8>, i: int)
    requires
        0 <= i < value.len(),
    ensures
        header_text(value) matches Some(text) ==> {
            &&& text.len() == value.len()
            &&& text[i] as u32 == value[i] as u32
            &&& 32 <= value[i] <= 126 || value[i] == 9
        },
        (forall|j: int|
            0 <= j < value.len() ==> 32 <= (#[trigger] value[j]) <= 126 || value[j] == 9)
            ==> header_text(value) is Some,
{
    if header_text(value) is Some {
        assert(visible(value[i]));
    }
}

/// The type of the body is what the first line says whose name is `content-type`, if that is
/// a text.
pub proof fn law_the_type_of_the_body(headers: Headers, i: int)
    requires
        0 <= i < headers.len(),
        headers[i].0 == "content-type"@,
        forall|j: int| 0 <= j < i ==> (#[trigger] headers[j]).0 != "content-type"@,
    ensures
        content_type_of(headers) == header_text(headers[i].1),
{
    lemma_first_at(headers, "content-type"@, i, headers[i].1);
}

/// Without a line whose name is `content-type`, nothing is said of the type of the body.
pub proof fn law_no_type_of_the_body(headers: Headers)
    requires
        forall|j: int| 0 <= j < headers.len() ==> (#[trigger] headers[j]).0 != "content-type"@,
    ensures
        content_type_of(headers) is None,
{
    lemma_lookup_exists(headers, "content-type"@);
}

/// What the three kinds of responses hold.
pub proof fn law_what_responses_hold(
    status: u16,
    kind: Seq<char>,
    text: Seq<char>,
    body: Seq<u8>,
)
    ensures
        typed_response(status, kind, text).status == status,
        typed_response(status, kind, text).headers == seq![("content-type"@, encode_utf8(kind))],
        typed_response(status, kind, text).body == encode_utf8(text),
        text_response(status, text).status == status,
        text_response(status, text).headers == seq![
            ("content-type"@, encode_utf8("text/plain"@)),
        ],
        text_response(status, text).body == encode_utf8(text),
        bare_response(status, body).status == status,
        bare_response(status, body).headers.len() == 0,
        bare_response(status, body).body == body,
{
}

} // verus!
