//! HTTP requests and responses as plain values, and what their headers say.

use crate::names::{
    distinct, lemma_absent, lemma_lookup_exists, lemma_upsert_distinct, lemma_upsert_lookup, lookup,
    upsert, NameMap,
};
use crate::text::{ascii_lowercase, ascii_lowered, lemma_ascii_lowered_twice, same};
use vstd::prelude::*;
use vstd::string::*;
use vstd::utf8::{
    encode_utf8, encode_utf8_decode_utf8, encode_utf8_valid_utf8, is_ascii_chars,
    is_ascii_chars_encode_utf8, valid_utf8,
};

verus! {

/// The deep view of bytes is their view.
pub(crate) proof fn lemma_bytes_view(bytes: Vec<u8>)
    ensures
        bytes.deep_view() == bytes@,
{
    assert(bytes.deep_view() =~= bytes@);
}

/// Header lines: names and values.
pub type Headers = Seq<(Seq<char>, Seq<u8>)>;

/// A request whose body is all there.
#[derive(Debug)]
pub struct HttpRequest {
    pub method: String,
    pub uri: String,
    pub headers: Vec<(String, Vec<u8>)>,
    pub body: Vec<u8>,
}

/// What [`HttpRequest`] holds.
pub struct RequestView {
    pub method: Seq<char>,
    pub uri: Seq<char>,
    pub headers: Headers,
    pub body: Seq<u8>,
}

impl DeepView for HttpRequest {
    type V = RequestView;

    open spec fn deep_view(&self) -> RequestView {
        RequestView {
            method: self.method@,
            uri: self.uri@,
            headers: self.headers.deep_view(),
            body: self.body@,
        }
    }
}

/// A response whose body is all there.
#[derive(Debug)]
pub struct HttpResponse {
    pub status: u16,
    pub headers: Vec<(String, Vec<u8>)>,
    pub body: Vec<u8>,
}

/// What [`HttpResponse`] holds.
pub struct ResponseView {
    pub status: u16,
    pub headers: Headers,
    pub body: Seq<u8>,
}

impl DeepView for HttpResponse {
    type V = ResponseView;

    open spec fn deep_view(&self) -> ResponseView {
        ResponseView {
            status: self.status,
            headers: self.headers.deep_view(),
            body: self.body@,
        }
    }
}

impl ResponseView {
    /// The status says that the server failed.
    pub open spec fn is_server_error(self) -> bool {
        500 <= self.status < 600
    }
}

impl HttpResponse {
    /// Whether the status says that the server failed.
    pub fn is_server_error(&self) -> (r: bool)
        ensures
            r == self.deep_view().is_server_error(),
    {
        500 <= self.status && self.status < 600
    }
}

/// A response with a body of this type.
pub open spec fn typed_response(status: u16, content_type: Seq<char>, body: Seq<char>) -> ResponseView {
    ResponseView {
        status,
        headers: seq![("content-type"@, encode_utf8(content_type))],
        body: encode_utf8(body),
    }
}

/// A response that says something in words.
pub open spec fn text_response(status: u16, text: Seq<char>) -> ResponseView {
    typed_response(status, "text/plain"@, text)
}

/// A response with a body and nothing else.
pub open spec fn bare_response(status: u16, body: Seq<u8>) -> ResponseView {
    ResponseView { status, headers: Seq::empty(), body }
}

impl HttpResponse {
    /// A response with a body of this type.
    pub fn typed(status: u16, content_type: &str, body: &str) -> (r: Self)
        ensures
            r.deep_view() == typed_response(status, content_type@, body@),
    {
        let value = content_type.as_bytes_vec();
        proof {
            lemma_bytes_view(value);
        }
        let mut headers: Vec<(String, Vec<u8>)> = Vec::new();
        headers.push(("content-type".to_owned(), value));
        let r = HttpResponse { status, headers, body: body.as_bytes_vec() };
        assert(r.headers.deep_view() =~= seq![("content-type"@, encode_utf8(content_type@))]);
        r
    }

    /// A response that says something in words.
    pub fn text(status: u16, text: &str) -> (r: Self)
        ensures
            r.deep_view() == text_response(status, text@),
    {
        Self::typed(status, "text/plain", text)
    }

    /// A response with a body and nothing else.
    pub fn bare(status: u16, body: Vec<u8>) -> (r: Self)
        ensures
            r.deep_view() == bare_response(status, body@),
    {
        let r = HttpResponse { status, headers: Vec::new(), body };
        assert(r.headers.deep_view() =~= Seq::<(Seq<char>, Seq<u8>)>::empty());
        r
    }
}

/// A byte that shows as a character, or a tab.
pub open spec fn visible(b: u8) -> bool {
    32 <= b < 127 || b == 9
}

/// The text of a header value, if all its bytes are [`visible`].
pub open spec fn header_text(value: Seq<u8>) -> Option<Seq<char>> {
    if forall|i: int| 0 <= i < value.len() ==> visible(#[trigger] value[i]) {
        Some(Seq::new(value.len(), |i: int| value[i] as char))
    } else {
        None
    }
}

/// `std::str::from_utf8`: the text that the bytes encode, if they encode one.
#[verifier::external_body]
fn str_from_utf8(bytes: &[u8]) -> (r: Option<&str>)
    ensures
        match r {
            Some(s) => encode_utf8(s@) == bytes@,
            None => !valid_utf8(bytes@),
        },
{
    std::str::from_utf8(bytes).ok()
}

proof fn lemma_visible_is_utf8(value: Seq<u8>, text: Seq<char>)
    requires
        header_text(value) == Some(text),
    ensures
        encode_utf8(text) == value,
        valid_utf8(value),
{
    assert(is_ascii_chars(text));
    is_ascii_chars_encode_utf8(text);
    assert forall|i: int| 0 <= i < value.len() implies encode_utf8(text)[i] == value[i] by {
        assert(visible(value[i]));
        assert(text[i] as u8 == value[i]);
    }
    assert(encode_utf8(text) =~= value);
    encode_utf8_valid_utf8(text);
}

/// The text of a header value.
pub fn header_str(value: &[u8]) -> (r: Option<&str>)
    ensures
        r.deep_view() == header_text(value@),
{
    let mut i: usize = 0;
    while i < value.len()
        invariant
            0 <= i <= value@.len(),
            forall|j: int| 0 <= j < i ==> visible(#[trigger] value@[j]),
        decreases value@.len() - i,
    {
        let b: u8 = value[i];
        if !((32 <= b && b < 127) || b == 9) {
            assert(!visible(value@[i as int]));
            return None;
        }
        i = i + 1;
    }
    let ghost text = header_text(value@)->0;
    proof {
        lemma_visible_is_utf8(value@, text);
    }
    let r = str_from_utf8(value);
    proof {
        encode_utf8_decode_utf8(text);
        encode_utf8_decode_utf8(r->0@);
    }
    r
}

/// The header lines with their names, which are ASCII, in lower case.
pub open spec fn lowered(headers: Headers) -> Headers {
    Seq::new(headers.len(), |i: int| (ascii_lowered(headers[i].0), headers[i].1))
}

/// The header lines with their names in lower case.
pub fn lower_names(headers: Vec<(String, Vec<u8>)>) -> (r: Vec<(String, Vec<u8>)>)
    ensures
        r.deep_view() == lowered(headers.deep_view()),
{
    let ghost all = headers.deep_view();
    let mut rest = headers;
    let mut out: Vec<(String, Vec<u8>)> = Vec::new();
    while rest.len() > 0
        invariant
            rest.deep_view().len() <= all.len(),
            rest.deep_view() == all.skip(all.len() - rest@.len()),
            out.deep_view() == lowered(all).take(all.len() - rest@.len()),
        decreases rest@.len(),
    {
        let ghost before = rest.deep_view();
        let ghost done = out.deep_view();
        let (name, value) = rest.remove(0);
        assert(before[0] == (name@, value.deep_view()));
        assert(rest.deep_view() =~= before.drop_first());
        out.push((ascii_lowercase(name.as_str()), value));
        assert(out.deep_view() =~= done.push((ascii_lowered(name@), value.deep_view())));
    }
    assert(out.deep_view() =~= lowered(all));
    out
}

/// What the headers, with names in lower case, say of the type of the body.
pub open spec fn content_type_of(headers: Headers) -> Option<Seq<char>> {
    match lookup(headers, "content-type"@) {
        Some(value) => header_text(value),
        None => None,
    }
}

/// What the headers, with names in lower case, say of the type of the body.
pub fn content_type(headers: &Vec<(String, Vec<u8>)>) -> (r: Option<&str>)
    ensures
        r.deep_view() == content_type_of(headers.deep_view()),
{
    let ghost all = headers.deep_view();
    let mut i: usize = 0;
    proof {
        assert(all.skip(0) =~= all);
    }
    while i < headers.len()
        invariant
            all == headers.deep_view(),
            0 <= i <= headers@.len(),
            lookup(all, "content-type"@) == lookup(all.skip(i as int), "content-type"@),
        decreases headers@.len() - i,
    {
        proof {
            assert(all.skip(i as int)[0] == all[i as int]);
            assert(all.skip(i as int).drop_first() =~= all.skip(i + 1));
            lemma_bytes_view(headers@[i as int].1);
        }
        if same(headers[i].0.as_str(), "content-type") {
            return header_str(headers[i].1.as_slice());
        }
        i = i + 1;
    }
    None
}

/// A header that is passed on: not one that belongs to the connection with the
/// client or to the body as it came in.
pub open spec fn passed_on(name: Seq<char>) -> bool {
    name != "host"@ && name != "content-type"@ && name != "content-length"@
}

/// The headers that are passed on, of headers with names in lower case: by name, with
/// the last value of each.
pub open spec fn original_headers_of(headers: Headers) -> Headers
    decreases headers.len(),
{
    if headers.len() == 0 {
        Seq::empty()
    } else {
        let rest = original_headers_of(headers.drop_last());
        if passed_on(headers.last().0) {
            upsert(rest, headers.last().0, headers.last().1)
        } else {
            rest
        }
    }
}

/// The headers that are passed on, of headers with names in lower case.
pub fn original_headers(headers: Vec<(String, Vec<u8>)>) -> (r: NameMap<Vec<u8>>)
    ensures
        r@ == original_headers_of(headers.deep_view()),
{
    let ghost all = headers.deep_view();
    let mut rest = headers;
    let mut out: NameMap<Vec<u8>> = NameMap::new();
    proof {
        assert(all.take(0) =~= Seq::empty());
        assert(all.skip(0) =~= all);
    }
    while rest.len() > 0
        invariant
            rest@.len() <= all.len(),
            rest.deep_view() == all.skip(all.len() - rest@.len()),
            out@ == original_headers_of(all.take(all.len() - rest@.len())),
        decreases rest@.len(),
    {
        let ghost before = rest.deep_view();
        let ghost at = all.len() - rest@.len();
        let (name, value) = rest.remove(0);
        proof {
            assert(before[0] == (name@, value.deep_view()));
            assert(rest.deep_view() =~= before.drop_first());
            assert(before[0] == all[at]);
            assert(all.take(at + 1).drop_last() =~= all.take(at));
        }
        if !same(name.as_str(), "host") && !same(name.as_str(), "content-type") && !same(
            name.as_str(),
            "content-length",
        ) {
            out.insert(name, value);
        }
    }
    assert(all.take(all.len() as int) =~= all);
    out
}

/// Of the headers of one name, the last is passed on, if headers of that name are
/// passed on at all; nothing is passed on that was not there.
pub proof fn law_last_header_is_passed_on(headers: Headers, name: Seq<char>)
    ensures
        !passed_on(name) ==> lookup(original_headers_of(headers), name) is None,
        passed_on(name) ==> lookup(original_headers_of(headers), name) == lookup(
            headers.reverse(),
            name,
        ),
    decreases headers.len(),
{
    if headers.len() > 0 {
        let rest = headers.drop_last();
        law_last_header_is_passed_on(rest, name);
        assert(headers.reverse()[0] == headers.last());
        assert(headers.reverse().drop_first() =~= rest.reverse());
        if passed_on(headers.last().0) {
            lemma_upsert_lookup(
                original_headers_of(rest),
                headers.last().0,
                headers.last().1,
                name,
            );
        }
    } else {
        assert(headers.reverse() =~= headers);
    }
}

pub(crate) proof fn lemma_original_headers(headers: Headers)
    ensures
        distinct(original_headers_of(headers)),
        forall|i: int|
            0 <= i < original_headers_of(headers).len() ==> passed_on(
                (#[trigger] original_headers_of(headers)[i]).0,
            ) && named_among(headers, original_headers_of(headers)[i].0),
    decreases headers.len(),
{
    if headers.len() > 0 {
        let rest = headers.drop_last();
        let last = headers.last();
        let kept = original_headers_of(rest);
        let all = original_headers_of(headers);
        lemma_original_headers(rest);
        if passed_on(last.0) {
            lemma_upsert_distinct(kept, last.0, last.1);
        }
        assert forall|i: int| 0 <= i < all.len() implies passed_on((#[trigger] all[i]).0)
            && named_among(headers, all[i].0) by {
            let name = all[i].0;
            lemma_lookup_exists(all, name);
            assert(lookup(all, name) is Some);
            if passed_on(last.0) {
                lemma_upsert_lookup(kept, last.0, last.1, name);
            }
            if passed_on(last.0) && name == last.0 {
                assert(headers[headers.len() - 1].0 == name);
            } else {
                lemma_lookup_exists(kept, name);
                let j = choose|j: int| 0 <= j < kept.len() && (#[trigger] kept[j]).0 == name;
                assert(named_among(rest, kept[j].0));
                let k = choose|k: int| 0 <= k < rest.len() && (#[trigger] rest[k]).0 == name;
                assert(headers[k].0 == name);
            }
        }
    }
}

/// Some header line has this name.
pub open spec fn named_among(headers: Headers, name: Seq<char>) -> bool {
    exists|k: int| 0 <= k < headers.len() && (#[trigger] headers[k]).0 == name
}

proof fn lemma_nothing_to_drop(headers: Headers)
    requires
        distinct(headers),
        forall|i: int| 0 <= i < headers.len() ==> passed_on((#[trigger] headers[i]).0),
    ensures
        original_headers_of(headers) == headers,
    decreases headers.len(),
{
    if headers.len() > 0 {
        let rest = headers.drop_last();
        let last = headers.last();
        assert forall|i: int| 0 <= i < rest.len() implies passed_on((#[trigger] rest[i]).0) by {
            assert(rest[i] == headers[i]);
        }
        lemma_nothing_to_drop(rest);
        assert(passed_on(headers[headers.len() - 1].0));
        assert forall|j: int| 0 <= j < rest.len() implies (#[trigger] rest[j]).0 != last.0 by {
            assert(rest[j] == headers[j]);
        }
        lemma_absent(rest, last.0, last.1);
        assert(rest.push(last) =~= headers);
    }
}

/// Headers that were passed on once are passed on again as they are.
pub proof fn law_passing_headers_on_again(lines: Headers)
    ensures
        original_headers_of(lowered(original_headers_of(lowered(lines)))) == original_headers_of(
            lowered(lines),
        ),
{
    let once = original_headers_of(lowered(lines));
    lemma_original_headers(lowered(lines));
    assert forall|i: int| 0 <= i < once.len() implies ascii_lowered((#[trigger] once[i]).0)
        == once[i].0 by {
        assert(named_among(lowered(lines), once[i].0));
        let k = choose|k: int|
            0 <= k < lowered(lines).len() && (#[trigger] lowered(lines)[k]).0 == once[i].0;
        lemma_ascii_lowered_twice(lines[k].0);
    }
    assert(lowered(once) =~= once);
    lemma_nothing_to_drop(once);
}

} // verus!
