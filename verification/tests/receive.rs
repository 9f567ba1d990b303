use llm_router::config::Config;
use llm_router::http::{HttpRequest, HttpResponse};
use llm_router::middleware::{InterceptAction, Middleware, NoOpMiddleware, RequestContext};
use llm_router::names::NameMap;
use llm_router::receive::{answer, give_back, prepare, receive, whole_secs, Admission};
use llm_router::server::{Server, Stuck};

/// Adds to every body, sends it elsewhere with headers of its own, and blocks the model `secret` and the backend `closed`.
struct Guard;

impl Middleware for Guard {
    fn intercept_request(&self, req: &mut HttpRequest, context: &RequestContext) -> InterceptAction {
        assert!(context.backend.is_none());
        if context.model == "secret" {
            return InterceptAction::Block(b"no".to_vec());
        }
        req.body.push(b' ');
        assert_eq!(req.headers, lines(&[("x-api-key", "k")]));
        req.headers = lines(&[
            ("X-API-Key", "of the guard"),
            ("X-Trace", "1"),
            ("Host", "h"),
            ("x-trace", "2"),
        ]);
        req.uri = "/elsewhere".to_string();
        InterceptAction::Continue
    }

    fn intercept_response(&self, resp: &mut HttpResponse, context: &RequestContext) -> InterceptAction {
        if context.backend.as_deref() == Some("closed") {
            return InterceptAction::Block(b"closed".to_vec());
        }
        resp.status = 201;
        resp.body.push(b'!');
        InterceptAction::Continue
    }
}

fn server() -> Server {
    let setup = "[service]\nport = 1\n[router]\nb = [\"x\"]\na = []\nc = \"a\"\n";
    Server::new(Config::from_str(setup, &NameMap::new(), &NameMap::new()).unwrap())
}

fn lines(entries: &[(&str, &str)]) -> Vec<(String, Vec<u8>)> {
    entries.iter().map(|(n, v)| (n.to_string(), v.as_bytes().to_vec())).collect()
}

fn json_lines() -> Vec<(String, Vec<u8>)> {
    lines(&[
        ("Host", "h"),
        ("Content-Type", "application/json"),
        ("X-Api-Key", "k"),
        ("content-length", "9"),
    ])
}

fn said(r: HttpResponse) -> (u16, String) {
    assert_eq!(r.headers, lines(&[("content-type", "text/plain")]));
    (r.status, String::from_utf8(r.body).unwrap())
}

fn respond(r: Result<Admission, Stuck>) -> HttpResponse {
    match r {
        Ok(Admission::Respond(response)) => response,
        _ => panic!("there is no response"),
    }
}

#[test]
fn the_list_of_models() {
    let s = server();
    let response = respond(s.consider_with("GET", "/v1/models", Some(77)));
    assert_eq!(response.status, 200);
    assert_eq!(response.headers, lines(&[("content-type", "application/json")]));
    let json: serde_json::Value = serde_json::from_slice(&response.body).unwrap();
    assert_eq!(json["object"], "list");
    assert_eq!(json["data"].as_array().unwrap().len(), 2);
    assert_eq!(json["data"][0]["id"], "a");
    assert_eq!(json["data"][1]["id"], "b");
    assert_eq!(json["data"][1]["object"], "model");
    assert_eq!(json["data"][1]["created"], 77);
    assert_eq!(json["data"][1]["owned_by"], "llm-router");
    assert!(matches!(s.consider_with("GET", "/v1/models", None), Err(Stuck::ClockBeforeEpoch)));
}

#[test]
fn the_list_of_models_by_the_clock() {
    let s = server();
    let response = s.handle_models_list("/v1/models").unwrap();
    let json: serde_json::Value = serde_json::from_slice(&response.body).unwrap();
    let created = json["data"][0]["created"].as_u64().unwrap();
    let now = std::time::SystemTime::now().duration_since(std::time::UNIX_EPOCH).unwrap().as_secs();
    assert!(created <= now && created + 60 > now);
    assert_eq!(respond(s.consider("GET", "/v1/models")).status, 200);
}

#[test]
fn requests_that_are_answered_by_their_head() {
    let s = server();
    let r = respond(s.consider_with("GET", "/v1/models/", None));
    assert_eq!(said(r), (404, "Models endpoint not found".to_string()));
    for method in ["PUT", "DELETE", "OPTIONS", "get", "post", ""] {
        let r = respond(s.consider_with(method, "/v1/messages", None));
        assert_eq!(said(r), (405, "Method not allowed".to_string()));
    }
    assert!(matches!(s.consider_with("POST", "/anything", None), Ok(Admission::ReadBody)));
    assert!(matches!(s.consider("POST", "/anything"), Ok(Admission::ReadBody)));
}

#[test]
fn requests_that_are_refused() {
    let refused = |path: &str, headers: Vec<(String, Vec<u8>)>, body: Option<&[u8]>| {
        said(prepare(path, headers, body.map(|b| b.to_vec())).err().unwrap())
    };
    assert_eq!(
        refused("/v1/messages", json_lines(), None),
        (400, "Failed to read request body".to_string())
    );
    assert_eq!(
        refused("/v2/messages", json_lines(), Some(b"{}")),
        (404, "No matching protocol".to_string())
    );
    assert_eq!(
        refused("/v1/messages", Vec::new(), Some(b"{}")),
        (404, "No matching protocol".to_string())
    );
    assert_eq!(
        refused("/v1/messages", json_lines(), Some(b"{}")),
        (400, "Invalid request: Missing 'model' field in Anthropic request".to_string())
    );
    assert_eq!(
        refused("/chat/completions", json_lines(), Some(b"{}")),
        (400, "Invalid request: Missing 'model' field in OpenAI request".to_string())
    );
    assert_eq!(
        refused("/chat/completions", json_lines(), Some(b"{")),
        (400, "Invalid request: EOF while parsing an object at line 1 column 1".to_string())
    );
}

#[test]
fn requests_that_are_prepared() {
    let body = b"{\"model\": \"m\"}".to_vec();
    let ready = prepare("/v1/messages//x", json_lines(), Some(body.clone())).ok().unwrap();
    assert_eq!(ready.context.model, "m");
    assert_eq!(ready.context.path, "/v1/messages//x");
    assert_eq!(ready.request.method, "POST");
    assert_eq!(ready.request.uri, "/v1/messages//x");
    assert_eq!(ready.request.body, body);
    assert_eq!(ready.request.headers, lines(&[("x-api-key", "k")]));
    assert!(ready.using_x_api_key);

    let ready = prepare("/chat/completions", json_lines(), Some(body)).ok().unwrap();
    assert!(!ready.using_x_api_key);
}

#[test]
fn past_an_interceptor() {
    let body = b"{\"model\": \"m\"}".to_vec();
    let params = receive("/v1/messages", json_lines(), Some(body.clone()), &NoOpMiddleware).ok().unwrap();
    assert_eq!(params.body_bytes, body);
    assert_eq!(params.path, "/v1/messages");
    assert_eq!(params.uri, "/v1/messages");
    assert_eq!(params.original_model, "m");
    assert_eq!(params.original_headers.len(), 1);
    assert_eq!(params.original_headers.get("x-api-key").unwrap(), &b"k".to_vec());

    let params = receive("/v1/messages", json_lines(), Some(body), &Guard).ok().unwrap();
    assert_eq!(params.body_bytes, b"{\"model\": \"m\"} ".to_vec());
    assert_eq!(params.path, "/v1/messages");
    assert_eq!(params.uri, "/elsewhere");
    assert_eq!(params.original_model, "m");
    assert_eq!(params.original_headers.len(), 2);
    assert_eq!(params.original_headers.get("x-api-key").unwrap(), &b"of the guard".to_vec());
    assert_eq!(params.original_headers.get("x-trace").unwrap(), &b"2".to_vec());

    let body = b"{\"model\": \"secret\"}".to_vec();
    let blocked = receive("/v1/messages", json_lines(), Some(body), &Guard).err().unwrap();
    assert_eq!(blocked.status, 403);
    assert!(blocked.headers.is_empty());
    assert_eq!(blocked.body, b"no".to_vec());

    let refused = receive("/", json_lines(), None, &Guard).err().unwrap();
    assert_eq!(refused.status, 400);
}

#[test]
fn answers_on_their_way_back() {
    let context = RequestContext::new("m", "/p").with_backend("open");
    let r = answer(HttpResponse::text(500, "x"), &context, &Guard);
    assert_eq!(r.status, 201);
    assert_eq!(r.body, b"x!".to_vec());

    let context = RequestContext::new("m", "/p").with_backend("closed");
    let r = answer(HttpResponse::text(500, "x"), &context, &Guard);
    assert_eq!(r.status, 200);
    assert!(r.headers.is_empty());
    assert_eq!(r.body, b"closed".to_vec());

    let r = answer(HttpResponse::text(500, "x"), &context, &NoOpMiddleware);
    assert_eq!(said(r), (500, "x".to_string()));

    let r = give_back(InterceptAction::Continue, HttpResponse::bare(204, Vec::new()));
    assert_eq!(r.status, 204);
}

#[test]
fn seconds_of_the_clock() {
    assert_eq!(whole_secs(Some(1_999_999_999)), Some(1));
    assert_eq!(whole_secs(Some(2_000_000_000)), Some(2));
    assert_eq!(whole_secs(Some(18_446_744_073_709_551_615_999_999_999)), Some(u64::MAX));
    assert_eq!(whole_secs(Some(0)), Some(0));
    assert_eq!(whole_secs(None), None);
}
