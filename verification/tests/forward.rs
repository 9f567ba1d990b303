use llm_router::config::BackendConfig;
use llm_router::duration::Duration;
use llm_router::forward::{
    forward_request, headers_to_forward, modify_request_body, set_model, ForwardRequestParams,
};
use llm_router::names::NameMap;

fn backend(api_key: Option<&str>, model: Option<&str>) -> BackendConfig {
    BackendConfig {
        base_url: "http://host:1/api".to_string(),
        api_key: api_key.map(|s| s.to_string()),
        model: model.map(|s| s.to_string()),
        retry: 3,
        cooldown: Duration::from_secs(1),
    }
}

fn headers(entries: &[(&str, &str)]) -> NameMap<Vec<u8>> {
    let mut map = NameMap::new();
    for (name, value) in entries {
        map.insert(name.to_string(), value.as_bytes().to_vec());
    }
    map
}

fn shown(headers: Vec<(String, Vec<u8>)>) -> Vec<(String, String)> {
    headers.into_iter().map(|(n, v)| (n, String::from_utf8(v).unwrap())).collect()
}

fn pairs(entries: &[(&str, &str)]) -> Vec<(String, String)> {
    entries.iter().map(|(n, v)| (n.to_string(), v.to_string())).collect()
}

const JSON: (&str, &str) = ("content-type", "application/json");

#[test]
fn the_model_is_set() {
    let body = b"{\"messages\": [1, {\"a\": null}], \"model\": \"old\", \"temperature\": 0.7}".to_vec();
    let sent = modify_request_body(body.clone(), &backend(None, Some("own")), "asked");
    let json: serde_json::Value = serde_json::from_slice(&sent).unwrap();
    assert_eq!(json["model"], "own");
    assert_eq!(json["temperature"], 0.7);
    assert_eq!(json["messages"][1]["a"], serde_json::Value::Null);
    assert_eq!(json.as_object().unwrap().len(), 3);

    let sent = modify_request_body(body, &backend(None, None), "asked");
    assert_eq!(
        sent,
        b"{\"messages\":[1,{\"a\":null}],\"model\":\"asked\",\"temperature\":0.7}".to_vec()
    );
    let again = modify_request_body(sent.clone(), &backend(None, None), "asked");
    assert_eq!(again, sent);
}

#[test]
fn a_body_without_model_gets_one() {
    let sent = modify_request_body(b"{}".to_vec(), &backend(None, None), "m");
    assert_eq!(sent, b"{\"model\":\"m\"}".to_vec());
}

#[test]
fn bodies_that_are_no_object() {
    let sent = modify_request_body(b"not json".to_vec(), &backend(None, Some("own")), "m");
    assert_eq!(sent, b"not json".to_vec());
    let sent = modify_request_body(b" [1, 2] ".to_vec(), &backend(None, Some("own")), "m");
    assert_eq!(sent, b"[1,2]".to_vec());
}

#[test]
fn numbers_are_kept() {
    let body = b"{\"a\":-9223372036854775808,\"b\":18446744073709551615,\"c\":1e300,\"d\":-0.0}".to_vec();
    let sent = modify_request_body(body, &backend(None, None), "m");
    assert_eq!(
        sent,
        b"{\"a\":-9223372036854775808,\"b\":18446744073709551615,\"c\":1e+300,\"d\":-0.0,\"model\":\"m\"}"
            .to_vec()
    );
}

#[test]
fn deep_bodies_are_read_up_to_a_depth() {
    let deep = |n: usize| format!("{}{}", "[".repeat(n), "]".repeat(n)).into_bytes();
    let spaced = |n: usize| format!("{} {}", "[".repeat(n), "]".repeat(n)).into_bytes();
    assert_eq!(modify_request_body(spaced(127), &backend(None, None), "m"), deep(127));
    assert_eq!(modify_request_body(spaced(128), &backend(None, None), "m"), spaced(128));
}

#[test]
fn set_model_on_a_value() {
    let mut value: serde_json::Value = serde_json::from_str("{\"model\": 1, \"x\": 2}").unwrap();
    set_model(&mut value, "m");
    assert_eq!(value["model"], "m");
    assert_eq!(value["x"], 2);
    let mut value = serde_json::Value::from("text");
    set_model(&mut value, "m");
    assert_eq!(value, "text");
}

#[test]
fn without_a_key_the_headers_are_the_clients() {
    let h = headers(&[("authorization", "Bearer c"), ("x-api-key", "d"), ("a", "1")]);
    assert_eq!(
        shown(headers_to_forward(None, &h, true)),
        pairs(&[JSON, ("authorization", "Bearer c"), ("x-api-key", "d"), ("a", "1")])
    );
}

#[test]
fn the_key_goes_where_the_client_put_its_own() {
    let h = headers(&[("a", "1"), ("x-api-key", "client")]);
    assert_eq!(
        shown(headers_to_forward(Some("own"), &h, false)),
        pairs(&[JSON, ("x-api-key", "own"), ("a", "1")])
    );
    let h = headers(&[("authorization", "Bearer client"), ("a", "1")]);
    assert_eq!(
        shown(headers_to_forward(Some("own"), &h, true)),
        pairs(&[JSON, ("authorization", "Bearer own"), ("a", "1")])
    );
    let h = headers(&[("authorization", "Bearer client"), ("x-api-key", "client")]);
    assert_eq!(
        shown(headers_to_forward(Some("own"), &h, false)),
        pairs(&[JSON, ("x-api-key", "own"), ("authorization", "Bearer client")])
    );
}

#[test]
fn the_key_goes_where_the_protocol_has_it() {
    let h = headers(&[("a", "1")]);
    assert_eq!(
        shown(headers_to_forward(Some("own"), &h, true)),
        pairs(&[JSON, ("x-api-key", "own"), ("a", "1")])
    );
    assert_eq!(
        shown(headers_to_forward(Some("own"), &h, false)),
        pairs(&[JSON, ("authorization", "Bearer own"), ("a", "1")])
    );
}

#[test]
fn the_request_that_is_sent_on() {
    let params = ForwardRequestParams {
        path: "/client".to_string(),
        uri: "/v1/messages".to_string(),
        body_bytes: b"{\"model\":\"alias\"}".to_vec(),
        original_model: "route".to_string(),
        original_headers: headers(&[("user-agent", "x")]),
        using_x_api_key: true,
    };
    let sent = forward_request(&backend(Some("k"), None), &params);
    assert_eq!(sent.method, "POST");
    assert_eq!(sent.uri, "http://host:1/api/v1/messages");
    assert_eq!(sent.body, b"{\"model\":\"route\"}".to_vec());
    assert_eq!(shown(sent.headers), pairs(&[JSON, ("x-api-key", "k"), ("user-agent", "x")]));
}
