use bytes::Bytes;
use llm_router::protocol::{
    model_from_value, parse_model_from_json, AnthropicProtocol, ModelInfo, OpenAiProtocol, Protocol,
};

#[test]
fn anthropic_test_matches_valid_path_and_content_type() {
    let protocol = AnthropicProtocol;
    assert!(protocol.matches("/v1/messages", Some("application/json")));
}

#[test]
fn anthropic_test_matches_wrong_path() {
    let protocol = AnthropicProtocol;
    assert!(!protocol.matches("/chat/completions", Some("application/json")));
    assert!(!protocol.matches("/messages", Some("application/json")));
}

#[test]
fn anthropic_test_matches_missing_content_type() {
    let protocol = AnthropicProtocol;
    assert!(!protocol.matches("/v1/messages", None));
}

#[test]
fn anthropic_test_matches_wrong_content_type() {
    let protocol = AnthropicProtocol;
    assert!(!protocol.matches("/v1/messages", Some("text/plain")));
}

#[test]
fn anthropic_test_parse_valid_request() {
    let protocol = AnthropicProtocol;
    let body = Bytes::from(r#"{"model": "model-3", "messages": []}"#);
    let result = protocol.parse(&body).unwrap();
    assert_eq!(result.model, "model-3");
}

#[test]
fn anthropic_test_parse_missing_model() {
    let protocol = AnthropicProtocol;
    let body = Bytes::from(r#"{"messages": []}"#);
    let result = protocol.parse(&body);
    assert!(result.is_err());
}

#[test]
fn test_matches_path_variations() {
    let protocol = AnthropicProtocol;

    assert!(protocol.matches("/v1/messages", Some("application/json")));
    assert!(protocol.matches("/v1/messages/some-subpath", Some("application/json")));

    assert!(!protocol.matches("/messages", Some("application/json")));
    assert!(!protocol.matches("/api/messages", Some("application/json")));
    assert!(!protocol.matches("/chat/completions", Some("application/json")));
}

#[test]
fn test_matches_content_type_variations() {
    let protocol = AnthropicProtocol;

    assert!(protocol.matches("/v1/messages", Some("application/json")));
    assert!(protocol.matches("/v1/messages", Some("application/json; charset=utf-8")));

    assert!(!protocol.matches("/v1/messages", Some("text/plain")));
    assert!(!protocol.matches("/v1/messages", Some("application/xml")));
    assert!(!protocol.matches("/v1/messages", None));
    assert!(!protocol.matches("/v1/messages", Some("APPLICATION/JSON")));
}

#[test]
fn test_parse_with_extra_fields() {
    let protocol = AnthropicProtocol;
    let body = Bytes::from(r#"{"model": "model-3-opus", "messages": [], "max_tokens": 1000, "temperature": 0.7}"#);
    let result = protocol.parse(&body).unwrap();
    assert_eq!(result.model, "model-3-opus");
}

#[test]
fn test_parse_model_with_special_chars() {
    let protocol = AnthropicProtocol;
    let body = Bytes::from(r#"{"model": "model-3-5-sonnet-20241022", "messages": []}"#);
    let result = protocol.parse(&body).unwrap();
    assert_eq!(result.model, "model-3-5-sonnet-20241022");
}

#[test]
fn test_parse_invalid_json() {
    let protocol = AnthropicProtocol;
    let body = Bytes::from("not valid json");
    let result = protocol.parse(&body);
    assert!(result.is_err());
}

#[test]
fn test_parse_empty_body() {
    let protocol = AnthropicProtocol;
    let body = Bytes::from("{}");
    let result = protocol.parse(&body);
    assert!(result.is_err());
}

#[test]
fn test_using_x_api_key() {
    let protocol = AnthropicProtocol;
    assert!(protocol.using_x_api_key());
}

#[test]
fn openai_test_matches_valid_path_and_content_type() {
    let protocol = OpenAiProtocol;
    assert!(protocol.matches("/chat/completions", Some("application/json")));
    assert!(protocol.matches("/chat/completions/some-subpath", Some("application/json")));
}

#[test]
fn openai_test_matches_wrong_path() {
    let protocol = OpenAiProtocol;
    assert!(!protocol.matches("/completions", Some("application/json")));
    assert!(!protocol.matches("/messages", Some("application/json")));
    assert!(!protocol.matches("/v1/messages", Some("application/json")));
}

#[test]
fn openai_test_matches_missing_content_type() {
    let protocol = OpenAiProtocol;
    assert!(!protocol.matches("/chat/completions", None));
}

#[test]
fn openai_test_matches_wrong_content_type() {
    let protocol = OpenAiProtocol;
    assert!(!protocol.matches("/chat/completions", Some("text/plain")));
}

#[test]
fn openai_test_parse_valid_request() {
    let protocol = OpenAiProtocol;
    let body = Bytes::from(r#"{"model": "gpt-4", "messages": []}"#);
    let result = protocol.parse(&body).unwrap();
    assert_eq!(result.model, "gpt-4");
}

#[test]
fn openai_test_parse_missing_model() {
    let protocol = OpenAiProtocol;
    let body = Bytes::from(r#"{"messages": []}"#);
    let result = protocol.parse(&body);
    assert!(result.is_err());
}

#[test]
fn test_list_models() {
    let models = vec![
        ModelInfo {
            id: "model-1".to_string(),
            object: "model".to_string(),
            created: 1000,
            owned_by: "org-1".to_string(),
        },
        ModelInfo {
            id: "model-2".to_string(),
            object: "model".to_string(),
            created: 2000,
            owned_by: "org-2".to_string(),
        },
    ];

    let result = OpenAiProtocol::list_models(&models);
    let json: serde_json::Value = serde_json::from_str(&result).unwrap();

    assert_eq!(json["object"], "list");
    assert_eq!(json["data"].as_array().unwrap().len(), 2);
    assert_eq!(json["data"][0]["id"], "model-1");
    assert_eq!(json["data"][1]["id"], "model-2");
}

#[test]
fn test_parse_model_from_json_valid() {
    let body = Bytes::from(r#"{"model": "test-model"}"#);
    let result = parse_model_from_json(&body, "error").unwrap();
    assert_eq!(result, "test-model");
}

#[test]
fn test_parse_model_from_json_missing_model() {
    let body = Bytes::from(r#"{"messages": []}"#);
    let result = parse_model_from_json(&body, "missing model");
    assert!(result.is_err());
    assert!(result.unwrap_err().contains("missing model"));
}

#[test]
fn test_parse_model_from_json_invalid_json() {
    let body = Bytes::from("not valid json");
    let result = parse_model_from_json(&body, "error");
    assert!(result.is_err());
}

#[test]
fn test_model_info_serialization() {
    let info = ModelInfo {
        id: "test-model".to_string(),
        object: "model".to_string(),
        created: 1234567890,
        owned_by: "test-org".to_string(),
    };

    let text = OpenAiProtocol::list_models(&[info]);
    let list: serde_json::Value = serde_json::from_str(&text).unwrap();
    let json = &list["data"][0];

    assert_eq!(json["id"], "test-model");
    assert_eq!(json["object"], "model");
    assert_eq!(json["created"], 1234567890);
    assert_eq!(json["owned_by"], "test-org");
}

#[test]
fn openai_does_not_use_x_api_key() {
    assert!(!OpenAiProtocol.using_x_api_key());
}

#[test]
fn no_models() {
    let text = OpenAiProtocol::list_models(&[]);
    assert_eq!(text, "{\"data\":[],\"object\":\"list\"}");
}

#[test]
fn list_of_models_as_text() {
    let text = OpenAiProtocol::list_models(&[ModelInfo {
        id: "a\"b\u{e9}".to_string(),
        object: "model".to_string(),
        created: u64::MAX,
        owned_by: "me".to_string(),
    }]);
    assert_eq!(
        text,
        "{\"data\":[{\"created\":18446744073709551615,\"id\":\"a\\\"b\u{e9}\",\
         \"object\":\"model\",\"owned_by\":\"me\"}],\"object\":\"list\"}"
    );
}

#[test]
fn a_missing_model_is_said_in_the_words_of_the_protocol() {
    let bodies: Vec<&[u8]> = vec![b"{}", b"[]", b"3", b"{\"model\": 3}", b"{\"Model\": \"x\"}"];
    for body in bodies {
        assert_eq!(
            OpenAiProtocol.parse(body).unwrap_err(),
            "Missing 'model' field in OpenAI request"
        );
        assert_eq!(
            AnthropicProtocol.parse(body).unwrap_err(),
            "Missing 'model' field in Anthropic request"
        );
    }
}

#[test]
fn a_body_that_does_not_read() {
    assert_eq!(
        OpenAiProtocol.parse(b"").unwrap_err(),
        "EOF while parsing a value at line 1 column 0"
    );
    assert_eq!(
        AnthropicProtocol.parse(b"{\"model\": \"x\"} y").unwrap_err(),
        "trailing characters at line 1 column 16"
    );
}

#[test]
fn the_model_of_a_value() {
    let value: serde_json::Value = serde_json::from_str("{\"model\": \"m\\u00e9\"}").unwrap();
    assert_eq!(model_from_value(&value, "none"), Ok("m\u{e9}".to_string()));
    assert_eq!(model_from_value(&serde_json::Value::Null, "none"), Err("none".to_string()));
}

#[test]
fn no_request_is_of_both_protocols() {
    for path in ["/chat/completions", "/v1/messages", "/v1/messages/chat/completions", "/", ""] {
        let json = Some("application/json");
        assert!(!(OpenAiProtocol.matches(path, json) && AnthropicProtocol.matches(path, json)));
    }
}
