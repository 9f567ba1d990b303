//! The request protocols that the router understands.

use crate::json::{
    float_free, json_array, json_as_str, json_content, json_fields, json_from_slice, json_get,
    json_insert, json_map, json_number, json_object, json_read, json_string, json_text,
    json_to_string, lemma_alike_without_floats, lemma_float_free_is_moderate, Json, MAX_DEPTH,
};
use crate::text::{contains, occurs, outcome, starts_with};
use vstd::prelude::*;
use vstd::utf8::encode_utf8;

verus! {

/// What the router takes from the body of a request.
#[derive(Debug)]
pub struct ParsedRequest {
    pub model: String,
}

impl DeepView for ParsedRequest {
    type V = Seq<char>;

    /// The model.
    open spec fn deep_view(&self) -> Seq<char> {
        self.model@
    }
}

/// A model, as the list of models shows it.
#[derive(Debug)]
pub struct ModelInfo {
    pub id: String,
    pub object: String,
    pub created: u64,
    pub owned_by: String,
}

/// What [`ModelInfo`] holds.
pub struct ModelView {
    pub id: Seq<char>,
    pub object: Seq<char>,
    pub created: u64,
    pub owned_by: Seq<char>,
}

impl DeepView for ModelInfo {
    type V = ModelView;

    open spec fn deep_view(&self) -> ModelView {
        ModelView {
            id: self.id@,
            object: self.object@,
            created: self.created,
            owned_by: self.owned_by@,
        }
    }
}

/// The model that a JSON value names: the string in its field `model`.
pub open spec fn named_model(body: Json) -> Option<Seq<char>> {
    match body.get("model"@) {
        Some(model) => model.as_str(),
        None => None,
    }
}

/// The model that a body names: what is wrong with the body if it does not read,
/// and `error_msg` if it names none.
pub open spec fn model_of(read: Result<Json, Seq<char>>, error_msg: Seq<char>) -> Result<
    Seq<char>,
    Seq<char>,
> {
    match read {
        Ok(body) => match named_model(body) {
            Some(model) => Ok(model),
            None => Err(error_msg),
        },
        Err(message) => Err(message),
    }
}

/// The model that a JSON value names, or `error_msg`.
pub fn model_from_value(body: &serde_json::Value, error_msg: &str) -> (r: Result<String, String>)
    ensures
        outcome(r) == model_of(Ok(json_content(*body)), error_msg@),
{
    match json_get(body, "model") {
        Some(model) => match json_as_str(model) {
            Some(model) => Ok(model.to_owned()),
            None => Err(error_msg.to_owned()),
        },
        None => Err(error_msg.to_owned()),
    }
}

/// The model that a JSON body names, or what is wrong with it.
pub fn parse_model_from_json(body: &[u8], error_msg: &str) -> (r: Result<String, String>)
    ensures
        outcome(r) == model_of(json_read(body@), error_msg@),
{
    match json_from_slice(body) {
        Ok(body) => model_from_value(&body, error_msg),
        Err(message) => Err(message),
    }
}

/// A request protocol.
pub trait Protocol: Send + Sync {
    /// Whether a request to this path with this content type is one of this protocol.
    spec fn applies(&self, path: Seq<char>, content_type: Option<Seq<char>>) -> bool;

    /// What is said of a body that names no model.
    spec fn missing_model(&self) -> Seq<char>;

    /// Whether keys go into the header `x-api-key`.
    spec fn keys_go_into_x_api_key(&self) -> bool;

    /// Whether a request to this path with this content type is one of this protocol.
    fn matches(&self, path: &str, content_type: Option<&str>) -> (r: bool)
        ensures
            r == self.applies(path@, content_type.deep_view()),
    ;

    /// Takes from the body what the router needs.
    fn parse(&self, body: &[u8]) -> (r: Result<ParsedRequest, String>)
        ensures
            outcome(r) == model_of(json_read(body@), self.missing_model()),
    ;

    /// Whether keys go into the header `x-api-key`.
    fn using_x_api_key(&self) -> (r: bool)
        ensures
            r == self.keys_go_into_x_api_key(),
    ;
}

/// The path begins with `prefix`, and the content type says JSON.
pub open spec fn is_json_request_to(
    prefix: Seq<char>,
    path: Seq<char>,
    content_type: Option<Seq<char>>,
) -> bool {
    prefix.is_prefix_of(path) && match content_type {
        Some(text) => occurs(text, "application/json"@),
        None => false,
    }
}

fn matches_json_request_to(prefix: &str, path: &str, content_type: Option<&str>) -> (r: bool)
    ensures
        r == is_json_request_to(prefix@, path@, content_type.deep_view()),
{
    if starts_with(path, prefix) {
        match content_type {
            Some(text) => contains(text, "application/json"),
            None => false,
        }
    } else {
        false
    }
}

fn parse_with(body: &[u8], error_msg: &str) -> (r: Result<ParsedRequest, String>)
    ensures
        outcome(r) == model_of(json_read(body@), error_msg@),
{
    match parse_model_from_json(body, error_msg) {
        Ok(model) => Ok(ParsedRequest { model }),
        Err(message) => Err(message),
    }
}

/// The protocol of OpenAI.
pub struct OpenAiProtocol;

impl Protocol for OpenAiProtocol {
    open spec fn applies(&self, path: Seq<char>, content_type: Option<Seq<char>>) -> bool {
        is_json_request_to("/chat/completions"@, path, content_type)
    }

    open spec fn missing_model(&self) -> Seq<char> {
        "Missing 'model' field in OpenAI request"@
    }

    open spec fn keys_go_into_x_api_key(&self) -> bool {
        false
    }

    fn matches(&self, path: &str, content_type: Option<&str>) -> bool {
        matches_json_request_to("/chat/completions", path, content_type)
    }

    fn parse(&self, body: &[u8]) -> Result<ParsedRequest, String> {
        parse_with(body, "Missing 'model' field in OpenAI request")
    }

    fn using_x_api_key(&self) -> bool {
        false
    }
}

/// The protocol of Anthropic.
pub struct AnthropicProtocol;

impl Protocol for AnthropicProtocol {
    open spec fn applies(&self, path: Seq<char>, content_type: Option<Seq<char>>) -> bool {
        is_json_request_to("/v1/messages"@, path, content_type)
    }

    open spec fn missing_model(&self) -> Seq<char> {
        "Missing 'model' field in Anthropic request"@
    }

    open spec fn keys_go_into_x_api_key(&self) -> bool {
        true
    }

    fn matches(&self, path: &str, content_type: Option<&str>) -> bool {
        matches_json_request_to("/v1/messages", path, content_type)
    }

    fn parse(&self, body: &[u8]) -> Result<ParsedRequest, String> {
        parse_with(body, "Missing 'model' field in Anthropic request")
    }

    fn using_x_api_key(&self) -> bool {
        true
    }
}

/// No request is one of both protocols.
pub proof fn law_protocols_do_not_overlap(path: Seq<char>, content_type: Option<Seq<char>>)
    ensures
        !(OpenAiProtocol.applies(path, content_type) && AnthropicProtocol.applies(
            path,
            content_type,
        )),
{
    reveal_strlit("/chat/completions");
    reveal_strlit("/v1/messages");
    if "/chat/completions"@.is_prefix_of(path) && "/v1/messages"@.is_prefix_of(path) {
        assert(path[1] == "/chat/completions"@[1]);
        assert(path[1] == "/v1/messages"@[1]);
    }
}

/// A model in the list of models.
pub open spec fn model_json(m: ModelView) -> Json {
    Json::Object(
        Map::empty().insert("id"@, Json::String(m.id)).insert(
            "object"@,
            Json::String(m.object),
        ).insert("created"@, Json::Integer(m.created as int)).insert(
            "owned_by"@,
            Json::String(m.owned_by),
        ),
    )
}

/// The list of models.
pub open spec fn models_json(models: Seq<ModelView>) -> Json {
    Json::Object(
        Map::empty().insert("object"@, Json::String("list"@)).insert(
            "data"@,
            Json::Array(Seq::new(models.len(), |i: int| model_json(models[i]))),
        ),
    )
}

fn model_value(m: &ModelInfo) -> (r: serde_json::Value)
    ensures
        json_content(r) == model_json(m.deep_view()),
{
    let mut fields = json_map();
    assert(json_fields(fields) =~= Map::empty());
    json_insert(&mut fields, "id".to_owned(), json_string(m.id.clone()));
    json_insert(&mut fields, "object".to_owned(), json_string(m.object.clone()));
    json_insert(&mut fields, "created".to_owned(), json_number(m.created));
    json_insert(&mut fields, "owned_by".to_owned(), json_string(m.owned_by.clone()));
    json_object(fields)
}

proof fn lemma_models_json_is_float_free(models: Seq<ModelView>)
    ensures
        float_free(models_json(models), MAX_DEPTH as nat),
{
    reveal_with_fuel(float_free, 4);
}

impl OpenAiProtocol {
    /// The list of models, as a JSON text. It reads as what it lists.
    pub fn list_models(models: &[ModelInfo]) -> (r: String)
        ensures
            r@ == json_text(
                models_json(Seq::new(models@.len(), |i: int| models@[i].deep_view())),
            ),
            json_read(encode_utf8(r@)) == Ok::<Json, Seq<char>>(
                models_json(Seq::new(models@.len(), |i: int| models@[i].deep_view())),
            ),
    {
        let ghost all = Seq::new(models@.len(), |i: int| models@[i].deep_view());
        let mut data: Vec<serde_json::Value> = Vec::new();
        let mut i: usize = 0;
        while i < models.len()
            invariant
                0 <= i <= models@.len(),
                data@.len() == i,
                forall|j: int|
                    0 <= j < i ==> json_content(#[trigger] data@[j]) == model_json(
                        models@[j].deep_view(),
                    ),
            decreases models@.len() - i,
        {
            data.push(model_value(&models[i]));
            i = i + 1;
        }
        let ghost items = Seq::new(data@.len(), |j: int| json_content(data@[j]));
        assert(items =~= Seq::new(all.len(), |j: int| model_json(all[j])));
        let mut fields = json_map();
        assert(json_fields(fields) =~= Map::empty());
        json_insert(&mut fields, "object".to_owned(), json_string("list".to_owned()));
        json_insert(&mut fields, "data".to_owned(), json_array(data));
        let list = json_object(fields);
        assert(json_content(list) == models_json(all));
        let text = json_to_string(&list);
        proof {
            lemma_models_json_is_float_free(all);
            lemma_float_free_is_moderate(models_json(all), MAX_DEPTH as nat);
            lemma_alike_without_floats(
                json_read(encode_utf8(text@))->Ok_0,
                models_json(all),
                MAX_DEPTH as nat,
            );
        }
        text
    }
}

} // verus!
