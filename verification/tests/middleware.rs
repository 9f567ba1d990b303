use llm_router::http::{HttpRequest, HttpResponse};
use llm_router::middleware::{InterceptAction, Middleware, NoOpMiddleware, RequestContext};

#[test]
fn test_request_context_creation() {
    let ctx = RequestContext::new("test-model", "/v1/messages");
    assert_eq!(ctx.model, "test-model");
    assert_eq!(ctx.path, "/v1/messages");
    assert!(ctx.backend.is_none());

    let ctx = ctx.with_backend("backend1");
    assert_eq!(ctx.backend, Some("backend1".to_string()));
    assert_eq!(ctx.model, "test-model");
    assert_eq!(ctx.path, "/v1/messages");
}

#[test]
fn test_no_op_middleware() {
    let middleware = NoOpMiddleware;
    let mut req = HttpRequest {
        method: "GET".to_string(),
        uri: "/test".to_string(),
        headers: Vec::new(),
        body: Vec::new(),
    };

    let ctx = RequestContext::new("model", "/test");
    assert!(matches!(middleware.intercept_request(&mut req, &ctx), InterceptAction::Continue));
    assert_eq!(req.uri, "/test");
}

#[test]
fn no_op_middleware_lets_responses_pass() {
    let mut resp = HttpResponse::text(200, "hello");
    let ctx = RequestContext::new("model", "/test").with_backend("b");
    assert!(matches!(
        NoOpMiddleware.intercept_response(&mut resp, &ctx),
        InterceptAction::Continue
    ));
    assert_eq!(resp.status, 200);
    assert_eq!(resp.body, b"hello");
}
