//! Interceptors that see requests and responses on their way, and may change or
//! block them.

use crate::http::{HttpRequest, HttpResponse, RequestView, ResponseView};
use vstd::prelude::*;

verus! {

/// What is known of a request while it is routed.
#[derive(Debug)]
pub struct RequestContext {
    /// The model that is asked for.
    pub model: String,
    /// The backend, once one is chosen.
    pub backend: Option<String>,
    /// The path that the client asked for.
    pub path: String,
}

/// What [`RequestContext`] holds.
pub struct ContextView {
    pub model: Seq<char>,
    pub backend: Option<Seq<char>>,
    pub path: Seq<char>,
}

impl DeepView for RequestContext {
    type V = ContextView;

    open spec fn deep_view(&self) -> ContextView {
        ContextView {
            model: self.model@,
            backend: self.backend.deep_view(),
            path: self.path@,
        }
    }
}

impl RequestContext {
    /// The context of a request for which no backend is chosen yet.
    pub fn new(model: &str, path: &str) -> (r: Self)
        ensures
            r.deep_view() == (ContextView { model: model@, backend: None, path: path@ }),
    {
        RequestContext { model: model.to_owned(), backend: None, path: path.to_owned() }
    }

    /// The same context with a backend chosen.
    pub fn with_backend(self, backend: &str) -> (r: Self)
        ensures
            r.deep_view() == (ContextView { backend: Some(backend@), ..self.deep_view() }),
    {
        RequestContext { model: self.model, backend: Some(backend.to_owned()), path: self.path }
    }
}

/// What becomes of an intercepted request or response.
#[derive(Debug)]
pub enum InterceptAction {
    /// It goes on, as the interceptor left it.
    Continue,
    /// It is blocked, and this body is sent instead.
    Block(Vec<u8>),
}

/// What [`InterceptAction`] holds.
pub enum ActionView {
    Continue,
    Block(Seq<u8>),
}

impl DeepView for InterceptAction {
    type V = ActionView;

    open spec fn deep_view(&self) -> ActionView {
        match self {
            InterceptAction::Continue => ActionView::Continue,
            InterceptAction::Block(body) => ActionView::Block(body@),
        }
    }
}

/// An interceptor. Both methods may change what they are handed, and what they let pass
/// goes on as they left it.
///
/// Of a request, the `uri` is the path that is asked for at the backend, and the body and
/// the headers are those that are sent to it. As with the headers that come in, the last
/// of one name counts, and `host`, `content-type` and `content-length` are not sent on.
/// The method is not taken up: what is sent is always a `POST`. Nor does the route of the
/// request change, which goes by the model that it named when it came in.
///
/// Of a response, the status, the headers and the body are those that the client is sent.
pub trait Middleware: Send + Sync {
    /// What may become of a request: what it was, its context, what it is then, and
    /// the action. An interceptor that promises nothing may do anything.
    open spec fn may_intercept_request(
        &self,
        before: RequestView,
        context: ContextView,
        after: RequestView,
        action: ActionView,
    ) -> bool {
        true
    }

    /// What may become of a response: what it was, its context, what it is then, and
    /// the action. An interceptor that promises nothing may do anything.
    open spec fn may_intercept_response(
        &self,
        before: ResponseView,
        context: ContextView,
        after: ResponseView,
        action: ActionView,
    ) -> bool {
        true
    }

    /// Sees a request before it is sent to a backend.
    fn intercept_request(&self, req: &mut HttpRequest, context: &RequestContext) -> (r:
        InterceptAction)
        ensures
            self.may_intercept_request(
                old(req).deep_view(),
                context.deep_view(),
                final(req).deep_view(),
                r.deep_view(),
            ),
    ;

    /// Sees the response of a backend before it is sent to the client.
    fn intercept_response(&self, resp: &mut HttpResponse, context: &RequestContext) -> (r:
        InterceptAction)
        ensures
            self.may_intercept_response(
                old(resp).deep_view(),
                context.deep_view(),
                final(resp).deep_view(),
                r.deep_view(),
            ),
    ;
}

/// An interceptor that lets everything pass as it is.
pub struct NoOpMiddleware;

impl Middleware for NoOpMiddleware {
    open spec fn may_intercept_request(
        &self,
        before: RequestView,
        context: ContextView,
        after: RequestView,
        action: ActionView,
    ) -> bool {
        action == ActionView::Continue && after == before
    }

    open spec fn may_intercept_response(
        &self,
        before: ResponseView,
        context: ContextView,
        after: ResponseView,
        action: ActionView,
    ) -> bool {
        action == ActionView::Continue && after == before
    }

    fn intercept_request(&self, _req: &mut HttpRequest, _context: &RequestContext) -> InterceptAction {
        InterceptAction::Continue
    }

    fn intercept_response(
        &self,
        _resp: &mut HttpResponse,
        _context: &RequestContext,
    ) -> InterceptAction {
        InterceptAction::Continue
    }
}

} // verus!
