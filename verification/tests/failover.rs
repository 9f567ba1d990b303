use llm_router::config::Config;
use llm_router::failover::{Event, Failover, Step};
use llm_router::forward::ForwardRequestParams;
use llm_router::http::{HttpRequest, HttpResponse};
use llm_router::names::NameMap;
use llm_router::server::{Reading, Server, Stuck};

const SETUP: &str = "[service]\nport = 1\n[service.default]\nretry = 2\n\
    [backend]\na = \"http://a\"\nb = \"http://b\"\n\
    [backend.never]\nbase-url = \"http://never\"\nretry = 0\n\
    [backend.own]\nbase-url = \"http://own\"\nmodel = \"own-model\"\napi-key = \"k\"\n\
    [load-balance.turns]\nbackends = [\"a\", \"b\"]\nstrategy = \"round_robin\"\n\
    [load-balance.empty]\nbackends = []\n\
    [router]\nthree = [\"a\", \"nobody\", \"b\", \"a\", \"own\"]\nplain = [\"a\", \"b\"]\nalias = \"plain\"\nskipping = [\"never\", \"own\"]\n\
    pooled = [\"turns\", \"turns\", \"turns\"]\nstuck = [\"empty\"]\n";

fn server() -> Server {
    Server::new(Config::from_str(SETUP, &NameMap::new(), &NameMap::new()).unwrap())
}

fn begin(s: &Server, model: &str) -> Failover {
    s.begin(ForwardRequestParams {
        path: "/client".to_string(),
        uri: "/p".to_string(),
        body_bytes: b"{}".to_vec(),
        original_model: model.to_string(),
        original_headers: NameMap::new(),
        using_x_api_key: false,
    })
}

fn step(s: &mut Server, f: &mut Failover, event: Event) -> Step {
    let readings = vec![Reading { seed: Some(0), now: 0 }; 5];
    s.advance_with(f, event, &readings, 0).unwrap()
}

fn sent(step: Step) -> HttpRequest {
    match step {
        Step::Send(request) => request,
        _ => panic!("nothing is sent"),
    }
}

fn given(step: Step) -> HttpResponse {
    match step {
        Step::Respond(response) => response,
        _ => panic!("there is no response"),
    }
}

fn answer(status: u16) -> Event {
    Event::Answered(HttpResponse::text(status, "x"))
}

#[test]
fn a_backend_that_answers() {
    let mut s = server();
    let mut f = begin(&s, "alias");
    let request = sent(step(&mut s, &mut f, Event::Ready));
    assert_eq!(request.uri, "http://a/p");
    assert_eq!(request.body, b"{\"model\":\"plain\"}".to_vec());
    let context = f.context();
    assert_eq!(context.model, "plain");
    assert_eq!(context.backend.as_deref(), Some("a"));
    assert_eq!(context.path, "/client");
    let response = given(step(&mut s, &mut f, answer(404)));
    assert_eq!(response.status, 404);
    assert_eq!(response.body, b"x".to_vec());
}

#[test]
fn attempts_and_then_the_next_backend() {
    let mut s = server();
    let mut f = begin(&s, "plain");
    assert_eq!(sent(step(&mut s, &mut f, Event::Ready)).uri, "http://a/p");
    assert_eq!(sent(step(&mut s, &mut f, Event::Unreachable)).uri, "http://a/p");
    assert!(matches!(step(&mut s, &mut f, Event::Unreachable), Step::Choose));
    assert_eq!(sent(step(&mut s, &mut f, Event::Ready)).uri, "http://b/p");
    assert!(matches!(step(&mut s, &mut f, answer(500)), Step::Choose));
    let response = given(step(&mut s, &mut f, Event::Ready));
    assert_eq!(response.status, 502);
    assert_eq!(response.body, b"All backends unavailable".to_vec());
    assert_eq!(response.headers, vec![("content-type".to_string(), b"text/plain".to_vec())]);
}

#[test]
fn failures_lead_to_a_cooldown() {
    let mut s = server();
    for _ in 0..2 {
        assert!(s.backend("a").unwrap().health.is_healthy_at(0));
        let mut f = begin(&s, "plain");
        assert_eq!(sent(step(&mut s, &mut f, Event::Ready)).uri, "http://a/p");
        assert!(matches!(step(&mut s, &mut f, answer(503)), Step::Choose));
        assert_eq!(sent(step(&mut s, &mut f, Event::Ready)).uri, "http://b/p");
        given(step(&mut s, &mut f, answer(200)));
    }
    let three_minutes = 180_000_000_000;
    assert!(!s.backend("a").unwrap().health.is_healthy_at(three_minutes - 1));
    assert!(s.backend("a").unwrap().health.is_healthy_at(three_minutes));
    assert!(s.backend("b").unwrap().health.is_healthy_at(0));
    let mut f = begin(&s, "plain");
    assert_eq!(sent(step(&mut s, &mut f, Event::Ready)).uri, "http://b/p");
    assert!(matches!(step(&mut s, &mut f, answer(500)), Step::Choose));
    assert_eq!(sent(step(&mut s, &mut f, Event::Ready)).uri, "http://a/p");
    given(step(&mut s, &mut f, answer(200)));
    assert!(s.backend("a").unwrap().health.is_healthy_at(0));
}

#[test]
fn a_backend_that_allows_no_attempt() {
    let mut s = server();
    let mut f = begin(&s, "skipping");
    assert!(matches!(step(&mut s, &mut f, Event::Ready), Step::Choose));
    assert!(!s.backend("never").unwrap().health.is_healthy_at(0));
    let request = sent(step(&mut s, &mut f, Event::Ready));
    assert_eq!(request.uri, "http://own/p");
    assert_eq!(request.body, b"{\"model\":\"own-model\"}".to_vec());
    assert_eq!(request.headers[1], ("authorization".to_string(), b"Bearer k".to_vec()));
}

#[test]
fn pools_are_asked_again_for_what_was_not_tried() {
    let mut s = server();
    let mut f = begin(&s, "pooled");
    assert_eq!(sent(step(&mut s, &mut f, Event::Ready)).uri, "http://a/p");
    assert!(matches!(step(&mut s, &mut f, answer(500)), Step::Choose));
    assert_eq!(sent(step(&mut s, &mut f, Event::Ready)).uri, "http://b/p");
    assert!(matches!(step(&mut s, &mut f, answer(500)), Step::Choose));
    assert_eq!(given(step(&mut s, &mut f, Event::Ready)).status, 502);
}

#[test]
fn a_route_that_is_not_there() {
    let mut s = server();
    let mut f = begin(&s, "unknown");
    assert_eq!(given(step(&mut s, &mut f, Event::Ready)).status, 502);
}

#[test]
fn a_choice_that_is_stuck() {
    let mut s = server();
    let mut f = begin(&s, "stuck");
    let readings = vec![Reading { seed: Some(0), now: 0 }; 2];
    let r = s.advance_with(&mut f, Event::Ready, &readings, 0);
    assert!(matches!(r, Err(Stuck::EmptyPool)));
}

#[test]
fn steps_by_the_clock() {
    let mut s = server();
    let mut f = begin(&s, "plain");
    assert_eq!(sent(s.advance(&mut f, Event::Ready).unwrap()).uri, "http://a/p");
    assert!(matches!(s.advance(&mut f, answer(500)), Ok(Step::Choose)));
    assert_eq!(sent(s.advance(&mut f, Event::Ready).unwrap()).uri, "http://b/p");
    assert_eq!(given(s.advance(&mut f, answer(200)).unwrap()).status, 200);
}

#[test]
fn every_request_ends_though_nothing_can_be_reached() {
    let mut s = server();
    for model in ["plain", "alias", "skipping", "pooled", "unknown"] {
        let mut f = begin(&s, model);
        let mut event = Event::Ready;
        let mut sends = 0;
        let response = loop {
            match step(&mut s, &mut f, event) {
                Step::Send(_) => {
                    sends += 1;
                    event = Event::Unreachable;
                }
                Step::Choose => event = Event::Ready,
                Step::Respond(response) => break response,
            }
        };
        assert_eq!(response.status, 502);
        assert!(sends <= 4, "{} {}", model, sends);
    }
}

#[test]
fn requests_that_overlap() {
    let mut s = server();
    let mut one = begin(&s, "plain");
    let mut two = begin(&s, "alias");
    assert_eq!(sent(step(&mut s, &mut one, Event::Ready)).uri, "http://a/p");
    assert_eq!(sent(step(&mut s, &mut two, Event::Ready)).uri, "http://a/p");
    assert!(matches!(step(&mut s, &mut one, answer(500)), Step::Choose));
    assert_eq!(sent(step(&mut s, &mut one, Event::Ready)).uri, "http://b/p");
    assert_eq!(sent(step(&mut s, &mut two, Event::Unreachable)).uri, "http://a/p");
    assert!(matches!(step(&mut s, &mut two, Event::Unreachable), Step::Choose));
    assert!(!s.backend("a").unwrap().health.is_healthy_at(0));
    assert_eq!(given(step(&mut s, &mut one, answer(200))).status, 200);
    assert_eq!(sent(step(&mut s, &mut two, Event::Ready)).uri, "http://b/p");
    assert_eq!(s.backend("a").unwrap().config.base_url, "http://a");
    assert_eq!(s.route_name("alias"), "plain");
}

#[test]
fn events_that_nothing_waits_for() {
    let mut s = server();
    let mut f = begin(&s, "plain");
    assert!(f.context().backend.is_none());
    assert!(matches!(step(&mut s, &mut f, Event::Unreachable), Step::Choose));
    assert!(matches!(step(&mut s, &mut f, answer(500)), Step::Choose));
    assert_eq!(given(step(&mut s, &mut f, answer(204))).status, 204);
    assert!(s.backend("a").unwrap().health.is_healthy_at(0));
    assert_eq!(sent(step(&mut s, &mut f, Event::Ready)).uri, "http://a/p");
}

#[test]
fn the_found_backend_first_and_then_the_order_of_the_route() {
    let mut s = server();
    s.handle_backend_failure_at("a", 0);
    s.handle_backend_failure_at("a", 0);
    let mut f = begin(&s, "three");
    let mut uris = Vec::new();
    let mut event = Event::Ready;
    let response = loop {
        match step(&mut s, &mut f, event) {
            Step::Send(request) => {
                uris.push(request.uri);
                event = answer(if uris.len() == 3 { 418 } else { 500 });
            }
            Step::Choose => event = Event::Ready,
            Step::Respond(response) => break response,
        }
    };
    assert_eq!(uris, vec!["http://b/p", "http://a/p", "http://own/p"]);
    assert_eq!(response.status, 418);
}
