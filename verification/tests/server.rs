use llm_router::config::Config;
use llm_router::names::NameMap;
use llm_router::server::{Reading, Server, Stuck};

const SETUP: &str = "[service]\nport = 1\n[service.default]\nretry = 1\n\
    [backend]\na = \"http://a\"\nb = \"http://b\"\nc = \"http://c\"\n\
    [load-balance.turns]\nbackends = [\"a\", \"b\"]\nstrategy = \"round_robin\"\n\
    [load-balance.dice]\nbackends = [\"a\", \"b\", \"c\"]\n\
    [load-balance.empty]\nbackends = []\n\
    [router]\nplain = [\"a\", \"b\", \"c\"]\nalias = \"plain\"\npooled = [\"turns\", \"c\"]\n\
    thrown = [\"dice\"]\nstuck = [\"a\", \"empty\"]\nghost = [\"nobody\", \"b\"]\nnothing = []\n\
    lost = [\"nobody\"]\n";

fn server() -> Server {
    Server::new(Config::from_str(SETUP, &NameMap::new(), &NameMap::new()).unwrap())
}

fn at(seed: usize, now: u128) -> Vec<Reading> {
    vec![Reading { seed: Some(seed), now }; 4]
}

fn found(s: &mut Server, model: &str, seed: usize, now: u128) -> Option<String> {
    s.find_backend_with(model, &at(seed, now)).unwrap()
}

const MINUTES: u128 = 60_000_000_000;

#[test]
fn the_first_backend_of_a_route() {
    let mut s = server();
    assert_eq!(found(&mut s, "plain", 0, 0).as_deref(), Some("a"));
    assert_eq!(found(&mut s, "alias", 0, 0).as_deref(), Some("a"));
    assert_eq!(found(&mut s, "unknown", 0, 0), None);
    assert_eq!(found(&mut s, "nothing", 0, 0), None);
    assert_eq!(found(&mut s, "lost", 0, 0), None);
    assert_eq!(found(&mut s, "ghost", 0, 0).as_deref(), Some("b"));
}

#[test]
fn backends_in_cooldown_are_passed_over() {
    let mut s = server();
    s.handle_backend_failure_at("a", 0);
    assert_eq!(found(&mut s, "plain", 0, MINUTES).as_deref(), Some("b"));
    s.handle_backend_failure_at("b", MINUTES);
    assert_eq!(found(&mut s, "plain", 0, 2 * MINUTES).as_deref(), Some("c"));
    s.handle_backend_failure_at("c", 0);
    assert_eq!(found(&mut s, "plain", 0, 2 * MINUTES).as_deref(), Some("a"));
    assert_eq!(found(&mut s, "plain", 0, 3 * MINUTES - 1).as_deref(), Some("a"));
    assert_eq!(found(&mut s, "plain", 0, 3 * MINUTES).as_deref(), Some("a"));
    s.record_success("b");
    assert_eq!(found(&mut s, "plain", 0, MINUTES).as_deref(), Some("b"));
    assert_eq!(found(&mut s, "ghost", 0, MINUTES).as_deref(), Some("b"));
    s.handle_backend_failure_at("b", 0);
    assert_eq!(found(&mut s, "ghost", 0, MINUTES), None);
}

#[test]
fn pools_take_turns() {
    let mut s = server();
    assert_eq!(found(&mut s, "pooled", 7, 0).as_deref(), Some("a"));
    assert_eq!(found(&mut s, "pooled", 7, 0).as_deref(), Some("b"));
    assert_eq!(found(&mut s, "pooled", 7, 0).as_deref(), Some("a"));
    s.handle_backend_failure_at("b", 0);
    assert_eq!(found(&mut s, "pooled", 7, MINUTES).as_deref(), Some("c"));
    s.handle_backend_failure_at("c", 0);
    s.handle_backend_failure_at("a", 0);
    // The pool chooses twice where nothing is healthy.
    assert_eq!(found(&mut s, "pooled", 7, MINUTES).as_deref(), Some("b"));
    assert_eq!(found(&mut s, "pooled", 7, MINUTES).as_deref(), Some("b"));
}

#[test]
fn pools_go_by_the_seed() {
    let mut s = server();
    assert_eq!(found(&mut s, "thrown", 30, 0).as_deref(), Some("a"));
    assert_eq!(found(&mut s, "thrown", 31, 0).as_deref(), Some("b"));
    assert_eq!(found(&mut s, "thrown", 32, 0).as_deref(), Some("c"));
    assert_eq!(s.select_from_load_balancer_with("dice", Some(4)), Ok(Some("b".to_string())));
    assert_eq!(s.select_from_load_balancer_with("none", Some(4)), Ok(None));
    assert_eq!(s.select_from_load_balancer_with("none", None), Ok(None));
}

#[test]
fn choices_that_are_stuck() {
    let mut s = server();
    assert_eq!(s.select_from_load_balancer_with("empty", Some(4)), Err(Stuck::EmptyPool));
    assert_eq!(s.select_from_load_balancer_with("dice", None), Err(Stuck::ClockBeforeEpoch));
    assert_eq!(s.find_backend_with("stuck", &at(0, 0)).unwrap().as_deref(), Some("a"));
    s.handle_backend_failure_at("a", 0);
    assert_eq!(s.find_backend_with("stuck", &at(0, 0)), Err(Stuck::EmptyPool));
    let blind = vec![Reading { seed: None, now: 0 }; 4];
    assert_eq!(s.find_backend_with("thrown", &blind), Err(Stuck::ClockBeforeEpoch));
    assert_eq!(s.find_backend_with("plain", &blind).unwrap().as_deref(), Some("b"));
}

#[test]
fn choices_by_the_clock() {
    let mut s = server();
    assert_eq!(s.find_backend("alias").unwrap().as_deref(), Some("a"));
    let thrown = s.find_backend("thrown").unwrap().unwrap();
    assert!(["a", "b", "c"].contains(&thrown.as_str()));
    let picked = s.select_from_load_balancer("turns").unwrap();
    assert_eq!(picked.as_deref(), Some("a"));
    s.handle_backend_failure("a");
    assert_eq!(s.find_backend("alias").unwrap().as_deref(), Some("b"));
    s.record_success("a");
    assert_eq!(s.find_backend("alias").unwrap().as_deref(), Some("a"));
}

#[test]
fn backends_that_were_not_tried() {
    let mut s = server();
    let tried = |names: &[&str]| names.iter().map(|n| n.to_string()).collect::<Vec<String>>();
    let r = s.find_untried_with("plain", &tried(&["a"]), &at(0, 0)).unwrap();
    assert_eq!(r.as_deref(), Some("b"));
    s.handle_backend_failure_at("b", 0);
    let r = s.find_untried_with("plain", &tried(&["a"]), &at(0, 0)).unwrap();
    assert_eq!(r.as_deref(), Some("b"));
    let r = s.find_untried_with("plain", &tried(&["c", "b", "a"]), &at(0, 0)).unwrap();
    assert_eq!(r, None);
    let r = s.find_untried_with("alias", &tried(&["a"]), &at(0, 0)).unwrap();
    assert_eq!(r, None);
    let r = s.find_untried_with("thrown", &tried(&["a"]), &at(0, 0)).unwrap();
    assert_eq!(r, None);
    let r = s.find_untried_with("thrown", &tried(&["a"]), &at(1, 0)).unwrap();
    assert_eq!(r.as_deref(), Some("b"));
}

#[test]
fn what_a_server_knows() {
    let s = server();
    assert_eq!(s.route_name("alias"), "plain");
    assert_eq!(s.route_name("plain"), "plain");
    assert_eq!(s.route_name("unknown"), "unknown");
    assert_eq!(s.backend("a").unwrap().config.base_url, "http://a");
    assert!(s.backend("a").unwrap().health.is_healthy());
    assert!(s.backend("nobody").is_none());
    assert_eq!(s.route_names().len(), 7);
}

#[test]
fn readings_of_the_clocks() {
    let r = Reading::from_clocks(Some(usize::MAX as u128 + 6), 7);
    assert_eq!(r, Reading { seed: Some(5), now: 7 });
    let r = Reading::from_clocks(Some(42), 0);
    assert_eq!(r, Reading { seed: Some(42), now: 0 });
    let r = Reading::from_clocks(None, 9);
    assert_eq!(r, Reading { seed: None, now: 9 });
}
