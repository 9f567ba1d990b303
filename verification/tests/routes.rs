use llm_router::names::NameMap;
use llm_router::routes::{resolve_alias_chain, separate_routes, RouteTarget};

fn routes(entries: &[(&str, &str)]) -> NameMap<RouteTarget> {
    let mut raw = NameMap::new();
    for (name, next) in entries {
        let target = if next.is_empty() {
            RouteTarget::Backends(vec!["b".to_string()])
        } else {
            RouteTarget::Alias(next.to_string())
        };
        raw.insert(name.to_string(), target);
    }
    raw
}

#[test]
fn chains_lead_to_their_route() {
    let raw = routes(&[("real", ""), ("a", "real"), ("b", "a")]);
    assert_eq!(resolve_alias_chain(&raw, "b"), Ok("real".to_string()));
    assert_eq!(resolve_alias_chain(&raw, "a"), Ok("real".to_string()));
    assert_eq!(resolve_alias_chain(&raw, "real"), Ok("real".to_string()));
}

#[test]
fn a_chain_that_breaks() {
    let raw = routes(&[("a", "b"), ("b", "gone")]);
    assert_eq!(resolve_alias_chain(&raw, "a"), Err("Route 'gone' does not exist".to_string()));
    assert_eq!(resolve_alias_chain(&raw, "x"), Err("Route 'x' does not exist".to_string()));
}

#[test]
fn a_chain_that_goes_round() {
    let raw = routes(&[("start", "a"), ("a", "b"), ("b", "c"), ("c", "a")]);
    assert_eq!(
        resolve_alias_chain(&raw, "start"),
        Err("Detected circular alias reference: a->b->c \u{2192} a".to_string())
    );
    let raw = routes(&[("self", "self")]);
    assert_eq!(
        resolve_alias_chain(&raw, "self"),
        Err("Detected circular alias reference: self \u{2192} self".to_string())
    );
}

#[test]
fn routes_and_aliases_are_kept_apart() {
    let raw = routes(&[("real", ""), ("good", "real"), ("bad", "gone"), ("round", "round")]);
    let separated = separate_routes(&raw);
    assert_eq!(separated.router.len(), 1);
    assert_eq!(separated.router.get("real").unwrap(), &vec!["b".to_string()]);
    assert_eq!(separated.aliases.len(), 1);
    assert_eq!(separated.aliases.get("good").unwrap(), "real");
    assert_eq!(separated.skipped.len(), 2);
    assert_eq!(separated.skipped.get("bad").unwrap(), "Route 'gone' does not exist");
    assert_eq!(
        separated.skipped.get("round").unwrap(),
        "Detected circular alias reference: round \u{2192} round"
    );
}

#[test]
fn names_keep_their_order_and_their_last_value() {
    let mut map: NameMap<String> = NameMap::new();
    assert!(map.is_empty());
    map.insert("b".to_string(), "1".to_string());
    map.insert("a".to_string(), "2".to_string());
    map.insert("b".to_string(), "3".to_string());
    assert_eq!(map.len(), 2);
    assert_eq!(map.name_at(0), "b");
    assert_eq!(map.value_at(0), "3");
    assert_eq!(map.name_at(1), "a");
    assert!(map.contains_key("a"));
    assert!(!map.contains_key("c"));
    *map.get_mut("a").unwrap() = "4".to_string();
    assert!(map.get_mut("c").is_none());
    assert_eq!(map.get("a").unwrap(), "4");
    assert_eq!(
        map.into_entries(),
        vec![("b".to_string(), "3".to_string()), ("a".to_string(), "4".to_string())]
    );
}
