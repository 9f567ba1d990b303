use llm_router::flatten::flatten_table;
use llm_router::toml_doc::{parse_toml, TomlTable, TomlValue};

fn text(s: &str) -> TomlValue {
    TomlValue::String(s.to_string())
}

#[test]
fn test_flatten_table_simple() {
    let table: TomlTable = vec![
        ("key1".to_string(), text("value1")),
        ("key2".to_string(), TomlValue::Integer(42)),
    ];

    let result = flatten_table(&table, "");

    assert_eq!(result.get("key1").unwrap().as_str(), Some("value1"));
    assert_eq!(result.get("key2").unwrap().as_integer(), Some(42));
}

#[test]
fn test_flatten_table_with_prefix() {
    let table: TomlTable = vec![("key1".to_string(), text("value1"))];

    let result = flatten_table(&table, "prefix");

    assert!(result.contains_key("prefix.key1"));
    assert!(!result.contains_key("key1"));
}

#[test]
fn test_flatten_table_nested() {
    let inner: TomlTable = vec![("inner_key".to_string(), text("inner_value"))];
    let table: TomlTable = vec![("outer_key".to_string(), TomlValue::Table(inner))];

    let result = flatten_table(&table, "");

    assert_eq!(result.get("outer_key.inner_key").unwrap().as_str(), Some("inner_value"));
}

#[test]
fn test_flatten_table_backend_config() {
    let table: TomlTable = vec![
        ("base-url".to_string(), text("http://example.com")),
        ("api-key".to_string(), text("secret")),
    ];

    let result = flatten_table(&table, "backend1");

    assert!(result.contains_key("backend1"));
    assert!(!result.contains_key("backend1.base-url"));
}

#[test]
fn later_keys_take_the_place_of_earlier_ones() {
    let doc = parse_toml("\"a.b\" = 1\n[a]\nb = 2\nc = 3\n").unwrap();
    let result = flatten_table(doc.as_table().unwrap(), "");
    assert_eq!(result.len(), 2);
    assert_eq!(result.get("a.c").unwrap().as_integer(), Some(3));
    assert_eq!(result.get("a.b").unwrap().as_integer(), Some(1));
}

#[test]
fn an_empty_table_gives_nothing() {
    let doc = parse_toml("[a]\n[b]\nc = 1\n").unwrap();
    let result = flatten_table(doc.as_table().unwrap(), "x");
    assert_eq!(result.len(), 1);
    assert_eq!(result.name_at(0), "x.b.c");
}

#[test]
fn documents_are_read_in_full() {
    let doc = parse_toml(
        "s = \"text\"\ni = -7\nf = 1.5\nb = true\nd = 1979-05-27\na = [1, \"x\", [2]]\n[t]\nk = \"v\"\n",
    )
    .unwrap();
    assert_eq!(doc.get_str("s"), Some("text"));
    assert_eq!(doc.get_integer("i"), Some(-7));
    assert_eq!(doc.get_integer("f"), None);
    assert_eq!(doc.get_str("b"), None);
    assert!(matches!(doc.get("d"), Some(TomlValue::Other)));
    let items = doc.get("a").unwrap().as_array().unwrap();
    assert_eq!(items.len(), 3);
    assert_eq!(items[0].as_integer(), Some(1));
    assert_eq!(items[1].as_str(), Some("x"));
    assert_eq!(items[2].as_array().unwrap()[0].as_integer(), Some(2));
    assert_eq!(doc.get("t").unwrap().get_str("k"), Some("v"));
    assert!(doc.get("none").is_none());
    assert!(doc.get("s").unwrap().get("k").is_none());
    assert!(parse_toml("a = ").is_err());
}
