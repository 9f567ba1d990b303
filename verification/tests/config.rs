use llm_router::balance::LoadBalanceStrategy;
use llm_router::config::{
    parse_log_level, parse_strategy, read_document, resolve_env_var, strip_bom, Config, LevelFilter,
    ServiceConfig, DEFAULT_RETRY,
};
use llm_router::duration::{parse_duration, Duration, DurationUnit};
use llm_router::names::NameMap;
use llm_router::toml_doc::parse_toml;

/// What a cooldown text is worth.
fn worth(text: &str) -> Option<(String, Duration)> {
    let parts = parse_duration(text)?;
    let number = parts.number.parse::<f32>().ok()?;
    let secs = match parts.unit {
        DurationUnit::Seconds => number,
        DurationUnit::Minutes => number * 60.,
        DurationUnit::Hours => number * 3600.,
    };
    let d = std::time::Duration::from_secs_f32(secs);
    Some((parts.key(), Duration::new(d.as_secs(), d.subsec_nanos())))
}

fn load_with(content: &str, env: &NameMap<String>) -> Result<Config, String> {
    let mut worths = NameMap::new();
    if let Ok(doc) = parse_toml(content) {
        for text in Config::cooldown_texts(&doc) {
            if let Some((key, d)) = worth(&text) {
                worths.insert(key, d);
            }
        }
    }
    Config::from_str(content, env, &worths)
}

fn load(content: &str) -> Result<Config, String> {
    load_with(content, &NameMap::new())
}

#[test]
fn test_minimal_config() {
    let content = r#"
[service]
port = 8000
"#;
    let config = load(content).unwrap();

    assert_eq!(config.service.port, 8000);
    assert_eq!(config.service.log_level, LevelFilter::Info);
    assert_eq!(config._default.retry, DEFAULT_RETRY);
    assert_eq!(config._default.cooldown, Duration::from_mins(3));
    assert!(config.backend.is_empty());
    assert!(config.router.is_empty());
}

#[test]
fn test_service_config() {
    let content = r#"
[service]
port = 9000
log_level = "debug"

[service.default]
retry = 5
cooldown = "30s"
"#;
    let config = load(content).unwrap();

    assert_eq!(config.service.port, 9000);
    assert_eq!(config.service.log_level, LevelFilter::Debug);
    assert_eq!(config._default.retry, 5);
    assert_eq!(config._default.cooldown, Duration::from_secs(30));
}

#[test]
fn test_simple_backend_config() {
    let content = r#"
[service]
port = 8000

[backend]
backend1 = "http://1.2.3.4:30000"
backend2 = "http://1.2.3.4:30001"
"#;
    let config = load(content).unwrap();

    assert_eq!(config.backend.len(), 2);

    let b1 = config.backend.get("backend1").unwrap();
    assert_eq!(b1.base_url.as_str(), "http://1.2.3.4:30000");
    assert_eq!(b1.retry, DEFAULT_RETRY);
    assert_eq!(b1.cooldown, Duration::from_mins(3));
    assert!(b1.api_key.is_none());
    assert!(b1.model.is_none());
}

#[test]
fn test_detailed_backend_config() {
    let content = r#"
[service]
port = 8000

[service.default]
retry = 2
cooldown = "3min"

[backend.aliyun]
base-url = "https://dashscope.aliyuncs.com/apps/anthropic"
api-key = "sk-test-key"
model = "qwen-plus"
retry = 5
cooldown = "30s"
"#;
    let config = load(content).unwrap();

    assert_eq!(config.backend.len(), 1);

    let aliyun = config.backend.get("aliyun").unwrap();
    assert_eq!(
        aliyun.base_url.as_str(),
        "https://dashscope.aliyuncs.com/apps/anthropic"
    );
    assert_eq!(
        aliyun.api_key.as_deref(),
        Some("sk-test-key")
    );
    assert_eq!(aliyun.model.as_deref(), Some("qwen-plus"));
    assert_eq!(aliyun.retry, 5);
    assert_eq!(aliyun.cooldown, Duration::from_secs(30));
}

#[test]
fn test_router_config() {
    let content = r#"
[service]
port = 8000

[backend]
backend1 = "http://1.2.3.4:30000"
backend2 = "http://1.2.3.4:30001"

[router]
Model-A = ["backend1", "backend2"]
Model-B = ["backend2"]
"#;
    let config = load(content).unwrap();

    assert_eq!(config.router.len(), 2);

    let backends = config.router.get("Model-A").unwrap();
    assert_eq!(backends.len(), 2);
    assert_eq!(backends[0].as_str(), "backend1");
    assert_eq!(backends[1].as_str(), "backend2");

    let backends = config.router.get("Model-B").unwrap();
    assert_eq!(backends.len(), 1);
    assert_eq!(backends[0].as_str(), "backend2");
}

#[test]
fn test_alias_config() {
    let content = r#"
[service]
port = 8000

[backend]
backend1 = "http://1.2.3.4:30000"
backend2 = "http://1.2.3.4:30001"

[router]
Model-A = ["backend1", "backend2"]
alias-model = "Model-A"
"#;
    let config = load(content).unwrap();

    assert_eq!(config.router.len(), 1);
    assert!(config.router.contains_key("Model-A"));

    assert_eq!(config.aliases.len(), 1);
    assert_eq!(
        config.aliases.get("alias-model").map(|s| s.as_str()),
        Some("Model-A")
    );
}

#[test]
fn test_alias_chain() {
    let content = r#"
[service]
port = 8000

[backend]
backend1 = "http://1.2.3.4:30000"

[router]
real-model = ["backend1"]
alias1 = "real-model"
alias2 = "alias1"
alias3 = "alias2"
"#;
    let config = load(content).unwrap();

    assert_eq!(config.router.len(), 1);

    assert_eq!(config.aliases.len(), 3);
    assert_eq!(
        config.aliases.get("alias1").map(|s| s.as_str()),
        Some("real-model")
    );
    assert_eq!(
        config.aliases.get("alias2").map(|s| s.as_str()),
        Some("real-model")
    );
    assert_eq!(
        config.aliases.get("alias3").map(|s| s.as_str()),
        Some("real-model")
    );
}

#[test]
fn test_alias_cycle_detection() {
    let content = r#"
[service]
port = 8000

[backend]
backend1 = "http://1.2.3.4:30000"

[router]
real-model = ["backend1"]
alias1 = "alias2"
alias2 = "alias1"
"#;
    let config = load(content).unwrap();

    assert_eq!(config.router.len(), 1);

    assert_eq!(config.aliases.len(), 0);
}

#[test]
fn test_alias_nonexistent_target() {
    let content = r#"
[service]
port = 8000

[backend]
backend1 = "http://1.2.3.4:30000"

[router]
real-model = ["backend1"]
alias1 = "nonexistent"
"#;
    let config = load(content).unwrap();

    assert_eq!(config.router.len(), 1);

    assert_eq!(config.aliases.len(), 0);
}

#[test]
fn test_dotted_key_names() {
    let content = r#"
[service]
port = 8000

[backend]
model1-local = "http://1.2.3.4:30000"
model2-local = "http://1.2.3.4:30001"

[router]
model1 = ["model1-local"]
model2 = ["model2-local"]
"#;
    let config = load(content).unwrap();

    assert_eq!(config.backend.len(), 2);
    assert!(config.backend.contains_key("model1-local"));
    assert!(config.backend.contains_key("model2-local"));
    assert_eq!(config.router.len(), 2);
    assert!(config.router.contains_key("model1"));
    assert!(config.router.contains_key("model2"));
}

#[test]
fn test_mixed_backend_config() {
    let content = r#"
[service]
port = 8000

[service.default]
retry = 2
cooldown = "1min"

[backend]
simple-backend = "http://1.2.3.4:30000"

[backend.detailed]
base-url = "https://api.example.com"
api-key = "sk-key"
retry = 10
cooldown = "5min"
"#;
    let config = load(content).unwrap();

    assert_eq!(config.backend.len(), 2);

    let simple = config.backend.get("simple-backend").unwrap();
    assert_eq!(simple.retry, 2);
    assert_eq!(simple.cooldown, Duration::from_secs(60));
    assert!(simple.api_key.is_none());

    let detailed = config.backend.get("detailed").unwrap();
    assert_eq!(detailed.retry, 10);
    assert_eq!(detailed.cooldown, Duration::from_mins(5));
    assert_eq!(
        detailed.api_key.as_deref(),
        Some("sk-key")
    );
}

#[test]
fn test_missing_service_section() {
    let content = r#"
[backend]
backend1 = "http://1.2.3.4:30000"
"#;
    let result = load(content);
    assert!(result.is_err());
}

#[test]
fn test_missing_port() {
    let content = r#"
[service]
log_level = "info"
"#;
    let result = load(content);
    assert!(result.is_err());
}

#[test]
fn test_production_config() {
    let content = r#"
[service]
port = 9000
log_level = "warn"

[service.default]
retry = 2
cooldown = "3min"

[backend]
model1-local = "http://1.2.3.4:30001"
model2-local = "http://1.2.3.4:30000"

[backend.aliyun]
base-url = "https://dashscope.aliyuncs.com/apps/anthropic"
api-key = "sk-production-key"
retry = 5
cooldown = "30s"

[router]
model1 = ["model1-local", "aliyun"]
model2 = ["model2-local", "aliyun"]
"#;
    let config = load(content).unwrap();

    assert_eq!(config.service.port, 9000);
    assert_eq!(config.service.log_level, LevelFilter::Warn);
    assert_eq!(config._default.retry, 2);
    assert_eq!(config._default.cooldown, Duration::from_secs(180));
    assert_eq!(config.backend.len(), 3);

    let aliyun = config.backend.get("aliyun").unwrap();
    assert_eq!(
        aliyun.base_url.as_str(),
        "https://dashscope.aliyuncs.com/apps/anthropic"
    );
    assert_eq!(aliyun.retry, 5);
    assert_eq!(aliyun.cooldown, Duration::from_secs(30));
    assert_eq!(config.router.len(), 2);

    let backends = config.router.get("model1").unwrap();
    assert_eq!(backends.len(), 2);
    assert_eq!(backends[0].as_str(), "model1-local");
    assert_eq!(backends[1].as_str(), "aliyun");
}

#[test]
fn test_load_balancer_config() {
    let content = r#"
[service]
port = 8000

[backend]
backend1 = "http://1.2.3.4:30000"
backend2 = "http://1.2.3.4:30001"
backend3 = "http://1.2.3.4:30002"

[load-balance.pool1]
backends = ["backend1", "backend2"]
strategy = "shuffle"

[load-balance.pool2]
backends = ["backend1", "backend2", "backend3"]
strategy = "round_robin"

[router]
model-a = ["pool1", "backend3"]
"#;
    let config = load(content).unwrap();

    assert_eq!(config.load_balancer.len(), 2);

    let pool1 = config.load_balancer.get("pool1").unwrap();
    assert_eq!(pool1.backends.len(), 2);
    assert_eq!(pool1.backends[0].as_str(), "backend1");
    assert_eq!(pool1.backends[1].as_str(), "backend2");
    assert!(matches!(pool1.strategy, LoadBalanceStrategy::Shuffle));

    let pool2 = config.load_balancer.get("pool2").unwrap();
    assert_eq!(pool2.backends.len(), 3);
    assert!(matches!(pool2.strategy, LoadBalanceStrategy::RoundRobin));

    assert_eq!(config.router.len(), 1);
    let model_a = config.router.get("model-a").unwrap();
    assert_eq!(model_a.len(), 2);
    assert_eq!(model_a[0].as_str(), "pool1");
    assert_eq!(model_a[1].as_str(), "backend3");
}

#[test]
fn test_load_balancer_default_strategy() {
    let content = r#"
[service]
port = 8000

[backend]
backend1 = "http://1.2.3.4:30000"

[load-balance.pool1]
backends = ["backend1"]
"#;
    let config = load(content).unwrap();

    let pool1 = config.load_balancer.get("pool1").unwrap();
    assert!(matches!(pool1.strategy, LoadBalanceStrategy::Shuffle));
}

#[test]
fn test_load_balancer_missing_backends() {
    let content = r#"
[service]
port = 8000

[load-balance.pool1]
strategy = "shuffle"
"#;
    let result = load(content);
    assert!(result.is_err());
    assert!(result.unwrap_err().contains("backends"));
}

#[test]
fn test_load_balancer_empty_backends_array() {
    let content = r#"
[service]
port = 8000

[load-balance.pool1]
backends = []
strategy = "shuffle"
"#;
    let result = load(content);
    assert!(result.is_ok());
}

#[test]
fn test_load_balancer_references_nonexistent_backend() {
    let content = r#"
[service]
port = 8000

[backend]
real-backend = "http://1.2.3.4:30000"

[load-balance.pool1]
backends = ["real-backend", "nonexistent-backend"]
strategy = "shuffle"

[router]
model-a = ["pool1"]
"#;
    let config = load(content).unwrap();
    assert!(config.load_balancer.contains_key("pool1"));
}

#[test]
fn test_resolve_env_var_with_env() {
    let mut env = NameMap::new();
    env.insert("TEST_VAR".to_string(), "test_value".to_string());
    let result = resolve_env_var("$TEST_VAR", &env);
    assert_eq!(result, "test_value");
}

#[test]
fn test_resolve_env_var_without_env() {
    let result = resolve_env_var("$NONEXISTENT_VAR_12345", &NameMap::new());
    assert_eq!(result, "$NONEXISTENT_VAR_12345");
}

#[test]
fn test_resolve_env_var_not_a_var() {
    let mut env = NameMap::new();
    env.insert("plain_value".to_string(), "other".to_string());
    let result = resolve_env_var("plain_value", &env);
    assert_eq!(result, "plain_value");
}

#[test]
fn test_load_balancer_strategy_case_insensitive() {
    let test_cases = vec![
        ("shuffle", LoadBalanceStrategy::Shuffle),
        ("SHUFFLE", LoadBalanceStrategy::Shuffle),
        ("Shuffle", LoadBalanceStrategy::Shuffle),
        ("random", LoadBalanceStrategy::Shuffle),
        ("RANDOM", LoadBalanceStrategy::Shuffle),
        ("round_robin", LoadBalanceStrategy::RoundRobin),
        ("ROUND_ROBIN", LoadBalanceStrategy::RoundRobin),
        ("round-robin", LoadBalanceStrategy::RoundRobin),
        ("ROUND-ROBIN", LoadBalanceStrategy::RoundRobin),
        ("invalid", LoadBalanceStrategy::Shuffle),
    ];

    for (input, expected) in test_cases {
        let result = parse_strategy(input);
        assert_eq!(result, expected, "Failed for input: {}", input);
    }
}

#[test]
fn log_levels_in_any_case() {
    let cases = vec![
        ("trace", LevelFilter::Trace),
        ("DEBUG", LevelFilter::Debug),
        ("Info", LevelFilter::Info),
        ("warn", LevelFilter::Warn),
        ("ERROR", LevelFilter::Error),
        ("oFF", LevelFilter::Off),
        ("loud", LevelFilter::Info),
        ("", LevelFilter::Info),
    ];
    for (text, level) in cases {
        assert_eq!(parse_log_level(text), level, "{}", text);
        let content = format!("[service]\nport = 1\nlog_level = \"{}\"\n", text);
        assert_eq!(load(&content).unwrap().service.log_level, level, "{}", text);
    }
}

#[test]
fn every_refusal_has_its_message() {
    let cases = vec![
        ("", "missing [service] section"),
        ("service = 1\n", "[service] must be a table"),
        ("[service]\n", "missing or invalid service.port"),
        ("[service]\nport = \"x\"\n", "missing or invalid service.port"),
        ("backend = 1\n[service]\nport = 1\n", "[backend] must be a table"),
        ("[service]\nport = 1\n[backend]\na = 1\n", "Invalid backend value format"),
        (
            "[service]\nport = 1\n[backend.a]\nbase-url = 1\n",
            "Missing base-url in backend details",
        ),
        ("load-balance = 1\n[service]\nport = 1\n", "[load-balance] must be a table"),
        (
            "[service]\nport = 1\n[load-balance]\na = 1\n",
            "Invalid load-balance value format, must be a table",
        ),
        (
            "[service]\nport = 1\n[load-balance.a]\nbackends = \"b\"\n",
            "Missing or invalid 'backends' in load-balance config",
        ),
        (
            "[service]\nport = 1\n[load-balance.a]\nbackends = [\"b\", 1]\n",
            "backends array values must be strings",
        ),
        ("router = 1\n[service]\nport = 1\n", "[router] must be a table"),
        ("[service]\nport = 1\n[router]\na = 1\n", "Invalid route format"),
        ("[service]\nport = 1\n[router]\na = [1]\n", "router array values must be strings"),
    ];
    for (content, message) in cases {
        assert_eq!(load(content).unwrap_err(), message, "{}", content);
    }
}

#[test]
fn a_text_that_is_no_toml_is_refused() {
    let message = load("[service").unwrap_err();
    assert!(message.contains("TOML parse error"), "{}", message);
}

#[test]
fn numbers_are_cut_to_size() {
    let config = load("[service]\nport = 65537\n").unwrap();
    assert_eq!(config.service.port, 1);
    let config = load("[service]\nport = -1\n[service.default]\nretry = -1\n").unwrap();
    assert_eq!(config.service.port, 65535);
    assert_eq!(config._default.retry, usize::MAX);
}

#[test]
fn dotted_names_are_joined() {
    let config = load(
        "[service]\nport = 1\n[backend]\na.b = \"http://x\"\n[backend.c.d]\nbase-url = \"http://y\"\n\
         [router]\nm.one = [\"a.b\", \"c.d\"]\nm.two = \"m.one\"\n",
    )
    .unwrap();
    assert_eq!(config.backend.get("a.b").unwrap().base_url, "http://x");
    assert_eq!(config.backend.get("c.d").unwrap().base_url, "http://y");
    assert_eq!(config.router.get("m.one").unwrap().len(), 2);
    assert_eq!(config.aliases.get("m.two").unwrap(), "m.one");
}

#[test]
fn keys_come_from_the_environment() {
    let mut env = NameMap::new();
    env.insert("KEY".to_string(), "sk-from-env".to_string());
    let content = "[service]\nport = 1\n\
                   [backend.a]\nbase-url = \"http://x\"\napi-key = \"$KEY\"\n\
                   [backend.b]\nbase-url = \"$KEY\"\napi-key = \"$OTHER\"\nmodel = \"$KEY\"\n";
    let config = load_with(content, &env).unwrap();
    assert_eq!(config.backend.get("a").unwrap().api_key.as_deref(), Some("sk-from-env"));
    let b = config.backend.get("b").unwrap();
    assert_eq!(b.api_key.as_deref(), Some("$OTHER"));
    assert_eq!(b.base_url, "$KEY");
    assert_eq!(b.model.as_deref(), Some("$KEY"));
}

#[test]
fn cooldown_texts_are_those_that_count() {
    let doc = parse_toml(
        "[service]\nport = 1\n[service.default]\ncooldown = \"1h\"\n\
         [backend]\na = \"http://x\"\n[backend.b]\nbase-url = \"http://y\"\ncooldown = \" 7s \"\n\
         [backend.c]\nbase-url = \"http://z\"\ncooldown = 7\n",
    )
    .unwrap();
    assert_eq!(Config::cooldown_texts(&doc), vec!["1h".to_string(), " 7s ".to_string()]);

    let mut worths = NameMap::new();
    worths.insert("1h".to_string(), Duration::from_secs(1));
    worths.insert("7s".to_string(), Duration::from_secs(2));
    worths.insert("8s".to_string(), Duration::from_secs(3));
    let config = Config::from_document(&doc, &NameMap::new(), &worths).unwrap();
    assert_eq!(config._default.cooldown, Duration::from_secs(1));
    assert_eq!(config.backend.get("a").unwrap().cooldown, Duration::from_secs(1));
    assert_eq!(config.backend.get("b").unwrap().cooldown, Duration::from_secs(2));
    assert_eq!(config.backend.get("c").unwrap().cooldown, Duration::from_secs(1));
}

#[test]
fn cooldown_that_is_no_duration_is_ignored() {
    let config = load(
        "[service]\nport = 1\n[service.default]\ncooldown = \"soon\"\n\
         [backend.b]\nbase-url = \"http://y\"\ncooldown = \"xs\"\n",
    )
    .unwrap();
    assert_eq!(config._default.cooldown, Duration::from_mins(3));
    assert_eq!(config.backend.get("b").unwrap().cooldown, Duration::from_mins(3));
}

#[test]
fn byte_order_mark_is_taken_off() {
    assert_eq!(strip_bom("\u{feff}[service]"), "[service]");
    assert_eq!(strip_bom("[service]\u{feff}"), "[service]\u{feff}");
    assert_eq!(strip_bom("\u{feff}\u{feff}"), "\u{feff}");
    assert_eq!(strip_bom(""), "");
}

#[test]
fn skipped_aliases_say_why() {
    let doc = parse_toml(
        "[service]\nport = 1\n[router]\nreal = []\ngood = \"real\"\nbad = \"gone\"\none = \"two\"\n\
         two = \"one\"\n",
    )
    .unwrap();
    let skipped = Config::skipped_aliases(&doc);
    assert_eq!(skipped.len(), 3);
    assert_eq!(skipped.get("bad").unwrap(), "Route 'gone' does not exist");
    assert_eq!(
        skipped.get("one").unwrap(),
        "Detected circular alias reference: two->one \u{2192} two"
    );
    assert!(skipped.get("good").is_none());
    let doc = parse_toml("[service]\nport = 1\n[router]\na = 1\nb = \"c\"\n").unwrap();
    assert!(Config::skipped_aliases(&doc).is_empty());
}

#[test]
fn the_service_alone() {
    let doc = parse_toml("backend = 1\n[service]\nport = 80\nlog_level = \"off\"\n").unwrap();
    let service = ServiceConfig::from_document(&doc).unwrap();
    assert_eq!(service.port, 80);
    assert_eq!(service.log_level, LevelFilter::Off);
    let doc = parse_toml("[service]\n").unwrap();
    assert_eq!(
        ServiceConfig::from_document(&doc).unwrap_err(),
        "missing or invalid service.port"
    );
}

#[test]
fn cooldown_of_a_table_that_is_no_backend_does_not_count() {
    let doc = parse_toml("[backend.b]\nbase-url = 1\ncooldown = \"7s\"\n").unwrap();
    assert!(Config::cooldown_texts(&doc).is_empty());
}

#[test]
fn pools_are_what_their_entries_say() {
    let config = load(
        "[service]\nport = 1\n[load-balance]\np.backends = [\"x\"]\nq.backends = [\"y\"]\n\
         q.strategy = \"Round-Robin\"\n",
    )
    .unwrap();
    assert_eq!(config.load_balancer.get("p").unwrap().get_backend(0), Some("x"));
    assert_eq!(config.load_balancer.get("q").unwrap().get_backend(0), Some("y"));
    assert_eq!(config.load_balancer.get("q").unwrap().strategy, LoadBalanceStrategy::RoundRobin);
    assert_eq!(config.load_balancer.get("q").unwrap().counter, 0);
}

#[test]
fn files_load_with_and_without_a_byte_order_mark() {
    let (env, worths) = (NameMap::new(), NameMap::new());
    for content in ["[service]\nport = 9\n", "\u{feff}[service]\nport = 9\n"] {
        let config = Config::load(Ok(content.to_string()), &env, &worths).unwrap();
        assert_eq!(config.service.port, 9);
        assert!(read_document(content).unwrap().get("service").is_some());
    }
    let message = Config::load(Ok("\u{feff}".to_string()), &env, &worths).unwrap_err();
    assert_eq!(message, "missing [service] section");
    let message = Config::load(Err("no such file".to_string()), &env, &worths).unwrap_err();
    assert_eq!(message, "no such file");
    assert!(Config::load(Ok("\u{feff}\u{feff}".to_string()), &env, &worths).is_err());
}
