//! The configuration of the router, built from a TOML text.

use crate::balance::{LoadBalanceStrategy, LoadBalancerConfig, PoolView};
use crate::duration::{duration_parts, parse_duration, suffix_of, Duration};
use crate::flatten::{flatten_table, flattened, law_flattened_keys_are_distinct};
use crate::names::{
    distinct, lemma_select, lemma_try_values_agree, lemma_try_values_distinct, lemma_try_values_error,
    lemma_try_values_lookup, lookup, try_values, NameMap,
};
use crate::routes::{
    alias_end, aliases_of, law_aliases_lead_to_routes, listed_backends, routes_of, separate_routes,
    skipped_of, Entries, RouteTarget, Target,
};
use crate::text::{lowercase, lowercased, outcome, same, strip_prefix_char};
use crate::toml_doc::{
    entries_content, lemma_entries_content, lemma_tidy_entry, lemma_values_content, parse_toml,
    tidy, toml_document, values_content, Toml, TomlValue,
};
use vstd::prelude::*;

verus! {

/// How much is logged.
#[derive(Clone, Copy, Debug, PartialEq, Eq, Structural)]
pub enum LevelFilter {
    Off,
    Error,
    Warn,
    Info,
    Debug,
    Trace,
}

/// The service itself.
#[derive(Clone, Copy, Debug, PartialEq, Eq, Structural)]
pub struct ServiceConfig {
    pub port: u16,
    pub log_level: LevelFilter,
}

impl DeepView for ServiceConfig {
    type V = ServiceConfig;

    open spec fn deep_view(&self) -> ServiceConfig {
        *self
    }
}

/// What holds for backends that do not say otherwise.
#[derive(Clone, Copy, Debug, PartialEq, Eq, Structural)]
pub struct ServiceDefault {
    pub retry: usize,
    pub cooldown: Duration,
}

/// What [`ServiceDefault`] holds.
pub struct DefaultView {
    pub retry: usize,
    pub cooldown: nat,
}

impl DeepView for ServiceDefault {
    type V = DefaultView;

    open spec fn deep_view(&self) -> DefaultView {
        DefaultView { retry: self.retry, cooldown: self.cooldown@ }
    }
}

pub const DEFAULT_RETRY: usize = 3;

/// Three minutes, in nanoseconds.
pub const DEFAULT_COOLDOWN_NANOS: u64 = 180_000_000_000;

/// The defaults where a configuration gives none.
pub open spec fn builtin_default() -> DefaultView {
    DefaultView { retry: DEFAULT_RETRY, cooldown: DEFAULT_COOLDOWN_NANOS as nat }
}

impl Default for ServiceDefault {
    fn default() -> (r: Self)
        ensures
            r.deep_view() == builtin_default(),
    {
        ServiceDefault { retry: DEFAULT_RETRY, cooldown: Duration::from_mins(3) }
    }
}

/// One backend.
#[derive(Debug)]
pub struct BackendConfig {
    pub base_url: String,
    pub api_key: Option<String>,
    pub model: Option<String>,
    pub retry: usize,
    pub cooldown: Duration,
}

/// What [`BackendConfig`] holds.
pub struct BackendView {
    pub base_url: Seq<char>,
    pub api_key: Option<Seq<char>>,
    pub model: Option<Seq<char>>,
    pub retry: usize,
    pub cooldown: nat,
}

impl DeepView for BackendConfig {
    type V = BackendView;

    open spec fn deep_view(&self) -> BackendView {
        BackendView {
            base_url: self.base_url@,
            api_key: self.api_key.deep_view(),
            model: self.model.deep_view(),
            retry: self.retry,
            cooldown: self.cooldown@,
        }
    }
}

/// The environment of the program: variables by name.
pub type Env = Seq<(Seq<char>, Seq<char>)>;

/// What duration texts are worth, in nanoseconds, by the text without white space
/// at its ends.
pub type Worths = Seq<(Seq<char>, nat)>;

/// What a configuration value stands for: of `$NAME` the variable `NAME`, where the
/// environment has it, and otherwise the value itself.
pub open spec fn env_value(value: Seq<char>, env: Env) -> Seq<char> {
    if value.len() > 0 && value[0] == '$' {
        match lookup(env, value.drop_first()) {
            Some(v) => v,
            None => value,
        }
    } else {
        value
    }
}

/// Resolves a reference to an environment variable: `$NAME`.
pub fn resolve_env_var(value: &str, env: &NameMap<String>) -> (r: String)
    ensures
        r@ == env_value(value@, env@),
{
    match strip_prefix_char(value, '$') {
        Some(name) => {
            proof {
                assert(value@.drop_first() =~= name@);
            }
            match env.get(name) {
                Some(v) => v.clone(),
                None => value.to_owned(),
            }
        },
        None => value.to_owned(),
    }
}

/// The level of this name, in lower case. Any other text names `Info`.
pub open spec fn named_level(name: Seq<char>) -> LevelFilter {
    if name == "trace"@ {
        LevelFilter::Trace
    } else if name == "debug"@ {
        LevelFilter::Debug
    } else if name == "warn"@ {
        LevelFilter::Warn
    } else if name == "error"@ {
        LevelFilter::Error
    } else if name == "off"@ {
        LevelFilter::Off
    } else {
        LevelFilter::Info
    }
}

/// The level of this name, in lower case.
pub fn level_named(name: &str) -> (r: LevelFilter)
    ensures
        r == named_level(name@),
{
    if same(name, "trace") {
        LevelFilter::Trace
    } else if same(name, "debug") {
        LevelFilter::Debug
    } else if same(name, "warn") {
        LevelFilter::Warn
    } else if same(name, "error") {
        LevelFilter::Error
    } else if same(name, "off") {
        LevelFilter::Off
    } else {
        LevelFilter::Info
    }
}

/// The level that a text names, in whatever case.
pub open spec fn level_of(text: Seq<char>) -> LevelFilter {
    named_level(lowercased(text))
}

/// The level that a text names, in whatever case.
pub fn parse_log_level(text: &str) -> (r: LevelFilter)
    ensures
        r == level_of(text@),
{
    level_named(lowercase(text).as_str())
}

/// The strategy of this name, in lower case. Any text but those for choosing in
/// turn names `Shuffle`.
pub open spec fn named_strategy(name: Seq<char>) -> LoadBalanceStrategy {
    if name == "round_robin"@ || name == "round-robin"@ {
        LoadBalanceStrategy::RoundRobin
    } else {
        LoadBalanceStrategy::Shuffle
    }
}

/// The strategy of this name, in lower case.
pub fn strategy_named(name: &str) -> (r: LoadBalanceStrategy)
    ensures
        r == named_strategy(name@),
{
    if same(name, "round_robin") || same(name, "round-robin") {
        LoadBalanceStrategy::RoundRobin
    } else {
        LoadBalanceStrategy::Shuffle
    }
}

/// The strategy that a text names, in whatever case.
pub open spec fn strategy_of(text: Seq<char>) -> LoadBalanceStrategy {
    named_strategy(lowercased(text))
}

/// The strategy that a text names, in whatever case.
pub fn parse_strategy(text: &str) -> (r: LoadBalanceStrategy)
    ensures
        r == strategy_of(text@),
{
    strategy_named(lowercase(text).as_str())
}

/// Level and strategy texts that differ in case alone name the same.
pub proof fn law_case_does_not_matter(a: Seq<char>, b: Seq<char>)
    requires
        lowercased(a) == lowercased(b),
    ensures
        level_of(a) == level_of(b),
        strategy_of(a) == strategy_of(b),
{
}

/// What a cooldown text is worth: nothing if it is no duration text, and otherwise
/// what `worths` says of it.
pub open spec fn cooldown_worth(text: Seq<char>, worths: Worths) -> Option<nat> {
    match duration_parts(text) {
        Some((number, unit)) => lookup(worths, number + suffix_of(unit)),
        None => None,
    }
}

/// What a cooldown text is worth.
fn cooldown_of(text: &str, worths: &NameMap<Duration>) -> (r: Option<Duration>)
    ensures
        r.deep_view() == cooldown_worth(text@, worths@),
{
    match parse_duration(text) {
        Some(parts) => match worths.get(parts.key().as_str()) {
            Some(d) => Some(*d),
            None => None,
        },
        None => None,
    }
}

/// The cooldown that a table gives, if it gives one.
pub open spec fn table_cooldown(table: Toml, worths: Worths) -> Option<nat> {
    match table.get_str("cooldown"@) {
        Some(text) => cooldown_worth(text, worths),
        None => None,
    }
}

fn read_cooldown(table: &TomlValue, worths: &NameMap<Duration>, otherwise: Duration) -> (r: Duration)
    ensures
        r@ == (match table_cooldown(table.content(), worths@) {
            Some(nanos) => nanos,
            None => otherwise@,
        }),
{
    match table.get_str("cooldown") {
        Some(text) => match cooldown_of(text, worths) {
            Some(d) => d,
            None => otherwise,
        },
        None => otherwise,
    }
}

/// The number of attempts that a table gives, if it gives one.
pub open spec fn table_retry(table: Toml) -> Option<usize> {
    match table.get_integer("retry"@) {
        Some(i) => Some(i as usize),
        None => None,
    }
}

fn read_retry(table: &TomlValue, otherwise: usize) -> (r: usize)
    ensures
        r == (match table_retry(table.content()) {
            Some(n) => n,
            None => otherwise,
        }),
{
    match table.get_integer("retry") {
        Some(i) => i as usize,
        None => otherwise,
    }
}

/// The defaults that the table of the service gives.
pub open spec fn default_of(service: Toml, worths: Worths) -> DefaultView {
    match service.get("default"@) {
        Some(table) => DefaultView {
            retry: match table_retry(table) {
                Some(n) => n,
                None => builtin_default().retry,
            },
            cooldown: match table_cooldown(table, worths) {
                Some(nanos) => nanos,
                None => builtin_default().cooldown,
            },
        },
        None => builtin_default(),
    }
}

fn read_default(service: &TomlValue, worths: &NameMap<Duration>) -> (r: ServiceDefault)
    ensures
        r.deep_view() == default_of(service.content(), worths@),
{
    let builtin = ServiceDefault::default();
    match service.get("default") {
        Some(table) => ServiceDefault {
            retry: read_retry(table, builtin.retry),
            cooldown: read_cooldown(table, worths, builtin.cooldown),
        },
        None => builtin,
    }
}

/// The log level that the table of the service gives.
pub open spec fn service_level(service: Toml) -> LevelFilter {
    match service.get_str("log_level"@) {
        Some(text) => level_of(text),
        None => LevelFilter::Info,
    }
}

/// The backend that an entry describes: by its address alone, or by a table.
pub open spec fn backend_of(default: DefaultView, env: Env, worths: Worths) -> spec_fn(Toml) -> Result<
    BackendView,
    Seq<char>,
> {
    |value: Toml|
        match value {
            Toml::String(url) => Ok(
                BackendView {
                    base_url: url,
                    api_key: None,
                    model: None,
                    retry: default.retry,
                    cooldown: default.cooldown,
                },
            ),
            Toml::Table(_) => match value.get_str("base-url"@) {
                Some(url) => Ok(
                    BackendView {
                        base_url: url,
                        api_key: match value.get_str("api-key"@) {
                            Some(key) => Some(env_value(key, env)),
                            None => None,
                        },
                        model: value.get_str("model"@),
                        retry: match table_retry(value) {
                            Some(n) => n,
                            None => default.retry,
                        },
                        cooldown: match table_cooldown(value, worths) {
                            Some(nanos) => nanos,
                            None => default.cooldown,
                        },
                    },
                ),
                None => Err("Missing base-url in backend details"@),
            },
            _ => Err("Invalid backend value format"@),
        }
}

fn read_backend(
    value: &TomlValue,
    default: &ServiceDefault,
    env: &NameMap<String>,
    worths: &NameMap<Duration>,
) -> (r: Result<BackendConfig, String>)
    ensures
        outcome(r) == backend_of(default.deep_view(), env@, worths@)(value.content()),
{
    match value {
        TomlValue::String(url) => Ok(
            BackendConfig {
                base_url: url.clone(),
                api_key: None,
                model: None,
                retry: default.retry,
                cooldown: default.cooldown,
            },
        ),
        TomlValue::Table(_) => match value.get_str("base-url") {
            Some(url) => {
                let api_key = match value.get_str("api-key") {
                    Some(key) => Some(resolve_env_var(key, env)),
                    None => None,
                };
                let model = match value.get_str("model") {
                    Some(model) => Some(model.to_owned()),
                    None => None,
                };
                Ok(
                    BackendConfig {
                        base_url: url.to_owned(),
                        api_key,
                        model,
                        retry: read_retry(value, default.retry),
                        cooldown: read_cooldown(value, worths, default.cooldown),
                    },
                )
            },
            None => Err("Missing base-url in backend details".to_owned()),
        },
        _ => Err("Invalid backend value format".to_owned()),
    }
}

/// The backends that the `backend` section gives.
pub open spec fn backends_of(
    section: Option<Toml>,
    default: DefaultView,
    env: Env,
    worths: Worths,
) -> Result<Seq<(Seq<char>, BackendView)>, Seq<char>> {
    match section {
        None => Ok(Seq::empty()),
        Some(Toml::Table(table)) => try_values(
            flattened(table, ""@),
            backend_of(default, env, worths),
        ),
        Some(_) => Err("[backend] must be a table"@),
    }
}

fn read_backends(
    section: Option<&TomlValue>,
    default: &ServiceDefault,
    env: &NameMap<String>,
    worths: &NameMap<Duration>,
) -> (r: Result<NameMap<BackendConfig>, String>)
    ensures
        outcome(r) == backends_of(content_of(section), default.deep_view(), env@, worths@),
{
    let mut out: NameMap<BackendConfig> = NameMap::new();
    match section {
        None => Ok(out),
        Some(TomlValue::Table(table)) => {
            let flat = flatten_table(table, "");
            let ghost all = flat@;
            let ghost f = backend_of(default.deep_view(), env@, worths@);
            let n: usize = flat.len();
            let mut i: usize = 0;
            proof {
                assert(all.take(0) =~= Seq::empty());
            }
            while i < n
                invariant
                    n == all.len(),
                    all == flat@,
                    f == backend_of(default.deep_view(), env@, worths@),
                    0 <= i <= n,
                    try_values(all.take(i as int), f) == Ok::<
                        Seq<(Seq<char>, BackendView)>,
                        Seq<char>,
                    >(out@),
                    all == flattened(entries_content(table@), ""@),
                    content_of(section) == Some(Toml::Table(entries_content(table@))),
                decreases n - i,
            {
                proof {
                    assert(all.take(i + 1).drop_last() =~= all.take(i as int));
                    assert(all.take(i + 1).last() == all[i as int]);
                }
                match read_backend(flat.value_at(i), default, env, worths) {
                    Ok(b) => {
                        out.insert(flat.name_at(i).to_owned(), b);
                    },
                    Err(m) => {
                        proof {
                            lemma_try_values_error(all, f, i + 1);
                        }
                        return Err(m);
                    },
                }
                i = i + 1;
            }
            assert(all.take(i as int) =~= all);
            Ok(out)
        },
        Some(_) => Err("[backend] must be a table".to_owned()),
    }
}

/// What a section holds, if it is there.
pub open spec fn content_of(section: Option<&TomlValue>) -> Option<Toml> {
    match section {
        Some(v) => Some(v.content()),
        None => None,
    }
}

/// The strings of an array, if it holds nothing else.
pub open spec fn names_of(items: Seq<Toml>) -> Option<Seq<Seq<char>>> {
    if forall|i: int| 0 <= i < items.len() ==> (#[trigger] items[i]) is String {
        Some(Seq::new(items.len(), |i: int| items[i]->String_0))
    } else {
        None
    }
}

fn read_names(items: &Vec<TomlValue>) -> (r: Option<Vec<String>>)
    ensures
        r.deep_view() == names_of(values_content(items@)),
{
    let ghost all = values_content(items@);
    let mut out: Vec<String> = Vec::new();
    let mut i: usize = 0;
    proof {
        lemma_values_content(items@);
    }
    while i < items.len()
        invariant
            0 <= i <= items@.len(),
            out@.len() == i,
            all == values_content(items@),
            all.len() == items@.len(),
            forall|j: int| 0 <= j < items@.len() ==> #[trigger] all[j] == items@[j].content(),
            forall|j: int| 0 <= j < i ==> #[trigger] all[j] == Toml::String(out@[j]@),
        decreases items@.len() - i,
    {
        match items[i].as_str() {
            Some(s) => {
                out.push(s.to_owned());
            },
            None => {
                assert(!(all[i as int] is String));
                return None;
            },
        }
        i = i + 1;
    }
    assert(out.deep_view() =~= Seq::new(all.len(), |j: int| all[j]->String_0));
    Some(out)
}

/// The pool that an entry of the `load-balance` section describes.
pub open spec fn pool_of() -> spec_fn(Toml) -> Result<PoolView, Seq<char>> {
    |value: Toml|
        match value {
            Toml::Table(_) => match value.get("backends"@) {
                Some(Toml::Array(items)) => match names_of(items) {
                    Some(names) => Ok(
                        PoolView {
                            strategy: match value.get_str("strategy"@) {
                                Some(text) => strategy_of(text),
                                None => LoadBalanceStrategy::Shuffle,
                            },
                            backends: names,
                            counter: 0,
                        },
                    ),
                    None => Err("backends array values must be strings"@),
                },
                _ => Err("Missing or invalid 'backends' in load-balance config"@),
            },
            _ => Err("Invalid load-balance value format, must be a table"@),
        }
}

fn read_pool(value: &TomlValue) -> (r: Result<LoadBalancerConfig, String>)
    ensures
        outcome(r) == pool_of()(value.content()),
{
    match value {
        TomlValue::Table(_) => match value.get("backends") {
            Some(TomlValue::Array(items)) => match read_names(items) {
                Some(backends) => {
                    let strategy = match value.get_str("strategy") {
                        Some(text) => parse_strategy(text),
                        None => LoadBalanceStrategy::default(),
                    };
                    Ok(LoadBalancerConfig { strategy, backends, counter: 0 })
                },
                None => Err("backends array values must be strings".to_owned()),
            },
            _ => Err("Missing or invalid 'backends' in load-balance config".to_owned()),
        },
        _ => Err("Invalid load-balance value format, must be a table".to_owned()),
    }
}

/// The pools that the `load-balance` section gives.
pub open spec fn pools_of(section: Option<Toml>) -> Result<Seq<(Seq<char>, PoolView)>, Seq<char>> {
    match section {
        None => Ok(Seq::empty()),
        Some(Toml::Table(table)) => try_values(table, pool_of()),
        Some(_) => Err("[load-balance] must be a table"@),
    }
}

fn read_pools(section: Option<&TomlValue>) -> (r: Result<NameMap<LoadBalancerConfig>, String>)
    ensures
        outcome(r) == pools_of(content_of(section)),
{
    let mut out: NameMap<LoadBalancerConfig> = NameMap::new();
    match section {
        None => Ok(out),
        Some(TomlValue::Table(table)) => {
            let ghost all = entries_content(table@);
            let mut i: usize = 0;
            proof {
                lemma_entries_content(table@);
                assert(all.take(0) =~= Seq::empty());
            }
            while i < table.len()
                invariant
                    all == entries_content(table@),
                    all.len() == table@.len(),
                    forall|j: int|
                        0 <= j < table@.len() ==> #[trigger] all[j] == (
                            table@[j].0@,
                            table@[j].1.content(),
                        ),
                    0 <= i <= table@.len(),
                    try_values(all.take(i as int), pool_of()) == Ok::<
                        Seq<(Seq<char>, PoolView)>,
                        Seq<char>,
                    >(out@),
                    content_of(section) == Some(Toml::Table(all)),
                decreases table@.len() - i,
            {
                proof {
                    assert(all.take(i + 1).drop_last() =~= all.take(i as int));
                    assert(all.take(i + 1).last() == all[i as int]);
                }
                match read_pool(&table[i].1) {
                    Ok(p) => {
                        out.insert(table[i].0.clone(), p);
                    },
                    Err(m) => {
                        proof {
                            lemma_try_values_error(all, pool_of(), i + 1);
                        }
                        return Err(m);
                    },
                }
                i = i + 1;
            }
            assert(all.take(i as int) =~= all);
            Ok(out)
        },
        Some(_) => Err("[load-balance] must be a table".to_owned()),
    }
}

/// What an entry of the `router` section stands for.
pub open spec fn target_of() -> spec_fn(Toml) -> Result<Target, Seq<char>> {
    |value: Toml|
        match value {
            Toml::String(next) => Ok(Target::Alias(next)),
            Toml::Array(items) => match names_of(items) {
                Some(names) => Ok(Target::Backends(names)),
                None => Err("router array values must be strings"@),
            },
            _ => Err("Invalid route format"@),
        }
}

fn read_target(value: &TomlValue) -> (r: Result<RouteTarget, String>)
    ensures
        outcome(r) == target_of()(value.content()),
{
    match value {
        TomlValue::String(next) => Ok(RouteTarget::Alias(next.clone())),
        TomlValue::Array(items) => match read_names(items) {
            Some(names) => Ok(RouteTarget::Backends(names)),
            None => Err("router array values must be strings".to_owned()),
        },
        _ => Err("Invalid route format".to_owned()),
    }
}

/// The entries that the `router` section gives.
pub open spec fn targets_of(section: Option<Toml>) -> Result<Entries, Seq<char>> {
    match section {
        None => Ok(Seq::empty()),
        Some(Toml::Table(table)) => try_values(flattened(table, ""@), target_of()),
        Some(_) => Err("[router] must be a table"@),
    }
}

fn read_targets(section: Option<&TomlValue>) -> (r: Result<NameMap<RouteTarget>, String>)
    ensures
        outcome(r) == targets_of(content_of(section)),
{
    let mut out: NameMap<RouteTarget> = NameMap::new();
    match section {
        None => Ok(out),
        Some(TomlValue::Table(table)) => {
            let flat = flatten_table(table, "");
            let ghost all = flat@;
            let n: usize = flat.len();
            let mut i: usize = 0;
            proof {
                assert(all.take(0) =~= Seq::empty());
            }
            while i < n
                invariant
                    n == all.len(),
                    all == flat@,
                    0 <= i <= n,
                    try_values(all.take(i as int), target_of()) == Ok::<Entries, Seq<char>>(out@),
                    all == flattened(entries_content(table@), ""@),
                    content_of(section) == Some(Toml::Table(entries_content(table@))),
                decreases n - i,
            {
                proof {
                    assert(all.take(i + 1).drop_last() =~= all.take(i as int));
                    assert(all.take(i + 1).last() == all[i as int]);
                }
                match read_target(flat.value_at(i)) {
                    Ok(t) => {
                        out.insert(flat.name_at(i).to_owned(), t);
                    },
                    Err(m) => {
                        proof {
                            lemma_try_values_error(all, target_of(), i + 1);
                        }
                        return Err(m);
                    },
                }
                i = i + 1;
            }
            assert(all.take(i as int) =~= all);
            Ok(out)
        },
        Some(_) => Err("[router] must be a table".to_owned()),
    }
}

/// The configuration of the router.
#[derive(Debug)]
pub struct Config {
    pub service: ServiceConfig,
    pub backend: NameMap<BackendConfig>,
    pub load_balancer: NameMap<LoadBalancerConfig>,
    pub aliases: NameMap<String>,
    pub router: NameMap<Vec<String>>,
    pub _default: ServiceDefault,
}

/// What a [`Config`] holds.
pub struct ConfigView {
    pub service: ServiceConfig,
    pub backend: Seq<(Seq<char>, BackendView)>,
    pub load_balancer: Seq<(Seq<char>, PoolView)>,
    pub aliases: Seq<(Seq<char>, Seq<char>)>,
    pub router: Seq<(Seq<char>, Seq<Seq<char>>)>,
    pub default: DefaultView,
}

impl DeepView for Config {
    type V = ConfigView;

    open spec fn deep_view(&self) -> ConfigView {
        ConfigView {
            service: self.service,
            backend: self.backend@,
            load_balancer: self.load_balancer@,
            aliases: self.aliases@,
            router: self.router@,
            default: self._default.deep_view(),
        }
    }
}

/// The service that a TOML document describes, or why it describes none.
pub open spec fn service_of(doc: Toml) -> Result<ServiceConfig, Seq<char>> {
    match doc.get("service"@) {
        None => Err("missing [service] section"@),
        Some(service) => if !(service is Table) {
            Err("[service] must be a table"@)
        } else {
            match service.get_integer("port"@) {
                None => Err("missing or invalid service.port"@),
                Some(port) => Ok(
                    ServiceConfig { port: port as u16, log_level: service_level(service) },
                ),
            }
        },
    }
}

/// The configuration that a TOML document describes, or why it describes none.
pub open spec fn config_of(doc: Toml, env: Env, worths: Worths) -> Result<ConfigView, Seq<char>> {
    match service_of(doc) {
        Err(message) => Err(message),
        Ok(service) => {
            let default = default_of(doc.get("service"@)->0, worths);
            match backends_of(doc.get("backend"@), default, env, worths) {
                Err(message) => Err(message),
                Ok(backend) => match pools_of(doc.get("load-balance"@)) {
                    Err(message) => Err(message),
                    Ok(load_balancer) => match targets_of(doc.get("router"@)) {
                        Err(message) => Err(message),
                        Ok(raw) => Ok(
                            ConfigView {
                                service,
                                backend,
                                load_balancer,
                                aliases: aliases_of(raw),
                                router: routes_of(raw),
                                default,
                            },
                        ),
                    },
                },
            }
        },
    }
}

impl ServiceConfig {
    /// Reads the service that a TOML document describes.
    pub fn from_document(doc: &TomlValue) -> (r: Result<ServiceConfig, String>)
        ensures
            outcome(r) == service_of(doc.content()),
    {
        let service = match doc.get("service") {
            Some(service) => service,
            None => {
                return Err("missing [service] section".to_owned());
            },
        };
        match service {
            TomlValue::Table(_) => {},
            _ => {
                return Err("[service] must be a table".to_owned());
            },
        }
        let port: u16 = match service.get_integer("port") {
            Some(port) => port as u16,
            None => {
                return Err("missing or invalid service.port".to_owned());
            },
        };
        let log_level = match service.get_str("log_level") {
            Some(text) => parse_log_level(text),
            None => LevelFilter::Info,
        };
        Ok(ServiceConfig { port, log_level })
    }
}

impl Config {
    /// Builds the configuration that a TOML document describes. The environment and
    /// the worth of the duration texts in the document are handed in.
    pub fn from_document(
        doc: &TomlValue,
        env: &NameMap<String>,
        worths: &NameMap<Duration>,
    ) -> (r: Result<Config, String>)
        ensures
            outcome(r) == config_of(doc.content(), env@, worths@),
    {
        let service = match ServiceConfig::from_document(doc) {
            Ok(service) => service,
            Err(m) => {
                return Err(m);
            },
        };
        let default = match doc.get("service") {
            Some(table) => read_default(table, worths),
            None => ServiceDefault::default(),
        };
        let backend = match read_backends(doc.get("backend"), &default, env, worths) {
            Ok(map) => map,
            Err(m) => {
                return Err(m);
            },
        };
        let load_balancer = match read_pools(doc.get("load-balance")) {
            Ok(map) => map,
            Err(m) => {
                return Err(m);
            },
        };
        let raw_router = match read_targets(doc.get("router")) {
            Ok(map) => map,
            Err(m) => {
                return Err(m);
            },
        };
        let routes = separate_routes(&raw_router);
        Ok(
            Config {
                service,
                backend,
                load_balancer,
                aliases: routes.aliases,
                router: routes.router,
                _default: default,
            },
        )
    }

    /// Builds the configuration that a TOML text describes.
    pub fn from_str(
        content: &str,
        env: &NameMap<String>,
        worths: &NameMap<Duration>,
    ) -> (r: Result<Config, String>)
        ensures
            outcome(r) == (match toml_document(content@) {
                Ok(doc) => config_of(doc, env@, worths@),
                Err(message) => Err(message),
            }),
            r is Ok ==> tidy(toml_document(content@)->Ok_0),
    {
        match parse_toml(content) {
            Ok(doc) => Self::from_document(&doc, env, worths),
            Err(m) => Err(m),
        }
    }
}

/// The aliases of a document that are no aliases of its configuration, each with what is
/// wrong with it.
pub open spec fn skipped_aliases_of(doc: Toml) -> Seq<(Seq<char>, Seq<char>)> {
    match targets_of(doc.get("router"@)) {
        Ok(raw) => skipped_of(raw),
        Err(_) => Seq::empty(),
    }
}

impl Config {
    /// The aliases of a document that are left out of its configuration because they
    /// lead to no route, each with what is wrong with it.
    pub fn skipped_aliases(doc: &TomlValue) -> (r: NameMap<String>)
        ensures
            r@ == skipped_aliases_of(doc.content()),
    {
        match read_targets(doc.get("router")) {
            Ok(raw_router) => separate_routes(&raw_router).skipped,
            Err(_) => NameMap::new(),
        }
    }
}

/// In a configuration every alias leads to a route, no name is both an alias and a
/// route, and no name is used twice for one kind of thing.
pub proof fn law_configured_names(doc: Toml, env: Env, worths: Worths, name: Seq<char>)
    ensures
        config_of(doc, env, worths) matches Ok(c) ==> {
            &&& lookup(c.aliases, name) matches Some(route) ==> {
                &&& lookup(c.router, route) is Some
                &&& lookup(c.router, name) is None
            }
            &&& distinct(c.backend)
            &&& distinct(c.load_balancer)
            &&& distinct(c.aliases)
            &&& distinct(c.router)
        },
{
    if let Ok(c) = config_of(doc, env, worths) {
        let service = doc.get("service"@)->0;
        let default = default_of(service, worths);
        if let Some(Toml::Table(table)) = doc.get("backend"@) {
            lemma_try_values_distinct(flattened(table, ""@), backend_of(default, env, worths));
        }
        if let Some(Toml::Table(table)) = doc.get("load-balance"@) {
            lemma_try_values_distinct(table, pool_of());
        }
        if let Some(Toml::Table(table)) = doc.get("router"@) {
            lemma_try_values_distinct(flattened(table, ""@), target_of());
        }
        let raw = targets_of(doc.get("router"@))->Ok_0;
        law_aliases_lead_to_routes(raw, name);
        lemma_select(raw, listed_backends());
        lemma_select(raw, alias_end(raw));
    }
}

/// A document without a table `service` that has an integer `port` describes no
/// configuration.
pub proof fn law_port_is_required(doc: Toml, env: Env, worths: Worths)
    ensures
        config_of(doc, env, worths) is Ok ==> {
            &&& doc.get("service"@) matches Some(Toml::Table(_))
            &&& doc.get("service"@)->0.get_integer("port"@) is Some
        },
{
}

/// A document that describes a service alone describes a configuration with the
/// built-in defaults and nothing else.
pub proof fn law_minimal_configuration(doc: Toml, env: Env, worths: Worths)
    requires
        doc.get("service"@) matches Some(Toml::Table(_)),
        doc.get("service"@)->0.get_integer("port"@) is Some,
        doc.get("service"@)->0.get("default"@) is None,
        doc.get("service"@)->0.get("log_level"@) is None,
        doc.get("backend"@) is None,
        doc.get("load-balance"@) is None,
        doc.get("router"@) is None,
    ensures
        config_of(doc, env, worths) matches Ok(c) && {
            &&& c.service.port == doc.get("service"@)->0.get_integer("port"@)->0 as u16
            &&& c.service.log_level == LevelFilter::Info
            &&& c.default == builtin_default()
            &&& c.backend.len() == 0
            &&& c.load_balancer.len() == 0
            &&& c.aliases.len() == 0
            &&& c.router.len() == 0
        },
{
}

/// A configured backend is what the entry of its name says, and there is no backend
/// without an entry.
pub proof fn law_backends_are_read_entry_by_entry(
    doc: Toml,
    env: Env,
    worths: Worths,
    table: Seq<(Seq<char>, Toml)>,
    name: Seq<char>,
)
    requires
        config_of(doc, env, worths) is Ok,
        doc.get("backend"@) == Some(Toml::Table(table)),
    ensures
        ({
            let c = config_of(doc, env, worths)->Ok_0;
            match lookup(flattened(table, ""@), name) {
                Some(value) => {
                    &&& backend_of(c.default, env, worths)(value) matches Ok(b)
                    &&& lookup(c.backend, name) == Some(b)
                },
                None => lookup(c.backend, name) is None,
            }
        }),
{
    let c = config_of(doc, env, worths)->Ok_0;
    law_flattened_keys_are_distinct(table, ""@);
    lemma_try_values_lookup(
        flattened(table, ""@),
        backend_of(c.default, env, worths),
        name,
    );
}

/// A configured pool is what the entry of its name says, and there is no pool without an
/// entry.
pub proof fn law_pools_are_read_entry_by_entry(
    doc: Toml,
    env: Env,
    worths: Worths,
    table: Seq<(Seq<char>, Toml)>,
    name: Seq<char>,
)
    requires
        tidy(doc),
        config_of(doc, env, worths) is Ok,
        doc.get("load-balance"@) == Some(Toml::Table(table)),
    ensures
        ({
            let c = config_of(doc, env, worths)->Ok_0;
            match lookup(table, name) {
                Some(value) => {
                    &&& pool_of()(value) matches Ok(pool)
                    &&& lookup(c.load_balancer, name) == Some(pool)
                },
                None => lookup(c.load_balancer, name) is None,
            }
        }),
{
    lemma_tidy_entry(doc, "load-balance"@);
    lemma_try_values_lookup(table, pool_of(), name);
}

/// A configured route is the list that the entry of its name gives; an alias leads where
/// the chain that begins with its entry ends; and there is neither without an entry.
pub proof fn law_routes_are_read_entry_by_entry(
    doc: Toml,
    env: Env,
    worths: Worths,
    table: Seq<(Seq<char>, Toml)>,
    name: Seq<char>,
)
    requires
        config_of(doc, env, worths) is Ok,
        doc.get("router"@) == Some(Toml::Table(table)),
    ensures
        ({
            let c = config_of(doc, env, worths)->Ok_0;
            let raw = targets_of(doc.get("router"@))->Ok_0;
            match lookup(flattened(table, ""@), name) {
                Some(value) => {
                    &&& target_of()(value) matches Ok(target)
                    &&& lookup(c.router, name) == listed_backends()(target)
                    &&& lookup(c.aliases, name) == alias_end(raw)(target)
                },
                None => lookup(c.router, name) is None && lookup(c.aliases, name) is None,
            }
        }),
{
    let raw = targets_of(doc.get("router"@))->Ok_0;
    let flat = flattened(table, ""@);
    law_flattened_keys_are_distinct(table, ""@);
    lemma_try_values_distinct(flat, target_of());
    lemma_try_values_lookup(flat, target_of(), name);
    lemma_select(raw, listed_backends());
    lemma_select(raw, alias_end(raw));
}

/// The text that an entry of the `backend` section gives its cooldown in, if it is the
/// table of a backend.
pub open spec fn backend_text(entry: Toml) -> Option<Seq<char>> {
    match entry.get_str("base-url"@) {
        Some(_) => entry.get_str("cooldown"@),
        None => None,
    }
}

/// The cooldown texts of a table's entries, in order.
pub open spec fn entry_texts(entries: Seq<(Seq<char>, Toml)>) -> Seq<Seq<char>>
    decreases entries.len(),
{
    if entries.len() == 0 {
        Seq::empty()
    } else {
        let rest = entry_texts(entries.drop_last());
        match backend_text(entries.last().1) {
            Some(text) => rest.push(text),
            None => rest,
        }
    }
}

/// The texts in a document that give a cooldown: that of the service's defaults,
/// then those of the backends.
pub open spec fn cooldown_texts_of(doc: Toml) -> Seq<Seq<char>> {
    let of_default = match doc.get("service"@) {
        Some(service) => match service.get("default"@) {
            Some(table) => match table.get_str("cooldown"@) {
                Some(text) => seq![text],
                None => Seq::empty(),
            },
            None => Seq::empty(),
        },
        None => Seq::empty(),
    };
    match doc.get("backend"@) {
        Some(Toml::Table(table)) => of_default + entry_texts(flattened(table, ""@)),
        _ => of_default,
    }
}

impl Config {
    /// The texts in a document that give a cooldown. What they are worth is all that
    /// [`Config::from_document`] asks its table of worths for.
    pub fn cooldown_texts(doc: &TomlValue) -> (r: Vec<String>)
        ensures
            r.deep_view() == cooldown_texts_of(doc.content()),
    {
        let mut out: Vec<String> = Vec::new();
        if let Some(service) = doc.get("service") {
            if let Some(table) = service.get("default") {
                if let Some(text) = table.get_str("cooldown") {
                    out.push(text.to_owned());
                }
            }
        }
        let ghost of_default = out.deep_view();
        if let Some(TomlValue::Table(table)) = doc.get("backend") {
            let flat = flatten_table(table, "");
            let ghost all = flat@;
            let n: usize = flat.len();
            let mut i: usize = 0;
            proof {
                assert(all.take(0) =~= Seq::empty());
                assert(out.deep_view() =~= of_default + entry_texts(all.take(0)));
            }
            while i < n
                invariant
                    n == all.len(),
                    all == flat@,
                    0 <= i <= n,
                    out.deep_view() == of_default + entry_texts(all.take(i as int)),
                decreases n - i,
            {
                proof {
                    assert(all.take(i + 1).drop_last() =~= all.take(i as int));
                    assert(all.take(i + 1).last() == all[i as int]);
                }
                let ghost before = out.deep_view();
                let entry = flat.value_at(i);
                if entry.get_str("base-url").is_some() {
                    if let Some(text) = entry.get_str("cooldown") {
                        out.push(text.to_owned());
                        assert(out.deep_view() =~= before.push(text@));
                        assert(out.deep_view() =~= of_default + entry_texts(all.take(i + 1)));
                    }
                }
                i = i + 1;
            }
            assert(all.take(i as int) =~= all);
        }
        assert(out.deep_view() =~= cooldown_texts_of(doc.content()));
        out
    }
}

pub(crate) proof fn lemma_entry_texts(entries: Seq<(Seq<char>, Toml)>, i: int)
    requires
        0 <= i < entries.len(),
    ensures
        backend_text(entries[i].1) matches Some(text) ==> entry_texts(entries).contains(
            text,
        ),
    decreases entries.len(),
{
    let rest = entry_texts(entries.drop_last());
    if let Some(text) = backend_text(entries[i].1) {
        if i == entries.len() - 1 {
            assert(entry_texts(entries).last() == text);
        } else {
            lemma_entry_texts(entries.drop_last(), i);
            let at = choose|at: int| 0 <= at < rest.len() && rest[at] == text;
            assert(entry_texts(entries)[at] == text);
        }
    }
}

/// The configuration depends on no more of the worths than what they say of the
/// cooldown texts in the document.
pub proof fn law_only_the_cooldown_texts_matter(doc: Toml, env: Env, a: Worths, b: Worths)
    requires
        forall|text: Seq<char>| #[trigger]
            cooldown_texts_of(doc).contains(text) ==> cooldown_worth(text, a) == cooldown_worth(
                text,
                b,
            ),
    ensures
        config_of(doc, env, a) == config_of(doc, env, b),
{
    let texts = cooldown_texts_of(doc);
    if let Some(service) = doc.get("service"@) {
        if let Some(table) = service.get("default"@) {
            if let Some(text) = table.get_str("cooldown"@) {
                assert(texts[0] == text);
                assert(texts.contains(text));
            }
        }
        assert(default_of(service, a) == default_of(service, b));
        let default = default_of(service, a);
        if let Some(Toml::Table(table)) = doc.get("backend"@) {
            let flat = flattened(table, ""@);
            let f = backend_of(default, env, a);
            let g = backend_of(default, env, b);
            assert forall|i: int| 0 <= i < flat.len() implies f((#[trigger] flat[i]).1) == g(
                flat[i].1,
            ) by {
                lemma_entry_texts(flat, i);
                if let Some(text) = backend_text(flat[i].1) {
                    let own = entry_texts(flat);
                    let at = choose|at: int| 0 <= at < own.len() && own[at] == text;
                    assert(texts[texts.len() - own.len() + at] == text);
                    assert(texts.contains(text));
                }
            }
            lemma_try_values_agree(flat, f, g);
        }
    }
}

/// A text without the byte order mark that it may begin with.
pub open spec fn without_bom(content: Seq<char>) -> Seq<char> {
    if content.len() > 0 && content[0] == '\u{feff}' {
        content.drop_first()
    } else {
        content
    }
}

/// Takes the byte order mark off a text that begins with one.
pub fn strip_bom(content: &str) -> (r: &str)
    ensures
        r@ == without_bom(content@),
{
    match strip_prefix_char(content, '\u{feff}') {
        Some(rest) => {
            assert(rest@ =~= content@.drop_first());
            rest
        },
        None => content,
    }
}

/// Reads the TOML document in the content of a file, which may begin with a byte order
/// mark.
pub fn read_document(content: &str) -> (r: Result<TomlValue, String>)
    ensures
        outcome(r) == toml_document(without_bom(content@)),
        r matches Ok(doc) ==> tidy(doc.content()),
{
    parse_toml(strip_bom(content))
}

/// The configuration that the content of a file describes, or why it describes none: what
/// went wrong in reading the file included.
pub open spec fn loaded(
    read: Result<Seq<char>, Seq<char>>,
    env: Env,
    worths: Worths,
) -> Result<ConfigView, Seq<char>> {
    match read {
        Ok(content) => match toml_document(without_bom(content)) {
            Ok(doc) => config_of(doc, env, worths),
            Err(message) => Err(message),
        },
        Err(message) => Err(message),
    }
}

impl Config {
    /// Builds the configuration that the content of a file describes, given what reading
    /// the file gave.
    pub fn load(
        read: Result<String, String>,
        env: &NameMap<String>,
        worths: &NameMap<Duration>,
    ) -> (r: Result<Config, String>)
        ensures
            outcome(r) == loaded(outcome(read), env@, worths@),
    {
        match read {
            Ok(content) => Self::from_str(strip_bom(content.as_str()), env, worths),
            Err(message) => Err(message),
        }
    }
}

/// A file loads alike with a byte order mark and without one.
pub proof fn law_byte_order_mark_does_not_matter(content: Seq<char>, env: Env, worths: Worths)
    requires
        without_bom(content) == content,
    ensures
        loaded(Ok(seq!['\u{feff}'] + content), env, worths) == loaded(Ok(content), env, worths),
        loaded(Ok(content), env, worths) == (match toml_document(content) {
            Ok(doc) => config_of(doc, env, worths),
            Err(message) => Err(message),
        }),
{
    assert((seq!['\u{feff}'] + content).drop_first() =~= content);
}

} // verus!
