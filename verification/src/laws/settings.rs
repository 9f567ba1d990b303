//! What a configuration makes of the document that it is read from.

use crate::balance::LoadBalanceStrategy;
use crate::config::{
    backend_of, backends_of, config_of, cooldown_texts_of, default_of, entry_texts, env_value,
    law_backends_are_read_entry_by_entry, law_pools_are_read_entry_by_entry,
    law_routes_are_read_entry_by_entry, lemma_entry_texts, level_of, loaded, pool_of, pools_of,
    skipped_aliases_of, strategy_of, target_of, targets_of, without_bom, ConfigView, Env,
    LevelFilter, Worths,
};
use crate::duration::law_parts_make_the_text;
use crate::flatten::{flattened, law_flattened_keys_are_distinct};
use crate::laws::texts::law_following_an_alias;
use crate::names::{
    lemma_try_values_distinct, lemma_try_values_error, lemma_try_values_lookup, lookup, try_values,
};
use crate::routes::{law_every_entry_has_its_place, Target};
use crate::text::{lowercased, trimmed};
use crate::toml_doc::{tidy, toml_document, Toml};
use vstd::prelude::*;

verus! {

/// The string under a key of a table.
pub open spec fn string_at(table: Seq<(Seq<char>, Toml)>, key: Seq<char>) -> Option<Seq<char>> {
    match lookup(table, key) {
        Some(Toml::String(text)) => Some(text),
        _ => None,
    }
}

/// The integer under a key of a table.
pub open spec fn integer_at(table: Seq<(Seq<char>, Toml)>, key: Seq<char>) -> Option<i64> {
    match lookup(table, key) {
        Some(Toml::Integer(n)) => Some(n),
        _ => None,
    }
}

/// What a duration text is worth: what is said of it without white space at its ends, if it
/// ends with a unit.
pub open spec fn worth_of(text: Seq<char>, worths: Worths) -> Option<nat> {
    let t = trimmed(text);
    if "s"@.is_suffix_of(t) || "min"@.is_suffix_of(t) || "h"@.is_suffix_of(t) {
        lookup(worths, t)
    } else {
        None
    }
}

/// The number of attempts and the cooldown that hold for backends that do not say otherwise
/// are those of the table `default` of the service. Where there is none, or it does not give
/// them, they are three attempts and three minutes.
pub proof fn law_defaults_for_backends(
    doc: Toml,
    env: Env,
    worths: Worths,
    service: Seq<(Seq<char>, Toml)>,
    default: Seq<(Seq<char>, Toml)>,
)
    requires
        config_of(doc, env, worths) is Ok,
        doc matches Toml::Table(top) && lookup(top, "service"@) == Some(Toml::Table(service)),
    ensures
        ({
            let c = config_of(doc, env, worths)->Ok_0;
            &&& !(lookup(service, "default"@) matches Some(Toml::Table(_))) ==> {
                &&& c.default.retry == 3
                &&& c.default.cooldown == 180_000_000_000
            }
            &&& lookup(service, "default"@) == Some(Toml::Table(default)) ==> {
                &&& integer_at(default, "retry"@) is None ==> c.default.retry == 3
                &&& integer_at(default, "retry"@) matches Some(n) ==> c.default.retry == n as usize
                &&& string_at(default, "cooldown"@) is None ==> c.default.cooldown
                    == 180_000_000_000
                &&& string_at(default, "cooldown"@) matches Some(text) ==> c.default.cooldown == (
                match worth_of(text, worths) {
                    Some(nanos) => nanos,
                    None => 180_000_000_000,
                })
            }
        }),
{
    if let Some(text) = string_at(default, "cooldown"@) {
        law_parts_make_the_text(text);
    }
}

/// A backend that is given by its address alone has no key and no model of its own, and the
/// attempts and the cooldown that hold by default.
pub proof fn law_a_backend_given_by_its_address(
    doc: Toml,
    env: Env,
    worths: Worths,
    table: Seq<(Seq<char>, Toml)>,
    name: Seq<char>,
    url: Seq<char>,
)
    requires
        config_of(doc, env, worths) is Ok,
        doc.get("backend"@) == Some(Toml::Table(table)),
        lookup(flattened(table, ""@), name) == Some(Toml::String(url)),
    ensures
        ({
            let c = config_of(doc, env, worths)->Ok_0;
            &&& lookup(c.backend, name) matches Some(backend)
            &&& backend.base_url == url
            &&& backend.api_key is None
            &&& backend.model is None
            &&& backend.retry == c.default.retry
            &&& backend.cooldown == c.default.cooldown
        }),
{
    law_backends_are_read_entry_by_entry(doc, env, worths, table, name);
}

/// A backend that is given by a table has the address, the model and the key of that table.
/// A key that begins with `$` names a variable of the environment and stands for it, if the
/// environment has it. The attempts and the cooldown are those of the table, and where it
/// gives none, those that hold by default.
pub proof fn law_a_backend_given_by_a_table(
    doc: Toml,
    env: Env,
    worths: Worths,
    table: Seq<(Seq<char>, Toml)>,
    name: Seq<char>,
    entry: Seq<(Seq<char>, Toml)>,
    variable: Seq<char>,
)
    requires
        config_of(doc, env, worths) is Ok,
        doc.get("backend"@) == Some(Toml::Table(table)),
        lookup(flattened(table, ""@), name) == Some(Toml::Table(entry)),
    ensures
        ({
            let c = config_of(doc, env, worths)->Ok_0;
            &&& lookup(c.backend, name) matches Some(backend)
            &&& string_at(entry, "base-url"@) == Some(backend.base_url)
            &&& backend.model == string_at(entry, "model"@)
            &&& string_at(entry, "api-key"@) is None ==> backend.api_key is None
            &&& string_at(entry, "api-key"@) matches Some(key) ==> {
                &&& key.len() == 0 || key[0] != '$' ==> backend.api_key == Some(key)
                &&& key == seq!['$'] + variable ==> backend.api_key == Some(
                    match lookup(env, variable) {
                        Some(value) => value,
                        None => key,
                    },
                )
            }
            &&& integer_at(entry, "retry"@) is None ==> backend.retry == c.default.retry
            &&& integer_at(entry, "retry"@) matches Some(n) ==> backend.retry == n as usize
            &&& string_at(entry, "cooldown"@) is None ==> backend.cooldown == c.default.cooldown
            &&& string_at(entry, "cooldown"@) matches Some(text) ==> backend.cooldown == (
            match worth_of(text, worths) {
                Some(nanos) => nanos,
                None => c.default.cooldown,
            })
        }),
{
    law_backends_are_read_entry_by_entry(doc, env, worths, table, name);
    if let Some(text) = string_at(entry, "cooldown"@) {
        law_parts_make_the_text(text);
    }
    assert((seq!['$'] + variable).drop_first() =~= variable);
}

/// A backend that does not say how often it may be asked is asked as often as the service
/// says for such backends, and three times where that says nothing either.
pub proof fn law_attempts_of_a_backend_that_does_not_say(
    doc: Toml,
    env: Env,
    worths: Worths,
    service: Seq<(Seq<char>, Toml)>,
    table: Seq<(Seq<char>, Toml)>,
    name: Seq<char>,
    value: Toml,
)
    requires
        config_of(doc, env, worths) is Ok,
        doc.get("service"@) == Some(Toml::Table(service)),
        doc.get("backend"@) == Some(Toml::Table(table)),
        lookup(flattened(table, ""@), name) == Some(value),
        value matches Toml::Table(entry) ==> integer_at(entry, "retry"@) is None,
    ensures
        ({
            let c = config_of(doc, env, worths)->Ok_0;
            &&& lookup(c.backend, name) matches Some(backend)
            &&& backend.retry == c.default.retry
            &&& lookup(service, "default"@) matches Some(Toml::Table(default)) ==> (integer_at(
                default,
                "retry"@,
            ) matches Some(n) ==> backend.retry == n as usize)
            &&& !(lookup(service, "default"@) matches Some(Toml::Table(_))) ==> backend.retry == 3
            &&& lookup(service, "default"@) matches Some(Toml::Table(default)) ==> integer_at(
                default,
                "retry"@,
            ) is None ==> backend.retry == 3
        }),
{
    let default = match lookup(service, "default"@) {
        Some(Toml::Table(default)) => default,
        _ => Seq::empty(),
    };
    law_defaults_for_backends(doc, env, worths, service, default);
    law_backends_are_read_entry_by_entry(doc, env, worths, table, name);
}

/// There is no backend without an entry, and no entry of another kind than an address or a
/// table with one in a document that describes a configuration.
pub proof fn law_no_backend_without_an_entry(
    doc: Toml,
    env: Env,
    worths: Worths,
    table: Seq<(Seq<char>, Toml)>,
    name: Seq<char>,
)
    requires
        config_of(doc, env, worths) is Ok,
    ensures
        doc.get("backend"@) is None ==> config_of(doc, env, worths)->Ok_0.backend.len() == 0,
        doc.get("backend"@) == Some(Toml::Table(table)) ==> {
            let c = config_of(doc, env, worths)->Ok_0;
            match lookup(flattened(table, ""@), name) {
                None => lookup(c.backend, name) is None,
                Some(Toml::String(_)) => true,
                Some(Toml::Table(entry)) => string_at(entry, "base-url"@) is Some,
                Some(_) => false,
            }
        },
{
    if doc.get("backend"@) == Some(Toml::Table(table)) {
        law_backends_are_read_entry_by_entry(doc, env, worths, table, name);
    }
}

/// The port is the integer of that name, and the log level what its text says in lower case:
/// one of five words, and `info` for any other text and where there is none.
pub proof fn law_port_and_log_level(
    doc: Toml,
    env: Env,
    worths: Worths,
    service: Seq<(Seq<char>, Toml)>,
)
    requires
        config_of(doc, env, worths) is Ok,
        doc.get("service"@) == Some(Toml::Table(service)),
    ensures
        ({
            let c = config_of(doc, env, worths)->Ok_0;
            &&& integer_at(service, "port"@) matches Some(port)
            &&& c.service.port == port as u16
            &&& string_at(service, "log_level"@) is None ==> c.service.log_level
                == LevelFilter::Info
            &&& string_at(service, "log_level"@) matches Some(text) ==> c.service.log_level
                == level_of(text)
        }),
{
}

proof fn lemma_level_names()
    ensures
        "trace"@[0] == 't',
        "debug"@[0] == 'd',
        "warn"@[0] == 'w',
        "error"@[0] == 'e',
        "off"@[0] == 'o',
{
    reveal_strlit("trace");
    reveal_strlit("debug");
    reveal_strlit("warn");
    reveal_strlit("error");
    reveal_strlit("off");
}

/// The words for log levels and for strategies, in whatever case.
pub proof fn law_words_for_levels_and_strategies(text: Seq<char>)
    ensures
        level_of(text) == LevelFilter::Trace <==> lowercased(text) == "trace"@,
        level_of(text) == LevelFilter::Debug <==> lowercased(text) == "debug"@,
        level_of(text) == LevelFilter::Warn <==> lowercased(text) == "warn"@,
        level_of(text) == LevelFilter::Error <==> lowercased(text) == "error"@,
        level_of(text) == LevelFilter::Off <==> lowercased(text) == "off"@,
        strategy_of(text) == LoadBalanceStrategy::RoundRobin <==> lowercased(text)
            == "round_robin"@ || lowercased(text) == "round-robin"@,
{
    lemma_level_names();
}

/// A pool holds the backends of its array, in their order, has chosen nothing yet, and goes
/// by the strategy that its text names, or by a seed where it names none.
pub proof fn law_a_pool_holds_what_its_array_lists(
    doc: Toml,
    env: Env,
    worths: Worths,
    table: Seq<(Seq<char>, Toml)>,
    name: Seq<char>,
    i: int,
)
    requires
        tidy(doc),
        config_of(doc, env, worths) is Ok,
        doc.get("load-balance"@) == Some(Toml::Table(table)),
    ensures
        ({
            let c = config_of(doc, env, worths)->Ok_0;
            match lookup(table, name) {
                None => lookup(c.load_balancer, name) is None,
                Some(value) => {
                    &&& value matches Toml::Table(entry)
                    &&& lookup(entry, "backends"@) matches Some(Toml::Array(items))
                    &&& lookup(c.load_balancer, name) matches Some(pool)
                    &&& pool.counter == 0
                    &&& pool.backends.len() == items.len()
                    &&& 0 <= i < items.len() ==> items[i] == Toml::String(pool.backends[i])
                    &&& string_at(entry, "strategy"@) is None ==> pool.strategy
                        == LoadBalanceStrategy::Shuffle
                    &&& string_at(entry, "strategy"@) matches Some(text) ==> pool.strategy
                        == strategy_of(text)
                },
            }
        }),
{
    law_pools_are_read_entry_by_entry(doc, env, worths, table, name);
}

/// An entry of the routes that is an array is a route with its strings, in their order. One
/// that is a string is an alias: it leads where the entry of that name leads, be that a route
/// or an alias in turn, and is none where there is no such entry. There is nothing else.
pub proof fn law_routes_and_aliases_of_a_document(
    doc: Toml,
    env: Env,
    worths: Worths,
    table: Seq<(Seq<char>, Toml)>,
    name: Seq<char>,
    i: int,
)
    requires
        config_of(doc, env, worths) is Ok,
        doc.get("router"@) == Some(Toml::Table(table)),
    ensures
        ({
            let c = config_of(doc, env, worths)->Ok_0;
            let flat = flattened(table, ""@);
            match lookup(flat, name) {
                None => {
                    &&& lookup(c.router, name) is None
                    &&& lookup(c.aliases, name) is None
                    &&& lookup(skipped_aliases_of(doc), name) is None
                },
                Some(Toml::Array(items)) => {
                    &&& lookup(c.aliases, name) is None
                    &&& lookup(skipped_aliases_of(doc), name) is None
                    &&& lookup(c.router, name) matches Some(entries)
                    &&& entries.len() == items.len()
                    &&& 0 <= i < items.len() ==> items[i] == Toml::String(entries[i])
                },
                Some(Toml::String(next)) => {
                    &&& lookup(c.router, name) is None
                    &&& lookup(c.aliases, name) == (match lookup(flat, next) {
                        Some(Toml::Array(_)) => Some(next),
                        Some(Toml::String(_)) => lookup(c.aliases, next),
                        _ => None,
                    })
                    &&& lookup(skipped_aliases_of(doc), name) is Some <==> lookup(
                        c.aliases,
                        name,
                    ) is None
                },
                Some(_) => false,
            }
        }),
{
    let raw = targets_of(doc.get("router"@))->Ok_0;
    let flat = flattened(table, ""@);
    law_routes_are_read_entry_by_entry(doc, env, worths, table, name);
    law_flattened_keys_are_distinct(table, ""@);
    lemma_try_values_distinct(flat, target_of());
    lemma_try_values_lookup(flat, target_of(), name);
    law_every_entry_has_its_place(raw, name);
    if let Some(Toml::String(next)) = lookup(flat, name) {
        law_routes_are_read_entry_by_entry(doc, env, worths, table, next);
        lemma_try_values_lookup(flat, target_of(), next);
        law_following_an_alias(raw, next);
        assert(lookup(raw, name) == Some(Target::Alias(next)));
    }
}

/// What is said of a document that describes no configuration for the lack of a service, or
/// of a port, or because a section is no table.
pub proof fn law_what_is_said_of_a_wrong_document(doc: Toml, env: Env, worths: Worths)
    ensures
        doc.get("service"@) is None ==> config_of(doc, env, worths) == Err::<
            ConfigView,
            Seq<char>,
        >("missing [service] section"@),
        doc.get("service"@) matches Some(service) ==> {
            &&& !(service is Table) ==> config_of(doc, env, worths) == Err::<
                ConfigView,
                Seq<char>,
            >("[service] must be a table"@)
            &&& service matches Toml::Table(entries) ==> {
                &&& integer_at(entries, "port"@) is None ==> config_of(doc, env, worths) == Err::<
                    ConfigView,
                    Seq<char>,
                >("missing or invalid service.port"@)
                &&& integer_at(entries, "port"@) is Some ==> {
                    &&& (doc.get("backend"@) matches Some(section) && !(section is Table))
                        ==> config_of(doc, env, worths) == Err::<
                        ConfigView,
                        Seq<char>,
                    >("[backend] must be a table"@)
                    &&& doc.get("backend"@) is None && (doc.get("load-balance"@) matches Some(
                        section,
                    ) && !(section is Table)) ==> config_of(doc, env, worths) == Err::<
                        ConfigView,
                        Seq<char>,
                    >("[load-balance] must be a table"@)
                    &&& doc.get("backend"@) is None && doc.get("load-balance"@) is None && (doc.get(
                        "router"@,
                    ) matches Some(section) && !(section is Table)) ==> config_of(
                        doc,
                        env,
                        worths,
                    ) == Err::<ConfigView, Seq<char>>("[router] must be a table"@)
                }
            }
        },
{
}

/// A value that begins with `$` stands for the variable whose name follows, if there is one,
/// and for itself otherwise.
pub proof fn law_what_a_value_stands_for(
    value: Seq<char>,
    variable: Seq<char>,
    env: Env,
)
    ensures
        env_value(seq!['$'] + variable, env) == (match lookup(env, variable) {
            Some(text) => text,
            None => seq!['$'] + variable,
        }),
        value.len() == 0 || value[0] != '$' ==> env_value(value, env) == value,
{
    assert((seq!['$'] + variable).drop_first() =~= variable);
}

/// One byte order mark at the beginning is taken off a text, and nothing else.
pub proof fn law_one_byte_order_mark_is_taken_off(content: Seq<char>, env: Env, worths: Worths)
    ensures
        without_bom(seq!['\u{feff}'] + content) == content,
        content.len() == 0 || content[0] as u32 != 0xfeff ==> without_bom(content) == content,
        loaded(Ok(seq!['\u{feff}'] + content), env, worths) == (match toml_document(content) {
            Ok(doc) => config_of(doc, env, worths),
            Err(message) => Err(message),
        }),
{
    assert((seq!['\u{feff}'] + content).drop_first() =~= content);
}

/// What went wrong in reading a file is what is said of it.
pub proof fn law_a_file_that_could_not_be_read(message: Seq<char>, env: Env, worths: Worths)
    ensures
        loaded(Err(message), env, worths) == Err::<ConfigView, Seq<char>>(message),
{
}

/// The text of a cooldown in the table of a backend.
pub open spec fn cooldown_text_of(value: Toml) -> Option<Seq<char>> {
    match value {
        Toml::Table(entry) => if string_at(entry, "base-url"@) is Some {
            string_at(entry, "cooldown"@)
        } else {
            None
        },
        _ => None,
    }
}

proof fn lemma_texts_of_entries(entries: Seq<(Seq<char>, Toml)>, text: Seq<char>) -> (i: int)
    requires
        entry_texts(entries).contains(text),
    ensures
        0 <= i < entries.len(),
        cooldown_text_of(entries[i].1) == Some(text),
    decreases entries.len(),
{
    let all = entry_texts(entries);
    let at = choose|at: int| 0 <= at < all.len() && all[at] == text;
    let rest = entry_texts(entries.drop_last());
    if at < rest.len() {
        assert(rest[at] == text);
        lemma_texts_of_entries(entries.drop_last(), text)
    } else {
        entries.len() - 1
    }
}

/// The texts that give a cooldown are that of the defaults and those of the tables that
/// describe backends.
pub proof fn law_which_texts_give_a_cooldown(
    top: Seq<(Seq<char>, Toml)>,
    service: Seq<(Seq<char>, Toml)>,
    default: Seq<(Seq<char>, Toml)>,
    table: Seq<(Seq<char>, Toml)>,
    text: Seq<char>,
)
    requires
        lookup(top, "service"@) == Some(Toml::Table(service)),
        lookup(service, "default"@) == Some(Toml::Table(default)),
        lookup(top, "backend"@) == Some(Toml::Table(table)),
    ensures
        cooldown_texts_of(Toml::Table(top)).contains(text) <==> {
            ||| string_at(default, "cooldown"@) == Some(text)
            ||| exists|i: int|
                0 <= i < flattened(table, ""@).len() && cooldown_text_of(
                    (#[trigger] flattened(table, ""@)[i]).1,
                ) == Some(text)
        },
{
    let doc = Toml::Table(top);
    let flat = flattened(table, ""@);
    let own = entry_texts(flat);
    let all = cooldown_texts_of(doc);
    let before = all.len() - own.len();
    assert(doc.get("service"@) == Some(Toml::Table(service)));
    assert(Toml::Table(service).get("default"@) == Some(Toml::Table(default)));
    if string_at(default, "cooldown"@) == Some(text) {
        assert(all[0] == text);
    }
    if exists|i: int|
        0 <= i < flat.len() && cooldown_text_of((#[trigger] flat[i]).1) == Some(text) {
        let i = choose|i: int|
            0 <= i < flat.len() && cooldown_text_of((#[trigger] flat[i]).1) == Some(text);
        lemma_entry_texts(flat, i);
        let at = choose|at: int| 0 <= at < own.len() && own[at] == text;
        assert(all[before + at] == text);
    }
    if all.contains(text) {
        let at = choose|at: int| 0 <= at < all.len() && all[at] == text;
        if at >= before {
            assert(own[at - before] == text);
            let i = lemma_texts_of_entries(flat, text);
        }
    }
}

/// An entry that describes a backend: an address, or a table with one.
pub open spec fn describes_a_backend(value: Toml) -> bool {
    match value {
        Toml::String(_) => true,
        Toml::Table(entry) => string_at(entry, "base-url"@) is Some,
        _ => false,
    }
}

/// All items of an array are strings.
pub open spec fn all_strings(items: Seq<Toml>) -> bool {
    forall|i: int| 0 <= i < items.len() ==> (#[trigger] items[i]) is String
}

/// An entry that describes a pool: a table with an array of strings.
pub open spec fn describes_a_pool(value: Toml) -> bool {
    match value {
        Toml::Table(entry) => match lookup(entry, "backends"@) {
            Some(Toml::Array(items)) => all_strings(items),
            _ => false,
        },
        _ => false,
    }
}

/// An entry that describes a route or an alias: a string, or an array of strings.
pub open spec fn describes_a_route(value: Toml) -> bool {
    match value {
        Toml::String(_) => true,
        Toml::Array(items) => all_strings(items),
        _ => false,
    }
}

proof fn lemma_values_read<U>(
    entries: Seq<(Seq<char>, Toml)>,
    f: spec_fn(Toml) -> Result<U, Seq<char>>,
    n: int,
)
    requires
        0 <= n <= entries.len(),
        forall|j: int| 0 <= j < n ==> f((#[trigger] entries[j]).1) is Ok,
    ensures
        try_values(entries.take(n), f) is Ok,
    decreases n,
{
    if n > 0 {
        lemma_values_read(entries, f, n - 1);
        assert(entries.take(n).drop_last() =~= entries.take(n - 1));
        assert(f(entries[n - 1].1) is Ok);
    } else {
        assert(entries.take(0) =~= Seq::empty());
    }
}

proof fn lemma_first_wrong_value<U>(
    entries: Seq<(Seq<char>, Toml)>,
    f: spec_fn(Toml) -> Result<U, Seq<char>>,
    n: int,
)
    requires
        0 <= n < entries.len(),
        forall|j: int| 0 <= j < n ==> f((#[trigger] entries[j]).1) is Ok,
        f(entries[n].1) is Err,
    ensures
        try_values(entries, f) is Err,
        try_values(entries, f)->Err_0 == f(entries[n].1)->Err_0,
{
    lemma_values_read(entries, f, n);
    assert(entries.take(n + 1).drop_last() =~= entries.take(n));
    assert(entries.take(n + 1).last() == entries[n]);
    lemma_try_values_error(entries, f, n + 1);
}

/// Of a document with an entry among its backends that describes none, it is said what is
/// wrong with the first such entry.
pub proof fn law_what_is_said_of_a_wrong_backend(
    doc: Toml,
    env: Env,
    worths: Worths,
    service: Seq<(Seq<char>, Toml)>,
    table: Seq<(Seq<char>, Toml)>,
    n: int,
)
    requires
        doc.get("service"@) == Some(Toml::Table(service)),
        integer_at(service, "port"@) is Some,
        doc.get("backend"@) == Some(Toml::Table(table)),
        0 <= n < flattened(table, ""@).len(),
        forall|j: int|
            0 <= j < n ==> describes_a_backend((#[trigger] flattened(table, ""@)[j]).1),
        !describes_a_backend(flattened(table, ""@)[n].1),
    ensures
        config_of(doc, env, worths) == Err::<ConfigView, Seq<char>>(
            if flattened(table, ""@)[n].1 is Table {
                "Missing base-url in backend details"@
            } else {
                "Invalid backend value format"@
            },
        ),
{
    let flat = flattened(table, ""@);
    let f = backend_of(default_of(doc.get("service"@)->0, worths), env, worths);
    assert forall|j: int| 0 <= j < n implies f((#[trigger] flat[j]).1) is Ok by {
        assert(describes_a_backend(flat[j].1));
    }
    lemma_first_wrong_value(flat, f, n);
}

/// Of a document with an entry among its pools that describes none, it is said what is wrong
/// with the first such entry, if nothing is wrong with its backends.
pub proof fn law_what_is_said_of_a_wrong_pool(
    doc: Toml,
    env: Env,
    worths: Worths,
    service: Seq<(Seq<char>, Toml)>,
    backends: Seq<(Seq<char>, Toml)>,
    table: Seq<(Seq<char>, Toml)>,
    n: int,
)
    requires
        doc.get("service"@) == Some(Toml::Table(service)),
        integer_at(service, "port"@) is Some,
        doc.get("backend"@) is None || doc.get("backend"@) == Some(Toml::Table(backends)),
        forall|j: int|
            0 <= j < flattened(backends, ""@).len() ==> describes_a_backend(
                (#[trigger] flattened(backends, ""@)[j]).1,
            ),
        doc.get("load-balance"@) == Some(Toml::Table(table)),
        0 <= n < table.len(),
        forall|j: int| 0 <= j < n ==> describes_a_pool((#[trigger] table[j]).1),
        !describes_a_pool(table[n].1),
    ensures
        config_of(doc, env, worths) == Err::<ConfigView, Seq<char>>(
            match table[n].1 {
                Toml::Table(entry) => match lookup(entry, "backends"@) {
                    Some(Toml::Array(_)) => "backends array values must be strings"@,
                    _ => "Missing or invalid 'backends' in load-balance config"@,
                },
                _ => "Invalid load-balance value format, must be a table"@,
            },
        ),
{
    lemma_backends_read(doc, env, worths, backends);
    assert forall|j: int| 0 <= j < n implies pool_of()((#[trigger] table[j]).1) is Ok by {
        assert(describes_a_pool(table[j].1));
    }
    assert(pool_of()(table[n].1) is Err);
    lemma_first_wrong_value(table, pool_of(), n);
}

proof fn lemma_backends_read(
    doc: Toml,
    env: Env,
    worths: Worths,
    backends: Seq<(Seq<char>, Toml)>,
)
    requires
        doc.get("backend"@) is None || doc.get("backend"@) == Some(Toml::Table(backends)),
        forall|j: int|
            0 <= j < flattened(backends, ""@).len() ==> describes_a_backend(
                (#[trigger] flattened(backends, ""@)[j]).1,
            ),
    ensures
        backends_of(
            doc.get("backend"@),
            default_of(doc.get("service"@)->0, worths),
            env,
            worths,
        ) is Ok,
{
    let flat = flattened(backends, ""@);
    let f = backend_of(default_of(doc.get("service"@)->0, worths), env, worths);
    assert forall|j: int| 0 <= j < flat.len() implies f((#[trigger] flat[j]).1) is Ok by {
        assert(describes_a_backend(flat[j].1));
    }
    lemma_values_read(flat, f, flat.len() as int);
    assert(flat.take(flat.len() as int) =~= flat);
}

/// Of a document with an entry among its routes that describes none, it is said what is wrong
/// with the first such entry, if nothing is wrong with its backends and pools.
pub proof fn law_what_is_said_of_a_wrong_route(
    doc: Toml,
    env: Env,
    worths: Worths,
    service: Seq<(Seq<char>, Toml)>,
    backends: Seq<(Seq<char>, Toml)>,
    pools: Seq<(Seq<char>, Toml)>,
    table: Seq<(Seq<char>, Toml)>,
    n: int,
)
    requires
        doc.get("service"@) == Some(Toml::Table(service)),
        integer_at(service, "port"@) is Some,
        doc.get("backend"@) is None || doc.get("backend"@) == Some(Toml::Table(backends)),
        forall|j: int|
            0 <= j < flattened(backends, ""@).len() ==> describes_a_backend(
                (#[trigger] flattened(backends, ""@)[j]).1,
            ),
        doc.get("load-balance"@) is None || doc.get("load-balance"@) == Some(Toml::Table(pools)),
        forall|j: int| 0 <= j < pools.len() ==> describes_a_pool((#[trigger] pools[j]).1),
        doc.get("router"@) == Some(Toml::Table(table)),
        0 <= n < flattened(table, ""@).len(),
        forall|j: int| 0 <= j < n ==> describes_a_route((#[trigger] flattened(table, ""@)[j]).1),
        !describes_a_route(flattened(table, ""@)[n].1),
    ensures
        config_of(doc, env, worths) == Err::<ConfigView, Seq<char>>(
            if flattened(table, ""@)[n].1 is Array {
                "router array values must be strings"@
            } else {
                "Invalid route format"@
            },
        ),
{
    let flat = flattened(table, ""@);
    lemma_backends_read(doc, env, worths, backends);
    lemma_pools_read(pools);
    assert forall|j: int| 0 <= j < n implies target_of()((#[trigger] flat[j]).1) is Ok by {
        assert(describes_a_route(flat[j].1));
    }
    assert(target_of()(flat[n].1) is Err);
    lemma_first_wrong_value(flat, target_of(), n);
}

proof fn lemma_pools_read(pools: Seq<(Seq<char>, Toml)>)
    requires
        forall|j: int| 0 <= j < pools.len() ==> describes_a_pool((#[trigger] pools[j]).1),
    ensures
        pools_of(Some(Toml::Table(pools))) is Ok,
{
    assert forall|j: int| 0 <= j < pools.len() implies pool_of()((#[trigger] pools[j]).1) is Ok by {
        assert(describes_a_pool(pools[j].1));
    }
    lemma_values_read(pools, pool_of(), pools.len() as int);
    assert(pools.take(pools.len() as int) =~= pools);
}

/// A document describes a configuration if it has a service with a port, and every section
/// that it has is a table whose entries describe what they should.
pub proof fn law_when_a_document_describes_a_configuration(
    doc: Toml,
    env: Env,
    worths: Worths,
    service: Seq<(Seq<char>, Toml)>,
    backends: Seq<(Seq<char>, Toml)>,
    pools: Seq<(Seq<char>, Toml)>,
    table: Seq<(Seq<char>, Toml)>,
)
    requires
        doc.get("service"@) == Some(Toml::Table(service)),
        integer_at(service, "port"@) is Some,
        doc.get("backend"@) is None || doc.get("backend"@) == Some(Toml::Table(backends)),
        forall|j: int|
            0 <= j < flattened(backends, ""@).len() ==> describes_a_backend(
                (#[trigger] flattened(backends, ""@)[j]).1,
            ),
        doc.get("load-balance"@) is None || doc.get("load-balance"@) == Some(Toml::Table(pools)),
        forall|j: int| 0 <= j < pools.len() ==> describes_a_pool((#[trigger] pools[j]).1),
        doc.get("router"@) is None || doc.get("router"@) == Some(Toml::Table(table)),
        forall|j: int|
            0 <= j < flattened(table, ""@).len() ==> describes_a_route(
                (#[trigger] flattened(table, ""@)[j]).1,
            ),
    ensures
        config_of(doc, env, worths) is Ok,
{
    let flat = flattened(table, ""@);
    lemma_backends_read(doc, env, worths, backends);
    lemma_pools_read(pools);
    assert forall|j: int| 0 <= j < flat.len() implies target_of()((#[trigger] flat[j]).1) is Ok by {
        assert(describes_a_route(flat[j].1));
    }
    lemma_values_read(flat, target_of(), flat.len() as int);
    assert(flat.take(flat.len() as int) =~= flat);
}

} // verus!
