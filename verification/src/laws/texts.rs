//! What texts, tables and chains of aliases are taken apart into.

use crate::duration::{duration_parts, suffix_of, DurationUnit};
use crate::flatten::{
    assigned, assignments, entry_assignments, flattened, lemma_assigned_concat, lemma_assigned_one,
};
use crate::names::{lemma_lookup_exists, lemma_upsert_lookup, lookup, select};
use crate::routes::{
    alias_error, breaks_at, cycles_at, ends_at, error_of, final_route, hop, hops, joined,
    law_an_alias_has_one_error, lemma_broken_chain_has_no_end, lemma_end_is_unique, Entries, Target,
};
use crate::text::{occurs, occurs_at, trimmed, white_space, without_leading, without_trailing};
use crate::toml_doc::Toml;
use vstd::prelude::*;

verus! {

proof fn lemma_hop_from_next(raw: Entries, start: Seq<char>, next: Seq<char>, n: nat)
    requires
        lookup(raw, start) == Some(Target::Alias(next)),
    ensures
        hop(raw, start, n + 1) == hop(raw, next, n),
    decreases n,
{
    reveal_with_fuel(hop, 2);
    if n > 0 {
        lemma_hop_from_next(raw, start, next, (n - 1) as nat);
    }
}

/// A list of backends leads to itself, an alias where the next name leads, and a name
/// without an entry nowhere.
pub proof fn law_following_an_alias(raw: Entries, start: Seq<char>)
    ensures
        match lookup(raw, start) {
            Some(Target::Backends(_)) => final_route(raw, start) == Some(start),
            Some(Target::Alias(next)) => final_route(raw, start) == final_route(raw, next),
            None => final_route(raw, start) is None,
        },
{
    reveal_with_fuel(hop, 2);
    match lookup(raw, start) {
        Some(Target::Backends(_)) => {
            assert(hop(raw, start, 0) == Some(start));
            assert(ends_at(raw, start, 0));
            lemma_end_is_unique(raw, start, 0);
        },
        Some(Target::Alias(next)) => {
            if exists|n: nat| ends_at(raw, next, n) {
                let n = choose|n: nat| ends_at(raw, next, n);
                lemma_hop_from_next(raw, start, next, n);
                assert(ends_at(raw, start, n + 1));
                lemma_end_is_unique(raw, start, n + 1);
                lemma_end_is_unique(raw, next, n);
            } else if exists|m: nat| ends_at(raw, start, m) {
                let m = choose|m: nat| ends_at(raw, start, m);
                assert(hop(raw, start, 0) == Some(start));
                assert(m > 0);
                lemma_hop_from_next(raw, start, next, (m - 1) as nat);
                assert(ends_at(raw, next, (m - 1) as nat));
            }
        },
        None => {
            assert(hop(raw, start, 0) == Some(start));
            assert(breaks_at(raw, start, 0));
            lemma_broken_chain_has_no_end(raw, start, 0);
        },
    }
}

/// After no alias one is where one began, and each alias leads on to the name that it holds.
pub proof fn law_one_alias_after_the_other(raw: Entries, start: Seq<char>, n: nat)
    ensures
        hop(raw, start, 0) == Some(start),
        hop(raw, start, n + 1) == (match hop(raw, start, n) {
            Some(name) => match lookup(raw, name) {
                Some(Target::Alias(next)) => Some(next),
                _ => None,
            },
            None => None,
        }),
{
}

/// What is said of aliases that come to a name without an entry, and of aliases that come
/// back to a name.
pub proof fn law_what_is_said_of_aliases_that_lead_nowhere(
    raw: Entries,
    start: Seq<char>,
    name: Seq<char>,
    n: nat,
    a: nat,
    b: nat,
)
    ensures
        hop(raw, start, n) == Some(name) && lookup(raw, name) is None ==> error_of(raw, start)
            == "Route '"@ + name + "' does not exist"@,
        cycles_at(raw, start, a, b) && hop(raw, start, b) == Some(name) ==> error_of(raw, start)
            == "Detected circular alias reference: "@ + joined(hops(raw, start, a, b), "->"@)
            + " → "@ + name,
{
    if hop(raw, start, n) == Some(name) && lookup(raw, name) is None {
        let message = "Route '"@ + name + "' does not exist"@;
        assert(breaks_at(raw, start, n));
        assert(alias_error(raw, start, message));
        law_an_alias_has_one_error(raw, start, message, error_of(raw, start));
    }
    if cycles_at(raw, start, a, b) && hop(raw, start, b) == Some(name) {
        let message = "Detected circular alias reference: "@ + joined(
            hops(raw, start, a, b),
            "->"@,
        ) + " → "@ + name;
        assert(alias_error(raw, start, message));
        law_an_alias_has_one_error(raw, start, message, error_of(raw, start));
    }
}

/// The names in a circle are those that the aliases pass from its beginning until they come
/// back.
pub proof fn law_the_names_in_a_circle(raw: Entries, start: Seq<char>, a: nat, b: nat, i: nat)
    requires
        cycles_at(raw, start, a, b),
        i < b - a,
    ensures
        a < b,
        hop(raw, start, a) == hop(raw, start, b),
        hops(raw, start, a, b).len() == b - a,
        hop(raw, start, a + i) is Some ==> hop(raw, start, a + i) == Some(
            hops(raw, start, a, b)[i as int],
        ),
{
}

/// Names are joined one after the other with the separator between them.
pub proof fn law_joining_one_more_name(
    names: Seq<Seq<char>>,
    name: Seq<char>,
    separator: Seq<char>,
)
    ensures
        joined(Seq::empty(), separator) == Seq::<char>::empty(),
        joined(seq![name], separator) == name,
        names.len() > 0 ==> joined(names.push(name), separator) == joined(names, separator)
            + separator + name,
{
    assert(names.push(name).drop_last() =~= names);
}

/// The routes and the aliases stand in the order of the entries that they come from.
pub proof fn law_selecting_one_more_entry<T, U>(
    entries: Seq<(Seq<char>, T)>,
    name: Seq<char>,
    value: T,
    f: spec_fn(T) -> Option<U>,
)
    ensures
        select(Seq::<(Seq<char>, T)>::empty(), f).len() == 0,
        select(entries.push((name, value)), f) == (match f(value) {
            Some(u) => select(entries, f).push((name, u)),
            None => select(entries, f),
        }),
{
    assert(entries.push((name, value)).drop_last() =~= entries);
}

/// A text that ends with `s`, `min` or `h` is a number of seconds, minutes or hours; one
/// that ends otherwise is no duration.
pub proof fn law_units_of_time(s: Seq<char>, number: Seq<char>)
    ensures
        trimmed(s) == number + "s"@ ==> duration_parts(s) == Some((number, DurationUnit::Seconds)),
        trimmed(s) == number + "min"@ ==> duration_parts(s) == Some(
            (number, DurationUnit::Minutes),
        ),
        trimmed(s) == number + "h"@ ==> duration_parts(s) == Some((number, DurationUnit::Hours)),
        duration_parts(s) matches Some((n, DurationUnit::Seconds)) ==> trimmed(s) == n + "s"@,
        duration_parts(s) matches Some((n, DurationUnit::Minutes)) ==> trimmed(s) == n + "min"@,
        duration_parts(s) matches Some((n, DurationUnit::Hours)) ==> trimmed(s) == n + "h"@,
        suffix_of(DurationUnit::Seconds) == "s"@,
        suffix_of(DurationUnit::Minutes) == "min"@,
        suffix_of(DurationUnit::Hours) == "h"@,
{
    reveal_strlit("s");
    reveal_strlit("min");
    reveal_strlit("h");
    let t = trimmed(s);
    if t == number + "s"@ {
        assert(t.subrange(t.len() - 1, t.len() as int) =~= "s"@);
        assert(t.take(t.len() - 1) =~= number);
    }
    if t == number + "min"@ {
        assert(t.last() == 'n');
        assert(!"s"@.is_suffix_of(t)) by {
            if "s"@.is_suffix_of(t) {
                assert(t.subrange(t.len() - 1, t.len() as int)[0] == "s"@[0]);
            }
        }
        assert(t.subrange(t.len() - 3, t.len() as int) =~= "min"@);
        assert(t.take(t.len() - 3) =~= number);
    }
    if t == number + "h"@ {
        assert(t.last() == 'h');
        assert(!"s"@.is_suffix_of(t)) by {
            if "s"@.is_suffix_of(t) {
                assert(t.subrange(t.len() - 1, t.len() as int)[0] == "s"@[0]);
            }
        }
        assert(!"min"@.is_suffix_of(t)) by {
            if "min"@.is_suffix_of(t) {
                assert(t.subrange(t.len() - 3, t.len() as int)[2] == "min"@[2]);
            }
        }
        assert(t.subrange(t.len() - 1, t.len() as int) =~= "h"@);
        assert(t.take(t.len() - 1) =~= number);
    }
    if let Some((n, unit)) = duration_parts(s) {
        let suffix = suffix_of(unit);
        assert(suffix.is_suffix_of(t));
        assert(n + suffix =~= t);
    }
}

proof fn lemma_without_leading(s: Seq<char>, p: spec_fn(char) -> bool) -> (n: int)
    ensures
        0 <= n <= s.len(),
        without_leading(s, p) == s.skip(n),
        forall|i: int| 0 <= i < n ==> p(#[trigger] s[i]),
        n < s.len() ==> !p(s[n]),
    decreases s.len(),
{
    if s.len() > 0 && p(s[0]) {
        let n = lemma_without_leading(s.drop_first(), p);
        assert(s.drop_first().skip(n) =~= s.skip(n + 1));
        assert forall|i: int| 0 <= i < n + 1 implies p(#[trigger] s[i]) by {
            if i > 0 {
                assert(p(s.drop_first()[i - 1]));
            }
        }
        n + 1
    } else {
        assert(s.skip(0) =~= s);
        0
    }
}

proof fn lemma_without_trailing(s: Seq<char>, p: spec_fn(char) -> bool) -> (n: int)
    ensures
        0 <= n <= s.len(),
        without_trailing(s, p) == s.take(n),
        forall|i: int| n <= i < s.len() ==> p(#[trigger] s[i]),
        n > 0 ==> !p(s[n - 1]),
    decreases s.len(),
{
    if s.len() > 0 && p(s.last()) {
        let n = lemma_without_trailing(s.drop_last(), p);
        assert(s.drop_last().take(n) =~= s.take(n));
        assert forall|i: int| n <= i < s.len() implies p(#[trigger] s[i]) by {
            if i < s.len() - 1 {
                assert(p(s.drop_last()[i]));
            }
        }
        n
    } else {
        assert(s.take(s.len() as int) =~= s);
        s.len() as int
    }
}

/// Of a text that begins with slashes, all of them are taken off and nothing else.
pub proof fn law_leading_slashes_are_taken_off(s: Seq<char>) -> (n: int)
    ensures
        0 <= n <= s.len(),
        without_leading(s, |c: char| c == '/') == s.skip(n),
        forall|i: int| 0 <= i < n ==> (#[trigger] s[i]) == '/',
        n < s.len() ==> s[n] != '/',
{
    let p = |c: char| c == '/';
    let n = lemma_without_leading(s, p);
    assert forall|i: int| 0 <= i < n implies (#[trigger] s[i]) == '/' by {
        assert(p(s[i]));
    }
    n
}

/// What is white space, by code point.
pub proof fn law_white_space(c: char)
    ensures
        white_space(c) <==> {
            let n = c as u32;
            ||| 9 <= n <= 13
            ||| n == 32
            ||| n == 133
            ||| n == 160
            ||| n == 5760
            ||| 8192 <= n <= 8202
            ||| n == 8232
            ||| n == 8233
            ||| n == 8239
            ||| n == 8287
            ||| n == 12288
        },
{
}

/// A trimmed text is what stands between the white space at the ends: it has none at its own
/// ends, and nothing but white space was taken off.
pub proof fn law_trimming(s: Seq<char>) -> (ends: (int, int))
    ensures
        0 <= ends.0 <= ends.1 <= s.len(),
        trimmed(s) == s.subrange(ends.0, ends.1),
        forall|i: int| 0 <= i < ends.0 ==> white_space(#[trigger] s[i]),
        forall|i: int| ends.1 <= i < s.len() ==> white_space(#[trigger] s[i]),
        ends.0 < ends.1 ==> !white_space(s[ends.0]) && !white_space(s[ends.1 - 1]),
{
    let p = |c: char| white_space(c);
    let from = lemma_without_leading(s, p);
    let rest = s.skip(from);
    let n = lemma_without_trailing(rest, p);
    assert(rest.take(n) =~= s.subrange(from, from + n));
    assert forall|i: int| 0 <= i < from implies white_space(#[trigger] s[i]) by {
        assert(p(s[i]));
    }
    assert forall|i: int| from + n <= i < s.len() implies white_space(#[trigger] s[i]) by {
        assert(p(rest[i - from]));
    }
    if n > 0 {
        assert(!p(s[from]));
        assert(!p(rest[n - 1]));
    }
    (from, from + n)
}

/// A text occurs in every text that it is a part of.
pub proof fn law_a_part_occurs(before: Seq<char>, needle: Seq<char>, after: Seq<char>)
    ensures
        occurs(before + needle + after, needle),
{
    let s = before + needle + after;
    let at = before.len() as int;
    assert(s.subrange(at, at + needle.len()) =~= needle);
    assert(occurs_at(s, needle, at));
}

/// A text that occurs in another is a part of it.
pub proof fn law_what_occurs_is_a_part(s: Seq<char>, needle: Seq<char>) -> (around: (
    Seq<char>,
    Seq<char>,
))
    requires
        occurs(s, needle),
    ensures
        s == around.0 + needle + around.1,
{
    let at = choose|at: int| occurs_at(s, needle, at);
    let before = s.take(at);
    let after = s.skip(at + needle.len());
    assert forall|i: int| 0 <= i < s.len() implies s[i] == (before + needle + after)[i] by {
        if at <= i < at + needle.len() {
            assert(s.subrange(at, at + needle.len())[i - at] == needle[i - at]);
        }
    }
    assert(s =~= before + needle + after);
    (before, after)
}

proof fn lemma_assigned_lookup<T>(
    base: Seq<(Seq<char>, T)>,
    list: Seq<(Seq<char>, T)>,
    k: Seq<char>,
)
    ensures
        lookup(assigned(base, list), k) == (match lookup(assigned(Seq::empty(), list), k) {
            Some(v) => Some(v),
            None => lookup(base, k),
        }),
    decreases list.len(),
{
    if list.len() > 0 {
        let rest = list.drop_last();
        let last = list.last();
        lemma_assigned_lookup(base, rest, k);
        lemma_upsert_lookup(assigned(base, rest), last.0, last.1, k);
        lemma_upsert_lookup(assigned(Seq::empty(), rest), last.0, last.1, k);
    }
}

/// A table with a `base-url` stays whole under its prefix.
pub proof fn law_a_backend_stays_whole(table: Seq<(Seq<char>, Toml)>, prefix: Seq<char>)
    requires
        lookup(table, "base-url"@) is Some,
    ensures
        flattened(table, prefix) == seq![(prefix, Toml::Table(table))],
{
    reveal_with_fuel(assigned, 2);
    let list = seq![(prefix, Toml::Table(table))];
    assert(list.drop_last() =~= Seq::empty());
    assert(flattened(table, prefix) =~= list);
}

/// An empty table flattens to nothing.
pub proof fn law_nothing_to_flatten(prefix: Seq<char>)
    ensures
        flattened(Seq::empty(), prefix).len() == 0,
{
    assert(entry_assignments(Seq::empty(), prefix).len() == 0);
}

/// One more entry of a table without a `base-url` adds to what the table flattens to: itself,
/// or what its own table flattens to, under its key with the prefix and a dot before it, or
/// under its key alone where there is no prefix. It takes the place of what was there.
pub proof fn law_flattening_one_more_entry(
    table: Seq<(Seq<char>, Toml)>,
    prefix: Seq<char>,
    key: Seq<char>,
    value: Toml,
    k: Seq<char>,
)
    requires
        lookup(table.push((key, value)), "base-url"@) is None,
    ensures
        ({
            let full = if prefix.len() == 0 {
                key
            } else {
                prefix + "."@ + key
            };
            lookup(flattened(table.push((key, value)), prefix), k) == (match value {
                Toml::Table(inner) => match lookup(flattened(inner, full), k) {
                    Some(v) => Some(v),
                    None => lookup(flattened(table, prefix), k),
                },
                _ => if k == full {
                    Some(value)
                } else {
                    lookup(flattened(table, prefix), k)
                },
            })
        }),
{
    let full = if prefix.len() == 0 {
        key
    } else {
        prefix + "."@ + key
    };
    let more = table.push((key, value));
    assert(more.drop_last() =~= table);
    assert(more[more.len() - 1] == (key, value));
    lemma_lookup_exists(table, "base-url"@);
    lemma_lookup_exists(more, "base-url"@);
    assert(lookup(table, "base-url"@) is None) by {
        if lookup(table, "base-url"@) is Some {
            let i = choose|i: int| 0 <= i < table.len() && (#[trigger] table[i]).0 == "base-url"@;
            assert(more[i].0 == "base-url"@);
        }
    }
    reveal_with_fuel(assignments, 2);
    reveal_with_fuel(entry_assignments, 2);
    let head = entry_assignments(table, prefix);
    assert(flattened(table, prefix) == assigned(Seq::empty(), head));
    match value {
        Toml::Table(inner) => {
            let tail = assignments(inner, full);
            assert(entry_assignments(more, prefix) == head + tail);
            lemma_assigned_concat(Seq::empty(), head, tail);
            lemma_assigned_lookup(assigned(Seq::empty(), head), tail, k);
        },
        _ => {
            let tail = seq![(full, value)];
            assert(entry_assignments(more, prefix) == head + tail);
            lemma_assigned_concat(Seq::empty(), head, tail);
            lemma_assigned_one(assigned(Seq::empty(), head), full, value);
            lemma_upsert_lookup(assigned(Seq::empty(), head), full, value, k);
        },
    }
}

} // verus!
