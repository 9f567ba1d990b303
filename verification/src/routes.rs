//! Route entries as they stand in a configuration, and the resolution of
//! aliases that point to other entries.

use crate::names::{
    distinct, lemma_absent, lemma_lookup_exists, lemma_select, lookup, select, NameMap,
};
use crate::text::{join2, join3, same};
use vstd::prelude::*;
use vstd::string::*;

verus! {

/// What a route entry stands for: another entry, or a list of backends.
#[derive(Debug)]
pub enum RouteTarget {
    Alias(String),
    Backends(Vec<String>),
}

/// What a route entry stands for.
pub enum Target {
    Alias(Seq<char>),
    Backends(Seq<Seq<char>>),
}

impl DeepView for RouteTarget {
    type V = Target;

    open spec fn deep_view(&self) -> Target {
        match self {
            RouteTarget::Alias(name) => Target::Alias(name@),
            RouteTarget::Backends(names) => Target::Backends(names.deep_view()),
        }
    }
}

/// The route entries of a configuration, by name.
pub type Entries = Seq<(Seq<char>, Target)>;

/// The name that `n` aliases lead to from `start`, if there are that many.
pub open spec fn hop(raw: Entries, start: Seq<char>, n: nat) -> Option<Seq<char>>
    decreases n,
{
    if n == 0 {
        Some(start)
    } else {
        match hop(raw, start, (n - 1) as nat) {
            Some(name) => match lookup(raw, name) {
                Some(Target::Alias(next)) => Some(next),
                _ => None,
            },
            None => None,
        }
    }
}

/// The aliases from `start` end, after `n` of them, at a list of backends.
pub open spec fn ends_at(raw: Entries, start: Seq<char>, n: nat) -> bool {
    match hop(raw, start, n) {
        Some(name) => lookup(raw, name) matches Some(Target::Backends(_)),
        None => false,
    }
}

/// The aliases from `start` end, after `n` of them, at a name without an entry.
pub open spec fn breaks_at(raw: Entries, start: Seq<char>, n: nat) -> bool {
    match hop(raw, start, n) {
        Some(name) => lookup(raw, name) is None,
        None => false,
    }
}

/// The aliases from `start` come back, after `b` of them, to the name where they
/// were after `a`, and to no name before that.
pub open spec fn cycles_at(raw: Entries, start: Seq<char>, a: nat, b: nat) -> bool {
    &&& a < b
    &&& hop(raw, start, b) is Some
    &&& hop(raw, start, a) == hop(raw, start, b)
    &&& forall|i: nat, j: nat|
        i < j < b ==> #[trigger] hop(raw, start, i) != #[trigger] hop(raw, start, j)
}

/// The name of the list of backends that the aliases from `start` lead to, if
/// they lead to one.
pub open spec fn final_route(raw: Entries, start: Seq<char>) -> Option<Seq<char>> {
    if exists|n: nat| ends_at(raw, start, n) {
        hop(raw, start, choose|n: nat| ends_at(raw, start, n))
    } else {
        None
    }
}

proof fn lemma_hop_defined(raw: Entries, start: Seq<char>, n: nat, m: nat)
    requires
        hop(raw, start, n) is Some,
        m < n,
    ensures
        hop(raw, start, m) is Some,
        lookup(raw, hop(raw, start, m)->0) matches Some(Target::Alias(_)),
    decreases n,
{
    if m + 1 < n {
        lemma_hop_defined(raw, start, (n - 1) as nat, m);
    }
}

/// A chain of aliases ends in at most one way.
pub proof fn lemma_end_is_unique(raw: Entries, start: Seq<char>, n: nat)
    requires
        ends_at(raw, start, n),
    ensures
        final_route(raw, start) == hop(raw, start, n),
{
    let m = choose|m: nat| ends_at(raw, start, m);
    if m < n {
        lemma_hop_defined(raw, start, n, m);
    } else if n < m {
        lemma_hop_defined(raw, start, m, n);
    }
}

/// A chain of aliases that comes to a name without an entry ends at no list of backends.
pub proof fn lemma_broken_chain_has_no_end(raw: Entries, start: Seq<char>, n: nat)
    requires
        breaks_at(raw, start, n),
    ensures
        final_route(raw, start) is None,
{
    if exists|m: nat| ends_at(raw, start, m) {
        let m = choose|m: nat| ends_at(raw, start, m);
        if m < n {
            lemma_hop_defined(raw, start, n, m);
        } else if n < m {
            lemma_hop_defined(raw, start, m, n);
        }
    }
}

proof fn lemma_cycle_repeats(raw: Entries, start: Seq<char>, a: nat, b: nat, k: nat)
    requires
        hop(raw, start, a) == hop(raw, start, b),
    ensures
        hop(raw, start, (a + k) as nat) == hop(raw, start, (b + k) as nat),
    decreases k,
{
    if k > 0 {
        lemma_cycle_repeats(raw, start, a, b, (k - 1) as nat);
    }
}

proof fn lemma_cycle_never_ends(raw: Entries, start: Seq<char>, a: nat, b: nat, n: nat)
    requires
        a < b,
        hop(raw, start, b) is Some,
        hop(raw, start, a) == hop(raw, start, b),
    ensures
        !ends_at(raw, start, n),
        !breaks_at(raw, start, n),
    decreases n,
{
    if n < b {
        lemma_hop_defined(raw, start, b, n);
    } else {
        lemma_cycle_repeats(raw, start, a, b, (n - b) as nat);
        lemma_cycle_never_ends(raw, start, a, b, (n - (b - a)) as nat);
    }
}

/// A chain of aliases that runs in a circle ends at no list of backends.
pub proof fn lemma_circular_chain_has_no_end(raw: Entries, start: Seq<char>, a: nat, b: nat)
    requires
        cycles_at(raw, start, a, b),
    ensures
        final_route(raw, start) is None,
{
    if exists|m: nat| ends_at(raw, start, m) {
        let m = choose|m: nat| ends_at(raw, start, m);
        lemma_cycle_never_ends(raw, start, a, b, m);
    }
}

/// The names one after the other, with `separator` between them.
pub open spec fn joined(names: Seq<Seq<char>>, separator: Seq<char>) -> Seq<char>
    decreases names.len(),
{
    if names.len() == 0 {
        Seq::empty()
    } else if names.len() == 1 {
        names[0]
    } else {
        joined(names.drop_last(), separator) + separator + names.last()
    }
}

/// The names one after the other, with `separator` between them.
fn join_names(names: &Vec<String>, from: usize, separator: &str) -> (r: String)
    requires
        from <= names@.len(),
    ensures
        r@ == joined(names.deep_view().skip(from as int), separator@),
{
    let ghost all = names.deep_view().skip(from as int);
    let mut out = String::new();
    let mut i: usize = from;
    proof {
        assert(all.take(0) =~= Seq::<Seq<char>>::empty());
        assert(out@ =~= Seq::<char>::empty());
    }
    while i < names.len()
        invariant
            from <= i <= names@.len(),
            all == names.deep_view().skip(from as int),
            out@ == joined(all.take(i - from), separator@),
        decreases names@.len() - i,
    {
        let ghost before = all.take(i - from);
        let ghost after = all.take(i - from + 1);
        proof {
            assert(after.drop_last() =~= before);
            assert(after.last() == names@[i as int]@);
        }
        if i > from {
            out.append(separator);
        }
        out.append(names[i].as_str());
        proof {
            if i == from {
                assert(out@ =~= names@[i as int]@);
            }
        }
        i = i + 1;
    }
    assert(all.take(i - from) =~= all);
    out
}

/// What is said of an alias that leads to a name without an entry.
pub open spec fn missing_route_message(name: Seq<char>) -> Seq<char> {
    "Route '"@ + name + "' does not exist"@
}

/// What is said of aliases that run through `circle` and back to `name`.
pub open spec fn circular_alias_message(circle: Seq<Seq<char>>, name: Seq<char>) -> Seq<char> {
    "Detected circular alias reference: "@ + joined(circle, "->"@) + " → "@ + name
}

/// The names that the aliases from `start` pass, from the `a`th before the `b`th.
pub open spec fn hops(raw: Entries, start: Seq<char>, a: nat, b: nat) -> Seq<Seq<char>> {
    Seq::new((b - a) as nat, |i: int| hop(raw, start, (a + i) as nat)->0)
}

/// Why the aliases from `start` lead to no list of backends: they come to a name
/// without an entry, or run in a circle.
pub open spec fn alias_error(raw: Entries, start: Seq<char>, message: Seq<char>) -> bool {
    ||| exists|n: nat|
        #[trigger] breaks_at(raw, start, n) && message == missing_route_message(
            hop(raw, start, n)->0,
        )
    ||| exists|a: nat, b: nat|
        #[trigger] cycles_at(raw, start, a, b) && message == circular_alias_message(
            hops(raw, start, a, b),
            hop(raw, start, b)->0,
        )
}

/// There is one thing to say of aliases that lead to no list of backends.
pub proof fn law_an_alias_has_one_error(
    raw: Entries,
    start: Seq<char>,
    one: Seq<char>,
    other: Seq<char>,
)
    requires
        alias_error(raw, start, one),
        alias_error(raw, start, other),
    ensures
        one == other,
{
    if exists|n: nat| breaks_at(raw, start, n) {
        let n = choose|n: nat| breaks_at(raw, start, n);
        assert forall|m: nat| breaks_at(raw, start, m) implies m == n by {
            if m < n {
                lemma_hop_defined(raw, start, n, m);
            } else if n < m {
                lemma_hop_defined(raw, start, m, n);
            }
        }
        assert forall|a: nat, b: nat| !cycles_at(raw, start, a, b) by {
            if cycles_at(raw, start, a, b) {
                lemma_cycle_never_ends(raw, start, a, b, n);
            }
        }
    } else {
        let (a, b) = choose|a: nat, b: nat| cycles_at(raw, start, a, b);
        assert forall|c: nat, d: nat| cycles_at(raw, start, c, d) implies c == a && d == b by {
            assert(hop(raw, start, c) == hop(raw, start, d));
            assert(hop(raw, start, a) == hop(raw, start, b));
        }
    }
}

proof fn lemma_path_fits(raw: Entries, path: Seq<Seq<char>>)
    requires
        path.no_duplicates(),
        forall|i: int| 0 <= i < path.len() ==> lookup(raw, #[trigger] path[i]) is Some,
    ensures
        path.len() <= raw.len(),
{
    let names = raw.map_values(|e: (Seq<char>, Target)| e.0);
    assert(path.to_set().subset_of(names.to_set())) by {
        assert forall|x: Seq<char>| path.to_set().contains(x) implies names.to_set().contains(x) by {
            let i = choose|i: int| 0 <= i < path.len() && path[i] == x;
            lemma_lookup_exists(raw, path[i]);
            let j = choose|j: int| 0 <= j < raw.len() && (#[trigger] raw[j]).0 == path[i];
            assert(names[j] == x);
        }
    }
    path.unique_seq_to_set();
    names.lemma_cardinality_of_set();
    vstd::set_lib::lemma_len_subset(path.to_set(), names.to_set());
}

/// Follows the aliases from `start` to the list of backends that they lead to,
/// and returns its name. An alias that runs in a circle, or leads to a name
/// without an entry, is an error.
pub fn resolve_alias_chain(raw_router: &NameMap<RouteTarget>, start: &str) -> (r: Result<String, String>)
    ensures
        match r {
            Ok(name) => final_route(raw_router@, start@) == Some(name@),
            Err(message) => {
                &&& final_route(raw_router@, start@) is None
                &&& alias_error(raw_router@, start@, message@)
            },
        },
{
    let ghost raw = raw_router@;
    let mut current: &str = start;
    let mut path: Vec<String> = Vec::new();
    loop
        invariant
            raw == raw_router@,
            hop(raw, start@, path@.len()) == Some(current@),
            forall|i: int|
                0 <= i < path@.len() ==> Some((#[trigger] path@[i])@) == hop(raw, start@, i as nat),
            forall|i: int, j: int|
                0 <= i < j < path@.len() ==> (#[trigger] path@[i])@ != (#[trigger] path@[j])@,
            path@.len() <= raw.len(),
        decreases raw.len() + 1 - path@.len(),
    {
        let mut i: usize = 0;
        while i < path.len()
            invariant
                raw == raw_router@,
                0 <= i <= path@.len(),
                hop(raw, start@, path@.len()) == Some(current@),
                forall|k: int|
                    0 <= k < path@.len() ==> Some((#[trigger] path@[k])@) == hop(
                        raw,
                        start@,
                        k as nat,
                    ),
                forall|k: int, j: int|
                    0 <= k < j < path@.len() ==> (#[trigger] path@[k])@ != (#[trigger] path@[j])@,
                forall|k: int| 0 <= k < i ==> (#[trigger] path@[k])@ != current@,
            decreases path@.len() - i,
        {
            if same(path[i].as_str(), current) {
                let circle = join_names(&path, i, "->");
                let message = join2(
                    join3("Detected circular alias reference: ", circle.as_str(), " → ").as_str(),
                    current,
                );
                proof {
                    let a = i as nat;
                    let b = path@.len() as nat;
                    assert forall|k: nat, j: nat| k < j < b implies #[trigger] hop(raw, start@, k)
                        != #[trigger] hop(raw, start@, j) by {
                        assert(path@[k as int]@ != path@[j as int]@);
                    }
                    assert(cycles_at(raw, start@, a, b));
                    assert(path.deep_view().skip(i as int) =~= hops(raw, start@, a, b)) by {
                        assert forall|k: int| 0 <= k < b - a implies path.deep_view().skip(
                            i as int,
                        )[k] == hops(raw, start@, a, b)[k] by {
                            assert(path@[a + k]@ == hop(raw, start@, (a + k) as nat)->0);
                        }
                    }
                    lemma_circular_chain_has_no_end(raw, start@, a, b);
                    assert(message@ == circular_alias_message(
                        hops(raw, start@, a, b),
                        hop(raw, start@, b)->0,
                    ));
                }
                return Err(message);
            }
            i = i + 1;
        }
        let ghost before = path@;
        match raw_router.get(current) {
            Some(RouteTarget::Alias(next)) => {
                path.push(current.to_owned());
                proof {
                    let names = path.deep_view();
                    assert forall|k: int| 0 <= k < names.len() implies lookup(
                        raw,
                        #[trigger] names[k],
                    ) is Some by {
                        assert(names[k] == path@[k]@);
                        if k < before.len() {
                            assert(path@[k] == before[k]);
                            lemma_hop_defined(raw, start@, before.len(), k as nat);
                        }
                    }
                    assert(names.no_duplicates()) by {
                        assert forall|k: int, j: int|
                            0 <= k < names.len() && 0 <= j < names.len() && k != j implies names[k]
                            != names[j] by {
                            assert(names[k] == path@[k]@);
                            assert(names[j] == path@[j]@);
                        }
                    }
                    lemma_path_fits(raw, names);
                }
                current = next.as_str();
            },
            Some(RouteTarget::Backends(_)) => {
                proof {
                    assert(ends_at(raw, start@, path@.len()));
                    lemma_end_is_unique(raw, start@, path@.len());
                }
                return Ok(current.to_owned());
            },
            None => {
                let message = join3("Route '", current, "' does not exist");
                proof {
                    assert(breaks_at(raw, start@, path@.len()));
                    lemma_broken_chain_has_no_end(raw, start@, path@.len());
                }
                return Err(message);
            },
        }
    }
}

/// The backends that an entry lists.
pub open spec fn listed_backends() -> spec_fn(Target) -> Option<Seq<Seq<char>>> {
    |t: Target|
        match t {
            Target::Backends(names) => Some(names),
            Target::Alias(_) => None,
        }
}

/// The list of backends that an alias entry leads to.
pub open spec fn alias_end(raw: Entries) -> spec_fn(Target) -> Option<Seq<char>> {
    |t: Target|
        match t {
            Target::Backends(_) => None,
            Target::Alias(next) => final_route(raw, next),
        }
}

/// The lists of backends among the entries, by name.
pub open spec fn routes_of(raw: Entries) -> Seq<(Seq<char>, Seq<Seq<char>>)> {
    select(raw, listed_backends())
}

/// The aliases among the entries that lead to a list of backends, each with the
/// name of that list.
pub open spec fn aliases_of(raw: Entries) -> Seq<(Seq<char>, Seq<char>)> {
    select(raw, alias_end(raw))
}

/// What is said of aliases from `start` that lead to no list of backends.
pub open spec fn error_of(raw: Entries, start: Seq<char>) -> Seq<char> {
    choose|message: Seq<char>| alias_error(raw, start, message)
}

/// What is wrong with an alias entry that leads to no list of backends.
pub open spec fn alias_fault(raw: Entries) -> spec_fn(Target) -> Option<Seq<char>> {
    |t: Target|
        match t {
            Target::Backends(_) => None,
            Target::Alias(next) => match final_route(raw, next) {
                Some(_) => None,
                None => Some(error_of(raw, next)),
            },
        }
}

/// The aliases among the entries that lead to no list of backends, each with what is
/// wrong with it.
pub open spec fn skipped_of(raw: Entries) -> Seq<(Seq<char>, Seq<char>)> {
    select(raw, alias_fault(raw))
}

/// Every entry is a route, an alias or skipped, and no more than one of these.
pub proof fn law_every_entry_has_its_place(raw: Entries, name: Seq<char>)
    requires
        distinct(raw),
    ensures
        match lookup(raw, name) {
            Some(Target::Backends(names)) => {
                &&& lookup(routes_of(raw), name) == Some(names)
                &&& lookup(aliases_of(raw), name) is None
                &&& lookup(skipped_of(raw), name) is None
            },
            Some(Target::Alias(next)) => {
                &&& lookup(routes_of(raw), name) is None
                &&& lookup(aliases_of(raw), name) == final_route(raw, next)
                &&& lookup(skipped_of(raw), name) is Some <==> final_route(raw, next) is None
            },
            None => {
                &&& lookup(routes_of(raw), name) is None
                &&& lookup(aliases_of(raw), name) is None
                &&& lookup(skipped_of(raw), name) is None
            },
        },
{
    lemma_select(raw, listed_backends());
    lemma_select(raw, alias_end(raw));
    lemma_select(raw, alias_fault(raw));
}

/// A name is a route exactly if its entry lists backends, and then with that list.
/// It is an alias exactly if its entry points to another one and the chain ends
/// at a list of backends, and then it leads to that list.
pub proof fn law_routes_and_aliases(raw: Entries, name: Seq<char>)
    requires
        distinct(raw),
    ensures
        lookup(routes_of(raw), name) == (match lookup(raw, name) {
            Some(Target::Backends(names)) => Some(names),
            _ => None,
        }),
        lookup(aliases_of(raw), name) == (match lookup(raw, name) {
            Some(Target::Alias(next)) => final_route(raw, next),
            _ => None,
        }),
{
    lemma_select(raw, listed_backends());
    lemma_select(raw, alias_end(raw));
}

/// Every alias leads to a route, and no name is both an alias and a route.
pub proof fn law_aliases_lead_to_routes(raw: Entries, name: Seq<char>)
    requires
        distinct(raw),
    ensures
        lookup(aliases_of(raw), name) matches Some(route) ==> {
            &&& lookup(routes_of(raw), route) is Some
            &&& lookup(routes_of(raw), name) is None
        },
{
    law_routes_and_aliases(raw, name);
    if let Some(route) = lookup(aliases_of(raw), name) {
        law_routes_and_aliases(raw, route);
    }
}

/// Aliases that run in a circle, and aliases that lead to a name without an
/// entry, are no aliases of the configuration.
pub proof fn law_invalid_aliases_are_left_out(raw: Entries, name: Seq<char>, next: Seq<char>)
    requires
        distinct(raw),
        lookup(raw, name) == Some(Target::Alias(next)),
        (exists|n: nat| breaks_at(raw, next, n)) || (exists|a: nat, b: nat|
            cycles_at(raw, next, a, b)),
    ensures
        lookup(aliases_of(raw), name) is None,
{
    law_routes_and_aliases(raw, name);
    if exists|n: nat| breaks_at(raw, next, n) {
        lemma_broken_chain_has_no_end(raw, next, choose|n: nat| breaks_at(raw, next, n));
    } else {
        let (a, b) = choose|a: nat, b: nat| cycles_at(raw, next, a, b);
        lemma_circular_chain_has_no_end(raw, next, a, b);
    }
}

/// The routes and aliases of a configuration.
pub struct Routes {
    pub aliases: NameMap<String>,
    pub router: NameMap<Vec<String>>,
    /// The aliases that lead to no route, each with what is wrong with it.
    pub skipped: NameMap<String>,
}

/// Separates the entries into lists of backends and aliases. Aliases lead
/// directly to the list that their chain ends at; those whose chain ends at none
/// are skipped.
pub fn separate_routes(raw_router: &NameMap<RouteTarget>) -> (r: Routes)
    ensures
        r.router@ == routes_of(raw_router@),
        r.aliases@ == aliases_of(raw_router@),
        r.skipped@ == skipped_of(raw_router@),
{
    let ghost raw = raw_router@;
    let n: usize = raw_router.len();
    let mut aliases: NameMap<String> = NameMap::new();
    let mut router: NameMap<Vec<String>> = NameMap::new();
    let mut skipped: NameMap<String> = NameMap::new();
    let mut i: usize = 0;
    proof {
        assert(raw.take(0) =~= Seq::empty());
    }
    while i < n
        invariant
            n == raw.len(),
            raw == raw_router@,
            distinct(raw),
            0 <= i <= n,
            router@ == select(raw.take(i as int), listed_backends()),
            aliases@ == select(raw.take(i as int), alias_end(raw)),
            skipped@ == select(raw.take(i as int), alias_fault(raw)),
        decreases n - i,
    {
        let name = raw_router.name_at(i);
        let ghost before = raw.take(i as int);
        let ghost after = raw.take(i + 1);
        proof {
            assert(after.drop_last() =~= before);
            assert(after.last() == raw[i as int]);
            assert(distinct(before));
            lemma_lookup_exists(before, name@);
            lemma_select(before, listed_backends());
            lemma_select(before, alias_end(raw));
            lemma_lookup_exists(router@, name@);
            lemma_lookup_exists(aliases@, name@);
            lemma_select(before, alias_fault(raw));
            lemma_lookup_exists(skipped@, name@);
        }
        match raw_router.value_at(i) {
            RouteTarget::Backends(names) => {
                let copy = clone_names(names);
                proof {
                    lemma_absent(router@, name@, copy.deep_view());
                }
                router.insert(name.to_owned(), copy);
            },
            RouteTarget::Alias(next) => {
                match resolve_alias_chain(raw_router, next.as_str()) {
                    Ok(route) => {
                        proof {
                            lemma_absent(aliases@, name@, route@);
                        }
                        aliases.insert(name.to_owned(), route);
                    },
                    Err(message) => {
                        proof {
                            law_an_alias_has_one_error(
                                raw,
                                next@,
                                message@,
                                error_of(raw, next@),
                            );
                            lemma_absent(skipped@, name@, message@);
                        }
                        skipped.insert(name.to_owned(), message);
                    },
                }
            },
        }
        i = i + 1;
    }
    assert(raw.take(i as int) =~= raw);
    Routes { aliases, router, skipped }
}

/// A copy of the list.
pub(crate) fn clone_names(names: &Vec<String>) -> (r: Vec<String>)
    ensures
        r.deep_view() == names.deep_view(),
{
    let mut out: Vec<String> = Vec::new();
    let mut i: usize = 0;
    while i < names.len()
        invariant
            0 <= i <= names@.len(),
            out@.len() == i,
            forall|j: int| 0 <= j < i ==> (#[trigger] out@[j])@ == names@[j]@,
        decreases names@.len() - i,
    {
        out.push(names[i].clone());
        i = i + 1;
    }
    assert(out.deep_view() =~= names.deep_view());
    out
}

} // verus!
