//! Flattening of TOML tables whose keys were split at their dots.

use crate::names::{
    distinct, first_at, lemma_absent, lemma_first_at, lemma_lookup_exists, lemma_upsert_distinct, lookup,
    upsert, NameMap,
};
use crate::text::join3;
use crate::toml_doc::{
    entries_content, lemma_entries_content, table_get, Toml, TomlTable, TomlValue,
};
use vstd::prelude::*;

verus! {

/// The key `key` under `prefix`: the two with a dot between them, or the key
/// alone where there is no prefix.
pub open spec fn full_key(prefix: Seq<char>, key: Seq<char>) -> Seq<char> {
    if prefix.len() == 0 {
        key
    } else {
        prefix + "."@ + key
    }
}

/// The assignments that a table stands for. A table with a `base-url` describes a
/// backend and stands for itself, under the prefix. Any other stands for its
/// entries, and for what the tables among them stand for.
pub open spec fn assignments(table: Seq<(Seq<char>, Toml)>, prefix: Seq<char>) -> Seq<
    (Seq<char>, Toml),
>
    decreases table, 1nat,
{
    if lookup(table, "base-url"@) is Some {
        seq![(prefix, Toml::Table(table))]
    } else {
        entry_assignments(table, prefix)
    }
}

/// The assignments that the entries of a table stand for, one entry after the other.
pub open spec fn entry_assignments(table: Seq<(Seq<char>, Toml)>, prefix: Seq<char>) -> Seq<
    (Seq<char>, Toml),
>
    decreases table, 0nat,
{
    if table.len() == 0 {
        Seq::empty()
    } else {
        proof {
            assert(decreases_to!(table => table[table.len() - 1]));
            assert(decreases_to!(table[table.len() - 1] => table[table.len() - 1].1));
        }
        let last = table[table.len() - 1];
        let key = full_key(prefix, last.0);
        entry_assignments(table.drop_last(), prefix) + (match last.1 {
            Toml::Table(inner) => assignments(inner, key),
            value => seq![(key, value)],
        })
    }
}

/// `base` after the assignments, each in turn.
pub open spec fn assigned<T>(base: Seq<(Seq<char>, T)>, list: Seq<(Seq<char>, T)>) -> Seq<
    (Seq<char>, T),
>
    decreases list.len(),
{
    if list.len() == 0 {
        base
    } else {
        upsert(assigned(base, list.drop_last()), list.last().0, list.last().1)
    }
}

pub(crate) proof fn lemma_assigned_concat<T>(
    base: Seq<(Seq<char>, T)>,
    a: Seq<(Seq<char>, T)>,
    b: Seq<(Seq<char>, T)>,
)
    ensures
        assigned(base, a + b) == assigned(assigned(base, a), b),
    decreases b.len(),
{
    if b.len() == 0 {
        assert(a + b =~= a);
    } else {
        assert((a + b).drop_last() =~= a + b.drop_last());
        lemma_assigned_concat(base, a, b.drop_last());
    }
}

pub(crate) proof fn lemma_assigned_one<T>(base: Seq<(Seq<char>, T)>, k: Seq<char>, v: T)
    ensures
        assigned(base, seq![(k, v)]) == upsert(base, k, v),
{
    reveal_with_fuel(assigned, 2);
    assert(seq![(k, v)].drop_last() =~= Seq::empty());
}

/// What a table is after flattening.
pub open spec fn flattened(table: Seq<(Seq<char>, Toml)>, prefix: Seq<char>) -> Seq<
    (Seq<char>, Toml),
> {
    assigned(Seq::empty(), assignments(table, prefix))
}

fn flatten_into(table: &TomlTable, prefix: &str, out: &mut NameMap<TomlValue>)
    ensures
        final(out)@ == assigned(
            old(out)@,
            assignments(entries_content(table@), prefix@),
        ),
    decreases table@,
{
    let ghost all = entries_content(table@);
    if table_get(table, "base-url").is_some() {
        let whole = TomlValue::Table(clone_table(table));
        proof {
            lemma_assigned_one(out@, prefix@, whole.content());
        }
        out.insert(prefix.to_owned(), whole);
        return ;
    }
    let ghost start = out@;
    let mut i: usize = 0;
    proof {
        lemma_entries_content(table@);
        assert(all.take(0) =~= Seq::empty());
    }
    while i < table.len()
        invariant
            0 <= i <= table@.len(),
            all == entries_content(table@),
            all.len() == table@.len(),
            forall|j: int|
                0 <= j < table@.len() ==> #[trigger] all[j] == (
                    table@[j].0@,
                    table@[j].1.content(),
                ),
            out@ == assigned(start, entry_assignments(all.take(i as int), prefix@)),
        decreases table@.len() - i,
    {
        let key = if prefix.is_empty() {
            table[i].0.clone()
        } else {
            join3(prefix, ".", table[i].0.as_str())
        };
        let ghost before = all.take(i as int);
        let ghost after = all.take(i + 1);
        proof {
            assert(after.drop_last() =~= before);
            assert(after[after.len() - 1] == all[i as int]);
            assert(key@ == full_key(prefix@, table@[i as int].0@));
            reveal_with_fuel(entry_assignments, 2);
        }
        match &table[i].1 {
            TomlValue::Table(inner) => {
                proof {
                    let value = table@[i as int].1;
                    assert(decreases_to!(table@ => table@[i as int]));
                    assert(decreases_to!(table@[i as int] => table@[i as int].1));
                    assert(decreases_to!(value => value->Table_0));
                    assert(decreases_to!(value->Table_0 => value->Table_0@));
                    lemma_assigned_concat(
                        start,
                        entry_assignments(before, prefix@),
                        assignments(entries_content(inner@), key@),
                    );
                }
                flatten_into(inner, key.as_str(), out);
            },
            value => {
                let copy = value.clone();
                proof {
                    lemma_assigned_concat(
                        start,
                        entry_assignments(before, prefix@),
                        seq![(key@, copy.content())],
                    );
                    lemma_assigned_one(out@, key@, copy.content());
                }
                out.insert(key, copy);
            },
        }
        i = i + 1;
    }
    assert(all.take(i as int) =~= all);
}

fn clone_table(table: &TomlTable) -> (r: TomlTable)
    ensures
        entries_content(r@) == entries_content(table@),
{
    let mut out: TomlTable = Vec::new();
    let mut i: usize = 0;
    while i < table.len()
        invariant
            0 <= i <= table@.len(),
            entries_content(out@) == entries_content(table@.take(i as int)),
        decreases table@.len() - i,
    {
        let ghost before = out@;
        out.push((table[i].0.clone(), table[i].1.clone()));
        proof {
            assert(table@.take(i + 1).drop_last() =~= table@.take(i as int));
            assert(out@.drop_last() =~= before);
        }
        i = i + 1;
    }
    assert(table@.take(i as int) =~= table@);
    out
}

/// Flattens a table whose keys were split at their dots: nested tables become
/// entries with dotted keys. A table with a `base-url` is a backend and stays whole.
pub fn flatten_table(table: &TomlTable, prefix: &str) -> (r: NameMap<TomlValue>)
    ensures
        r@ == flattened(entries_content(table@), prefix@),
{
    let mut out: NameMap<TomlValue> = NameMap::new();
    flatten_into(table, prefix, &mut out);
    out
}

/// A key that belongs under `prefix`, and a value that may stay in a flat table.
pub open spec fn flat_entry(e: (Seq<char>, Toml), prefix: Seq<char>) -> bool {
    &&& prefix.is_prefix_of(e.0)
    &&& e.1 matches Toml::Table(t) ==> lookup(t, "base-url"@) is Some
}

proof fn lemma_assignments_flat(table: Seq<(Seq<char>, Toml)>, prefix: Seq<char>)
    ensures
        forall|i: int|
            0 <= i < assignments(table, prefix).len() ==> flat_entry(
                #[trigger] assignments(table, prefix)[i],
                prefix,
            ),
    decreases table, 1nat,
{
    reveal_with_fuel(assignments, 2);
    if lookup(table, "base-url"@) is None {
        lemma_entry_assignments_flat(table, prefix);
        assert(assignments(table, prefix) == entry_assignments(table, prefix));
    } else {
        assert(prefix.is_prefix_of(prefix));
        assert(assignments(table, prefix) == seq![(prefix, Toml::Table(table))]);
        assert(flat_entry((prefix, Toml::Table(table)), prefix));
    }
}

proof fn lemma_entry_assignments_flat(table: Seq<(Seq<char>, Toml)>, prefix: Seq<char>)
    ensures
        forall|i: int|
            0 <= i < entry_assignments(table, prefix).len() ==> flat_entry(
                #[trigger] entry_assignments(table, prefix)[i],
                prefix,
            ),
    decreases table, 0nat,
{
    if table.len() > 0 {
        assert(decreases_to!(table => table[table.len() - 1]));
        assert(decreases_to!(table[table.len() - 1] => table[table.len() - 1].1));
        let last = table[table.len() - 1];
        let key = full_key(prefix, last.0);
        let head = entry_assignments(table.drop_last(), prefix);
        let all = entry_assignments(table, prefix);
        assert(prefix.is_prefix_of(key));
        lemma_entry_assignments_flat(table.drop_last(), prefix);
        if let Toml::Table(inner) = last.1 {
            lemma_assignments_flat(inner, key);
            let tail = assignments(inner, key);
            assert forall|i: int| 0 <= i < all.len() implies flat_entry(#[trigger] all[i], prefix) by {
                if i < head.len() {
                    assert(all[i] == head[i]);
                } else {
                    assert(all[i] == tail[i - head.len()]);
                    assert(flat_entry(tail[i - head.len()], key));
                    assert(prefix =~= all[i].0.subrange(0, prefix.len() as int));
                }
            }
        } else {
            assert forall|i: int| 0 <= i < all.len() implies flat_entry(#[trigger] all[i], prefix) by {
                if i < head.len() {
                    assert(all[i] == head[i]);
                } else {
                    assert(all[i] == (key, last.1));
                }
            }
        }
    }
}

proof fn lemma_assigned_from<T>(
    base: Seq<(Seq<char>, T)>,
    list: Seq<(Seq<char>, T)>,
    p: spec_fn((Seq<char>, T)) -> bool,
)
    requires
        forall|i: int| 0 <= i < base.len() ==> p(#[trigger] base[i]),
        forall|i: int| 0 <= i < list.len() ==> p(#[trigger] list[i]),
    ensures
        forall|i: int| 0 <= i < assigned(base, list).len() ==> p(#[trigger] assigned(base, list)[i]),
    decreases list.len(),
{
    if list.len() > 0 {
        let rest = list.drop_last();
        assert forall|i: int| 0 <= i < rest.len() implies p(#[trigger] rest[i]) by {
            assert(rest[i] == list[i]);
        }
        lemma_assigned_from(base, rest, p);
        let inner = assigned(base, rest);
        let last = list[list.len() - 1];
        assert(p(last));
        lemma_lookup_exists(inner, last.0);
        if lookup(inner, last.0) is Some {
            let at = choose|i: int|
                first_at(inner, last.0, i) && #[trigger] inner[i] == (
                    last.0,
                    lookup(inner, last.0)->0,
                );
            lemma_first_at(inner, last.0, at, last.1);
        } else {
            lemma_absent(inner, last.0, last.1);
        }
    }
}

/// A flattened table holds no table but those with a `base-url`, and every key of
/// it begins with the prefix.
pub proof fn law_flattened_is_flat(table: Seq<(Seq<char>, Toml)>, prefix: Seq<char>)
    ensures
        forall|i: int|
            0 <= i < flattened(table, prefix).len() ==> {
                &&& prefix.is_prefix_of((#[trigger] flattened(table, prefix)[i]).0)
                &&& flattened(table, prefix)[i].1 matches Toml::Table(t) ==> lookup(
                    t,
                    "base-url"@,
                ) is Some
            },
{
    let p = |e: (Seq<char>, Toml)| flat_entry(e, prefix);
    lemma_assignments_flat(table, prefix);
    lemma_assigned_from(Seq::empty(), assignments(table, prefix), p);
    assert forall|i: int| 0 <= i < flattened(table, prefix).len() implies flat_entry(
        #[trigger] flattened(table, prefix)[i],
        prefix,
    ) by {
        assert(p(flattened(table, prefix)[i]));
    }
}

/// No key occurs twice in a flattened table.
pub proof fn law_flattened_keys_are_distinct(table: Seq<(Seq<char>, Toml)>, prefix: Seq<char>)
    ensures
        distinct(flattened(table, prefix)),
{
    lemma_assigned_distinct(Seq::empty(), assignments(table, prefix));
}

proof fn lemma_assigned_distinct<T>(base: Seq<(Seq<char>, T)>, list: Seq<(Seq<char>, T)>)
    requires
        distinct(base),
    ensures
        distinct(assigned(base, list)),
    decreases list.len(),
{
    if list.len() > 0 {
        lemma_assigned_distinct(base, list.drop_last());
        lemma_upsert_distinct(assigned(base, list.drop_last()), list.last().0, list.last().1);
    }
}

} // verus!
