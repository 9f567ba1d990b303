//! TOML documents as plain data.
//!
//! The text is read by the `toml` crate. What it returns is taken apart level
//! by level into a [`TomlValue`], on which the configuration is built.

use crate::names::{distinct, first_at, lemma_lookup_exists, lookup};
use crate::text::{outcome, same};
use vstd::prelude::*;

verus! {

/// What a TOML value holds: strings, integers, arrays and tables with their
/// content, values of the other kinds (floats, booleans, dates) as `Other`.
/// The entries of a table stand in the order in which the table yields them.
pub enum Toml {
    String(Seq<char>),
    Integer(i64),
    Other,
    Array(Seq<Toml>),
    Table(Seq<(Seq<char>, Toml)>),
}

impl Toml {
    /// The value under `key`, if this is a table that has one.
    pub open spec fn get(self, key: Seq<char>) -> Option<Toml> {
        match self {
            Toml::Table(entries) => lookup(entries, key),
            _ => None,
        }
    }

    /// The string under `key`, if this is a table with a string there.
    pub open spec fn get_str(self, key: Seq<char>) -> Option<Seq<char>> {
        match self.get(key) {
            Some(Toml::String(s)) => Some(s),
            _ => None,
        }
    }

    /// The integer under `key`, if this is a table with an integer there.
    pub open spec fn get_integer(self, key: Seq<char>) -> Option<i64> {
        match self.get(key) {
            Some(Toml::Integer(i)) => Some(i),
            _ => None,
        }
    }
}

/// In no table within `t`, itself included, does a key occur twice.
pub open spec fn tidy(t: Toml) -> bool
    decreases t,
{
    match t {
        Toml::Array(items) => forall|i: int| 0 <= i < items.len() ==> tidy(#[trigger] items[i]),
        Toml::Table(entries) => distinct(entries) && forall|i: int|
            0 <= i < entries.len() ==> tidy((#[trigger] entries[i]).1),
        _ => true,
    }
}

/// What a key holds in a tidy value is tidy.
pub proof fn lemma_tidy_entry(t: Toml, key: Seq<char>)
    requires
        tidy(t),
    ensures
        t.get(key) matches Some(value) ==> tidy(value),
{
    if let Toml::Table(entries) = t {
        lemma_lookup_exists(entries, key);
        if let Some(value) = lookup(entries, key) {
            let i = choose|i: int|
                first_at(entries, key, i) && #[trigger] entries[i] == (key, value);
            assert(tidy(entries[i].1));
        }
    }
}

/// `toml::Value`, the value that the `toml` crate reads a text into.
#[verifier::external_type_specification]
#[verifier::external_body]
pub struct ExTomlValue(toml::Value);

/// What a `toml::Value` holds.
pub uninterp spec fn toml_content(v: toml::Value) -> Toml;

/// What `toml::from_str` makes of a text: the document, or the message of its error.
pub uninterp spec fn toml_document(text: Seq<char>) -> Result<Toml, Seq<char>>;

/// `toml::from_str`, read into a `toml::Value`. The result is named
/// [`toml_document`]: it depends on the text alone. An error is handed on as its
/// message.
#[verifier::external_body]
fn toml_from_str(text: &str) -> (r: Result<toml::Value, String>)
    ensures
        match r {
            Ok(v) => toml_document(text@) == Ok::<Toml, Seq<char>>(toml_content(v)),
            Err(m) => toml_document(text@) == Err::<Toml, Seq<char>>(m@),
        },
{
    toml::from_str(text).map_err(|e: toml::de::Error| e.to_string())
}

/// One level of a `toml::Value`.
pub enum TomlNode {
    String(String),
    Integer(i64),
    Other,
    Array(Vec<toml::Value>),
    Table(Vec<(String, toml::Value)>),
}

impl TomlNode {
    /// What the value is of which this is the uppermost level.
    pub open spec fn content(self) -> Toml {
        match self {
            TomlNode::String(s) => Toml::String(s@),
            TomlNode::Integer(i) => Toml::Integer(i),
            TomlNode::Other => Toml::Other,
            TomlNode::Array(items) => Toml::Array(
                Seq::new(items@.len(), |i: int| toml_content(items@[i])),
            ),
            TomlNode::Table(entries) => Toml::Table(
                Seq::new(entries@.len(), |i: int| (entries@[i].0@, toml_content(entries@[i].1))),
            ),
        }
    }
}

/// The variant of a `toml::Value` and what stands in it. A table is handed on as
/// its entries, in the order of the `into_iter` of `toml::Table`; as that is a map, no
/// key occurs twice.
#[verifier::external_body]
fn toml_open(v: toml::Value) -> (r: TomlNode)
    ensures
        r.content() == toml_content(v),
        r.content() matches Toml::Table(entries) ==> distinct(entries),
{
    match v {
        toml::Value::String(s) => TomlNode::String(s),
        toml::Value::Integer(i) => TomlNode::Integer(i),
        toml::Value::Float(_) => TomlNode::Other,
        toml::Value::Boolean(_) => TomlNode::Other,
        toml::Value::Datetime(_) => TomlNode::Other,
        toml::Value::Array(items) => TomlNode::Array(items),
        toml::Value::Table(entries) => TomlNode::Table(entries.into_iter().collect()),
    }
}

/// A TOML value as plain data.
#[derive(Debug)]
pub enum TomlValue {
    String(String),
    Integer(i64),
    /// A float, a boolean or a date.
    Other,
    Array(Vec<TomlValue>),
    Table(Vec<(String, TomlValue)>),
}

/// The entries of a TOML table.
pub type TomlTable = Vec<(String, TomlValue)>;

/// What the values `items` hold.
pub open spec fn values_content(items: Seq<TomlValue>) -> Seq<Toml>
    decreases items,
{
    if items.len() == 0 {
        Seq::empty()
    } else {
        values_content(items.drop_last()).push(items.last().content())
    }
}

/// What the table entries `entries` hold.
pub open spec fn entries_content(entries: Seq<(String, TomlValue)>) -> Seq<(Seq<char>, Toml)>
    decreases entries,
{
    if entries.len() == 0 {
        Seq::empty()
    } else {
        entries_content(entries.drop_last()).push(
            (entries.last().0@, entries.last().1.content()),
        )
    }
}

pub(crate) proof fn lemma_values_content(items: Seq<TomlValue>)
    ensures
        values_content(items).len() == items.len(),
        forall|i: int|
            0 <= i < items.len() ==> #[trigger] values_content(items)[i] == items[i].content(),
    decreases items,
{
    if items.len() > 0 {
        lemma_values_content(items.drop_last());
    }
}

pub(crate) proof fn lemma_entries_content(entries: Seq<(String, TomlValue)>)
    ensures
        entries_content(entries).len() == entries.len(),
        forall|i: int|
            0 <= i < entries.len() ==> #[trigger] entries_content(entries)[i] == (
                entries[i].0@,
                entries[i].1.content(),
            ),
    decreases entries,
{
    if entries.len() > 0 {
        lemma_entries_content(entries.drop_last());
    }
}

impl DeepView for TomlValue {
    type V = Toml;

    open spec fn deep_view(&self) -> Toml {
        self.content()
    }
}

impl TomlValue {
    /// What the value holds.
    pub open spec fn content(self) -> Toml
        decreases self,
    {
        match self {
            TomlValue::String(s) => Toml::String(s@),
            TomlValue::Integer(i) => Toml::Integer(i),
            TomlValue::Other => Toml::Other,
            TomlValue::Array(items) => Toml::Array(values_content(items@)),
            TomlValue::Table(entries) => Toml::Table(entries_content(entries@)),
        }
    }

    /// The string, if this is one.
    pub fn as_str(&self) -> (r: Option<&str>)
        ensures
            match r {
                Some(s) => self.content() == Toml::String(s@),
                None => !(self.content() is String),
            },
    {
        match self {
            TomlValue::String(s) => Some(s.as_str()),
            _ => None,
        }
    }

    /// The integer, if this is one.
    pub fn as_integer(&self) -> (r: Option<i64>)
        ensures
            match r {
                Some(i) => self.content() == Toml::Integer(i),
                None => !(self.content() is Integer),
            },
    {
        match self {
            TomlValue::Integer(i) => Some(*i),
            _ => None,
        }
    }

    /// The items, if this is an array.
    pub fn as_array(&self) -> (r: Option<&Vec<TomlValue>>)
        ensures
            match r {
                Some(items) => self.content() == Toml::Array(values_content(items@)),
                None => !(self.content() is Array),
            },
    {
        match self {
            TomlValue::Array(items) => Some(items),
            _ => None,
        }
    }

    /// The entries, if this is a table.
    pub fn as_table(&self) -> (r: Option<&TomlTable>)
        ensures
            match r {
                Some(entries) => self.content() == Toml::Table(entries_content(entries@)),
                None => !(self.content() is Table),
            },
    {
        match self {
            TomlValue::Table(entries) => Some(entries),
            _ => None,
        }
    }

    /// The value under `key`, if this is a table that has one.
    pub fn get(&self, key: &str) -> (r: Option<&TomlValue>)
        ensures
            match r {
                Some(v) => self.content().get(key@) == Some(v.content()),
                None => self.content().get(key@) is None,
            },
    {
        match self {
            TomlValue::Table(entries) => table_get(entries, key),
            _ => None,
        }
    }

    /// The string under `key`, if this is a table with a string there.
    pub fn get_str(&self, key: &str) -> (r: Option<&str>)
        ensures
            match r {
                Some(s) => self.content().get_str(key@) == Some(s@),
                None => self.content().get_str(key@) is None,
            },
    {
        match self.get(key) {
            Some(v) => v.as_str(),
            None => None,
        }
    }

    /// The integer under `key`, if this is a table with an integer there.
    pub fn get_integer(&self, key: &str) -> (r: Option<i64>)
        ensures
            r == self.content().get_integer(key@),
    {
        match self.get(key) {
            Some(v) => v.as_integer(),
            None => None,
        }
    }
}

/// The value under `key` among the entries of a table.
pub fn table_get<'a>(entries: &'a TomlTable, key: &str) -> (r: Option<&'a TomlValue>)
    ensures
        match r {
            Some(v) => lookup(entries_content(entries@), key@) == Some(v.content()),
            None => lookup(entries_content(entries@), key@) is None,
        },
{
    let ghost all = entries_content(entries@);
    proof {
        lemma_entries_content(entries@);
        assert(all.skip(0) =~= all);
    }
    let mut i: usize = 0;
    while i < entries.len()
        invariant
            0 <= i <= entries@.len(),
            all.len() == entries@.len(),
            forall|j: int|
                0 <= j < entries@.len() ==> #[trigger] all[j] == (
                    entries@[j].0@,
                    entries@[j].1.content(),
                ),
            all == entries_content(entries@),
            lookup(all, key@) == lookup(all.skip(i as int), key@),
        decreases entries@.len() - i,
    {
        proof {
            assert(all.skip(i as int)[0] == all[i as int]);
            assert(all.skip(i as int).drop_first() =~= all.skip(i + 1));
        }
        if same(entries[i].0.as_str(), key) {
            return Some(&entries[i].1);
        }
        i = i + 1;
    }
    None
}

impl Clone for TomlValue {
    fn clone(&self) -> (r: Self)
        ensures
            r.content() == self.content(),
        decreases self,
    {
        match self {
            TomlValue::String(s) => TomlValue::String(s.clone()),
            TomlValue::Integer(i) => TomlValue::Integer(*i),
            TomlValue::Other => TomlValue::Other,
            TomlValue::Array(items) => {
                let mut out: Vec<TomlValue> = Vec::new();
                let mut i: usize = 0;
                while i < items.len()
                    invariant
                        0 <= i <= items@.len(),
                        self == TomlValue::Array(*items),
                        values_content(out@) == values_content(items@.take(i as int)),
                        out@.len() == i,
                    decreases items@.len() - i,
                {
                    assert(decreases_to!(*self => self->Array_0));
                    assert(decreases_to!(self->Array_0 => self->Array_0@));
                    assert(decreases_to!(self->Array_0@ => self->Array_0@[i as int]));
                    let ghost before = out@;
                    out.push(items[i].clone());
                    proof {
                        assert(items@.take(i + 1).drop_last() =~= items@.take(i as int));
                        assert(out@.drop_last() =~= before);
                    }
                    i = i + 1;
                }
                assert(items@.take(i as int) =~= items@);
                TomlValue::Array(out)
            },
            TomlValue::Table(entries) => {
                let mut out: Vec<(String, TomlValue)> = Vec::new();
                let mut i: usize = 0;
                while i < entries.len()
                    invariant
                        0 <= i <= entries@.len(),
                        self == TomlValue::Table(*entries),
                        entries_content(out@) == entries_content(entries@.take(i as int)),
                        out@.len() == i,
                    decreases entries@.len() - i,
                {
                    assert(decreases_to!(*self => self->Table_0));
                    assert(decreases_to!(self->Table_0 => self->Table_0@));
                    assert(decreases_to!(self->Table_0@ => self->Table_0@[i as int]));
                    assert(decreases_to!(self->Table_0@[i as int] => self->Table_0@[i as int].1));
                    let ghost before = out@;
                    out.push((entries[i].0.clone(), entries[i].1.clone()));
                    proof {
                        assert(entries@.take(i + 1).drop_last() =~= entries@.take(i as int));
                        assert(out@.drop_last() =~= before);
                    }
                    i = i + 1;
                }
                assert(entries@.take(i as int) =~= entries@);
                TomlValue::Table(out)
            },
        }
    }
}

/// All levels of a `toml::Value`.
fn toml_tree(v: toml::Value) -> (r: TomlValue)
    ensures
        r.content() == toml_content(v),
        tidy(r.content()),
    decreases toml_content(v),
{
    match toml_open(v) {
        TomlNode::String(s) => TomlValue::String(s),
        TomlNode::Integer(i) => TomlValue::Integer(i),
        TomlNode::Other => TomlValue::Other,
        TomlNode::Array(items) => {
            let ghost all = items@;
            let mut rest: Vec<toml::Value> = items;
            let mut out: Vec<TomlValue> = Vec::new();
            while rest.len() > 0
                invariant
                    rest@.len() + out@.len() == all.len(),
                    rest@ == all.skip(out@.len() as int),
                    forall|j: int|
                        0 <= j < out@.len() ==> {
                            &&& (#[trigger] out@[j]).content() == toml_content(all[j])
                            &&& tidy(out@[j].content())
                        },
                    toml_content(v) == Toml::Array(Seq::new(all.len(), |j: int| toml_content(all[j]))),
                decreases rest@.len(),
            {
                let ghost n = out@.len() as int;
                let item = rest.remove(0);
                proof {
                    assert(item == all[n]);
                    let kids = Seq::new(all.len(), |j: int| toml_content(all[j]));
                    assert(kids[n] == toml_content(item));
                    let whole = toml_content(v);
                    assert(whole->Array_0 == kids);
                    assert(decreases_to!(whole => whole->Array_0));
                    assert(decreases_to!(whole->Array_0 => whole->Array_0[n]));
                }
                out.push(toml_tree(item));
                assert(rest@ =~= all.skip(n + 1));
            }
            proof {
                lemma_values_content(out@);
                assert(values_content(out@) =~= Seq::new(all.len(), |j: int| toml_content(all[j])));
            }
            TomlValue::Array(out)
        },
        TomlNode::Table(entries) => {
            let ghost all = entries@;
            let mut rest: Vec<(String, toml::Value)> = entries;
            let mut out: Vec<(String, TomlValue)> = Vec::new();
            while rest.len() > 0
                invariant
                    rest@.len() + out@.len() == all.len(),
                    rest@ == all.skip(out@.len() as int),
                    forall|j: int|
                        0 <= j < out@.len() ==> {
                            &&& (#[trigger] out@[j]).0 == all[j].0
                            &&& out@[j].1.content() == toml_content(all[j].1)
                            &&& tidy(out@[j].1.content())
                        },
                    toml_content(v) == Toml::Table(
                        Seq::new(all.len(), |j: int| (all[j].0@, toml_content(all[j].1))),
                    ),
                    distinct(
                        Seq::new(all.len(), |j: int| (all[j].0@, toml_content(all[j].1))),
                    ),
                decreases rest@.len(),
            {
                let ghost n = out@.len() as int;
                let entry = rest.remove(0);
                proof {
                    assert(entry == all[n]);
                    let kids = Seq::new(all.len(), |j: int| (all[j].0@, toml_content(all[j].1)));
                    assert(kids[n].1 == toml_content(entry.1));
                    let whole = toml_content(v);
                    assert(whole->Table_0 == kids);
                    assert(decreases_to!(whole => whole->Table_0));
                    assert(decreases_to!(whole->Table_0 => whole->Table_0[n]));
                    assert(decreases_to!(whole->Table_0[n] => whole->Table_0[n].1));
                }
                out.push((entry.0, toml_tree(entry.1)));
                assert(rest@ =~= all.skip(n + 1));
            }
            proof {
                lemma_entries_content(out@);
                assert(entries_content(out@) =~= Seq::new(
                    all.len(),
                    |j: int| (all[j].0@, toml_content(all[j].1)),
                ));
            }
            TomlValue::Table(out)
        },
    }
}

/// Reads a TOML text.
pub fn parse_toml(text: &str) -> (r: Result<TomlValue, String>)
    ensures
        outcome(r) == toml_document(text@),
        r matches Ok(doc) ==> tidy(doc.content()),
{
    match toml_from_str(text) {
        Ok(v) => Ok(toml_tree(v)),
        Err(m) => Err(m),
    }
}

} // verus!
