//! Maps from names to values that keep the order of insertion.

use crate::text::same;
use vstd::prelude::*;

verus! {

/// The value of the first entry of `s` whose name is `k`.
pub open spec fn lookup<T>(s: Seq<(Seq<char>, T)>, k: Seq<char>) -> Option<T>
    decreases s.len(),
{
    if s.len() == 0 {
        None
    } else if s[0].0 == k {
        Some(s[0].1)
    } else {
        lookup(s.drop_first(), k)
    }
}

/// `s` with the entry named `k` holding `v`: in its place, or at the end if there was none.
pub open spec fn upsert<T>(s: Seq<(Seq<char>, T)>, k: Seq<char>, v: T) -> Seq<(Seq<char>, T)>
    decreases s.len(),
{
    if s.len() == 0 {
        seq![(k, v)]
    } else if s[0].0 == k {
        s.update(0, (k, v))
    } else {
        seq![s[0]] + upsert(s.drop_first(), k, v)
    }
}

/// No name occurs twice in `s`.
pub open spec fn distinct<T>(s: Seq<(Seq<char>, T)>) -> bool {
    forall|i: int, j: int| 0 <= i < j < s.len() ==> s[i].0 != s[j].0
}

/// The first entry of `s` named `k` is the one at `i`.
pub open spec fn first_at<T>(s: Seq<(Seq<char>, T)>, k: Seq<char>, i: int) -> bool {
    &&& 0 <= i < s.len()
    &&& s[i].0 == k
    &&& forall|j: int| 0 <= j < i ==> s[j].0 != k
}

pub proof fn lemma_first_at<T>(s: Seq<(Seq<char>, T)>, k: Seq<char>, i: int, v: T)
    requires
        first_at(s, k, i),
    ensures
        lookup(s, k) == Some(s[i].1),
        upsert(s, k, v) == s.update(i, (k, v)),
    decreases s.len(),
{
    if i > 0 {
        assert(first_at(s.drop_first(), k, i - 1));
        lemma_first_at(s.drop_first(), k, i - 1, v);
        assert(upsert(s, k, v) =~= s.update(i, (k, v)));
    }
}

pub proof fn lemma_absent<T>(s: Seq<(Seq<char>, T)>, k: Seq<char>, v: T)
    requires
        forall|j: int| 0 <= j < s.len() ==> s[j].0 != k,
    ensures
        lookup(s, k) is None,
        upsert(s, k, v) == s.push((k, v)),
    decreases s.len(),
{
    if s.len() > 0 {
        lemma_absent(s.drop_first(), k, v);
        assert(upsert(s, k, v) =~= s.push((k, v)));
    } else {
        assert(upsert(s, k, v) =~= s.push((k, v)));
    }
}

/// After `upsert` the name `k` has the value `v`, and every other name has what it had.
pub proof fn lemma_upsert_lookup<T>(s: Seq<(Seq<char>, T)>, k: Seq<char>, v: T, other: Seq<char>)
    ensures
        lookup(upsert(s, k, v), other) == (if other == k {
            Some(v)
        } else {
            lookup(s, other)
        }),
    decreases s.len(),
{
    reveal_with_fuel(lookup, 2);
    if s.len() > 0 {
        let rest = s.drop_first();
        if s[0].0 == k {
            assert(s.update(0, (k, v)).drop_first() =~= rest);
        } else {
            lemma_upsert_lookup(rest, k, v, other);
            assert((seq![s[0]] + upsert(rest, k, v)).drop_first() =~= upsert(rest, k, v));
        }
    } else {
        assert(seq![(k, v)].drop_first() =~= s);
    }
}

/// To give a value to a name that has one adds no entry.
pub proof fn lemma_upsert_keeps_len<T>(s: Seq<(Seq<char>, T)>, k: Seq<char>, v: T)
    requires
        lookup(s, k) is Some,
    ensures
        upsert(s, k, v).len() == s.len(),
    decreases s.len(),
{
    if s[0].0 != k {
        lemma_upsert_keeps_len(s.drop_first(), k, v);
    }
}

/// A name has a value exactly if some entry carries it.
pub proof fn lemma_lookup_exists<T>(s: Seq<(Seq<char>, T)>, k: Seq<char>)
    ensures
        lookup(s, k) is Some <==> exists|i: int| 0 <= i < s.len() && (#[trigger] s[i]).0 == k,
        lookup(s, k) matches Some(v) ==> exists|i: int|
            first_at(s, k, i) && #[trigger] s[i] == (k, v),
    decreases s.len(),
{
    if s.len() > 0 {
        let rest = s.drop_first();
        lemma_lookup_exists(rest, k);
        if s[0].0 == k {
            assert(first_at(s, k, 0) && s[0] == (k, lookup(s, k)->0));
        } else {
            if exists|i: int| 0 <= i < s.len() && (#[trigger] s[i]).0 == k {
                let i = choose|i: int| 0 <= i < s.len() && (#[trigger] s[i]).0 == k;
                assert(rest[i - 1].0 == k);
            }
            if lookup(rest, k) is Some {
                let i = choose|i: int|
                    first_at(rest, k, i) && #[trigger] rest[i] == (k, lookup(rest, k)->0);
                assert(s[i + 1] == rest[i]);
                assert(first_at(s, k, i + 1)) by {
                    assert forall|j: int| 0 <= j < i + 1 implies s[j].0 != k by {
                        if j > 0 {
                            assert(rest[j - 1] == s[j]);
                        }
                    }
                }
            }
        }
    }
}

/// `upsert` keeps names distinct.
pub proof fn lemma_upsert_distinct<T>(s: Seq<(Seq<char>, T)>, k: Seq<char>, v: T)
    requires
        distinct(s),
    ensures
        distinct(upsert(s, k, v)),
{
    lemma_lookup_exists(s, k);
    if lookup(s, k) is Some {
        let i = choose|i: int| first_at(s, k, i) && #[trigger] s[i] == (k, lookup(s, k)->0);
        lemma_first_at(s, k, i, v);
    } else {
        lemma_absent(s, k, v);
    }
}

proof fn lemma_push_lookup<T>(s: Seq<(Seq<char>, T)>, e: (Seq<char>, T), k: Seq<char>)
    ensures
        lookup(s.push(e), k) == (match lookup(s, k) {
            Some(v) => Some(v),
            None => if e.0 == k {
                Some(e.1)
            } else {
                None
            },
        }),
    decreases s.len(),
{
    reveal_with_fuel(lookup, 2);
    if s.len() > 0 {
        lemma_push_lookup(s.drop_first(), e, k);
        assert(s.push(e).drop_first() =~= s.drop_first().push(e));
    } else {
        assert(s.push(e).drop_first() =~= s);
    }
}

/// The entries of `s` to whose value `f` gives a value, with that value.
pub open spec fn select<T, U>(s: Seq<(Seq<char>, T)>, f: spec_fn(T) -> Option<U>) -> Seq<
    (Seq<char>, U),
>
    decreases s.len(),
{
    if s.len() == 0 {
        Seq::empty()
    } else {
        match f(s.last().1) {
            Some(u) => select(s.drop_last(), f).push((s.last().0, u)),
            None => select(s.drop_last(), f),
        }
    }
}

/// Among selected entries a name has what `f` gives to its value.
pub proof fn lemma_select<T, U>(s: Seq<(Seq<char>, T)>, f: spec_fn(T) -> Option<U>)
    requires
        distinct(s),
    ensures
        distinct(select(s, f)),
        forall|k: Seq<char>| #[trigger]
            lookup(select(s, f), k) == (match lookup(s, k) {
                Some(v) => f(v),
                None => None,
            }),
    decreases s.len(),
{
    if s.len() > 0 {
        let rest = s.drop_last();
        let last = s.last();
        let inner = select(rest, f);
        lemma_select(rest, f);
        assert(s =~= rest.push(last));
        assert(lookup(rest, last.0) is None) by {
            lemma_lookup_exists(rest, last.0);
            assert forall|i: int| 0 <= i < rest.len() implies (#[trigger] rest[i]).0 != last.0 by {
                assert(rest[i] == s[i]);
            }
        }
        assert(lookup(inner, last.0) is None);
        lemma_lookup_exists(inner, last.0);
        assert forall|k: Seq<char>| #[trigger]
            lookup(select(s, f), k) == (match lookup(s, k) {
                Some(v) => f(v),
                None => None,
            }) by {
            lemma_push_lookup(rest, last, k);
            match f(last.1) {
                Some(u) => {
                    lemma_push_lookup(inner, (last.0, u), k);
                },
                None => {},
            }
            assert(lookup(inner, k) == (match lookup(rest, k) {
                Some(v) => f(v),
                None => None,
            }));
        }
    }
}

/// The entries of `s` with the values that `f` makes of theirs, inserted in turn, or
/// the first error of `f`.
pub open spec fn try_values<T, U>(
    s: Seq<(Seq<char>, T)>,
    f: spec_fn(T) -> Result<U, Seq<char>>,
) -> Result<Seq<(Seq<char>, U)>, Seq<char>>
    decreases s.len(),
{
    if s.len() == 0 {
        Ok(Seq::empty())
    } else {
        match try_values(s.drop_last(), f) {
            Err(message) => Err(message),
            Ok(done) => match f(s.last().1) {
                Err(message) => Err(message),
                Ok(value) => Ok(upsert(done, s.last().0, value)),
            },
        }
    }
}

/// An error among the first entries is the error of all.
pub proof fn lemma_try_values_error<T, U>(
    s: Seq<(Seq<char>, T)>,
    f: spec_fn(T) -> Result<U, Seq<char>>,
    n: int,
)
    requires
        0 <= n <= s.len(),
        try_values(s.take(n), f) is Err,
    ensures
        try_values(s, f) == try_values(s.take(n), f),
    decreases s.len() - n,
{
    if n == s.len() {
        assert(s.take(n) =~= s);
    } else {
        assert(s.take(n + 1).drop_last() =~= s.take(n));
        lemma_try_values_error(s, f, n + 1);
    }
}

/// Inserting in turn leaves no name twice.
pub proof fn lemma_try_values_distinct<T, U>(
    s: Seq<(Seq<char>, T)>,
    f: spec_fn(T) -> Result<U, Seq<char>>,
)
    ensures
        try_values(s, f) matches Ok(done) ==> distinct(done),
    decreases s.len(),
{
    if s.len() > 0 {
        lemma_try_values_distinct(s.drop_last(), f);
        if let Ok(done) = try_values(s.drop_last(), f) {
            if let Ok(value) = f(s.last().1) {
                lemma_upsert_distinct(done, s.last().0, value);
            }
        }
    }
}

/// Among values made in turn a name has what `f` makes of its value.
pub proof fn lemma_try_values_lookup<T, U>(
    s: Seq<(Seq<char>, T)>,
    f: spec_fn(T) -> Result<U, Seq<char>>,
    k: Seq<char>,
)
    requires
        distinct(s),
        try_values(s, f) is Ok,
    ensures
        match lookup(s, k) {
            Some(v) => f(v) is Ok && lookup(try_values(s, f)->Ok_0, k) == Some(f(v)->Ok_0),
            None => lookup(try_values(s, f)->Ok_0, k) is None,
        },
    decreases s.len(),
{
    if s.len() > 0 {
        let rest = s.drop_last();
        let last = s.last();
        assert(s =~= rest.push(last));
        lemma_try_values_lookup(rest, f, k);
        lemma_push_lookup(rest, last, k);
        lemma_upsert_lookup(try_values(rest, f)->Ok_0, last.0, f(last.1)->Ok_0, k);
        if last.0 == k {
            lemma_lookup_exists(rest, k);
            assert forall|i: int| 0 <= i < rest.len() implies (#[trigger] rest[i]).0 != k by {
                assert(rest[i] == s[i]);
            }
        }
    }
}

/// Functions that agree on all values of `s` make the same of it.
pub proof fn lemma_try_values_agree<T, U>(
    s: Seq<(Seq<char>, T)>,
    f: spec_fn(T) -> Result<U, Seq<char>>,
    g: spec_fn(T) -> Result<U, Seq<char>>,
)
    requires
        forall|i: int| 0 <= i < s.len() ==> f((#[trigger] s[i]).1) == g(s[i].1),
    ensures
        try_values(s, f) == try_values(s, g),
    decreases s.len(),
{
    if s.len() > 0 {
        let rest = s.drop_last();
        assert forall|i: int| 0 <= i < rest.len() implies f((#[trigger] rest[i]).1) == g(
            rest[i].1,
        ) by {
            assert(rest[i] == s[i]);
        }
        lemma_try_values_agree(rest, f, g);
        assert(f(s[s.len() - 1].1) == g(s[s.len() - 1].1));
    }
}

/// A map from names to values. No name occurs twice, and the entries stand in
/// the order in which their names first came in.
#[derive(Debug)]
pub struct NameMap<V: DeepView> {
    names: Vec<String>,
    values: Vec<V>,
}

impl<V: DeepView> View for NameMap<V> {
    type V = Seq<(Seq<char>, V::V)>;

    closed spec fn view(&self) -> Seq<(Seq<char>, V::V)> {
        Seq::new(self.names@.len(), |i: int| (self.names@[i]@, self.values@[i].deep_view()))
    }
}

impl<V: DeepView> DeepView for NameMap<V> {
    type V = Seq<(Seq<char>, V::V)>;

    open spec fn deep_view(&self) -> Seq<(Seq<char>, V::V)> {
        self@
    }
}

impl<V: DeepView> NameMap<V> {
    #[verifier::type_invariant]
    spec fn inv(self) -> bool {
        &&& self.names@.len() == self.values@.len()
        &&& forall|i: int, j: int|
            0 <= i < j < self.names@.len() ==> self.names@[i]@ != self.names@[j]@
    }

    /// A map without entries.
    pub fn new() -> (r: Self)
        ensures
            r@ == Seq::<(Seq<char>, V::V)>::empty(),
    {
        let r = NameMap { names: Vec::new(), values: Vec::new() };
        assert(r@ =~= Seq::<(Seq<char>, V::V)>::empty());
        r
    }

    /// The number of entries.
    pub fn len(&self) -> (r: usize)
        ensures
            r == self@.len(),
            distinct(self@),
    {
        proof {
            use_type_invariant(self);
        }
        self.names.len()
    }

    /// Whether there is no entry.
    pub fn is_empty(&self) -> (r: bool)
        ensures
            r == (self@.len() == 0),
    {
        self.names.len() == 0
    }

    fn find(&self, name: &str) -> (r: Option<usize>)
        ensures
            match r {
                Some(i) => first_at(self@, name@, i as int),
                None => forall|j: int| 0 <= j < self@.len() ==> (#[trigger] self@[j]).0 != name@,
            },
    {
        let mut i: usize = 0;
        while i < self.names.len()
            invariant
                0 <= i <= self.names@.len(),
                forall|j: int| 0 <= j < i ==> (#[trigger] self@[j]).0 != name@,
            decreases self.names@.len() - i,
        {
            if same(self.names[i].as_str(), name) {
                return Some(i);
            }
            i = i + 1;
        }
        None
    }

    /// The name of the entry at `i`.
    pub fn name_at(&self, i: usize) -> (r: &str)
        requires
            i < self@.len(),
        ensures
            r@ == self@[i as int].0,
    {
        self.names[i].as_str()
    }

    /// The value of the entry at `i`.
    pub fn value_at(&self, i: usize) -> (r: &V)
        requires
            i < self@.len(),
        ensures
            r.deep_view() == self@[i as int].1,
    {
        proof {
            use_type_invariant(self);
        }
        &self.values[i]
    }

    /// Whether there is an entry of this name.
    pub fn contains_key(&self, name: &str) -> (r: bool)
        ensures
            r == (lookup(self@, name@) is Some),
    {
        self.get(name).is_some()
    }

    /// The value of this name.
    pub fn get(&self, name: &str) -> (r: Option<&V>)
        ensures
            match r {
                Some(v) => lookup(self@, name@) == Some(v.deep_view()),
                None => lookup(self@, name@) is None,
            },
    {
        proof {
            use_type_invariant(self);
        }
        match self.find(name) {
            Some(i) => {
                proof {
                    lemma_first_at(self@, name@, i as int, arbitrary());
                }
                Some(&self.values[i])
            },
            None => {
                proof {
                    lemma_absent(self@, name@, arbitrary());
                }
                None
            },
        }
    }

    /// Gives the name this value: in the place of the value it had, or as a new
    /// entry at the end.
    pub fn insert(&mut self, name: String, value: V)
        ensures
            final(self)@ == upsert(old(self)@, name@, value.deep_view()),
    {
        proof {
            use_type_invariant(&*self);
        }
        match self.find(name.as_str()) {
            Some(i) => {
                proof {
                    lemma_first_at(self@, name@, i as int, value.deep_view());
                }
                let ghost before = self@;
                self.values[i] = value;
                assert(self@ =~= before.update(i as int, (name@, value.deep_view())));
            },
            None => {
                proof {
                    lemma_absent(self@, name@, value.deep_view());
                }
                let ghost before = self@;
                let mut taken: NameMap<V> = NameMap::new();
                std::mem::swap(self, &mut taken);
                let NameMap { mut names, mut values } = taken;
                assert forall|i: int| 0 <= i < names@.len() implies names@[i]@ != name@ by {
                    assert(before[i].0 == names@[i]@);
                }
                names.push(name);
                values.push(value);
                *self = NameMap { names, values };
                assert(self@ =~= before.push((name@, value.deep_view())));
            },
        }
    }

    /// The entries, in order.
    pub fn into_entries(self) -> (r: Vec<(String, V)>)
        ensures
            r@.len() == self@.len(),
            forall|i: int|
                0 <= i < r@.len() ==> self@[i] == ((#[trigger] r@[i]).0@, r@[i].1.deep_view()),
            distinct(self@),
    {
        proof {
            use_type_invariant(&self);
        }
        let ghost all = self@;
        let NameMap { mut names, mut values } = self;
        let mut out: Vec<(String, V)> = Vec::new();
        while names.len() > 0
            invariant
                names@.len() == values@.len(),
                out@.len() + names@.len() == all.len(),
                forall|i: int|
                    0 <= i < out@.len() ==> all[i] == (
                        (#[trigger] out@[i]).0@,
                        out@[i].1.deep_view(),
                    ),
                forall|i: int|
                    out@.len() <= i < all.len() ==> #[trigger] all[i] == (
                        names@[i - out@.len()]@,
                        values@[i - out@.len()].deep_view(),
                    ),
            decreases names@.len(),
        {
            let ghost done = out@.len() as int;
            assert(all[done] == (names@[0]@, values@[0].deep_view()));
            let name = names.remove(0);
            let value = values.remove(0);
            out.push((name, value));
        }
        out
    }

    /// Access to the value of this name.
    pub fn get_mut(&mut self, name: &str) -> (r: Option<&mut V>)
        ensures
            match r {
                Some(v) => {
                    &&& lookup(old(self)@, name@) == Some(v.deep_view())
                    &&& final(self)@ == upsert(old(self)@, name@, final(v).deep_view())
                },
                None => lookup(old(self)@, name@) is None && final(self)@ == old(self)@,
            },
    {
        proof {
            use_type_invariant(&*self);
        }
        match self.find(name) {
            Some(i) => {
                proof {
                    assert forall|v: V::V|
                        #[trigger] upsert(self@, name@, v) == self@.update(i as int, (name@, v)) by {
                        lemma_first_at(self@, name@, i as int, v);
                    }
                    lemma_first_at(self@, name@, i as int, arbitrary());
                }
                Some(&mut self.values[i])
            },
            None => {
                proof {
                    lemma_absent(self@, name@, arbitrary());
                }
                None
            },
        }
    }
}

} // verus!
