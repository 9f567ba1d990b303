//! Spans of time, and the texts that a configuration writes them as.

use crate::text::{join2, strip_suffix, trim, trimmed};
use vstd::prelude::*;

verus! {

/// The longest span, in nanoseconds: `u64::MAX` seconds and what is short of one more.
pub const MAX_NANOS: u128 = 18_446_744_073_709_551_615_999_999_999;

/// A span of time, exact to the nanosecond.
#[derive(Clone, Copy, Debug, PartialEq, Eq, Structural)]
pub struct Duration {
    nanos: u128,
}

impl View for Duration {
    type V = nat;

    /// The number of nanoseconds.
    closed spec fn view(&self) -> nat {
        self.nanos as nat
    }
}

impl DeepView for Duration {
    type V = nat;

    open spec fn deep_view(&self) -> nat {
        self@
    }
}

impl Duration {
    #[verifier::type_invariant]
    spec fn inv(self) -> bool {
        self.nanos <= MAX_NANOS
    }

    /// `secs` seconds and `nanos` nanoseconds.
    pub fn new(secs: u64, nanos: u32) -> (r: Self)
        requires
            nanos < 1_000_000_000,
        ensures
            r@ == secs * 1_000_000_000 + nanos,
    {
        Duration { nanos: secs as u128 * 1_000_000_000 + nanos as u128 }
    }

    /// `secs` seconds.
    pub fn from_secs(secs: u64) -> (r: Self)
        ensures
            r@ == secs * 1_000_000_000,
    {
        Duration { nanos: secs as u128 * 1_000_000_000 }
    }

    /// `millis` milliseconds.
    pub fn from_millis(millis: u64) -> (r: Self)
        ensures
            r@ == millis * 1_000_000,
    {
        Duration { nanos: millis as u128 * 1_000_000 }
    }

    /// `nanos` nanoseconds.
    pub fn from_nanos(nanos: u128) -> (r: Self)
        requires
            nanos <= MAX_NANOS,
        ensures
            r@ == nanos,
    {
        Duration { nanos }
    }

    /// `mins` minutes.
    pub fn from_mins(mins: u64) -> (r: Self)
        requires
            mins * 60 <= u64::MAX,
        ensures
            r@ == mins * 60_000_000_000,
    {
        Duration { nanos: mins as u128 * 60_000_000_000 }
    }

    /// The number of nanoseconds.
    pub fn as_nanos(&self) -> (r: u128)
        ensures
            r == self@,
            r <= MAX_NANOS,
    {
        proof {
            use_type_invariant(self);
        }
        self.nanos
    }

    /// The number of whole seconds.
    pub fn as_secs(&self) -> (r: u64)
        ensures
            r == self@ / 1_000_000_000,
    {
        proof {
            use_type_invariant(self);
        }
        (self.nanos / 1_000_000_000) as u64
    }

    /// The nanoseconds beyond the whole seconds.
    pub fn subsec_nanos(&self) -> (r: u32)
        ensures
            r == self@ % 1_000_000_000,
    {
        (self.nanos % 1_000_000_000) as u32
    }
}

/// The unit that a duration text ends with.
#[derive(Clone, Copy, Debug, PartialEq, Eq, Structural)]
pub enum DurationUnit {
    Seconds,
    Minutes,
    Hours,
}

/// A duration text, taken apart: a number and its unit.
#[derive(Debug)]
pub struct DurationText {
    pub number: String,
    pub unit: DurationUnit,
}

impl DeepView for DurationText {
    type V = (Seq<char>, DurationUnit);

    open spec fn deep_view(&self) -> (Seq<char>, DurationUnit) {
        (self.number@, self.unit)
    }
}

/// How a unit is written.
pub open spec fn suffix_of(unit: DurationUnit) -> Seq<char> {
    match unit {
        DurationUnit::Seconds => "s"@,
        DurationUnit::Minutes => "min"@,
        DurationUnit::Hours => "h"@,
    }
}

/// The parts of a duration text: what stands before the unit, and the unit. White
/// space at the ends does not count, and seconds are looked for first, then minutes,
/// then hours.
pub open spec fn duration_parts(s: Seq<char>) -> Option<(Seq<char>, DurationUnit)> {
    let t = trimmed(s);
    if "s"@.is_suffix_of(t) {
        Some((t.take(t.len() - "s"@.len()), DurationUnit::Seconds))
    } else if "min"@.is_suffix_of(t) {
        Some((t.take(t.len() - "min"@.len()), DurationUnit::Minutes))
    } else if "h"@.is_suffix_of(t) {
        Some((t.take(t.len() - "h"@.len()), DurationUnit::Hours))
    } else {
        None
    }
}

/// Takes a duration text such as `30s`, `3min` or `1h` apart. What the number is
/// worth is not decided here.
pub fn parse_duration(s: &str) -> (r: Option<DurationText>)
    ensures
        r.deep_view() == duration_parts(s@),
{
    let t = trim(s);
    if let Some(number) = strip_suffix(t, "s") {
        proof {
            lemma_suffix(t@, number@, "s"@);
        }
        return Some(DurationText { number: number.to_owned(), unit: DurationUnit::Seconds });
    }
    if let Some(number) = strip_suffix(t, "min") {
        proof {
            lemma_suffix(t@, number@, "min"@);
        }
        return Some(DurationText { number: number.to_owned(), unit: DurationUnit::Minutes });
    }
    if let Some(number) = strip_suffix(t, "h") {
        proof {
            lemma_suffix(t@, number@, "h"@);
        }
        return Some(DurationText { number: number.to_owned(), unit: DurationUnit::Hours });
    }
    None
}

proof fn lemma_suffix(t: Seq<char>, number: Seq<char>, suffix: Seq<char>)
    requires
        t == number + suffix,
    ensures
        suffix.is_suffix_of(t),
        t.take(t.len() - suffix.len()) == number,
{
    assert(t.subrange(t.len() - suffix.len(), t.len() as int) =~= suffix);
    assert(t.take(t.len() - suffix.len()) =~= number);
}

impl DurationText {
    /// The text without white space at its ends.
    pub fn key(&self) -> (r: String)
        ensures
            r@ == self.number@ + suffix_of(self.unit),
    {
        match self.unit {
            DurationUnit::Seconds => join2(self.number.as_str(), "s"),
            DurationUnit::Minutes => join2(self.number.as_str(), "min"),
            DurationUnit::Hours => join2(self.number.as_str(), "h"),
        }
    }
}

/// The parts of a duration text, put together, are the text without white space at its
/// ends.
pub proof fn law_parts_make_the_text(s: Seq<char>)
    ensures
        duration_parts(s) matches Some((number, unit)) ==> number + suffix_of(unit) == trimmed(s),
{
    let t = trimmed(s);
    if let Some((number, unit)) = duration_parts(s) {
        let suffix = suffix_of(unit);
        assert(suffix.is_suffix_of(t));
        assert(number + suffix =~= t);
    }
}

} // verus!
