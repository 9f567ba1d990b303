//! String operations on `&str`, stated over the sequence of characters.

use vstd::prelude::*;
use vstd::string::*;

verus! {

/// Whether `a` and `b` hold the same characters.
pub fn same(a: &str, b: &str) -> (r: bool)
    ensures
        r == (a@ == b@),
{
    let x = a.to_owned();
    let y = b.to_owned();
    x == y
}

/// What a result holds: what its value holds, or the text of its error.
pub open spec fn outcome<T: DeepView>(r: Result<T, String>) -> Result<T::V, Seq<char>> {
    match r {
        Ok(value) => Ok(value.deep_view()),
        Err(message) => Err(message@),
    }
}

/// Whether `s` begins with `prefix`.
pub fn starts_with(s: &str, prefix: &str) -> (r: bool)
    ensures
        r == prefix@.is_prefix_of(s@),
{
    let n: usize = prefix.unicode_len();
    if s.unicode_len() < n {
        return false;
    }
    let r = same(s.substring_char(0, n), prefix);
    assert(r == prefix@.is_prefix_of(s@));
    r
}

/// `needle` stands in `s` from position `at` on.
pub open spec fn occurs_at(s: Seq<char>, needle: Seq<char>, at: int) -> bool {
    &&& 0 <= at
    &&& at + needle.len() <= s.len()
    &&& s.subrange(at, at + needle.len()) == needle
}

/// `needle` stands somewhere in `s`.
pub open spec fn occurs(s: Seq<char>, needle: Seq<char>) -> bool {
    exists|at: int| occurs_at(s, needle, at)
}

/// Whether `needle` stands somewhere in `s`.
pub fn contains(s: &str, needle: &str) -> (r: bool)
    ensures
        r == occurs(s@, needle@),
{
    let n: usize = needle.unicode_len();
    let len: usize = s.unicode_len();
    if len < n {
        return false;
    }
    let mut at: usize = 0;
    while at <= len - n
        invariant
            n == needle@.len(),
            len == s@.len(),
            n <= len,
            at <= len - n + 1,
            forall|i: int| 0 <= i < at ==> !occurs_at(s@, needle@, i),
        decreases len - n + 1 - at,
    {
        if same(s.substring_char(at, at + n), needle) {
            assert(occurs_at(s@, needle@, at as int));
            return true;
        }
        if at == len - n {
            return false;
        }
        at = at + 1;
    }
    false
}

/// What follows `c`, if `s` begins with it.
pub fn strip_prefix_char(s: &str, c: char) -> (r: Option<&str>)
    ensures
        match r {
            Some(rest) => s@ == seq![c] + rest@,
            None => s@.len() == 0 || s@[0] != c,
        },
{
    let len: usize = s.unicode_len();
    if len == 0 || s.get_char(0) != c {
        return None;
    }
    let rest = s.substring_char(1, len);
    assert(s@ =~= seq![c] + rest@);
    Some(rest)
}

/// What precedes `suffix`, if `s` ends with it.
pub fn strip_suffix<'a>(s: &'a str, suffix: &str) -> (r: Option<&'a str>)
    ensures
        match r {
            Some(rest) => s@ == rest@ + suffix@,
            None => !suffix@.is_suffix_of(s@),
        },
{
    let len: usize = s.unicode_len();
    let n: usize = suffix.unicode_len();
    if len < n {
        return None;
    }
    let rest = s.substring_char(0, len - n);
    let end = s.substring_char(len - n, len);
    if same(end, suffix) {
        assert(s@ =~= rest@ + suffix@);
        Some(rest)
    } else {
        assert(!suffix@.is_suffix_of(s@));
        None
    }
}

/// `s` without the characters of the kind `p` that it begins with.
pub open spec fn without_leading(s: Seq<char>, p: spec_fn(char) -> bool) -> Seq<char>
    decreases s.len(),
{
    if s.len() > 0 && p(s[0]) {
        without_leading(s.drop_first(), p)
    } else {
        s
    }
}

/// `s` without the characters of the kind `p` that it ends with.
pub open spec fn without_trailing(s: Seq<char>, p: spec_fn(char) -> bool) -> Seq<char>
    decreases s.len(),
{
    if s.len() > 0 && p(s.last()) {
        without_trailing(s.drop_last(), p)
    } else {
        s
    }
}

/// `s` without the `c` that it begins with, however many there are.
pub fn trim_start_char(s: &str, c: char) -> (r: &str)
    ensures
        r@ == without_leading(s@, |x: char| x == c),
{
    let len: usize = s.unicode_len();
    let ghost p = |x: char| x == c;
    let mut i: usize = 0;
    proof {
        assert(s@.skip(0) =~= s@);
    }
    while i < len && s.get_char(i) == c
        invariant
            len == s@.len(),
            i <= len,
            p == (|x: char| x == c),
            without_leading(s@, p) == without_leading(s@.skip(i as int), p),
        decreases len - i,
    {
        assert(s@.skip(i as int).drop_first() =~= s@.skip(i + 1));
        i = i + 1;
    }
    let r = s.substring_char(i, len);
    assert(r@ =~= s@.skip(i as int));
    r
}

/// White space: the characters with the Unicode property `White_Space`.
pub open spec fn white_space(c: char) -> bool {
    ||| '\u{9}' <= c <= '\u{d}'
    ||| c == '\u{20}'
    ||| c == '\u{85}'
    ||| c == '\u{a0}'
    ||| c == '\u{1680}'
    ||| '\u{2000}' <= c <= '\u{200a}'
    ||| c == '\u{2028}'
    ||| c == '\u{2029}'
    ||| c == '\u{202f}'
    ||| c == '\u{205f}'
    ||| c == '\u{3000}'
}

/// Whether a character is white space.
fn is_white_space(c: char) -> (r: bool)
    ensures
        r == white_space(c),
{
    ('\u{9}' <= c && c <= '\u{d}') || c == '\u{20}' || c == '\u{85}' || c == '\u{a0}' || c
        == '\u{1680}' || ('\u{2000}' <= c && c <= '\u{200a}') || c == '\u{2028}' || c == '\u{2029}'
        || c == '\u{202f}' || c == '\u{205f}' || c == '\u{3000}'
}

/// `s` without white space at its ends.
pub open spec fn trimmed(s: Seq<char>) -> Seq<char> {
    without_trailing(without_leading(s, |c: char| white_space(c)), |c: char| white_space(c))
}

/// `s` without white space at its ends.
pub fn trim(s: &str) -> (r: &str)
    ensures
        r@ == trimmed(s@),
{
    let len: usize = s.unicode_len();
    let ghost p = |c: char| white_space(c);
    let mut from: usize = 0;
    proof {
        assert(s@.skip(0) =~= s@);
    }
    while from < len && is_white_space(s.get_char(from))
        invariant
            len == s@.len(),
            from <= len,
            p == (|c: char| white_space(c)),
            without_leading(s@, p) == without_leading(s@.skip(from as int), p),
        decreases len - from,
    {
        assert(s@.skip(from as int).drop_first() =~= s@.skip(from + 1));
        from = from + 1;
    }
    let ghost rest = s@.skip(from as int);
    let mut to: usize = len;
    proof {
        assert(s@.subrange(from as int, len as int) =~= rest);
    }
    while to > from && is_white_space(s.get_char(to - 1))
        invariant
            len == s@.len(),
            from <= to <= len,
            p == (|c: char| white_space(c)),
            without_trailing(rest, p) == without_trailing(s@.subrange(from as int, to as int), p),
        decreases to,
    {
        let ghost now = s@.subrange(from as int, to as int);
        assert(now.last() == s@[to - 1]);
        assert(now.drop_last() =~= s@.subrange(from as int, to - 1));
        to = to - 1;
    }
    let r = s.substring_char(from, to);
    proof {
        if to > from {
            assert(r@.last() == s@[to - 1]);
        }
    }
    r
}

/// What `str::to_lowercase` makes of a string.
pub uninterp spec fn lowercased(s: Seq<char>) -> Seq<char>;

/// `str::to_lowercase`. The result is named [`lowercased`]: it depends on the
/// string alone.
#[verifier::external_body]
pub(crate) fn lowercase(s: &str) -> (r: String)
    ensures
        r@ == lowercased(s@),
{
    s.to_lowercase()
}

/// A character with an ASCII letter in lower case.
pub open spec fn ascii_lower(c: char) -> char {
    if 'A' <= c <= 'Z' {
        (c as u32 + 32) as char
    } else {
        c
    }
}

/// `s` with its ASCII letters in lower case.
pub open spec fn ascii_lowered(s: Seq<char>) -> Seq<char> {
    Seq::new(s.len(), |i: int| ascii_lower(s[i]))
}

proof fn lemma_alphabet(k: int)
    requires
        0 <= k < 26,
    ensures
        "abcdefghijklmnopqrstuvwxyz"@.len() == 26,
        "abcdefghijklmnopqrstuvwxyz"@[k] == ('a' as u32 + k) as char,
{
    reveal_strlit("abcdefghijklmnopqrstuvwxyz");
    assert(k == 0 || k == 1 || k == 2 || k == 3 || k == 4 || k == 5 || k == 6 || k == 7 || k == 8
        || k == 9 || k == 10 || k == 11 || k == 12 || k == 13 || k == 14 || k == 15 || k == 16 || k
        == 17 || k == 18 || k == 19 || k == 20 || k == 21 || k == 22 || k == 23 || k == 24 || k
        == 25);
}

/// `s` with its ASCII letters in lower case.
pub fn ascii_lowercase(s: &str) -> (r: String)
    ensures
        r@ == ascii_lowered(s@),
{
    let letters = "abcdefghijklmnopqrstuvwxyz";
    let len: usize = s.unicode_len();
    let mut out = String::new();
    let mut i: usize = 0;
    proof {
        assert(out@ =~= ascii_lowered(s@).take(0));
        lemma_alphabet(0);
    }
    while i < len
        invariant
            len == s@.len(),
            0 <= i <= len,
            letters@ == "abcdefghijklmnopqrstuvwxyz"@,
            letters@.len() == 26,
            out@ == ascii_lowered(s@).take(i as int),
        decreases len - i,
    {
        let ghost before = out@;
        let c: char = s.get_char(i);
        if 'A' <= c && c <= 'Z' {
            let k: usize = c as usize - 'A' as usize;
            proof {
                lemma_alphabet(k as int);
            }
            out.append(letters.substring_char(k, k + 1));
        } else {
            out.append(s.substring_char(i, i + 1));
        }
        assert(out@ =~= before.push(ascii_lower(c)));
        assert(ascii_lowered(s@).take(i + 1) =~= before.push(ascii_lower(c)));
        i = i + 1;
    }
    assert(ascii_lowered(s@).take(i as int) =~= ascii_lowered(s@));
    out
}

/// What is in lower case stays as it is.
pub proof fn lemma_ascii_lowered_twice(s: Seq<char>)
    ensures
        ascii_lowered(ascii_lowered(s)) == ascii_lowered(s),
{
    assert(ascii_lowered(ascii_lowered(s)) =~= ascii_lowered(s));
}

/// The two strings one after the other.
pub fn join2(a: &str, b: &str) -> (r: String)
    ensures
        r@ == a@ + b@,
{
    a.to_owned().concat(b)
}

/// The three strings one after the other.
pub fn join3(a: &str, b: &str, c: &str) -> (r: String)
    ensures
        r@ == a@ + b@ + c@,
{
    a.to_owned().concat(b).concat(c)
}

} // verus!
