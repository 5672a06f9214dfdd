//! Operations on text that the rest of the library is built from: replacing
//! every occurrence of a pattern, and trimming white space.

use vstd::prelude::*;
use vstd::string::*;

verus! {

/// `s` with every occurrence of `from` replaced by `to`. Occurrences are
/// found from left to right and do not overlap; what was put in is not
/// searched again.
pub open spec fn replaced(s: Seq<char>, from: Seq<char>, to: Seq<char>) -> Seq<char>
    recommends
        from.len() > 0,
    decreases s.len(),
{
    if from.len() == 0 || s.len() < from.len() {
        s
    } else if s.subrange(0, from.len() as int) == from {
        to + replaced(s.skip(from.len() as int), from, to)
    } else {
        seq![s[0]] + replaced(s.skip(1), from, to)
    }
}

/// Whether `from` occurs in `s` at position `i`.
pub open spec fn occurs_at(s: Seq<char>, from: Seq<char>, i: int) -> bool {
    0 <= i && i + from.len() <= s.len() && s.subrange(i, i + from.len()) == from
}

/// A text in which the pattern does not occur is left as it is.
pub proof fn lemma_replaced_without_occurrence(s: Seq<char>, from: Seq<char>, to: Seq<char>)
    requires
        forall|i: int| !occurs_at(s, from, i),
    ensures
        replaced(s, from, to) == s,
    decreases s.len(),
{
    if from.len() > 0 && s.len() >= from.len() {
        assert(!occurs_at(s, from, 0));
        let rest = s.skip(1);
        assert forall|i: int| !occurs_at(rest, from, i) by {
            if 0 <= i && i + from.len() <= rest.len() {
                assert(!occurs_at(s, from, i + 1));
                assert(rest.subrange(i, i + from.len()) =~= s.subrange(i + 1, i + 1 + from.len()));
            }
        }
        lemma_replaced_without_occurrence(rest, from, to);
        assert(seq![s[0]] + rest =~= s);
    }
}

/// Replaces every occurrence of a pattern that is not empty.
pub(crate) fn replace_all(txt: &str, from: &str, to: &str) -> (out: String)
    requires
        from@.len() > 0,
    ensures
        out@ == replaced(txt@, from@, to@),
{
    let n = txt.unicode_len();
    let m = from.unicode_len();
    let pattern = String::from_str(from);
    let mut out = String::new();
    let mut start: usize = 0;
    let mut i: usize = 0;
    assert(txt@.skip(0) =~= txt@);
    assert(out@ + txt@.subrange(0, 0) + txt@ =~= txt@);
    while n - i >= m
        invariant
            n == txt@.len(),
            m == from@.len(),
            m > 0,
            pattern@ == from@,
            start <= i <= n,
            out@ + txt@.subrange(start as int, i as int) + replaced(txt@.skip(i as int), from@, to@)
                == replaced(txt@, from@, to@),
        decreases n - i,
    {
        let ghost rest = txt@.skip(i as int);
        let ghost done = out@ + txt@.subrange(start as int, i as int);
        let here = String::from_str(txt.substring_char(i, i + m));
        assert(rest.subrange(0, m as int) =~= txt@.subrange(i as int, i + m));
        if here == pattern {
            out.append(txt.substring_char(start, i));
            out.append(to);
            assert(rest.skip(m as int) =~= txt@.skip(i + m));
            i += m;
            start = i;
            assert(out@ + txt@.subrange(start as int, i as int) + replaced(
                txt@.skip(i as int),
                from@,
                to@,
            ) =~= done + replaced(rest, from@, to@));
        } else {
            assert(rest.skip(1) =~= txt@.skip(i + 1));
            assert(txt@.subrange(start as int, i as int) + seq![rest[0]] =~= txt@.subrange(
                start as int,
                i + 1,
            ));
            i += 1;
            assert(out@ + txt@.subrange(start as int, i as int) + replaced(
                txt@.skip(i as int),
                from@,
                to@,
            ) =~= done + replaced(rest, from@, to@));
        }
    }
    assert(txt@.subrange(start as int, i as int) + txt@.skip(i as int) =~= txt@.subrange(
        start as int,
        n as int,
    ));
    assert(out@ + txt@.subrange(start as int, n as int) =~= out@ + txt@.subrange(
        start as int,
        i as int,
    ) + txt@.skip(i as int));
    out.append(txt.substring_char(start, n));
    out
}

/// White space, as Unicode defines it (the property `White_Space`).
pub uninterp spec fn is_white_space(c: char) -> bool;

/// `char::is_whitespace`: whether a character has Unicode's property
/// `White_Space`. The contract gives that answer its name and says no more.
#[verifier::external_body]
fn is_whitespace(c: char) -> (b: bool)
    ensures
        b == is_white_space(c),
{
    c.is_whitespace()
}

/// `s` without the white space at its start and at its end.
pub open spec fn trimmed(s: Seq<char>) -> Seq<char>
    decreases s.len(),
{
    if s.len() > 0 && is_white_space(s[0]) {
        trimmed(s.drop_first())
    } else if s.len() > 0 && is_white_space(s.last()) {
        trimmed(s.drop_last())
    } else {
        s
    }
}

/// What is left between a run of white space at the start and one at the
/// end, neither of which can be made longer, is the trimmed text.
proof fn lemma_trimmed_range(s: Seq<char>, a: int, b: int)
    requires
        0 <= a <= b <= s.len(),
        forall|k: int| 0 <= k < a ==> is_white_space(#[trigger] s[k]),
        forall|k: int| b <= k < s.len() ==> is_white_space(#[trigger] s[k]),
        a < b ==> !is_white_space(s[a]) && !is_white_space(s[b - 1]),
        a == b ==> a == s.len(),
    ensures
        trimmed(s) == s.subrange(a, b),
    decreases s.len(),
{
    if s.len() == 0 {
        assert(s.subrange(a, b) =~= s);
    } else if is_white_space(s[0]) {
        assert(a >= 1);
        let rest = s.drop_first();
        assert forall|k: int| 0 <= k < a - 1 implies is_white_space(#[trigger] rest[k]) by {
            assert(rest[k] == s[k + 1]);
        }
        assert forall|k: int| b - 1 <= k < rest.len() implies is_white_space(
            #[trigger] rest[k],
        ) by {
            assert(rest[k] == s[k + 1]);
        }
        lemma_trimmed_range(rest, a - 1, b - 1);
        assert(rest.subrange(a - 1, b - 1) =~= s.subrange(a, b));
    } else if is_white_space(s.last()) {
        assert(a == 0);
        assert(b < s.len());
        let rest = s.drop_last();
        lemma_trimmed_range(rest, a, b);
        assert(rest.subrange(a, b) =~= s.subrange(a, b));
    } else {
        assert(a == 0);
        assert(b == s.len());
        assert(s.subrange(a, b) =~= s);
    }
}

/// Removes the white space at the start and at the end of a text.
pub fn trim(s: &str) -> (t: String)
    ensures
        t@ == trimmed(s@),
{
    let n = s.unicode_len();
    let mut a: usize = 0;
    while a < n && is_whitespace(s.get_char(a))
        invariant
            n == s@.len(),
            a <= n,
            forall|k: int| 0 <= k < a ==> is_white_space(#[trigger] s@[k]),
        decreases n - a,
    {
        a += 1;
    }
    let mut b: usize = n;
    while b > a && is_whitespace(s.get_char(b - 1))
        invariant
            n == s@.len(),
            a <= b <= n,
            forall|k: int| b <= k < n ==> is_white_space(#[trigger] s@[k]),
        decreases b,
    {
        b -= 1;
    }
    proof {
        lemma_trimmed_range(s@, a as int, b as int);
    }
    String::from_str(s.substring_char(a, b))
}

/// Whether `s` begins with `prefix`.
pub open spec fn starts_with(s: Seq<char>, prefix: Seq<char>) -> bool {
    prefix.len() <= s.len() && s.subrange(0, prefix.len() as int) == prefix
}

/// Whether `s` ends with `suffix`.
pub open spec fn ends_with(s: Seq<char>, suffix: Seq<char>) -> bool {
    suffix.len() <= s.len() && s.subrange(s.len() - suffix.len(), s.len() as int) == suffix
}

/// Tests whether a text begins with a prefix.
pub fn has_prefix(s: &str, prefix: &str) -> (b: bool)
    ensures
        b == starts_with(s@, prefix@),
{
    let n = s.unicode_len();
    let m = prefix.unicode_len();
    m <= n && String::from_str(s.substring_char(0, m)) == String::from_str(prefix)
}

/// Tests whether a text ends with a suffix.
pub fn has_suffix(s: &str, suffix: &str) -> (b: bool)
    ensures
        b == ends_with(s@, suffix@),
{
    let n = s.unicode_len();
    let m = suffix.unicode_len();
    m <= n && String::from_str(s.substring_char(n - m, n)) == String::from_str(suffix)
}

} // verus!
