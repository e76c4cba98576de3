//! Character-level text primitives.
//!
//! Text is handled as a sequence of Unicode scalar values. Every function here
//! is stated over `Seq<char>`, the view of `str`, `String` and `[char]` alike.

use vstd::prelude::*;
use vstd::std_specs::iter::IteratorSpec;

verus! {

/// The text that `str::to_lowercase` returns for `s`: each character replaced
/// by its Unicode lowercase mapping, which may be longer than one character.
pub uninterp spec fn lowercase_of(s: Seq<char>) -> Seq<char>;

/// Whether `char::is_whitespace` holds of `c`, that is, whether `c` has the
/// Unicode property White_Space.
pub uninterp spec fn is_whitespace(c: char) -> bool;

/// Calls `str::to_lowercase`. Trusted: the result is the lowercase form of the
/// argument, a function of the argument's characters alone.
#[verifier::external_body]
fn to_lowercase(s: &str) -> (out: String)
    ensures
        out@ == lowercase_of(s@),
{
    s.to_lowercase()
}

/// Calls `char::is_whitespace`. Trusted: the answer depends on the character
/// alone.
#[verifier::external_body]
fn char_is_whitespace(c: char) -> (out: bool)
    ensures
        out == is_whitespace(c),
{
    c.is_whitespace()
}

/// Calls `String::push`. Trusted: the character is appended at the end and
/// nothing else changes.
#[verifier::external_body]
fn push_char(s: &mut String, c: char)
    ensures
        final(s)@ == old(s)@.push(c),
{
    s.push(c)
}

/// `s` without its leading whitespace.
pub open spec fn trim_start(s: Seq<char>) -> Seq<char>
    decreases s.len(),
{
    if s.len() > 0 && is_whitespace(s.first()) {
        trim_start(s.drop_first())
    } else {
        s
    }
}

/// `s` without its trailing whitespace.
pub open spec fn trim_end(s: Seq<char>) -> Seq<char>
    decreases s.len(),
{
    if s.len() > 0 && is_whitespace(s.last()) {
        trim_end(s.drop_last())
    } else {
        s
    }
}

/// `s` without leading and trailing whitespace.
pub open spec fn trimmed(s: Seq<char>) -> Seq<char> {
    trim_end(trim_start(s))
}

/// The pieces of `s` between occurrences of `sep`, in order. There is always
/// one piece more than there are separators; a piece may be empty.
pub open spec fn split_on(s: Seq<char>, sep: char) -> Seq<Seq<char>>
    decreases s.len(),
{
    if s.len() == 0 {
        seq![Seq::<char>::empty()]
    } else {
        let before = split_on(s.drop_last(), sep);
        if s.last() == sep {
            before.push(Seq::<char>::empty())
        } else {
            before.drop_last().push(before.last().push(s.last()))
        }
    }
}

/// Whether `needle` stands in `s` at index `i`.
pub open spec fn occurs_at(s: Seq<char>, needle: Seq<char>, i: int) -> bool {
    0 <= i && i + needle.len() <= s.len() && s.subrange(i, i + needle.len()) == needle
}

/// Whether `needle` stands somewhere in `s`.
pub open spec fn occurs_in(needle: Seq<char>, s: Seq<char>) -> bool {
    exists|i: int| occurs_at(s, needle, i)
}

/// The part of `s` before the first `c`, or all of `s` where it holds no `c`.
pub open spec fn before_first(s: Seq<char>, c: char) -> Seq<char>
    decreases s.len(),
{
    if s.len() == 0 || s.first() == c {
        Seq::<char>::empty()
    } else {
        seq![s.first()] + before_first(s.drop_first(), c)
    }
}

/// The views of the rows of a table of characters.
pub open spec fn rows(table: Seq<Vec<char>>) -> Seq<Seq<char>> {
    table.map_values(|row: Vec<char>| row@)
}

/// The characters of `s`, one element for each.
pub fn chars_of(s: &str) -> (out: Vec<char>)
    ensures
        out@ == s@,
{
    broadcast use vstd::string::group_string_axioms;

    let mut out: Vec<char> = Vec::new();
    let mut it = s.chars();
    loop
        invariant
            it.obeys_prophetic_iter_laws(),
            it.decrease() is Some,
            out@ + it.remaining() == s@,
        decreases it.decrease()->0,
    {
        match it.next() {
            Some(c) => {
                out.push(c);
                assert(out@ + it.remaining() =~= s@);
            },
            None => {
                assert(out@ =~= s@);
                return out;
            },
        }
    }
}

/// The string made of the characters of `s`.
pub fn string_of(s: &[char]) -> (out: String)
    ensures
        out@ == s@,
{
    let mut out = String::new();
    let mut i: usize = 0;
    while i < s.len()
        invariant
            i <= s.len(),
            out@ == s@.take(i as int),
        decreases s.len() - i,
    {
        push_char(&mut out, s[i]);
        i = i + 1;
        assert(out@ =~= s@.take(i as int));
    }
    assert(s@.take(s.len() as int) =~= s@);
    out
}

/// The lowercase form of `s`.
pub fn lowercase(s: &str) -> (out: String)
    ensures
        out@ == lowercase_of(s@),
{
    to_lowercase(s)
}

/// A copy of the characters of `s` from index `from` up to, not including,
/// index `to`.
pub fn piece(s: &[char], from: usize, to: usize) -> (out: Vec<char>)
    requires
        from <= to <= s.len(),
    ensures
        out@ == s@.subrange(from as int, to as int),
{
    let mut out: Vec<char> = Vec::new();
    let mut i: usize = from;
    while i < to
        invariant
            from <= i <= to <= s.len(),
            out@ == s@.subrange(from as int, i as int),
        decreases to - i,
    {
        out.push(s[i]);
        i = i + 1;
        assert(out@ =~= s@.subrange(from as int, i as int));
    }
    out
}

/// `s` without leading and trailing whitespace.
pub fn trim(s: &[char]) -> (out: Vec<char>)
    ensures
        out@ == trimmed(s@),
{
    let mut start: usize = 0;
    assert(s@.skip(0) =~= s@);
    while start < s.len() && char_is_whitespace(s[start])
        invariant
            start <= s.len(),
            trim_start(s@) == trim_start(s@.skip(start as int)),
        decreases s.len() - start,
    {
        assert(s@.skip(start as int).drop_first() =~= s@.skip(start + 1));
        start = start + 1;
    }
    assert(trim_start(s@) == s@.skip(start as int));
    let mut end: usize = s.len();
    assert(s@.subrange(start as int, end as int) =~= s@.skip(start as int));
    while end > start && char_is_whitespace(s[end - 1])
        invariant
            start <= end <= s.len(),
            trimmed(s@) == trim_end(s@.subrange(start as int, end as int)),
        decreases end,
    {
        assert(s@.subrange(start as int, end as int).drop_last() =~= s@.subrange(
            start as int,
            end - 1,
        ));
        end = end - 1;
    }
    piece(s, start, end)
}

/// Whether `s` begins with `prefix`.
pub fn starts_with(s: &[char], prefix: &[char]) -> (out: bool)
    ensures
        out == prefix@.is_prefix_of(s@),
{
    if prefix.len() > s.len() {
        return false;
    }
    let mut i: usize = 0;
    while i < prefix.len()
        invariant
            i <= prefix.len() <= s.len(),
            prefix@.take(i as int) == s@.take(i as int),
        decreases prefix.len() - i,
    {
        if prefix[i] != s[i] {
            assert(prefix@[i as int] != s@.subrange(0, prefix@.len() as int)[i as int]);
            return false;
        }
        i = i + 1;
        assert(prefix@.take(i as int) =~= prefix@.take(i - 1).push(prefix@[i - 1]));
        assert(s@.take(i as int) =~= s@.take(i - 1).push(s@[i - 1]));
    }
    assert(prefix@.take(i as int) =~= prefix@);
    true
}

/// Whether `s` ends with `suffix`.
pub fn ends_with(s: &[char], suffix: &[char]) -> (out: bool)
    ensures
        out == suffix@.is_suffix_of(s@),
{
    if suffix.len() > s.len() {
        return false;
    }
    let shift: usize = s.len() - suffix.len();
    let mut i: usize = 0;
    while i < suffix.len()
        invariant
            i <= suffix.len() <= s.len(),
            shift == s.len() - suffix.len(),
            suffix@.take(i as int) == s@.subrange(shift as int, shift + i),
        decreases suffix.len() - i,
    {
        if suffix[i] != s[shift + i] {
            assert(suffix@[i as int] != s@.subrange(shift as int, s@.len() as int)[i as int]);
            return false;
        }
        i = i + 1;
        assert(suffix@.take(i as int) =~= suffix@.take(i - 1).push(suffix@[i - 1]));
        assert(s@.subrange(shift as int, shift + i) =~= s@.subrange(
            shift as int,
            shift + i - 1,
        ).push(s@[shift + i - 1]));
    }
    assert(suffix@.take(i as int) =~= suffix@);
    true
}

/// Whether `needle` stands in `s` at index `at`.
pub fn matches_at(s: &[char], needle: &[char], at: usize) -> (out: bool)
    requires
        at + needle.len() <= s.len(),
    ensures
        out == occurs_at(s@, needle@, at as int),
{
    let mut i: usize = 0;
    while i < needle.len()
        invariant
            i <= needle.len(),
            at + needle.len() <= s.len(),
            needle@.take(i as int) == s@.subrange(at as int, at + i),
        decreases needle.len() - i,
    {
        if needle[i] != s[at + i] {
            assert(needle@[i as int] != s@.subrange(at as int, at + needle@.len())[i as int]);
            return false;
        }
        i = i + 1;
        assert(needle@.take(i as int) =~= needle@.take(i - 1).push(needle@[i - 1]));
        assert(s@.subrange(at as int, at + i) =~= s@.subrange(at as int, at + i - 1).push(
            s@[at + i - 1],
        ));
    }
    assert(needle@.take(i as int) =~= needle@);
    true
}

/// Whether `needle` stands somewhere in `s`.
pub fn contains(s: &[char], needle: &[char]) -> (out: bool)
    ensures
        out == occurs_in(needle@, s@),
{
    if needle.len() > s.len() {
        return false;
    }
    if needle.len() == 0 {
        assert(s@.subrange(0, 0) =~= needle@);
        assert(occurs_at(s@, needle@, 0));
        return true;
    }
    let last: usize = s.len() - needle.len();
    let mut at: usize = 0;
    while at <= last
        invariant
            at <= last + 1,
            needle.len() > 0,
            last == s.len() - needle.len(),
            forall|i: int| 0 <= i < at ==> !occurs_at(s@, needle@, i),
        decreases last + 1 - at,
    {
        if matches_at(s, needle, at) {
            return true;
        }
        at = at + 1;
    }
    false
}

/// Whether `c` is one of the characters of `s`.
pub fn has_char(s: &[char], c: char) -> (out: bool)
    ensures
        out == s@.contains(c),
{
    let mut i: usize = 0;
    while i < s.len()
        invariant
            i <= s.len(),
            forall|j: int| 0 <= j < i ==> s@[j] != c,
        decreases s.len() - i,
    {
        if s[i] == c {
            return true;
        }
        i = i + 1;
    }
    false
}

/// The part of `s` before the first `c`, or all of `s` where it holds no `c`.
pub fn up_to(s: &[char], c: char) -> (out: Vec<char>)
    ensures
        out@ == before_first(s@, c),
{
    let mut i: usize = 0;
    assert(s@.skip(0) =~= s@);
    assert(s@.take(0) + before_first(s@, c) =~= before_first(s@, c));
    while i < s.len() && s[i] != c
        invariant
            i <= s.len(),
            before_first(s@, c) == s@.take(i as int) + before_first(s@.skip(i as int), c),
        decreases s.len() - i,
    {
        assert(s@.skip(i as int).drop_first() =~= s@.skip(i + 1));
        assert(s@.take(i + 1) =~= s@.take(i as int) + seq![s@[i as int]]);
        assert(s@.take(i as int) + (seq![s@[i as int]] + before_first(s@.skip(i + 1), c))
            =~= s@.take(i + 1) + before_first(s@.skip(i + 1), c));
        i = i + 1;
    }
    assert(before_first(s@.skip(i as int), c) =~= Seq::<char>::empty());
    assert(s@.take(i as int) + Seq::<char>::empty() =~= s@.subrange(0, i as int));
    piece(s, 0, i)
}

/// The pieces of `s` between occurrences of `sep`, in order.
pub fn split(s: &[char], sep: char) -> (out: Vec<Vec<char>>)
    ensures
        rows(out@) == split_on(s@, sep),
{
    let mut done: Vec<Vec<char>> = Vec::new();
    let mut current: Vec<char> = Vec::new();
    let mut i: usize = 0;
    assert(s@.take(0) =~= Seq::<char>::empty());
    assert(rows(done@).push(current@) =~= seq![Seq::<char>::empty()]);
    while i < s.len()
        invariant
            i <= s.len(),
            rows(done@).push(current@) == split_on(s@.take(i as int), sep),
        decreases s.len() - i,
    {
        let ghost before = rows(done@).push(current@);
        assert(s@.take(i + 1).drop_last() =~= s@.take(i as int));
        assert(before.drop_last() =~= rows(done@));
        if s[i] == sep {
            done.push(current);
            current = Vec::new();
            assert(rows(done@) =~= before);
        } else {
            current.push(s[i]);
        }
        i = i + 1;
    }
    assert(s@.take(i as int) =~= s@);
    let ghost before = rows(done@);
    done.push(current);
    assert(rows(done@) =~= before.push(current@));
    done
}

} // verus!
