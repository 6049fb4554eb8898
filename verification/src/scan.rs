//! Splitting text: runs of a character class, fields, tokens, lines, trimming.

use vstd::prelude::*;
use crate::text::{char_is_digit, char_is_space, is_digit, is_space, slice};

verus! {

/// A class of characters that a scan runs over.
#[derive(Clone, Copy, Debug)]
pub enum CharClass {
    /// White space.
    Space,
    /// Anything but white space.
    Word,
    /// An ASCII digit.
    Digit,
    /// Anything but the given character.
    Except(char),
}

/// Whether `c` belongs to class `k`.
pub open spec fn in_class(k: CharClass, c: char) -> bool {
    match k {
        CharClass::Space => is_space(c),
        CharClass::Word => !is_space(c),
        CharClass::Digit => is_digit(c),
        CharClass::Except(x) => c != x,
    }
}

/// Executable form of [`in_class`].
pub fn class_has(k: CharClass, c: char) -> (b: bool)
    ensures
        b == in_class(k, c),
{
    match k {
        CharClass::Space => char_is_space(c),
        CharClass::Word => !char_is_space(c),
        CharClass::Digit => char_is_digit(c),
        CharClass::Except(x) => c != x,
    }
}

/// Where the run of class `k` that starts at `from` ends: the first index at
/// or after `from` whose character is outside the class, or the length of `s`.
pub open spec fn run_end(s: Seq<char>, k: CharClass, from: int) -> int
    decreases s.len() - from,
{
    if from < 0 || from >= s.len() || !in_class(k, s[from]) {
        from
    } else {
        run_end(s, k, from + 1)
    }
}

/// A run ends between its start and the end of the text, holds only
/// characters of its class, and stops at one outside it.
pub proof fn lemma_run_end(s: Seq<char>, k: CharClass, from: int)
    requires
        0 <= from <= s.len(),
    ensures
        from <= run_end(s, k, from) <= s.len(),
        forall|i: int| from <= i < run_end(s, k, from) ==> in_class(k, #[trigger] s[i]),
        run_end(s, k, from) < s.len() ==> !in_class(k, s[run_end(s, k, from)]),
    decreases s.len() - from,
{
    if from < s.len() && in_class(k, s[from]) {
        lemma_run_end(s, k, from + 1);
    }
}

/// The end of the run of class `k` that starts at `from`.
pub fn scan(v: &Vec<char>, k: CharClass, from: usize) -> (end: usize)
    requires
        from <= v.len(),
    ensures
        end == run_end(v@, k, from as int),
        from <= end <= v.len(),
{
    let mut i: usize = from;
    while i < v.len() && class_has(k, v[i])
        invariant
            from <= i <= v.len(),
            run_end(v@, k, from as int) == run_end(v@, k, i as int),
        decreases v.len() - i,
    {
        i += 1;
    }
    i
}

/// The index of the first `c` in `s`, if there is one.
pub open spec fn first_index(s: Seq<char>, c: char) -> Option<int> {
    let i = run_end(s, CharClass::Except(c), 0);
    if i < s.len() {
        Some(i)
    } else {
        None
    }
}

/// The index of the last `c` in `s`, if there is one.
pub open spec fn last_index(s: Seq<char>, c: char) -> Option<int>
    decreases s.len(),
{
    if s.len() == 0 {
        None
    } else if s.last() == c {
        Some(s.len() - 1)
    } else {
        last_index(s.drop_last(), c)
    }
}

/// The index of the first `c` in `v`.
pub fn find(v: &Vec<char>, c: char) -> (r: Option<usize>)
    ensures
        r is Some <==> first_index(v@, c) is Some,
        r is Some ==> r->0 as int == first_index(v@, c)->0 && r->0 < v.len() && v@[r->0 as int]
            == c,
        r is None ==> !v@.contains(c),
{
    let i = scan(v, CharClass::Except(c), 0);
    proof {
        lemma_run_end(v@, CharClass::Except(c), 0);
    }
    if i < v.len() {
        Some(i)
    } else {
        None
    }
}

/// The index of the last `c` in `v`.
pub fn rfind(v: &Vec<char>, c: char) -> (r: Option<usize>)
    ensures
        r is Some <==> last_index(v@, c) is Some,
        r is Some ==> r->0 as int == last_index(v@, c)->0 && r->0 < v.len(),
{
    let mut i: usize = v.len();
    assert(v@.take(v.len() as int) == v@);
    while i > 0 && v[i - 1] != c
        invariant
            i <= v.len(),
            last_index(v@, c) == last_index(v@.take(i as int), c),
        decreases i,
    {
        assert(v@.take(i as int).drop_last() == v@.take(i - 1));
        i -= 1;
    }
    if i > 0 {
        Some(i - 1)
    } else {
        None
    }
}

/// `s` without its trailing white space.
pub open spec fn trim_end(s: Seq<char>) -> Seq<char>
    decreases s.len(),
{
    if s.len() > 0 && is_space(s.last()) {
        trim_end(s.drop_last())
    } else {
        s
    }
}

/// `s` without its leading and trailing white space.
pub open spec fn trimmed(s: Seq<char>) -> Seq<char> {
    trim_end(s.skip(run_end(s, CharClass::Space, 0)))
}

/// Trimming never lengthens.
pub proof fn lemma_trim_end_len(s: Seq<char>)
    ensures
        trim_end(s).len() <= s.len(),
    decreases s.len(),
{
    if s.len() > 0 && is_space(s.last()) {
        lemma_trim_end_len(s.drop_last());
    }
}

/// Trimming never lengthens.
pub proof fn lemma_trimmed_len(s: Seq<char>)
    ensures
        trimmed(s).len() <= s.len(),
{
    lemma_run_end(s, CharClass::Space, 0);
    lemma_trim_end_len(s.skip(run_end(s, CharClass::Space, 0)));
}

/// `v` without its leading and trailing white space.
pub fn trim(v: &Vec<char>) -> (r: Vec<char>)
    ensures
        r@ == trimmed(v@),
{
    let start = scan(v, CharClass::Space, 0);
    let mut end: usize = v.len();
    let ghost rest = v@.skip(start as int);
    assert(v@.subrange(start as int, end as int) == rest);
    while end > start && char_is_space(v[end - 1])
        invariant
            start <= end <= v.len(),
            trim_end(rest) == trim_end(v@.subrange(start as int, end as int)),
        decreases end,
    {
        assert(v@.subrange(start as int, end as int).drop_last() == v@.subrange(
            start as int,
            end - 1,
        ));
        end -= 1;
    }
    slice(v, start, end)
}

/// The pieces of `s` between occurrences of `sep`, starting at `from`: one
/// more piece than there are separators, empty pieces included.
pub open spec fn fields_from(s: Seq<char>, sep: char, from: int) -> Seq<Seq<char>>
    decreases s.len() - from,
{
    let e = run_end(s, CharClass::Except(sep), from);
    if from < 0 || from > s.len() {
        Seq::empty()
    } else if e >= s.len() || e < from {
        seq![s.subrange(from, s.len() as int)]
    } else {
        seq![s.subrange(from, e)] + fields_from(s, sep, e + 1)
    }
}

/// The pieces of `s` between occurrences of `sep`.
pub open spec fn fields(s: Seq<char>, sep: char) -> Seq<Seq<char>> {
    fields_from(s, sep, 0)
}

/// The maximal runs of non-space characters of `s` at or after `from`.
pub open spec fn tokens_from(s: Seq<char>, from: int) -> Seq<Seq<char>>
    decreases s.len() - from,
{
    let a = run_end(s, CharClass::Space, from);
    let b = run_end(s, CharClass::Word, a);
    if from < 0 || a >= s.len() || a < from || b <= a || b > s.len() {
        Seq::empty()
    } else {
        seq![s.subrange(a, b)] + tokens_from(s, b)
    }
}

/// The maximal runs of non-space characters of `s`, in order.
pub open spec fn tokens(s: Seq<char>) -> Seq<Seq<char>> {
    tokens_from(s, 0)
}

/// `s` without one trailing carriage return.
pub open spec fn strip_cr(s: Seq<char>) -> Seq<char> {
    if s.len() > 0 && s.last() == '\r' {
        s.drop_last()
    } else {
        s
    }
}

/// The lines of `s` at or after `from`. A line ends at a line feed, which is
/// dropped together with a carriage return directly before it; text after
/// the last line feed is a line of its own unless it is empty.
pub open spec fn lines_from(s: Seq<char>, from: int) -> Seq<Seq<char>>
    decreases s.len() - from,
{
    let e = run_end(s, CharClass::Except('\n'), from);
    if from < 0 || from >= s.len() || e < from {
        Seq::empty()
    } else if e >= s.len() {
        seq![s.subrange(from, s.len() as int)]
    } else {
        seq![strip_cr(s.subrange(from, e))] + lines_from(s, e + 1)
    }
}

/// The lines of `s`, in order.
pub open spec fn lines(s: Seq<char>) -> Seq<Seq<char>> {
    lines_from(s, 0)
}

/// The views of a vector of texts.
pub open spec fn views(v: Seq<Vec<char>>) -> Seq<Seq<char>> {
    Seq::new(v.len(), |i: int| v[i]@)
}

/// The pieces of `v` between occurrences of `sep`.
pub fn split_fields(v: &Vec<char>, sep: char) -> (r: Vec<Vec<char>>)
    ensures
        views(r@) == fields(v@, sep),
{
    let mut r: Vec<Vec<char>> = Vec::new();
    let mut pos: usize = 0;
    loop
        invariant_except_break
            views(r@) + fields_from(v@, sep, pos as int) == fields(v@, sep),
        invariant
            pos <= v.len(),
        ensures
            views(r@) == fields(v@, sep),
        decreases v.len() - pos,
    {
        let e = scan(v, CharClass::Except(sep), pos);
        let ghost before = views(r@);
        if e >= v.len() {
            r.push(slice(v, pos, v.len()));
            assert(views(r@) == before + seq![v@.subrange(pos as int, v.len() as int)]);
            break;
        }
        r.push(slice(v, pos, e));
        assert(views(r@) == before + seq![v@.subrange(pos as int, e as int)]);
        assert(before + (seq![v@.subrange(pos as int, e as int)] + fields_from(v@, sep, e + 1))
            == (before + seq![v@.subrange(pos as int, e as int)]) + fields_from(v@, sep, e + 1));
        pos = e + 1;
    }
    r
}

/// The maximal runs of non-space characters of `v`, in order.
pub fn split_tokens(v: &Vec<char>) -> (r: Vec<Vec<char>>)
    ensures
        views(r@) == tokens(v@),
{
    let mut r: Vec<Vec<char>> = Vec::new();
    let mut pos: usize = 0;
    loop
        invariant_except_break
            views(r@) + tokens_from(v@, pos as int) == tokens(v@),
        invariant
            pos <= v.len(),
        ensures
            views(r@) == tokens(v@),
        decreases v.len() - pos,
    {
        let a = scan(v, CharClass::Space, pos);
        if a >= v.len() {
            assert(views(r@) + Seq::<Seq<char>>::empty() == views(r@));
            break;
        }
        let b = scan(v, CharClass::Word, a);
        proof {
            lemma_run_end(v@, CharClass::Space, pos as int);
            lemma_run_end(v@, CharClass::Word, a + 1);
        }
        let ghost before = views(r@);
        r.push(slice(v, a, b));
        assert(views(r@) == before + seq![v@.subrange(a as int, b as int)]);
        assert(before + (seq![v@.subrange(a as int, b as int)] + tokens_from(v@, b as int)) == (
        before + seq![v@.subrange(a as int, b as int)]) + tokens_from(v@, b as int));
        pos = b;
    }
    r
}

/// The lines of `v`, in order.
pub fn split_lines(v: &Vec<char>) -> (r: Vec<Vec<char>>)
    ensures
        views(r@) == lines(v@),
{
    let mut r: Vec<Vec<char>> = Vec::new();
    let mut pos: usize = 0;
    loop
        invariant_except_break
            views(r@) + lines_from(v@, pos as int) == lines(v@),
        invariant
            pos <= v.len(),
        ensures
            views(r@) == lines(v@),
        decreases v.len() - pos,
    {
        let ghost before = views(r@);
        if pos >= v.len() {
            assert(before + Seq::<Seq<char>>::empty() == before);
            break;
        }
        let e = scan(v, CharClass::Except('\n'), pos);
        if e >= v.len() {
            r.push(slice(v, pos, v.len()));
            assert(views(r@) == before + seq![v@.subrange(pos as int, v.len() as int)]);
            break;
        }
        let stop = if e > pos && v[e - 1] == '\r' {
            e - 1
        } else {
            e
        };
        let ghost line = v@.subrange(pos as int, e as int);
        assert(stop < e ==> line.drop_last() == v@.subrange(pos as int, stop as int));
        r.push(slice(v, pos, stop));
        assert(views(r@) == before + seq![strip_cr(line)]);
        assert(before + (seq![strip_cr(line)] + lines_from(v@, e + 1)) == (before + seq![
            strip_cr(line),
        ]) + lines_from(v@, e + 1));
        pos = e + 1;
    }
    r
}

/// No field is longer than the text it was cut from.
pub proof fn lemma_fields_len(s: Seq<char>, sep: char, from: int)
    requires
        0 <= from <= s.len(),
    ensures
        fields_from(s, sep, from).len() >= 1,
        forall|i: int|
            0 <= i < fields_from(s, sep, from).len() ==> (#[trigger] fields_from(
                s,
                sep,
                from,
            )[i]).len() <= s.len() - from,
    decreases s.len() - from,
{
    let e = run_end(s, CharClass::Except(sep), from);
    lemma_run_end(s, CharClass::Except(sep), from);
    if e < s.len() {
        lemma_fields_len(s, sep, e + 1);
    }
}

/// A token is never empty, holds no white space, and is no longer than the
/// text it was cut from.
pub proof fn lemma_tokens(s: Seq<char>, from: int)
    requires
        0 <= from <= s.len(),
    ensures
        forall|i: int|
            0 <= i < tokens_from(s, from).len() ==> {
                let t = #[trigger] tokens_from(s, from)[i];
                &&& 0 < t.len() <= s.len() - from
                &&& forall|j: int| 0 <= j < t.len() ==> !is_space(#[trigger] t[j])
            },
    decreases s.len() - from,
{
    let a = run_end(s, CharClass::Space, from);
    lemma_run_end(s, CharClass::Space, from);
    if a < s.len() {
        let b = run_end(s, CharClass::Word, a);
        lemma_run_end(s, CharClass::Word, a);
        if b > a {
            lemma_tokens(s, b);
            assert forall|i: int| 0 <= i < tokens_from(s, from).len() implies {
                let t = #[trigger] tokens_from(s, from)[i];
                &&& 0 < t.len() <= s.len() - from
                &&& forall|j: int| 0 <= j < t.len() ==> !is_space(#[trigger] t[j])
            } by {
                if i > 0 {
                    assert(tokens_from(s, from)[i] == tokens_from(s, b)[i - 1]);
                }
            }
        }
    }
}

} // verus!
