//! Texts as sequences of characters: conversion from and to strings,
//! whitespace, searching, splitting and replacing.
//!
//! Positions count characters, not bytes. The functions that walk a text
//! are specified by position: a spec function takes the text and the
//! position from which it works.

use vstd::prelude::*;

verus! {

/// `String::push` appends one character to the string.
pub assume_specification[ String::push ](s: &mut String, ch: char)
    ensures
        final(s)@ == old(s)@.push(ch),
;

/// The characters of a string, in order.
pub fn chars_of(s: &str) -> (chars: Vec<char>)
    ensures
        chars@ == s@,
{
    let mut chars: Vec<char> = Vec::new();
    for c in it: s.chars()
        invariant
            chars@ == it.seq().take(it.index()),
            it.seq() == s@,
    {
        chars.push(c);
    }
    chars
}

/// The string made of the given characters, in order.
pub fn string_of(chars: &Vec<char>) -> (s: String)
    ensures
        s@ == chars@,
{
    let mut s = String::new();
    let mut i: usize = 0;
    while i < chars.len()
        invariant
            i <= chars.len(),
            s@ == chars@.take(i as int),
        decreases chars.len() - i,
    {
        s.push(chars[i]);
        i += 1;
    }
    s
}

/// Whether a character is white space: the characters that Unicode gives
/// the property `White_Space`.
pub open spec fn is_whitespace(c: char) -> bool {
    let n = c as u32;
    ||| 0x09 <= n <= 0x0D
    ||| n == 0x20
    ||| n == 0x85
    ||| n == 0xA0
    ||| n == 0x1680
    ||| 0x2000 <= n <= 0x200A
    ||| n == 0x2028
    ||| n == 0x2029
    ||| n == 0x202F
    ||| n == 0x205F
    ||| n == 0x3000
}

/// Tells whether a character is white space.
pub fn whitespace(c: char) -> (b: bool)
    ensures
        b == is_whitespace(c),
{
    let n: u32 = c as u32;
    (0x09 <= n && n <= 0x0D) || n == 0x20 || n == 0x85 || n == 0xA0 || n == 0x1680 || (0x2000 <= n
        && n <= 0x200A) || n == 0x2028 || n == 0x2029 || n == 0x202F || n == 0x205F || n == 0x3000
}

/// The first position at or after `from` that holds no white space, or the
/// length of the text.
pub open spec fn skip_leading(s: Seq<char>, from: int) -> int
    decreases s.len() - from,
{
    if 0 <= from < s.len() && is_whitespace(s[from]) {
        skip_leading(s, from + 1)
    } else {
        from
    }
}

/// The end of the last stretch before `to` that does not end in white
/// space: the least position from which everything up to `to` is white
/// space.
pub open spec fn skip_trailing(s: Seq<char>, to: int) -> int
    decreases to,
{
    if 0 < to <= s.len() && is_whitespace(s[to - 1]) {
        skip_trailing(s, to - 1)
    } else {
        to
    }
}

/// The text without the white space at its two ends.
pub open spec fn trimmed(s: Seq<char>) -> Seq<char> {
    let start = skip_leading(s, 0);
    let end = skip_trailing(s, s.len() as int);
    if start < end {
        s.subrange(start, end)
    } else {
        Seq::empty()
    }
}

/// Removes the white space at both ends of a text.
pub fn trim(s: &Vec<char>) -> (t: Vec<char>)
    ensures
        t@ == trimmed(s@),
{
    let mut start: usize = 0;
    while start < s.len() && whitespace(s[start])
        invariant
            start <= s.len(),
            skip_leading(s@, 0) == skip_leading(s@, start as int),
        decreases s.len() - start,
    {
        start += 1;
    }
    let mut end: usize = s.len();
    while end > 0 && whitespace(s[end - 1])
        invariant
            end <= s.len(),
            skip_trailing(s@, s.len() as int) == skip_trailing(s@, end as int),
        decreases end,
    {
        end -= 1;
    }
    if start < end {
        slice_of(s, start, end)
    } else {
        Vec::new()
    }
}

/// Copies the characters from position `from` up to position `to`.
pub fn slice_of(s: &Vec<char>, from: usize, to: usize) -> (t: Vec<char>)
    requires
        from <= to <= s.len(),
    ensures
        t@ == s@.subrange(from as int, to as int),
{
    let mut t: Vec<char> = Vec::new();
    let mut i: usize = from;
    while i < to
        invariant
            from <= i <= to <= s.len(),
            t@ == s@.subrange(from as int, i as int),
        decreases to - i,
    {
        t.push(s[i]);
        i += 1;
    }
    t
}

/// Appends the characters of `more` to `s`.
pub fn append(s: &mut Vec<char>, more: &Vec<char>)
    ensures
        final(s)@ == old(s)@ + more@,
{
    let mut i: usize = 0;
    while i < more.len()
        invariant
            i <= more.len(),
            s@ == old(s)@ + more@.take(i as int),
        decreases more.len() - i,
    {
        s.push(more[i]);
        i += 1;
    }
}

/// Whether two texts hold the same characters.
pub fn same_text(a: &Vec<char>, b: &Vec<char>) -> (same: bool)
    ensures
        same == (a@ == b@),
{
    if a.len() != b.len() {
        return false;
    }
    let mut i: usize = 0;
    while i < a.len()
        invariant
            i <= a.len(),
            a.len() == b.len(),
            a@.take(i as int) == b@.take(i as int),
        decreases a.len() - i,
    {
        if a[i] != b[i] {
            return false;
        }
        assert(a@.take(i + 1) == a@.take(i as int).push(a@[i as int]));
        assert(b@.take(i + 1) == b@.take(i as int).push(b@[i as int]));
        i += 1;
    }
    assert(a@ == a@.take(a.len() as int));
    assert(b@ == b@.take(b.len() as int));
    true
}

/// Whether a text holds exactly the characters of a word.
pub fn is_word(s: &Vec<char>, word: &str) -> (same: bool)
    ensures
        same == (s@ == word@),
{
    let w = chars_of(word);
    same_text(s, &w)
}

/// The first position at or after `from` that holds `c`, or the length of
/// the text where none does.
pub open spec fn position_of(s: Seq<char>, c: char, from: int) -> int
    decreases s.len() - from,
{
    if 0 <= from < s.len() && s[from] != c {
        position_of(s, c, from + 1)
    } else {
        from
    }
}

/// Finds the first `c` at or after `from`.
pub fn find(s: &Vec<char>, c: char, from: usize) -> (at: usize)
    ensures
        at == position_of(s@, c, from as int),
        from <= at,
        from <= s.len() ==> at <= s.len(),
{
    let mut at: usize = from;
    while at < s.len() && s[at] != c
        invariant
            from <= at,
            from <= s.len() ==> at <= s.len(),
            position_of(s@, c, from as int) == position_of(s@, c, at as int),
        decreases s.len() - at,
    {
        at += 1;
    }
    at
}

/// The pieces between the separators, from position `from` on. A text
/// without a separator is one piece; two separators in a row, or one at an
/// end, give an empty piece.
pub open spec fn pieces_from(s: Seq<char>, sep: char, from: int) -> Seq<Seq<char>>
    decreases s.len() - from,
{
    let at = position_of(s, sep, from);
    if 0 <= from <= at < s.len() {
        seq![s.subrange(from, at)] + pieces_from(s, sep, at + 1)
    } else {
        seq![s.subrange(from, s.len() as int)]
    }
}

/// The pieces of a text between its separators.
pub open spec fn pieces(s: Seq<char>, sep: char) -> Seq<Seq<char>> {
    pieces_from(s, sep, 0)
}

/// The views of the texts in a vector.
pub open spec fn texts(v: Seq<Vec<char>>) -> Seq<Seq<char>> {
    Seq::new(v.len(), |i: int| v[i]@)
}

/// Splits a text at every separator.
pub fn split(s: &Vec<char>, sep: char) -> (parts: Vec<Vec<char>>)
    ensures
        texts(parts@) == pieces(s@, sep),
{
    let mut parts: Vec<Vec<char>> = Vec::new();
    let mut from: usize = 0;
    loop
        invariant_except_break
            from <= s.len(),
            pieces(s@, sep) == texts(parts@) + pieces_from(s@, sep, from as int),
        ensures
            texts(parts@) == pieces(s@, sep),
        decreases s.len() - from,
    {
        let at: usize = find(s, sep, from);
        let piece = slice_of(s, from, at);
        let ghost before = parts@;
        parts.push(piece);
        assert(texts(parts@) == texts(before) + seq![s@.subrange(from as int, at as int)]);
        if at < s.len() {
            from = at + 1;
        } else {
            break;
        }
    }
    parts
}

/// Whether `pat` stands in `s` at position `at`.
pub open spec fn occurs_at(s: Seq<char>, pat: Seq<char>, at: int) -> bool {
    0 <= at && at + pat.len() <= s.len() && s.subrange(at, at + pat.len()) == pat
}

/// Tells whether `pat` stands in `s` at position `at`.
pub fn occurs(s: &Vec<char>, pat: &Vec<char>, at: usize) -> (found: bool)
    ensures
        found == occurs_at(s@, pat@, at as int),
{
    if at > s.len() || pat.len() > s.len() - at {
        return false;
    }
    let mut i: usize = 0;
    while i < pat.len()
        invariant
            i <= pat.len(),
            at + pat.len() <= s.len(),
            s@.subrange(at as int, at + i) == pat@.take(i as int),
        decreases pat.len() - i,
    {
        if s[at + i] != pat[i] {
            assert(s@.subrange(at as int, at + pat.len())[i as int] != pat@[i as int]);
            return false;
        }
        assert(s@.subrange(at as int, at + i + 1) == s@.subrange(at as int, at + i).push(
            s@[at + i],
        ));
        assert(pat@.take(i + 1) == pat@.take(i as int).push(pat@[i as int]));
        i += 1;
    }
    assert(pat@ == pat@.take(pat.len() as int));
    true
}

/// The text from position `from` on, with `rep` in place of each `pat`.
/// The text is read from left to right; where `pat` stands, it is
/// replaced and reading goes on behind it, so the occurrences that are
/// replaced do not overlap. An empty `pat` stands nowhere.
pub open spec fn replaced_from(s: Seq<char>, pat: Seq<char>, rep: Seq<char>, from: int) -> Seq<
    char,
>
    decreases s.len() - from,
{
    if from < 0 || from >= s.len() {
        Seq::empty()
    } else if pat.len() > 0 && occurs_at(s, pat, from) {
        rep + replaced_from(s, pat, rep, from + pat.len())
    } else {
        seq![s[from]] + replaced_from(s, pat, rep, from + 1)
    }
}

/// The text with `rep` in place of each `pat`.
pub open spec fn replaced(s: Seq<char>, pat: Seq<char>, rep: Seq<char>) -> Seq<char> {
    replaced_from(s, pat, rep, 0)
}

/// Replaces every occurrence of `pat` in `s` by `rep`.
pub fn replace_all(s: &Vec<char>, pat: &Vec<char>, rep: &Vec<char>) -> (t: Vec<char>)
    ensures
        t@ == replaced(s@, pat@, rep@),
{
    let mut t: Vec<char> = Vec::new();
    let mut from: usize = 0;
    while from < s.len()
        invariant
            from <= s.len(),
            replaced(s@, pat@, rep@) == t@ + replaced_from(s@, pat@, rep@, from as int),
        decreases s.len() - from,
    {
        if pat.len() > 0 && occurs(s, pat, from) {
            append(&mut t, rep);
            from += pat.len();
        } else {
            t.push(s[from]);
            from += 1;
        }
    }
    t
}

/// The text without the character `c`.
pub open spec fn without(s: Seq<char>, c: char) -> Seq<char> {
    s.filter(|x: char| x != c)
}

/// Removes every `c` from a text.
pub fn remove_all(s: &Vec<char>, c: char) -> (t: Vec<char>)
    ensures
        t@ == without(s@, c),
        !t@.contains(c),
{
    let mut t: Vec<char> = Vec::new();
    let mut i: usize = 0;
    proof {
        reveal(Seq::filter);
    }
    while i < s.len()
        invariant
            i <= s.len(),
            t@ == without(s@.take(i as int), c),
            forall|j: int| 0 <= j < t.len() ==> t@[j] != c,
        decreases s.len() - i,
    {
        proof {
            reveal(Seq::filter);
            assert(s@.take(i + 1).drop_last() == s@.take(i as int));
        }
        if s[i] != c {
            t.push(s[i]);
        }
        i += 1;
    }
    assert(s@.take(s.len() as int) == s@);
    t
}

/// The text without a character does not hold the character.
pub proof fn lemma_without_has_none(s: Seq<char>, c: char)
    ensures
        !without(s, c).contains(c),
    decreases s.len(),
{
    reveal(Seq::filter);
    if s.len() > 0 {
        lemma_without_has_none(s.drop_last(), c);
    }
}

/// A stretch that does not hold the first character of `pat` is left as
/// it is: replacing goes on behind it.
pub proof fn lemma_replaced_skips(
    s: Seq<char>,
    pat: Seq<char>,
    rep: Seq<char>,
    from: int,
    to: int,
)
    requires
        0 <= from <= to <= s.len(),
        pat.len() > 0,
        forall|i: int| from <= i < to ==> s[i] != pat[0],
    ensures
        replaced_from(s, pat, rep, from) == s.subrange(from, to) + replaced_from(s, pat, rep, to),
    decreases to - from,
{
    if from < to {
        assert(!occurs_at(s, pat, from)) by {
            if occurs_at(s, pat, from) {
                assert(s.subrange(from, from + pat.len())[0] == pat[0]);
            }
        }
        lemma_replaced_skips(s, pat, rep, from + 1, to);
        assert(seq![s[from]] + s.subrange(from + 1, to) == s.subrange(from, to));
    } else {
        assert(s.subrange(from, to) == Seq::<char>::empty());
    }
}

/// Where `pat` stands twice in a text, and what stands around and
/// between the two does not hold the first character of `pat`, both are
/// replaced, by the same text, and the rest stays.
pub proof fn lemma_replaced_twice(
    a: Seq<char>,
    b: Seq<char>,
    c: Seq<char>,
    pat: Seq<char>,
    rep: Seq<char>,
)
    requires
        pat.len() > 0,
        !a.contains(pat[0]),
        !b.contains(pat[0]),
        !c.contains(pat[0]),
    ensures
        replaced(a + pat + b + pat + c, pat, rep) == a + rep + b + rep + c,
{
    let s = a + pat + b + pat + c;
    let n = pat.len() as int;
    let i1 = a.len() as int;
    let i2 = i1 + n;
    let i3 = i2 + b.len();
    let i4 = i3 + n;
    let end = s.len() as int;
    assert forall|i: int| 0 <= i < i1 implies s[i] != pat[0] by {
        assert(s[i] == a[i]);
    }
    assert forall|i: int| i2 <= i < i3 implies s[i] != pat[0] by {
        assert(s[i] == b[i - i2]);
    }
    assert forall|i: int| i4 <= i < end implies s[i] != pat[0] by {
        assert(s[i] == c[i - i4]);
    }
    assert(s.subrange(0, i1) == a);
    assert(s.subrange(i1, i2) == pat);
    assert(s.subrange(i2, i3) == b);
    assert(s.subrange(i3, i4) == pat);
    assert(s.subrange(i4, end) == c);
    lemma_replaced_skips(s, pat, rep, 0, i1);
    assert(occurs_at(s, pat, i1));
    assert(replaced_from(s, pat, rep, i1) == rep + replaced_from(s, pat, rep, i2)) by {
        if i1 == end {
        }
    }
    lemma_replaced_skips(s, pat, rep, i2, i3);
    assert(occurs_at(s, pat, i3));
    assert(replaced_from(s, pat, rep, i3) == rep + replaced_from(s, pat, rep, i4));
    lemma_replaced_skips(s, pat, rep, i4, end);
    assert(replaced_from(s, pat, rep, end) == Seq::<char>::empty());
    assert(replaced(s, pat, rep) == a + (rep + (b + (rep + (c + Seq::<char>::empty())))));
    assert(a + (rep + (b + (rep + (c + Seq::<char>::empty())))) == a + rep + b + rep + c);
}

/// What `position_of` finds: a position at or after `from` that holds
/// the character or is the length, with the character nowhere between.
pub proof fn lemma_position_of(s: Seq<char>, c: char, from: int)
    requires
        0 <= from <= s.len(),
    ensures
        from <= position_of(s, c, from) <= s.len(),
        position_of(s, c, from) < s.len() ==> s[position_of(s, c, from)] == c,
        forall|i: int| from <= i < position_of(s, c, from) ==> s[i] != c,
    decreases s.len() - from,
{
    if from < s.len() && s[from] != c {
        lemma_position_of(s, c, from + 1);
    }
}

/// Where a character does not occur from `from` on, its position is the
/// length of the text.
pub proof fn lemma_position_of_absent(s: Seq<char>, c: char, from: int)
    requires
        0 <= from <= s.len(),
        forall|i: int| from <= i < s.len() ==> s[i] != c,
    ensures
        position_of(s, c, from) == s.len(),
    decreases s.len() - from,
{
    if from < s.len() {
        lemma_position_of_absent(s, c, from + 1);
    }
}

/// Where a character occurs at `at` and not between `from` and `at`, its
/// position from `from` on is `at`.
pub proof fn lemma_position_of_first(s: Seq<char>, c: char, from: int, at: int)
    requires
        0 <= from <= at < s.len(),
        s[at] == c,
        forall|i: int| from <= i < at ==> s[i] != c,
    ensures
        position_of(s, c, from) == at,
    decreases at - from,
{
    if from < at {
        lemma_position_of_first(s, c, from + 1, at);
    }
}

/// A text in which `pat` stands nowhere stays as it is.
pub proof fn lemma_replaced_absent(s: Seq<char>, pat: Seq<char>, rep: Seq<char>, from: int)
    requires
        0 <= from <= s.len(),
        forall|at: int| from <= at < s.len() ==> !occurs_at(s, pat, at),
    ensures
        replaced_from(s, pat, rep, from) == s.subrange(from, s.len() as int),
    decreases s.len() - from,
{
    if from < s.len() {
        lemma_replaced_absent(s, pat, rep, from + 1);
        assert(seq![s[from]] + s.subrange(from + 1, s.len() as int) == s.subrange(
            from,
            s.len() as int,
        ));
    } else {
        assert(s.subrange(from, s.len() as int) == Seq::<char>::empty());
    }
}

} // verus!
