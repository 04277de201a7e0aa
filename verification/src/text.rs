//! Character-level helpers shared by the other modules: conversion between
//! strings and character vectors, ASCII case folding, and splitting.

use vstd::prelude::*;

verus! {

/// `String::push` appends one character to the end of the string.
pub assume_specification[ String::push ](s: &mut String, c: char)
    ensures
        final(s)@ == old(s)@.push(c),
;

/// The characters of `s`, in order.
pub fn chars_of(s: &str) -> (out: Vec<char>)
    ensures
        out@ == s@,
{
    let mut out: Vec<char> = Vec::new();
    for c in it: s.chars()
        invariant
            it.seq() == s@,
            out@ == s@.take(it.index() as int),
    {
        assert(s@.take(it.index() + 1) == s@.take(it.index() as int).push(c));
        out.push(c);
    }
    out
}

/// The string made of the characters of `chars`, in order.
pub fn string_of(chars: &Vec<char>) -> (out: String)
    ensures
        out@ == chars@,
{
    let mut out = String::new();
    let mut i: usize = 0;
    while i < chars.len()
        invariant
            i <= chars.len(),
            out@ == chars@.take(i as int),
        decreases chars.len() - i,
    {
        assert(chars@.take(i + 1) == chars@.take(i as int).push(chars@[i as int]));
        out.push(chars[i]);
        i += 1;
    }
    out
}

/// A copy of `chars`.
pub fn copy_chars(chars: &Vec<char>) -> (out: Vec<char>)
    ensures
        out@ == chars@,
{
    let mut out: Vec<char> = Vec::new();
    let mut i: usize = 0;
    while i < chars.len()
        invariant
            i <= chars.len(),
            out@ == chars@.take(i as int),
        decreases chars.len() - i,
    {
        assert(chars@.take(i + 1) == chars@.take(i as int).push(chars@[i as int]));
        out.push(chars[i]);
        i += 1;
    }
    out
}

/// Appends the characters of `tail` to `out`.
pub fn append_chars(out: &mut Vec<char>, tail: &Vec<char>)
    ensures
        final(out)@ == old(out)@ + tail@,
{
    let mut i: usize = 0;
    while i < tail.len()
        invariant
            i <= tail.len(),
            out@ == old(out)@ + tail@.take(i as int),
        decreases tail.len() - i,
    {
        assert(tail@.take(i + 1) == tail@.take(i as int).push(tail@[i as int]));
        out.push(tail[i]);
        i += 1;
    }
}

/// Whether `a` and `b` hold the same characters.
pub fn same_chars(a: &Vec<char>, b: &Vec<char>) -> (same: bool)
    ensures
        same == (a@ == b@),
{
    if a.len() != b.len() {
        return false;
    }
    let mut i: usize = 0;
    while i < a.len()
        invariant
            i <= a.len(),
            a.len() == b.len(),
            forall|k: int| 0 <= k < i ==> a@[k] == b@[k],
        decreases a.len() - i,
    {
        if a[i] != b[i] {
            return false;
        }
        i += 1;
    }
    assert(a@ =~= b@);
    true
}

/// Whether `chars` spells exactly the string `word`.
pub fn spells(chars: &Vec<char>, word: &str) -> (same: bool)
    ensures
        same == (chars@ == word@),
{
    let other = chars_of(word);
    same_chars(chars, &other)
}

/// The lower-case form of an ASCII capital letter; any other character is
/// left as it is.
pub open spec fn ascii_lower(c: char) -> char {
    if 'A' <= c && c <= 'Z' {
        ((c as u8) + 32) as char
    } else {
        c
    }
}

/// `s` with every ASCII capital letter replaced by its lower-case form.
pub open spec fn lowered(s: Seq<char>) -> Seq<char> {
    Seq::new(s.len(), |i: int| ascii_lower(s[i]))
}

/// Computes [`ascii_lower`].
pub fn to_ascii_lower(c: char) -> (r: char)
    ensures
        r == ascii_lower(c),
{
    if 'A' <= c && c <= 'Z' {
        ((c as u8) + 32) as char
    } else {
        c
    }
}

/// Computes [`lowered`].
pub fn to_lowered(chars: &Vec<char>) -> (out: Vec<char>)
    ensures
        out@ == lowered(chars@),
{
    let mut out: Vec<char> = Vec::new();
    let mut i: usize = 0;
    while i < chars.len()
        invariant
            i <= chars.len(),
            out@ == lowered(chars@.take(i as int)),
        decreases chars.len() - i,
    {
        assert(lowered(chars@.take(i + 1)) == lowered(chars@.take(i as int)).push(
            ascii_lower(chars@[i as int]),
        ));
        out.push(to_ascii_lower(chars[i]));
        i += 1;
    }
    assert(chars@.take(chars.len() as int) == chars@);
    out
}

/// Whether `s` ends with `tail`.
pub open spec fn ends_with(s: Seq<char>, tail: Seq<char>) -> bool {
    tail.len() <= s.len() && s.skip(s.len() - tail.len()) == tail
}

/// Computes [`ends_with`] for a word given as a string.
pub fn has_suffix(chars: &Vec<char>, word: &str) -> (found: bool)
    ensures
        found == ends_with(chars@, word@),
{
    let tail = chars_of(word);
    if tail.len() > chars.len() {
        return false;
    }
    let start = chars.len() - tail.len();
    let mut i: usize = 0;
    while i < tail.len()
        invariant
            i <= tail.len(),
            start + tail.len() == chars.len(),
            tail@ == word@,
            forall|k: int| 0 <= k < i ==> chars@[start + k] == tail@[k],
        decreases tail.len() - i,
    {
        if chars[start + i] != tail[i] {
            assert(chars@.skip(start as int)[i as int] != tail@[i as int]);
            return false;
        }
        i += 1;
    }
    assert(chars@.skip(start as int) =~= tail@);
    true
}

/// The characters at which text is cut.
#[derive(Clone, Copy, Debug, PartialEq, Eq, Structural)]
pub enum Delimiter {
    /// `/` and `\`, which separate the components of a path.
    Separator,
    /// `.`, which precedes an extension.
    Dot,
    /// The line feed, which ends a line.
    LineFeed,
    /// `?`, which precedes the query of a URL.
    Query,
}

/// Whether `c` is a character of the kind `d`.
pub open spec fn is_delimiter(d: Delimiter, c: char) -> bool {
    match d {
        Delimiter::Separator => c == '/' || c == '\\',
        Delimiter::Dot => c == '.',
        Delimiter::LineFeed => c == '\n',
        Delimiter::Query => c == '?',
    }
}

/// [`is_delimiter`] as a predicate value.
pub open spec fn marks(d: Delimiter) -> spec_fn(char) -> bool {
    |c: char| is_delimiter(d, c)
}

/// Computes [`is_delimiter`].
pub fn is_marked(c: char, d: Delimiter) -> (marked: bool)
    ensures
        marked == marks(d)(c),
{
    match d {
        Delimiter::Separator => c == '/' || c == '\\',
        Delimiter::Dot => c == '.',
        Delimiter::LineFeed => c == '\n',
        Delimiter::Query => c == '?',
    }
}

/// The pieces of `s` between the characters that `is_break` marks.  There is
/// always at least one piece; `n` marked characters give `n + 1` pieces.
pub open spec fn pieces(s: Seq<char>, is_break: spec_fn(char) -> bool) -> Seq<Seq<char>>
    decreases s.len(),
{
    if s.len() == 0 {
        seq![Seq::<char>::empty()]
    } else {
        let before = pieces(s.drop_last(), is_break);
        if is_break(s.last()) {
            before.push(Seq::<char>::empty())
        } else {
            before.drop_last().push(before.last().push(s.last()))
        }
    }
}

/// The part of `s` behind the last character that `is_break` marks; all of
/// `s` where it marks none.
pub open spec fn after_last(s: Seq<char>, is_break: spec_fn(char) -> bool) -> Seq<char>
    decreases s.len(),
{
    if s.len() == 0 || is_break(s.last()) {
        Seq::<char>::empty()
    } else {
        after_last(s.drop_last(), is_break).push(s.last())
    }
}

/// The views of a vector of character vectors.
pub open spec fn views(v: Seq<Vec<char>>) -> Seq<Seq<char>> {
    Seq::new(v.len(), |i: int| v[i]@)
}

/// Splitting never yields an empty list.
pub proof fn lemma_pieces_nonempty(s: Seq<char>, is_break: spec_fn(char) -> bool)
    ensures
        pieces(s, is_break).len() >= 1,
    decreases s.len(),
{
    if s.len() > 0 {
        lemma_pieces_nonempty(s.drop_last(), is_break);
    }
}

/// Appending characters that are not marked lengthens the last piece.
pub proof fn lemma_pieces_append_plain(a: Seq<char>, b: Seq<char>, is_break: spec_fn(char) -> bool)
    requires
        forall|j: int| 0 <= j < b.len() ==> !is_break(#[trigger] b[j]),
    ensures
        pieces(a, is_break).len() >= 1,
        pieces(a + b, is_break) == pieces(a, is_break).drop_last().push(
            pieces(a, is_break).last() + b,
        ),
    decreases b.len(),
{
    lemma_pieces_nonempty(a, is_break);
    let whole = pieces(a, is_break);
    if b.len() == 0 {
        assert(a + b == a);
        assert(whole.last() + b == whole.last());
        assert(whole.drop_last().push(whole.last()) == whole);
    } else {
        lemma_pieces_append_plain(a, b.drop_last(), is_break);
        assert((a + b).drop_last() == a + b.drop_last());
        assert((a + b).last() == b.last());
        let before = pieces(a + b.drop_last(), is_break);
        assert(before.last() == whole.last() + b.drop_last());
        assert(before.drop_last() == whole.drop_last());
        assert((whole.last() + b.drop_last()).push(b.last()) == whole.last() + b);
    }
}

/// The first piece is what precedes the first marked character.  `k` is the
/// position of that character, or the length of `s` where nothing is marked.
pub proof fn lemma_first_piece(s: Seq<char>, is_break: spec_fn(char) -> bool, k: int)
    requires
        0 <= k <= s.len(),
        forall|j: int| 0 <= j < k ==> !is_break(#[trigger] s[j]),
        k < s.len() ==> is_break(s[k]),
    ensures
        pieces(s, is_break).len() >= 1,
        k < s.len() ==> pieces(s, is_break).len() >= 2,
        pieces(s, is_break)[0] == s.take(k),
    decreases s.len(),
{
    lemma_pieces_nonempty(s, is_break);
    if k == s.len() {
        let nothing = Seq::<char>::empty();
        lemma_pieces_append_plain(nothing, s, is_break);
        assert(nothing + s == s);
        assert(s.take(k) == s);
    } else {
        let front = s.drop_last();
        assert forall|j: int| 0 <= j < k implies !is_break(#[trigger] front[j]) by {
            assert(front[j] == s[j]);
        }
        if k < front.len() {
            assert(front[k] == s[k]);
        }
        lemma_first_piece(front, is_break, k);
        assert(front.take(k) == s.take(k));
    }
}

/// `after_last` is the suffix behind position `k`, where `k` is the last
/// marked position, or `-1` where nothing is marked.
pub proof fn lemma_after_last_is_suffix(s: Seq<char>, is_break: spec_fn(char) -> bool, k: int)
    requires
        -1 <= k < s.len(),
        k >= 0 ==> is_break(s[k]),
        forall|j: int| k < j < s.len() ==> !is_break(#[trigger] s[j]),
    ensures
        after_last(s, is_break) == s.skip(k + 1),
    decreases s.len(),
{
    if s.len() == 0 || k == s.len() - 1 {
        assert(s.skip(k + 1) =~= Seq::<char>::empty());
    } else {
        lemma_after_last_is_suffix(s.drop_last(), is_break, k);
        assert(s.drop_last().skip(k + 1).push(s.last()) =~= s.skip(k + 1));
    }
}

/// Computes [`pieces`].
pub fn split(chars: &Vec<char>, d: Delimiter) -> (parts: Vec<Vec<char>>)
    ensures
        views(parts@) == pieces(chars@, marks(d)),
{
    let mut done: Vec<Vec<char>> = Vec::new();
    let mut current: Vec<char> = Vec::new();
    let mut i: usize = 0;
    assert(views(done@).push(current@) == seq![Seq::<char>::empty()]);
    assert(chars@.take(0) == Seq::<char>::empty());
    while i < chars.len()
        invariant
            i <= chars.len(),
            views(done@).push(current@) == pieces(chars@.take(i as int), marks(d)),
        decreases chars.len() - i,
    {
        let c = chars[i];
        proof {
            let s = chars@.take(i + 1);
            assert(s.drop_last() == chars@.take(i as int));
            assert(s.last() == c);
            let before = views(done@).push(current@);
            assert(before.drop_last() == views(done@));
            assert(before.last() == current@);
        }
        if is_marked(c, d) {
            assert(views(done@.push(current)) == views(done@).push(current@));
            done.push(current);
            current = Vec::new();
        } else {
            current.push(c);
        }
        i += 1;
    }
    assert(chars@.take(chars.len() as int) == chars@);
    assert(views(done@.push(current)) == views(done@).push(current@));
    done.push(current);
    done
}

/// Computes [`after_last`].
pub fn suffix_after_last(chars: &Vec<char>, d: Delimiter) -> (tail: Vec<char>)
    ensures
        tail@ == after_last(chars@, marks(d)),
{
    let mut start: usize = chars.len();
    while start > 0 && !is_marked(chars[start - 1], d)
        invariant
            start <= chars.len(),
            forall|j: int| start <= j < chars.len() ==> !marks(d)(#[trigger] chars@[j]),
        decreases start,
    {
        start -= 1;
    }
    proof {
        lemma_after_last_is_suffix(chars@, marks(d), start as int - 1);
    }
    let mut tail: Vec<char> = Vec::new();
    let mut i: usize = start;
    while i < chars.len()
        invariant
            start <= i <= chars.len(),
            tail@ == chars@.subrange(start as int, i as int),
        decreases chars.len() - i,
    {
        assert(chars@.subrange(start as int, i + 1) == chars@.subrange(start as int, i as int).push(
            chars@[i as int],
        ));
        tail.push(chars[i]);
        i += 1;
    }
    assert(chars@.subrange(start as int, chars.len() as int) == chars@.skip(start as int));
    tail
}

} // verus!
