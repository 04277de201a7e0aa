//! The path resolver of the file server: from the URL of a request to the
//! path of the file that it asks for.

use crate::text::{
    append_chars, chars_of, is_delimiter, lemma_first_piece, marks, pieces, split, string_of,
    Delimiter,
};
use vstd::prelude::*;

verus! {

/// What `urlencoding::decode` makes of a text; `None` where it fails
/// because the decoded bytes are not UTF-8.
pub uninterp spec fn percent_decoded(text: Seq<char>) -> Option<Seq<char>>;

/// Calls `urlencoding::decode`.  The contract claims only that the outcome
/// depends on the text alone: it is what [`percent_decoded`] names, and
/// `None` stands for the one error of the decoder.
#[verifier::external_body]
pub(crate) fn percent_decode(text: &str) -> (decoded: Option<String>)
    ensures
        match decoded {
            Some(s) => percent_decoded(text@) == Some(s@),
            None => percent_decoded(text@) is None,
        },
{
    match urlencoding::decode(text) {
        Ok(decoded) => Some(decoded.into_owned()),
        Err(_) => None,
    }
}

/// The part of a URL before its query: everything up to the first `?`.
pub open spec fn before_query(url: Seq<char>) -> Seq<char> {
    pieces(url, marks(Delimiter::Query))[0]
}

/// The percent-decoded form of `raw`.  A text without `%` stands for
/// itself, and so does one that cannot be decoded.
pub open spec fn decoded_form(raw: Seq<char>) -> Seq<char> {
    if !raw.contains('%') {
        raw
    } else {
        match percent_decoded(raw) {
            Some(decoded) => decoded,
            None => raw,
        }
    }
}

/// `path` without one leading `/`.
pub open spec fn without_leading_slash(path: Seq<char>) -> Seq<char> {
    if path.len() > 0 && path[0] == '/' {
        path.skip(1)
    } else {
        path
    }
}

/// `relative` joined onto the directory `base`.
pub open spec fn joined_to_base(base: Seq<char>, relative: Seq<char>) -> Seq<char> {
    if base.len() == 0 {
        relative
    } else if is_delimiter(Delimiter::Separator, base.last()) {
        base + relative
    } else {
        base + seq!['/'] + relative
    }
}

/// The path, relative to the served directory, that a request for `url`
/// asks for: the query is cut off, then the rest is percent-decoded, then
/// one leading `/` is dropped.
pub open spec fn requested_path(url: Seq<char>) -> Seq<char> {
    without_leading_slash(decoded_form(before_query(url)))
}

/// The path of the file that a request for `url` asks for when the
/// directory `base` is served.
pub open spec fn request_file_path(url: Seq<char>, base: Seq<char>) -> Seq<char> {
    joined_to_base(base, requested_path(url))
}

/// Whether `c` occurs in `chars`.
fn holds(chars: &Vec<char>, c: char) -> (found: bool)
    ensures
        found == chars@.contains(c),
{
    let mut i: usize = 0;
    while i < chars.len()
        invariant
            i <= chars.len(),
            forall|k: int| 0 <= k < i ==> chars@[k] != c,
        decreases chars.len() - i,
    {
        if chars[i] == c {
            return true;
        }
        i += 1;
    }
    false
}

/// Computes [`decoded_form`], given what the decoder made of `raw`.
pub fn decoded_or_raw(raw: Vec<char>, decoded: Option<String>) -> (out: Vec<char>)
    ensures
        out@ == (match decoded {
            Some(s) => s@,
            None => raw@,
        }),
{
    match decoded {
        Some(s) => chars_of(s.as_str()),
        None => raw,
    }
}

/// Computes [`requested_path`].
pub fn relative_request_path(url: &str) -> (path: Vec<char>)
    ensures
        path@ == requested_path(url@),
{
    let chars = chars_of(url);
    let mut parts = split(&chars, Delimiter::Query);
    proof {
        crate::text::lemma_pieces_nonempty(url@, marks(Delimiter::Query));
    }
    let raw = parts.swap_remove(0);
    let decoded = if holds(&raw, '%') {
        let text = string_of(&raw);
        let outcome = percent_decode(text.as_str());
        decoded_or_raw(raw, outcome)
    } else {
        raw
    };
    if decoded.len() > 0 && decoded[0] == '/' {
        let mut rest: Vec<char> = Vec::new();
        let mut i: usize = 1;
        while i < decoded.len()
            invariant
                1 <= i <= decoded.len(),
                rest@ == decoded@.subrange(1, i as int),
            decreases decoded.len() - i,
        {
            assert(decoded@.subrange(1, i + 1) == decoded@.subrange(1, i as int).push(
                decoded@[i as int],
            ));
            rest.push(decoded[i]);
            i += 1;
        }
        assert(decoded@.subrange(1, decoded.len() as int) == decoded@.skip(1));
        rest
    } else {
        decoded
    }
}

/// The path of the file that a request for `url` asks for when the
/// directory `base_path` is served.  This never fails: whether the file
/// exists is found out when it is opened.
pub fn resolve_request_path(url: &str, base_path: &str) -> (path: String)
    ensures
        path@ == request_file_path(url@, base_path@),
{
    let relative = relative_request_path(url);
    let mut out = chars_of(base_path);
    if out.len() == 0 {
        assert(out@ + relative@ == relative@);
    } else {
        let last = out[out.len() - 1];
        if !(last == '/' || last == '\\') {
            out.push('/');
        }
    }
    append_chars(&mut out, &relative);
    string_of(&out)
}

/// The query of a URL does not change the file that is asked for.
pub proof fn lemma_query_is_ignored(path: Seq<char>, query: Seq<char>, base: Seq<char>)
    requires
        !path.contains('?'),
    ensures
        request_file_path(path + seq!['?'] + query, base) == request_file_path(path, base),
{
    let brk = marks(Delimiter::Query);
    let url = path + seq!['?'] + query;
    assert forall|j: int| 0 <= j < path.len() implies !brk(#[trigger] url[j]) by {
        assert(url[j] == path[j]);
        assert(path.contains(path[j]));
    }
    assert(url[path.len() as int] == '?');
    lemma_first_piece(url, brk, path.len() as int);
    assert(url.take(path.len() as int) == path);
    lemma_unbroken(path);
}

/// A URL without `?` has no query to cut off.
pub proof fn lemma_unbroken(url: Seq<char>)
    requires
        !url.contains('?'),
    ensures
        before_query(url) == url,
{
    let brk = marks(Delimiter::Query);
    assert forall|j: int| 0 <= j < url.len() implies !brk(#[trigger] url[j]) by {
        assert(url.contains(url[j]));
    }
    lemma_first_piece(url, brk, url.len() as int);
    assert(url.take(url.len() as int) == url);
}

/// A percent-encoded URL asks for the same file as its decoded form, where
/// the decoded form holds neither `%` nor `?`, which would be read again.
pub proof fn lemma_encoded_path_resolves_as_decoded(url: Seq<char>, base: Seq<char>)
    requires
        !url.contains('?'),
        !decoded_form(url).contains('%'),
        !decoded_form(url).contains('?'),
    ensures
        request_file_path(url, base) == request_file_path(decoded_form(url), base),
{
    lemma_unbroken(url);
    lemma_unbroken(decoded_form(url));
}

} // verus!
