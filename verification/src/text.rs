//! Text helpers: conversion between strings and character vectors, and the
//! normalisation that tag and namespace names go through before they are
//! looked up or stored.

use vstd::prelude::*;
use crate::catalog::{key_of, TagKey};

verus! {

/// The characters of `s`, in order.
pub fn chars_of(s: &str) -> (chars: Vec<char>)
    ensures
        chars@ == s@,
{
    let mut chars: Vec<char> = Vec::new();
    for c in it: s.chars()
        invariant
            chars@ == it.seq().take(it.index() as int),
    {
        chars.push(c);
    }
    chars
}

/// Collects characters into a `String` with `String::from_iter`: the
/// string holds exactly the given characters, in order.
#[verifier::external_body]
pub(crate) fn string_of(chars: &Vec<char>) -> (s: String)
    ensures
        s@ == chars@,
{
    String::from_iter(chars.iter())
}

/// Whether two optional strings hold the same text.
pub fn same_optional_text(a: &Option<String>, b: &Option<String>) -> (same: bool)
    ensures
        same == (optional_text(*a) == optional_text(*b)),
{
    match (a, b) {
        (Some(x), Some(y)) => *x == *y,
        (None, None) => true,
        _ => false,
    }
}

/// The text of an optional string.
pub open spec fn optional_text(s: Option<String>) -> Option<Seq<char>> {
    match s {
        Some(text) => Some(text@),
        None => None,
    }
}

/// The whitespace characters that normalisation strips: space, tab, line
/// feed, vertical tab, form feed and carriage return.
pub open spec fn is_space(c: char) -> bool {
    c == ' ' || c == '\t' || c == '\n' || c == '\x0b' || c == '\x0c' || c == '\r'
}

/// The lower-case form of an ASCII capital letter; any other character
/// is returned unchanged.
pub open spec fn lower_char(c: char) -> char {
    if 'A' <= c && c <= 'Z' {
        ((c as u8) + 32) as char
    } else {
        c
    }
}

/// `s` without its leading whitespace.
pub open spec fn trim_start(s: Seq<char>) -> Seq<char>
    decreases s.len(),
{
    if s.len() > 0 && is_space(s[0]) {
        trim_start(s.drop_first())
    } else {
        s
    }
}

/// `s` without its trailing whitespace.
pub open spec fn trim_end(s: Seq<char>) -> Seq<char>
    decreases s.len(),
{
    if s.len() > 0 && is_space(s.last()) {
        trim_end(s.drop_last())
    } else {
        s
    }
}

/// The normal form of a name: surrounding whitespace removed, ASCII
/// capitals lowered.
pub open spec fn normalized(s: Seq<char>) -> Seq<char> {
    trim_end(trim_start(s)).map_values(|c: char| lower_char(c))
}

/// Whether `s` is already in normal form.
pub open spec fn is_normal(s: Seq<char>) -> bool {
    normalized(s) == s
}

fn is_space_char(c: char) -> (r: bool)
    ensures
        r == is_space(c),
{
    c == ' ' || c == '\t' || c == '\n' || c == '\x0b' || c == '\x0c' || c == '\r'
}

fn lower(c: char) -> (r: char)
    ensures
        r == lower_char(c),
{
    if 'A' <= c && c <= 'Z' {
        ((c as u8) + 32) as char
    } else {
        c
    }
}

proof fn lemma_trim_start_skips(s: Seq<char>, n: int)
    requires
        0 <= n <= s.len(),
        forall|i: int| 0 <= i < n ==> is_space(#[trigger] s[i]),
        n == s.len() || !is_space(s[n]),
    ensures
        trim_start(s) == s.skip(n),
    decreases n,
{
    if n == 0 {
        assert(s.skip(0) =~= s);
    } else {
        let rest = s.drop_first();
        assert forall|i: int| 0 <= i < n - 1 implies is_space(#[trigger] rest[i]) by {
            assert(rest[i] == s[i + 1]);
        }
        lemma_trim_start_skips(rest, n - 1);
        assert(rest.skip(n - 1) =~= s.skip(n));
    }
}

proof fn lemma_trim_end_takes(s: Seq<char>, n: int)
    requires
        0 <= n <= s.len(),
        forall|i: int| n <= i < s.len() ==> is_space(#[trigger] s[i]),
        n == 0 || !is_space(s[n - 1]),
    ensures
        trim_end(s) == s.take(n),
    decreases s.len() - n,
{
    if n == s.len() {
        assert(s.take(n) =~= s);
    } else {
        let rest = s.drop_last();
        lemma_trim_end_takes(rest, n);
        assert(rest.take(n) =~= s.take(n));
    }
}

/// The normal form of the characters `chars[from..to]`, as a string.
pub fn normalize_range(chars: &Vec<char>, from: usize, to: usize) -> (name: String)
    requires
        from <= to <= chars.len(),
    ensures
        name@ == normalized(chars@.subrange(from as int, to as int)),
{
    let ghost part = chars@.subrange(from as int, to as int);
    let mut start: usize = from;
    while start < to && is_space_char(chars[start])
        invariant
            from <= start <= to <= chars.len(),
            forall|i: int| from <= i < start ==> is_space(#[trigger] chars@[i]),
        decreases to - start,
    {
        start += 1;
    }
    let mut end: usize = to;
    while end > start && is_space_char(chars[end - 1])
        invariant
            start <= end <= to <= chars.len(),
            forall|i: int| end <= i < to ==> is_space(#[trigger] chars@[i]),
        decreases end - start,
    {
        end -= 1;
    }
    let ghost kept = chars@.subrange(start as int, end as int);
    proof {
        assert forall|i: int| 0 <= i < start - from implies is_space(#[trigger] part[i]) by {
            assert(part[i] == chars@[from + i]);
        }
        lemma_trim_start_skips(part, start - from);
        let tail = part.skip(start - from);
        assert(tail =~= chars@.subrange(start as int, to as int));
        assert forall|i: int| end - start <= i < tail.len() implies is_space(#[trigger] tail[i]) by {
            assert(tail[i] == chars@[start + i]);
        }
        lemma_trim_end_takes(tail, end - start);
        assert(tail.take(end - start) =~= kept);
    }
    let mut out: Vec<char> = Vec::new();
    let mut at: usize = start;
    while at < end
        invariant
            start <= at <= end <= chars.len(),
            kept == chars@.subrange(start as int, end as int),
            out@ == kept.take(at - start).map_values(|c: char| lower_char(c)),
        decreases end - at,
    {
        out.push(lower(chars[at]));
        at += 1;
        assert(out@ =~= kept.take(at - start).map_values(|c: char| lower_char(c)));
    }
    assert(kept.take(end - start) =~= kept);
    string_of(&out)
}

/// The normal form of `s`.
pub fn normalize(s: &str) -> (name: String)
    ensures
        name@ == normalized(s@),
{
    let chars = chars_of(s);
    assert(chars@.subrange(0, chars@.len() as int) =~= chars@);
    normalize_range(&chars, 0, chars.len())
}


/// The position of the first `:` in `s`, or the length of `s` where it
/// holds none.
pub open spec fn first_colon(s: Seq<char>) -> int
    decreases s.len(),
{
    if s.len() == 0 || s[0] == ':' {
        0
    } else {
        1 + first_colon(s.drop_first())
    }
}

/// The canonical form of an optional namespace name: normalised, and
/// absent where nothing is left of it.
pub open spec fn canonical_namespace(namespace: Option<Seq<char>>) -> Option<Seq<char>> {
    match namespace {
        Some(n) => if normalized(n).len() == 0 {
            None
        } else {
            Some(normalized(n))
        },
        None => None,
    }
}

/// The identity that a namespace and a tag name stand for once both are
/// normalised.
pub open spec fn canonical_key(namespace: Option<Seq<char>>, name: Seq<char>) -> TagKey {
    (canonical_namespace(namespace), normalized(name))
}

/// The identity that a raw tag string stands for: what precedes the
/// first `:` is the namespace, what follows it the name; without a `:`
/// the whole string is the name.
pub open spec fn parsed_tag(raw: Seq<char>) -> TagKey {
    let at = first_colon(raw);
    if at < raw.len() {
        canonical_key(Some(raw.take(at)), raw.skip(at + 1))
    } else {
        canonical_key(None, raw)
    }
}

/// The canonical keys of a list of name pairs.
pub open spec fn canonical_keys(pairs: Seq<(Option<String>, String)>) -> Seq<TagKey> {
    pairs.map_values(
        |pair: (Option<String>, String)| canonical_key(optional_text(pair.0), pair.1@),
    )
}

/// The identities of a list of raw tag strings.
pub open spec fn parsed_tags(raw: Seq<String>) -> Seq<TagKey> {
    raw.map_values(|s: String| parsed_tag(s@))
}

proof fn lemma_first_colon(s: Seq<char>, n: int)
    requires
        0 <= n <= s.len(),
        forall|i: int| 0 <= i < n ==> #[trigger] s[i] != ':',
        n == s.len() || s[n] == ':',
    ensures
        first_colon(s) == n,
    decreases n,
{
    if n > 0 {
        let rest = s.drop_first();
        assert forall|i: int| 0 <= i < n - 1 implies #[trigger] rest[i] != ':' by {
            assert(rest[i] == s[i + 1]);
        }
        lemma_first_colon(rest, n - 1);
    }
}

proof fn lemma_trim_start_shape(s: Seq<char>)
    ensures
        trim_start(s).len() <= s.len(),
        trim_start(s).len() > 0 ==> !is_space(trim_start(s)[0]),
    decreases s.len(),
{
    if s.len() > 0 && is_space(s[0]) {
        lemma_trim_start_shape(s.drop_first());
    }
}

proof fn lemma_trim_end_shape(s: Seq<char>)
    ensures
        trim_end(s).len() <= s.len(),
        trim_end(s) == s.take(trim_end(s).len() as int),
        trim_end(s).len() > 0 ==> !is_space(trim_end(s).last()),
    decreases s.len(),
{
    if s.len() > 0 && is_space(s.last()) {
        let rest = s.drop_last();
        lemma_trim_end_shape(rest);
        assert(rest.take(trim_end(rest).len() as int) =~= s.take(trim_end(rest).len() as int));
    } else {
        assert(s.take(s.len() as int) =~= s);
    }
}

/// Normalising is idempotent: a normalised name is in normal form.
pub proof fn lemma_normalized_is_normal(s: Seq<char>)
    ensures
        is_normal(normalized(s)),
{
    let a = trim_start(s);
    let b = trim_end(a);
    let c = b.map_values(|c: char| lower_char(c));
    lemma_trim_start_shape(s);
    lemma_trim_end_shape(a);
    assert(c == normalized(s));
    assert forall|ch: char| is_space(lower_char(ch)) == is_space(ch) by {}
    assert forall|ch: char| lower_char(lower_char(ch)) == lower_char(ch) by {}
    if c.len() > 0 {
        assert(b[0] == a[0]);
        assert(c[0] == lower_char(b[0]));
        assert(c.last() == lower_char(b.last()));
    }
    lemma_trim_start_skips(c, 0);
    assert(c.skip(0) =~= c);
    lemma_trim_end_takes(c, c.len() as int);
    assert(c.take(c.len() as int) =~= c);
    assert(c.map_values(|c: char| lower_char(c)) =~= c);
}

/// A canonical key stays as it is when it is made canonical again.
pub proof fn lemma_canonical_key_is_stable(namespace: Option<Seq<char>>, name: Seq<char>)
    ensures
        canonical_key(canonical_key(namespace, name).0, canonical_key(namespace, name).1)
            == canonical_key(namespace, name),
{
    lemma_normalized_is_normal(name);
    if let Some(n) = namespace {
        lemma_normalized_is_normal(n);
    }
}

/// A parsed tag is in canonical form: parsing normalises for lookup and
/// storage alike.
pub proof fn lemma_parsed_tag_is_canonical(raw: Seq<char>)
    ensures
        canonical_key(parsed_tag(raw).0, parsed_tag(raw).1) == parsed_tag(raw),
        is_normal(parsed_tag(raw).1),
        parsed_tag(raw).0 matches Some(n) ==> is_normal(n) && n.len() > 0,
{
    let at = first_colon(raw);
    if at < raw.len() {
        lemma_canonical_key_is_stable(Some(raw.take(at)), raw.skip(at + 1));
        lemma_normalized_is_normal(raw.take(at));
        lemma_normalized_is_normal(raw.skip(at + 1));
    } else {
        lemma_canonical_key_is_stable(None, raw);
        lemma_normalized_is_normal(raw);
    }
}

/// The normalised namespace and name of a pair; an empty namespace
/// counts as none.
pub fn canonical_pair(namespace: &Option<String>, name: &String) -> (pair: (Option<String>, String))
    ensures
        key_of(pair) == canonical_key(optional_text(*namespace), name@),
{
    let namespace = match namespace {
        Some(n) => {
            let normal = normalize(n.as_str());
            if normal.as_str().unicode_len() == 0 {
                None
            } else {
                Some(normal)
            }
        },
        None => None,
    };
    (namespace, normalize(name.as_str()))
}

/// Splits a raw tag string into its namespace, if it names one, and its
/// tag name, both normalised.
pub fn parse_namespace_and_tag(raw: &str) -> (pair: (Option<String>, String))
    ensures
        key_of(pair) == parsed_tag(raw@),
{
    let chars = chars_of(raw);
    let mut at: usize = 0;
    while at < chars.len() && chars[at] != ':'
        invariant
            at <= chars.len(),
            forall|i: int| 0 <= i < at ==> #[trigger] chars@[i] != ':',
        decreases chars.len() - at,
    {
        at += 1;
    }
    proof {
        lemma_first_colon(chars@, at as int);
        assert(chars@.subrange(0, chars@.len() as int) =~= chars@);
    }
    if at < chars.len() {
        let namespace = normalize_range(&chars, 0, at);
        let name = normalize_range(&chars, at + 1, chars.len());
        assert(chars@.subrange(0, at as int) =~= chars@.take(at as int));
        assert(chars@.subrange(at + 1, chars@.len() as int) =~= chars@.skip(at + 1));
        if namespace.as_str().unicode_len() == 0 {
            (None, name)
        } else {
            (Some(namespace), name)
        }
    } else {
        (None, normalize_range(&chars, 0, chars.len()))
    }
}

} // verus!
