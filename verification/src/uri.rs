//! Request URIs of the content schemes: splitting a URI into its parts,
//! stripping a scheme prefix, and reading the requested thumbnail size
//! from the query.

use vstd::prelude::*;
use crate::error::{RepoError, RepoResult};
use crate::text::{chars_of, string_of};

verus! {

/// The query pairs of a URI, in order.
pub type Pairs = Seq<(Seq<char>, Seq<char>)>;

/// What `url::Url::parse` makes of `uri`: nothing where it rejects the
/// text, else the domain that `Url::domain` gives, if any, and the
/// decoded query pairs that `Url::query_pairs` yields, in order.
pub uninterp spec fn uri_parts(uri: Seq<char>) -> Option<(Option<Seq<char>>, Pairs)>;

/// Parses `uri` with `url::Url::parse` and hands back its domain, from
/// `Url::domain`, and its decoded query pairs, from `Url::query_pairs`.
/// The result is a function of the text alone.
#[verifier::external_body]
pub(crate) fn split_uri(uri: &str) -> (parts: Option<(Option<String>, Vec<(String, String)>)>)
    ensures
        parts.deep_view() == uri_parts(uri@),
{
    match url::Url::parse(uri) {
        Ok(parsed) => {
            let domain = match parsed.domain() {
                Some(d) => Some(d.to_string()),
                None => None,
            };
            Some((domain, parsed.query_pairs().into_owned().collect()))
        },
        Err(_) => None,
    }
}

/// The value of a decimal digit.
pub open spec fn digit_value(c: char) -> Option<int> {
    if '0' <= c && c <= '9' {
        Some(c as int - 48)
    } else {
        None
    }
}

/// The number that a non-empty string of decimal digits denotes.
pub open spec fn decimal(s: Seq<char>) -> Option<int>
    decreases s.len(),
{
    if s.len() == 0 {
        None
    } else if s.len() == 1 {
        digit_value(s[0])
    } else {
        match (decimal(s.drop_last()), digit_value(s.last())) {
            (Some(value), Some(digit)) => Some(10 * value + digit),
            _ => None,
        }
    }
}

/// The number that `s` denotes as a `u32`: decimal digits, optionally
/// after one `+`, that do not exceed the largest `u32`.
pub open spec fn parsed_u32(s: Seq<char>) -> Option<u32> {
    let digits = if s.len() > 0 && s[0] == '+' {
        s.drop_first()
    } else {
        s
    };
    match decimal(digits) {
        Some(value) => if value <= u32::MAX {
            Some(value as u32)
        } else {
            None
        },
        None => None,
    }
}

/// The value of the last pair of `pairs` whose key is `key`.
pub open spec fn last_value(pairs: Pairs, key: Seq<char>) -> Option<Seq<char>>
    decreases pairs.len(),
{
    if pairs.len() == 0 {
        None
    } else if pairs.last().0 == key {
        Some(pairs.last().1)
    } else {
        last_value(pairs.drop_last(), key)
    }
}

/// The size that a thumbnail request falls back to.
pub const DEFAULT_DIMENSION: u32 = 250;

/// The dimension that the query asks for under `key`: the number that
/// the last value given for the key denotes, or the default where the
/// key is absent or its value is no `u32`.
pub open spec fn dimension(pairs: Pairs, key: Seq<char>) -> u32 {
    match last_value(pairs, key) {
        Some(text) => match parsed_u32(text) {
            Some(value) => value,
            None => DEFAULT_DIMENSION,
        },
        None => DEFAULT_DIMENSION,
    }
}

/// `s` without every leading repetition of `prefix`.
pub open spec fn without_prefix(s: Seq<char>, prefix: Seq<char>) -> Seq<char>
    decreases s.len(),
{
    if prefix.len() > 0 && prefix.len() <= s.len() && s.take(prefix.len() as int) == prefix {
        without_prefix(s.skip(prefix.len() as int), prefix)
    } else {
        s
    }
}

/// What a thumbnail request asks for: the content hash of a file and
/// the height and width of the thumbnail.
pub struct ThumbRequest {
    pub hash: String,
    pub height: u32,
    pub width: u32,
}

/// What a thumbnail request URI asks for, given its parts: the domain is
/// the content hash, the query gives height and width. A URI that does
/// not parse or has no domain is an invalid request.
pub open spec fn thumb_request(parts: Option<(Option<Seq<char>>, Pairs)>) -> Result<
    (Seq<char>, u32, u32),
    RepoError,
> {
    match parts {
        Some((Some(hash), pairs)) => Ok(
            (hash, dimension(pairs, "height"@), dimension(pairs, "width"@)),
        ),
        _ => Err(RepoError::InvalidRequest),
    }
}

proof fn lemma_decimal_prefix(s: Seq<char>, n: int)
    requires
        1 <= n <= s.len(),
    ensures
        decimal(s) matches Some(value) ==> decimal(s.take(n)) matches Some(part) && 0 <= part
            <= value,
        decimal(s) matches Some(value) ==> 0 <= value,
    decreases s.len(),
{
    if n == s.len() {
        assert(s.take(n) =~= s);
        if s.len() > 1 {
            lemma_decimal_prefix(s.drop_last(), n - 1);
        }
    } else {
        lemma_decimal_prefix(s.drop_last(), n);
        assert(s.drop_last().take(n) =~= s.take(n));
    }
}

fn digit_of(c: char) -> (value: Option<u64>)
    ensures
        match value {
            Some(v) => digit_value(c) == Some(v as int) && v <= 9,
            None => digit_value(c) is None,
        },
{
    if '0' <= c && c <= '9' {
        Some((c as u64) - 48)
    } else {
        None
    }
}

/// Reads `text` as a `u32`: decimal digits, optionally after one `+`.
pub fn parse_u32(text: &str) -> (value: Option<u32>)
    ensures
        value == parsed_u32(text@),
{
    let chars = chars_of(text);
    let start: usize = if chars.len() > 0 && chars[0] == '+' {
        1
    } else {
        0
    };
    let ghost digits = chars@.skip(start as int);
    proof {
        if start == 1 {
            assert(digits =~= text@.drop_first());
        } else {
            assert(digits =~= text@);
        }
    }
    if start == chars.len() {
        return None;
    }
    let mut value: u64 = 0;
    let mut i: usize = start;
    while i < chars.len()
        invariant
            start <= i <= chars.len(),
            start < chars.len(),
            digits == chars@.skip(start as int),
            parsed_u32(text@) == match decimal(digits) {
                Some(v) => if v <= u32::MAX {
                    Some(v as u32)
                } else {
                    None
                },
                None => None,
            },
            value <= u32::MAX,
            i > start ==> decimal(digits.take(i - start)) == Some(value as int),
            i == start ==> value == 0,
        decreases chars.len() - i,
    {
        let ghost before = digits.take(i - start);
        let ghost now = digits.take(i - start + 1);
        proof {
            assert(now.drop_last() =~= before);
            assert(now.last() == chars@[i as int]);
            lemma_decimal_prefix(digits, i - start + 1);
        }
        match digit_of(chars[i]) {
            Some(d) => {
                let next = value * 10 + d;
                assert(decimal(now) == Some(next as int));
                if next > u32::MAX as u64 {
                    return None;
                }
                value = next;
            },
            None => {
                return None;
            },
        }
        i += 1;
    }
    assert(digits.take(i - start) =~= digits);
    Some(value as u32)
}

/// `text` without every leading repetition of `prefix`.
pub fn strip_prefix(text: &str, prefix: &str) -> (rest: String)
    ensures
        rest@ == without_prefix(text@, prefix@),
{
    let chars = chars_of(text);
    let lead = chars_of(prefix);
    let mut at: usize = 0;
    assert(chars@.skip(0) =~= chars@);
    if lead.len() > 0 {
        loop
            invariant
                at <= chars.len(),
                lead.len() > 0,
                without_prefix(chars@, lead@) == without_prefix(chars@.skip(at as int), lead@),
            ensures
                at <= chars.len(),
                without_prefix(chars@, lead@) == chars@.skip(at as int),
            decreases chars.len() - at,
        {
            let ghost tail = chars@.skip(at as int);
            if lead.len() > chars.len() - at {
                break ;
            }
            let mut j: usize = 0;
            while j < lead.len() && chars[at + j] == lead[j]
                invariant
                    j <= lead.len(),
                    at + lead.len() <= chars.len(),
                    forall|k: int| 0 <= k < j ==> chars@[at + k] == lead@[k],
                decreases lead.len() - j,
            {
                j += 1;
            }
            if j < lead.len() {
                assert(tail.take(lead.len() as int)[j as int] == chars@[at + j]);
                break ;
            }
            proof {
                assert(tail.take(lead.len() as int) =~= lead@) by {
                    assert forall|k: int| 0 <= k < lead.len() implies tail.take(
                        lead.len() as int,
                    )[k] == lead@[k] by {
                        assert(tail[k] == chars@[at + k]);
                    }
                }
                assert(tail.skip(lead.len() as int) =~= chars@.skip(at + lead.len()));
            }
            at += lead.len();
        }
    }
    let mut out: Vec<char> = Vec::new();
    let mut i: usize = at;
    while i < chars.len()
        invariant
            at <= i <= chars.len(),
            out@ == chars@.subrange(at as int, i as int),
        decreases chars.len() - i,
    {
        out.push(chars[i]);
        i += 1;
        assert(out@ =~= chars@.subrange(at as int, i as int));
    }
    assert(out@ =~= chars@.skip(at as int));
    string_of(&out)
}

fn find_last(pairs: &Vec<(String, String)>, key: &str) -> (at: Option<usize>)
    ensures
        match at {
            Some(i) => i < pairs.len() && last_value(pairs.deep_view(), key@) == Some(pairs@[i as int].1@),
            None => last_value(pairs.deep_view(), key@) is None,
        },
{
    let wanted = key.to_owned();
    let ghost all = pairs.deep_view();
    let mut i: usize = pairs.len();
    assert(all.take(i as int) =~= all);
    while i > 0
        invariant
            i <= pairs.len(),
            wanted@ == key@,
            all == pairs.deep_view(),
            last_value(all, key@) == last_value(all.take(i as int), key@),
        decreases i,
    {
        i -= 1;
        let ghost now = all.take(i + 1);
        assert(now.drop_last() =~= all.take(i as int));
        assert(now.last() == all[i as int]);
        assert(all[i as int] == (pairs@[i as int].0@, pairs@[i as int].1@));
        if pairs[i].0 == wanted {
            return Some(i);
        }
    }
    None
}

/// The dimension that the query pairs ask for under `key`.
pub fn dimension_of(pairs: &Vec<(String, String)>, key: &str) -> (value: u32)
    ensures
        value == dimension(pairs.deep_view(), key@),
{
    match find_last(pairs, key) {
        Some(i) => match parse_u32(pairs[i].1.as_str()) {
            Some(value) => value,
            None => DEFAULT_DIMENSION,
        },
        None => DEFAULT_DIMENSION,
    }
}

/// Reads a thumbnail request from the parts of its URI.
pub fn read_thumb_request(parts: Option<(Option<String>, Vec<(String, String)>)>) -> (result:
    RepoResult<ThumbRequest>)
    ensures
        match result {
            Ok(request) => thumb_request(parts.deep_view()) == Ok::<(Seq<char>, u32, u32), RepoError>(
                (request.hash@, request.height, request.width),
            ),
            Err(e) => thumb_request(parts.deep_view()) == Err::<(Seq<char>, u32, u32), RepoError>(e),
        },
{
    match parts {
        Some((Some(hash), pairs)) => {
            let height = dimension_of(&pairs, "height");
            let width = dimension_of(&pairs, "width");
            Ok(ThumbRequest { hash, height, width })
        },
        _ => Err(RepoError::InvalidRequest),
    }
}

/// Reads a thumbnail request from its URI: the domain of the URI is the
/// content hash of the file, and the query may give `height` and
/// `width`.
pub fn decode_thumb_request(uri: &str) -> (result: RepoResult<ThumbRequest>)
    ensures
        match result {
            Ok(request) => thumb_request(uri_parts(uri@)) == Ok::<(Seq<char>, u32, u32), RepoError>(
                (request.hash@, request.height, request.width),
            ),
            Err(e) => thumb_request(uri_parts(uri@)) == Err::<(Seq<char>, u32, u32), RepoError>(e),
        },
{
    read_thumb_request(split_uri(uri))
}

} // verus!
