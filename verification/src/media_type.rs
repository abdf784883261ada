//! Media types: parsing a MIME string, guessing one from a file
//! extension, and the coarse file type that a media type falls under.

use vstd::prelude::*;
use crate::text::{chars_of, optional_text, string_of};

verus! {

/// The coarse kind of a file, taken from the top-level media type.
#[derive(Clone, Copy, Debug, PartialEq, Eq, Structural)]
pub enum FileType {
    Unknown,
    Image,
    Video,
    Audio,
}

/// What `mime::Mime::from_str` makes of `text`: nothing where it rejects
/// the text, else the media type as `to_string` prints it and its
/// top-level type as `type_` names it.
pub uninterp spec fn parsed_mime(text: Seq<char>) -> Option<(Seq<char>, Seq<char>)>;

/// What `mime_guess::from_ext` guesses first for a file extension:
/// nothing where it knows no media type for it, else the media type as
/// text and its top-level type.
pub uninterp spec fn guessed_mime(extension: Seq<char>) -> Option<(Seq<char>, Seq<char>)>;

/// Parses a MIME string with `mime::Mime::from_str` and hands back the
/// parsed media type as text together with its top-level type. The
/// result is a function of the text alone.
#[verifier::external_body]
pub(crate) fn parse_mime(text: &str) -> (parsed: Option<(String, String)>)
    ensures
        parsed.deep_view() == parsed_mime(text@),
{
    match text.parse::<mime::Mime>() {
        Ok(m) => Some((m.to_string(), m.type_().as_str().to_string())),
        Err(_) => None,
    }
}

/// Looks a file extension up with `mime_guess::from_ext` and hands back
/// the first guess as text together with its top-level type. The result
/// is a function of the extension alone.
#[verifier::external_body]
pub(crate) fn guess_mime(extension: &str) -> (guess: Option<(String, String)>)
    ensures
        guess.deep_view() == guessed_mime(extension@),
{
    match mime_guess::from_ext(extension).first() {
        Some(m) => Some((m.to_string(), m.type_().as_str().to_string())),
        None => None,
    }
}

/// The file type that a top-level media type stands for.
pub open spec fn file_type_for(top: Seq<char>) -> FileType {
    if top == seq!['i', 'm', 'a', 'g', 'e'] {
        FileType::Image
    } else if top == seq!['v', 'i', 'd', 'e', 'o'] {
        FileType::Video
    } else if top == seq!['a', 'u', 'd', 'i', 'o'] {
        FileType::Audio
    } else {
        FileType::Unknown
    }
}

/// The media type text and file type of a file, given what parsing or
/// guessing its media type came to: both unknown where that came to
/// nothing.
pub open spec fn classified(media: Option<(Seq<char>, Seq<char>)>) -> (Option<Seq<char>>, FileType) {
    match media {
        Some((text, top)) => (Some(text), file_type_for(top)),
        None => (None, FileType::Unknown),
    }
}

fn is_word(chars: &Vec<char>, a: char, b: char, c: char, d: char, e: char) -> (same: bool)
    ensures
        same == (chars@ == seq![a, b, c, d, e]),
{
    if chars.len() != 5 {
        return false;
    }
    let same = chars[0] == a && chars[1] == b && chars[2] == c && chars[3] == d && chars[4] == e;
    if same {
        assert(chars@ =~= seq![a, b, c, d, e]);
    }
    same
}

/// The file type that a top-level media type stands for: `image`,
/// `video` and `audio` have one of their own, anything else is unknown.
pub fn file_type_of(top: &str) -> (kind: FileType)
    ensures
        kind == file_type_for(top@),
{
    let chars = chars_of(top);
    if is_word(&chars, 'i', 'm', 'a', 'g', 'e') {
        FileType::Image
    } else if is_word(&chars, 'v', 'i', 'd', 'e', 'o') {
        FileType::Video
    } else if is_word(&chars, 'a', 'u', 'd', 'i', 'o') {
        FileType::Audio
    } else {
        FileType::Unknown
    }
}

/// The media type text and file type of a file, given what parsing or
/// guessing its media type came to.
pub fn classify(media: Option<(String, String)>) -> (result: (Option<String>, FileType))
    ensures
        (optional_text(result.0), result.1) == classified(media.deep_view()),
{
    match media {
        Some((text, top)) => {
            let kind = file_type_of(top.as_str());
            (Some(text), kind)
        },
        None => (None, FileType::Unknown),
    }
}

/// The position of the last `c` in `s`, or -1 where `s` holds none.
pub open spec fn last_index(s: Seq<char>, c: char) -> int
    decreases s.len(),
{
    if s.len() == 0 {
        -1
    } else if s.last() == c {
        s.len() - 1
    } else {
        last_index(s.drop_last(), c)
    }
}

/// The file name of a path: what follows its last `/`.
pub open spec fn file_name(path: Seq<char>) -> Seq<char> {
    path.skip(last_index(path, '/') + 1)
}

/// The extension of a path: what follows the last `.` of its file name,
/// unless the file name has no `.` or only a leading one.
pub open spec fn extension(path: Seq<char>) -> Option<Seq<char>> {
    let name = file_name(path);
    let dot = last_index(name, '.');
    if dot > 0 {
        Some(name.skip(dot + 1))
    } else {
        None
    }
}

/// The media type that a path's extension suggests, if it has an
/// extension and one is known for it.
pub open spec fn media_of_path(path: Seq<char>) -> Option<(Seq<char>, Seq<char>)> {
    match extension(path) {
        Some(ext) => guessed_mime(ext),
        None => None,
    }
}

proof fn lemma_last_index(s: Seq<char>, c: char, at: int)
    requires
        -1 <= at < s.len(),
        forall|i: int| at < i < s.len() ==> #[trigger] s[i] != c,
        at >= 0 ==> s[at] == c,
    ensures
        last_index(s, c) == at,
    decreases s.len(),
{
    if s.len() > 0 && s.last() != c {
        lemma_last_index(s.drop_last(), c, at);
    }
}

fn last_position(chars: &Vec<char>, from: usize, c: char) -> (at: Option<usize>)
    requires
        from <= chars.len(),
    ensures
        match at {
            Some(i) => from <= i < chars.len() && last_index(chars@.skip(from as int), c) == i
                - from,
            None => last_index(chars@.skip(from as int), c) == -1,
        },
{
    let ghost tail = chars@.skip(from as int);
    let mut i: usize = chars.len();
    while i > from
        invariant
            from <= i <= chars.len(),
            tail == chars@.skip(from as int),
            forall|j: int| i - from <= j < tail.len() ==> #[trigger] tail[j] != c,
        decreases i,
    {
        i -= 1;
        if chars[i] == c {
            proof {
                assert(tail[i - from] == chars@[i as int]);
                lemma_last_index(tail, c, i - from);
            }
            return Some(i);
        }
        assert forall|j: int| i - from <= j < tail.len() implies #[trigger] tail[j] != c by {
            if j == i - from {
                assert(tail[j] == chars@[i as int]);
            }
        }
    }
    proof {
        lemma_last_index(tail, c, -1);
    }
    None
}

/// The extension of `path`, if it has one.
pub fn extension_of(path: &str) -> (ext: Option<String>)
    ensures
        optional_text(ext) == extension(path@),
{
    let chars = chars_of(path);
    assert(chars@.skip(0) =~= chars@);
    let start: usize = match last_position(&chars, 0, '/') {
        Some(i) => i + 1,
        None => 0,
    };
    match last_position(&chars, start, '.') {
        Some(dot) => {
            if dot > start {
                let mut out: Vec<char> = Vec::new();
                let mut i: usize = dot + 1;
                let ghost wanted = chars@.skip(start as int).skip(dot - start + 1);
                assert(wanted =~= chars@.skip(dot + 1));
                while i < chars.len()
                    invariant
                        dot + 1 <= i <= chars.len(),
                        out@ == chars@.subrange(dot + 1, i as int),
                    decreases chars.len() - i,
                {
                    out.push(chars[i]);
                    i += 1;
                    assert(out@ =~= chars@.subrange(dot + 1, i as int));
                }
                assert(out@ =~= wanted);
                Some(string_of(&out))
            } else {
                None
            }
        },
        None => None,
    }
}

/// The media type that the extension of `path` suggests.
pub fn media_type_of_path(path: &str) -> (media: Option<(String, String)>)
    ensures
        media.deep_view() == media_of_path(path@),
{
    match extension_of(path) {
        Some(ext) => guess_mime(ext.as_str()),
        None => None,
    }
}

} // verus!
