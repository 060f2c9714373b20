//! Content classification of a single file, from its media type and the start of its contents.
use vstd::prelude::*;

verus! {

/// How many bytes from the start of a file are read to preview it as text.
pub const PREVIEW_BUFFER_SIZE: usize = 4096;

/// What kind of preview a file gets.
#[derive(PartialEq, Eq, Structural, Clone, Copy, Debug)]
pub enum ContentClass {
    Image,
    Video,
    /// A document made of pages.
    Paged,
    /// Text that can be shown as it is.
    Text,
    /// Anything else: shown as an icon.
    Opaque,
}

/// The lower-cased top-level type and subtype (without any `+suffix`) that the `mime` crate
/// parses out of a media type, or `None` where it does not parse.
pub uninterp spec fn mime_parts_of(s: Seq<char>) -> Option<(Seq<char>, Seq<char>)>;

/// Relies on `mime::Mime`'s `FromStr` together with `Mime::type_` and `Mime::subtype`: the parts
/// of the parsed media type, or `None` when parsing fails.
#[verifier::external_body]
fn parse_mime(s: &str) -> (r: Option<(String, String)>)
    ensures
        match r {
            Some(parts) => mime_parts_of(s@) == Some((parts.0@, parts.1@)),
            None => mime_parts_of(s@) is None,
        },
{
    s.parse::<mime::Mime>().ok().map(|m| (m.type_().as_str().to_string(), m.subtype().as_str().to_string()))
}

/// Media types that read reasonably as plain text: all of `text`, and a fixed list of
/// `application` subtypes for code, configuration and scripts.
pub open spec fn is_text_like(t: Seq<char>, st: Seq<char>) -> bool {
    ||| t == "text"@
    ||| t == "application"@ && (st == "javascript"@ || st == "json"@ || st == "toml"@ || st
        == "x-shellscript"@ || st == "xml"@)
}

/// The class that a media type alone decides. `Text` here is a candidate: the start of the
/// contents still decides between `Text` and `Opaque`.
pub open spec fn media_class(t: Seq<char>, st: Seq<char>) -> ContentClass {
    if t == "image"@ {
        ContentClass::Image
    } else if t == "video"@ {
        ContentClass::Video
    } else if st == "pdf"@ {
        ContentClass::Paged
    } else if is_text_like(t, st) {
        ContentClass::Text
    } else {
        ContentClass::Opaque
    }
}

/// The prefix of `contents` that a preview looks at.
pub open spec fn preview_window(contents: Seq<u8>) -> Seq<u8> {
    if contents.len() <= PREVIEW_BUFFER_SIZE {
        contents
    } else {
        contents.subrange(0, PREVIEW_BUFFER_SIZE as int)
    }
}

/// Whether a null byte shows up in the previewed prefix of `contents`.
pub open spec fn looks_binary(contents: Seq<u8>) -> bool {
    preview_window(contents).contains(0u8)
}

/// The class of a file with media type parts `t`/`st` whose previewed prefix, where it was
/// read, is `contents`. A text candidate whose prefix was not read, or holds a null byte, is
/// opaque.
pub open spec fn content_class(t: Seq<char>, st: Seq<char>, contents: Option<Seq<u8>>) -> ContentClass {
    match media_class(t, st) {
        ContentClass::Text => match contents {
            Some(c) => if looks_binary(c) {
                ContentClass::Opaque
            } else {
                ContentClass::Text
            },
            None => ContentClass::Opaque,
        },
        other => other,
    }
}

/// The class of a file with the media type written `mime`; text that does not parse as a media
/// type is opaque.
pub open spec fn class_of_mime(mime: Seq<char>, contents: Option<Seq<u8>>) -> ContentClass {
    match mime_parts_of(mime) {
        Some((t, st)) => content_class(t, st, contents),
        None => ContentClass::Opaque,
    }
}

/// Whether `s` holds exactly the text `w`.
fn is_word(s: &String, w: &str) -> (r: bool)
    ensures
        r == (s@ == w@),
{
    let w2 = String::from_str(w);
    s.eq(&w2)
}

/// Whether a null byte occurs among the first `PREVIEW_BUFFER_SIZE` bytes of `contents`.
pub fn has_null_byte(contents: &Vec<u8>) -> (r: bool)
    ensures
        r == looks_binary(contents@),
{
    let n = if contents.len() <= PREVIEW_BUFFER_SIZE {
        contents.len()
    } else {
        PREVIEW_BUFFER_SIZE
    };
    let ghost w = preview_window(contents@);
    assert(w.len() == n);
    let mut i: usize = 0;
    while i < n
        invariant
            i <= n,
            w.len() == n,
            w == preview_window(contents@),
            n <= contents@.len(),
            forall|j: int| 0 <= j < n ==> w[j] == contents@[j],
            forall|j: int| 0 <= j < i ==> w[j] != 0u8,
        decreases n - i,
    {
        if contents[i] == 0u8 {
            assert(w[i as int] == 0u8);
            return true;
        }
        i += 1;
    }
    false
}

/// The class that the media type parts `t`/`st` alone decide (`Text` for a text candidate).
pub fn class_of_media(t: &String, st: &String) -> (r: ContentClass)
    ensures
        r == media_class(t@, st@),
{
    if is_word(t, "image") {
        ContentClass::Image
    } else if is_word(t, "video") {
        ContentClass::Video
    } else if is_word(st, "pdf") {
        ContentClass::Paged
    } else if is_word(t, "text") || (is_word(t, "application") && (is_word(st, "javascript")
        || is_word(st, "json") || is_word(st, "toml") || is_word(st, "x-shellscript") || is_word(
        st,
        "xml",
    ))) {
        ContentClass::Text
    } else {
        ContentClass::Opaque
    }
}

/// The class of a file with media type parts `t`/`st` and previewed contents `contents`, where
/// those were read.
pub fn classify_parts(t: &String, st: &String, contents: Option<&Vec<u8>>) -> (r: ContentClass)
    ensures
        r == content_class(
            t@,
            st@,
            match contents {
                Some(c) => Some(c@),
                None => None,
            },
        ),
{
    match class_of_media(t, st) {
        ContentClass::Text => match contents {
            Some(c) => if has_null_byte(c) {
                ContentClass::Opaque
            } else {
                ContentClass::Text
            },
            None => ContentClass::Opaque,
        },
        other => other,
    }
}

/// The class of a file whose media type is written `mime`, given the start of its contents
/// where those were read.
pub fn classify(mime: &str, contents: Option<&Vec<u8>>) -> (r: ContentClass)
    ensures
        r == class_of_mime(
            mime@,
            match contents {
                Some(c) => Some(c@),
                None => None,
            },
        ),
{
    match parse_mime(mime) {
        Some((t, st)) => classify_parts(&t, &st, contents),
        None => ContentClass::Opaque,
    }
}

/// Whether a file of media type `mime` is a text candidate, so that the start of its contents
/// must be read to classify it.
pub fn needs_contents(mime: &str) -> (r: bool)
    ensures
        r == (mime_parts_of(mime@) matches Some((t, st)) && media_class(t, st)
            == ContentClass::Text),
{
    match parse_mime(mime) {
        Some((t, st)) => match class_of_media(&t, &st) {
            ContentClass::Text => true,
            _ => false,
        },
        None => false,
    }
}

} // verus!
