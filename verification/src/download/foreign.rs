//! Calls into other crates and into parts of the standard library that
//! Verus has no specification for.
//!
//! Nothing in this file is proved. Each function states what the code it
//! calls is documented to do, and the rest of the crate is verified against
//! these statements.

use vstd::prelude::*;
use vstd::utf8::*;

verus! {

/// What the crate `regex` finds when it searches `text` for `pattern`:
/// `None` if the pattern matches nowhere (or is no valid pattern), else one
/// entry for each capture group of the first match, the whole match being
/// group 0. A group that took no part in the match is `None`.
pub uninterp spec fn captures_of(pattern: Seq<char>, text: Seq<char>) -> Option<
    Seq<Option<Seq<char>>>,
>;

/// The bytes that the crate `html_escape` writes for `text`, every
/// character reference that it knows being replaced by what it stands for.
pub uninterp spec fn decoded_entities(text: Seq<char>) -> Seq<u8>;

/// The URL, as text, that the crate `url` resolves `reference` to against
/// `base`; `None` if `base` is no absolute URL or the reference cannot be
/// resolved.
pub uninterp spec fn joined_url(base: Seq<char>, reference: Seq<char>) -> Option<Seq<char>>;

/// The URL `address`, as text, once the crate `url` has taken the last
/// segment off its path if that segment is empty and not the only one.
/// Text that is no absolute URL, or a URL that cannot be a base, stays as
/// it is.
pub uninterp spec fn without_empty_last_segment(address: Seq<char>) -> Seq<char>;

/// The views of a match's capture groups.
pub open spec fn groups_view(groups: Seq<Option<String>>) -> Seq<Option<Seq<char>>> {
    groups.map_values(
        |group: Option<String>|
            match group {
                Some(text) => Some(text@),
                None => None,
            },
    )
}

/// `regex::Regex::new` on `pattern`, then `regex::Regex::captures` on each
/// of the texts. The pattern is compiled once and serves every text.
///
/// Trusted: there is one result for each text, in the order of the texts,
/// and each is a function of the pattern and that text alone, named
/// [`captures_of`]. The groups are copied out in the order of
/// `regex::Captures::iter`.
#[verifier::external_body]
pub(crate) fn regex_captures_each(pattern: &str, texts: &Vec<&str>) -> (found: Vec<
    Option<Vec<Option<String>>>,
>)
    ensures
        found.len() == texts.len(),
        forall|i: int|
            0 <= i < texts.len() ==> match #[trigger] found[i] {
                Some(groups) => captures_of(pattern@, texts[i]@) == Some(groups_view(groups@)),
                None => captures_of(pattern@, texts[i]@) is None,
            },
{
    let compiled = regex::Regex::new(pattern).ok();
    texts.iter().map(
        |text|
            {
                let groups = compiled.as_ref()?.captures(text)?;
                Some(groups.iter().map(|group| group.map(|part| part.as_str().to_owned())).collect())
            },
    ).collect()
}

/// `html_escape::decode_html_entities_to_vec` on `text`, into a fresh vector.
///
/// Trusted: the bytes written are a function of `text` alone, named
/// [`decoded_entities`]. Nothing is claimed about their encoding.
#[verifier::external_body]
pub(crate) fn decode_entities(text: &str) -> (bytes: Vec<u8>)
    ensures
        bytes@ == decoded_entities(text@),
{
    let mut output = Vec::new();
    html_escape::decode_html_entities_to_vec(text, &mut output);
    output
}

/// `String::from_utf8`.
///
/// Trusted: it succeeds exactly on well-formed UTF-8, and the string it
/// gives then holds the characters that the bytes encode.
#[verifier::external_body]
pub(crate) fn string_from_utf8(bytes: Vec<u8>) -> (text: Option<String>)
    ensures
        text is Some <==> valid_utf8(bytes@),
        text matches Some(s) ==> s@ == decode_utf8(bytes@),
{
    String::from_utf8(bytes).ok()
}

/// `url::Url::parse` on `base`, then `url::Url::join` with `reference`.
///
/// Trusted: the serialization of the result is a function of the two texts
/// alone, named [`joined_url`].
#[verifier::external_body]
pub(crate) fn join_url(base: &str, reference: &str) -> (joined: Option<String>)
    ensures
        match joined {
            Some(url) => joined_url(base@, reference@) == Some(url@),
            None => joined_url(base@, reference@) is None,
        },
{
    match url::Url::parse(base) {
        Ok(parsed) => parsed.join(reference).ok().map(|url| url.into()),
        Err(_) => None,
    }
}

/// `url::PathSegmentsMut::pop_if_empty` on the URL that `address` parses
/// to.
///
/// Trusted: the serialization of the result is a function of `address`
/// alone, named [`without_empty_last_segment`].
#[verifier::external_body]
pub(crate) fn drop_empty_last_segment(address: &str) -> (shorter: String)
    ensures
        shorter@ == without_empty_last_segment(address@),
{
    match url::Url::parse(address) {
        Ok(mut parsed) => {
            if let Ok(mut segments) = parsed.path_segments_mut() {
                segments.pop_if_empty();
            }
            parsed.into()
        },
        Err(_) => address.to_owned(),
    }
}

/// `str::split_once` at the first line feed.
///
/// Trusted: `None` exactly when the text holds no line feed; else the text
/// before the first line feed and the text after it.
#[verifier::external_body]
pub(crate) fn split_at_line_feed(text: &str) -> (parts: Option<(&str, &str)>)
    ensures
        match parts {
            Some((head, tail)) => {
                &&& text@ == head@ + seq!['\n'] + tail@
                &&& !head@.contains('\n')
            },
            None => !text@.contains('\n'),
        },
{
    text.split_once('\n')
}

/// `std::time::SystemTime::now`, as whole seconds since the Unix epoch; 0
/// for a clock that stands before the epoch.
///
/// Trusted: nothing. The result depends on the machine's clock, and
/// callers are verified for every value of it.
#[verifier::external_body]
pub(crate) fn unix_time_now() -> u64 {
    match std::time::SystemTime::now().duration_since(std::time::UNIX_EPOCH) {
        Ok(elapsed) => elapsed.as_secs(),
        Err(_) => 0,
    }
}

} // verus!
