//! URLs and HTTP header fields, as the url and http crates (through reqwest)
//! parse and build them.
use crate::names::views;
use vstd::prelude::*;

verus! {

/// The serialization of a URL that parses, or nothing for one that does not.
pub uninterp spec fn normalized_url(text: Seq<char>) -> Option<Seq<char>>;

/// The decoded names of the query pairs of a URL, in order.
pub uninterp spec fn url_query_names(url: Seq<char>) -> Seq<Seq<char>>;

/// A URL with one more query pair at the end of its query.
pub uninterp spec fn url_with_pair(url: Seq<char>, name: Seq<char>, value: Seq<char>) -> Seq<char>;

/// A URL with one more segment at the end of its path, or nothing when the
/// URL cannot be a base.
pub uninterp spec fn url_with_segment(url: Seq<char>, segment: Seq<char>) -> Option<Seq<char>>;

/// Whether a text is a valid HTTP header name.
pub uninterp spec fn header_name_valid(name: Seq<char>) -> bool;

/// A character that may stand in an HTTP header value: a tab, or one whose
/// UTF-8 bytes are all at least 32 and none is 127 (DEL). Every character
/// past ASCII qualifies, its bytes all being 128 or more.
pub open spec fn header_value_char(c: char) -> bool {
    (c >= ' ' && c != '\x7f') || c == '\t'
}

/// Whether a text is a valid HTTP header value, as http's `HeaderValue`
/// accepts it from a string.
pub open spec fn header_value_valid(value: Seq<char>) -> bool {
    forall|i: int| 0 <= i < value.len() ==> #[trigger] header_value_char(value[i])
}

/// Relies on reqwest::Url::parse (the url crate's `Url`) and its
/// serialization: the normalized URL, or nothing when the text is not one.
#[verifier::external_body]
pub fn parse_url(text: &str) -> (r: Option<String>)
    ensures
        match r {
            Some(u) => normalized_url(text@) == Some(u@),
            None => normalized_url(text@) is None,
        },
{
    reqwest::Url::parse(text).ok().map(String::from)
}

/// Relies on reqwest::Url::query_pairs: the decoded name of each query pair.
#[verifier::external_body]
pub fn query_names(url: &str) -> (r: Option<Vec<String>>)
    ensures
        r is Some <==> normalized_url(url@) is Some,
        r is Some ==> views(r->0@) == url_query_names(url@),
{
    reqwest::Url::parse(url).ok().map(|u| u.query_pairs().map(|(k, _)| k.into_owned()).collect())
}

/// Relies on reqwest::Url::query_pairs_mut and append_pair: the URL with the
/// pair added at the end of its query.
#[verifier::external_body]
pub fn append_query_pair(url: &str, name: &str, value: &str) -> (r: Option<String>)
    ensures
        r is Some <==> normalized_url(url@) is Some,
        r is Some ==> r->0@ == url_with_pair(url@, name@, value@),
{
    let mut u = reqwest::Url::parse(url).ok()?;
    u.query_pairs_mut().append_pair(name, value);
    Some(String::from(u))
}

/// Relies on reqwest::Url::path_segments_mut and PathSegmentsMut::push: the
/// URL with the segment added at the end of its path.
#[verifier::external_body]
pub fn push_path_segment(url: &str, segment: &str) -> (r: Option<String>)
    ensures
        normalized_url(url@) is None ==> r is None,
        normalized_url(url@) is Some ==> match r {
            Some(u) => url_with_segment(url@, segment@) == Some(u@),
            None => url_with_segment(url@, segment@) is None,
        },
{
    let mut u = reqwest::Url::parse(url).ok()?;
    u.path_segments_mut().ok()?.push(segment);
    Some(String::from(u))
}

/// Relies on reqwest::header::HeaderName::from_str: whether it accepts the name.
#[verifier::external_body]
pub fn is_header_name(name: &str) -> (r: bool)
    ensures
        r == header_name_valid(name@),
{
    <reqwest::header::HeaderName as std::str::FromStr>::from_str(name).is_ok()
}

/// Whether `value` is a valid HTTP header value.
pub fn is_header_value(value: &str) -> (r: bool)
    ensures
        r == header_value_valid(value@),
{
    let c = crate::hostname::chars_of(value);
    let mut i: usize = 0;
    while i < c.len()
        invariant
            c@ == value@,
            i <= c@.len(),
            forall|k: int| 0 <= k < i ==> #[trigger] header_value_char(c@[k]),
        decreases c@.len() - i,
    {
        let ch = c[i];
        if !((ch >= ' ' && ch != '\x7f') || ch == '\t') {
            assert(!header_value_char(value@[i as int]));
            return false;
        }
        i = i + 1;
    }
    true
}

/// Whether `names` holds `name`.
pub fn has_name(names: &Vec<String>, name: &str) -> (r: bool)
    ensures
        r == views(names@).contains(name@),
{
    let k = String::from_str(name);
    crate::names::contains_name(names, &k)
}

/// The URL with the query pair added unless its query already names `name`;
/// nothing when the text is not a URL.
pub fn set_query_without_override(url: &str, name: &str, value: &str) -> (r: Option<String>)
    ensures
        normalized_url(url@) is None ==> r is None,
        normalized_url(url@) is Some ==> r is Some && r->0@ == query_set(url@, name@, value@),
{
    match query_names(url) {
        None => None,
        Some(names) => {
            if has_name(&names, name) {
                Some(String::from_str(url))
            } else {
                append_query_pair(url, name, value)
            }
        },
    }
}

/// A URL with the query pair added unless its query already names `name`.
pub open spec fn query_set(url: Seq<char>, name: Seq<char>, value: Seq<char>) -> Seq<char> {
    if url_query_names(url).contains(name) {
        url
    } else {
        url_with_pair(url, name, value)
    }
}

} // verus!
