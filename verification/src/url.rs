//! The address of an event, as a user may give it.
//!
//! Whether an address looks like one of the site is the pattern engine's
//! answer, which is believed, not proved; the verdict that is built on the
//! answer is stated exactly. The scheme and host of an address, under which
//! the pages that it links to are found, are read from its characters.

use vstd::prelude::*;
use vstd::std_specs::result::ok;
use crate::text::ends_with;

verus! {

/// A compiled pattern, owned by the pattern engine.
#[verifier::external_type_specification]
#[verifier::external_body]
pub struct ExRegex(regex::Regex);

/// The reason a pattern did not compile.
#[verifier::external_type_specification]
#[verifier::external_body]
pub struct ExRegexError(regex::Error);

/// The pattern that the engine compiles from a pattern's text, where it
/// compiles.
pub uninterp spec fn compiled_pattern(pattern: Seq<char>) -> Option<regex::Regex>;

/// Whether a compiled pattern matches anywhere in a text.
pub uninterp spec fn pattern_found(pattern: regex::Regex, text: Seq<char>) -> bool;

/// `regex::Regex::new`: compiles a pattern, or reports why it cannot.
#[verifier::external_body]
pub(crate) fn compile_pattern(pattern: &str) -> (compiled: Result<regex::Regex, regex::Error>)
    ensures
        ok(compiled) == compiled_pattern(pattern@),
{
    regex::Regex::new(pattern)
}

/// `regex::Regex::is_match`: whether the pattern matches anywhere in the text.
#[verifier::external_body]
pub(crate) fn find_pattern(pattern: &regex::Regex, text: &str) -> (found: bool)
    ensures
        found == pattern_found(*pattern, text@),
{
    pattern.is_match(text)
}

/// What the address of an event looks like.
pub const EVENT_URL_PATTERN: &'static str =
    r#"https?:\/\/(www\.)?vlr\.gg\b([-a-zA-Z0-9()@:%_\+.~#?&//=]*)"#;

/// Why an address is not taken for an event's.
#[derive(Debug, Clone, Copy, PartialEq, Eq, Structural)]
pub enum UrlError {
    /// The address does not look like one of the site.
    NotAnEvent,
    /// The address ends in a slash.
    TrailingSlash,
    /// The pattern for addresses did not compile.
    BadPattern,
}

/// The verdict on an address, given whether it looks like one of the site:
/// it must look like one, and must not end in a slash.
pub open spec fn spec_check_url(url: Seq<char>, looks_right: bool) -> Result<Seq<char>, UrlError> {
    if !looks_right {
        Err(UrlError::NotAnEvent)
    } else if url.len() > 0 && url.last() == '/' {
        Err(UrlError::TrailingSlash)
    } else {
        Ok(url)
    }
}

/// The verdict on an address that is held against a pattern: that of
/// `spec_check_url` on what the pattern engine finds, where the pattern
/// compiles.
pub open spec fn spec_match_url(pattern: Seq<char>, url: Seq<char>) -> Result<Seq<char>, UrlError> {
    match compiled_pattern(pattern) {
        None => Err(UrlError::BadPattern),
        Some(compiled) => spec_check_url(url, pattern_found(compiled, url)),
    }
}

/// The verdict on the address of an event: it is held against the pattern
/// for addresses of the site.
pub open spec fn spec_validate_url(url: Seq<char>) -> Result<Seq<char>, UrlError> {
    spec_match_url(EVENT_URL_PATTERN@, url)
}

/// What to tell the user about a refused address.
pub open spec fn spec_message(error: UrlError) -> Seq<char> {
    match error {
        UrlError::NotAnEvent => "Invalid vlr.gg url"@,
        UrlError::TrailingSlash => "Don't include / at the end of the url"@,
        UrlError::BadPattern => "The pattern for vlr.gg urls is invalid"@,
    }
}

impl UrlError {
    /// What to tell the user about a refused address.
    pub fn message(&self) -> (text: String)
        ensures
            text@ == spec_message(*self),
    {
        match self {
            UrlError::NotAnEvent => "Invalid vlr.gg url".to_owned(),
            UrlError::TrailingSlash => "Don't include / at the end of the url".to_owned(),
            UrlError::BadPattern => "The pattern for vlr.gg urls is invalid".to_owned(),
        }
    }
}

/// Judges an address, given whether it looks like one of the site: it is
/// accepted, unchanged, where it looks like one and does not end in a slash.
pub fn check_url(url: &str, looks_right: bool) -> (verdict: Result<String, UrlError>)
    ensures
        match verdict {
            Ok(accepted) => spec_check_url(url@, looks_right) == Ok::<Seq<char>, UrlError>(
                accepted@,
            ),
            Err(e) => spec_check_url(url@, looks_right) == Err::<Seq<char>, UrlError>(e),
        },
{
    if !looks_right {
        Err(UrlError::NotAnEvent)
    } else if ends_with(url, '/') {
        Err(UrlError::TrailingSlash)
    } else {
        Ok(url.to_owned())
    }
}

/// Judges an address by a pattern: the pattern must match somewhere in the
/// address, and the address must not end in a slash. A pattern that does not
/// compile refuses every address.
pub fn match_url(pattern: &str, url: &str) -> (verdict: Result<String, UrlError>)
    ensures
        match verdict {
            Ok(accepted) => spec_match_url(pattern@, url@) == Ok::<Seq<char>, UrlError>(
                accepted@,
            ),
            Err(e) => spec_match_url(pattern@, url@) == Err::<Seq<char>, UrlError>(e),
        },
{
    match compile_pattern(pattern) {
        Err(_) => Err(UrlError::BadPattern),
        Ok(compiled) => check_url(url, find_pattern(&compiled, url)),
    }
}

/// Judges the address of an event: it must match the pattern for addresses
/// of the site somewhere, and must not end in a slash.
pub fn validator_url(url: &str) -> (verdict: Result<String, UrlError>)
    ensures
        match verdict {
            Ok(accepted) => spec_validate_url(url@) == Ok::<Seq<char>, UrlError>(accepted@),
            Err(e) => spec_validate_url(url@) == Err::<Seq<char>, UrlError>(e),
        },
{
    match_url(EVENT_URL_PATTERN, url)
}

/// Whether a character ends the host of an address: the path, the query and
/// the fragment begin with one.
pub open spec fn ends_host(c: char) -> bool {
    c == '/' || c == '?' || c == '#'
}

/// The first position from `from` on at which a character ends the host, or
/// the length of the address where there is none.
pub open spec fn host_end(url: Seq<char>, from: int) -> int
    decreases url.len() - from,
{
    if from < 0 || from >= url.len() {
        url.len() as int
    } else if ends_host(url[from]) {
        from
    } else {
        host_end(url, from + 1)
    }
}

/// Whether an address names its scheme: whether the first character that
/// could end a host is the first slash of `://`.
pub open spec fn has_scheme(url: Seq<char>) -> bool {
    let at = host_end(url, 0);
    at >= 1 && at + 1 < url.len() && url[at - 1] == ':' && url[at] == '/' && url[at + 1] == '/'
}

/// The length of an address's scheme and host.
pub open spec fn origin_len(url: Seq<char>) -> int {
    if has_scheme(url) {
        host_end(url, host_end(url, 0) + 2)
    } else {
        host_end(url, 0)
    }
}

/// The scheme and host of an address: the address up to where its path, its
/// query or its fragment begins. Of `https://www.vlr.gg/event/1` it is
/// `https://www.vlr.gg`.
pub open spec fn spec_origin(url: Seq<char>) -> Seq<char> {
    url.take(origin_len(url))
}

/// A position from which no character ends the host up to a character that
/// does, or up to the end, is where the host ends.
pub proof fn lemma_host_end_is(url: Seq<char>, from: int, at: int)
    requires
        0 <= from <= at <= url.len(),
        forall|i: int| from <= i < at ==> !ends_host(#[trigger] url[i]),
        at < url.len() ==> ends_host(url[at]),
    ensures
        host_end(url, from) == at,
    decreases at - from,
{
    if from < at {
        assert(!ends_host(url[from]));
        lemma_host_end_is(url, from + 1, at);
    }
}

/// An address that is made of a scheme, `//`, a host and what follows the
/// host has the scheme, `//` and the host as its origin.
pub proof fn lemma_origin(scheme: Seq<char>, host: Seq<char>, rest: Seq<char>)
    requires
        scheme.len() > 0,
        scheme.last() == ':',
        forall|i: int| 0 <= i < scheme.len() ==> !ends_host(#[trigger] scheme[i]),
        forall|i: int| 0 <= i < host.len() ==> !ends_host(#[trigger] host[i]),
        rest.len() > 0 ==> ends_host(rest[0]),
    ensures
        spec_origin(scheme + seq!['/', '/'] + host + rest) == scheme + seq!['/', '/'] + host,
{
    let url = scheme + seq!['/', '/'] + host + rest;
    let first: int = scheme.len() as int;
    let end: int = first + 2 + host.len();
    assert forall|i: int| 0 <= i < first implies !ends_host(#[trigger] url[i]) by {
        assert(url[i] == scheme[i]);
    }
    assert(url[first] == '/' && url[first + 1] == '/');
    lemma_host_end_is(url, 0, first);
    assert forall|i: int| first + 2 <= i < end implies !ends_host(#[trigger] url[i]) by {
        assert(url[i] == host[i - first - 2]);
    }
    if rest.len() > 0 {
        assert(url[end] == rest[0]);
    }
    lemma_host_end_is(url, first + 2, end);
    assert(url[first - 1] == ':');
    assert(url.take(end) =~= scheme + seq!['/', '/'] + host);
}

/// Where the host ends, from a position on.
fn find_host_end(url: &str, len: usize, from: usize) -> (at: usize)
    requires
        len == url@.len(),
        from <= len,
    ensures
        at == host_end(url@, from as int),
        from <= at <= len,
{
    let mut at: usize = from;
    while at < len && !is_host_end(url.get_char(at))
        invariant
            from <= at <= len,
            len == url@.len(),
            forall|i: int| from <= i < at ==> !ends_host(#[trigger] url@[i]),
        decreases len - at,
    {
        at += 1;
    }
    proof {
        lemma_host_end_is(url@, from as int, at as int);
    }
    at
}

/// Whether a character ends the host of an address.
fn is_host_end(c: char) -> (ends: bool)
    ensures
        ends == ends_host(c),
{
    c == '/' || c == '?' || c == '#'
}

/// The scheme and host of an address. Links that a page of the address gives
/// relative to its host are followed under this.
pub fn origin(url: &str) -> (host: String)
    ensures
        host@ == spec_origin(url@),
{
    let len: usize = url.unicode_len();
    let first: usize = find_host_end(url, len, 0);
    let named = first >= 1 && len >= 2 && first < len - 1 && url.get_char(first - 1) == ':'
        && url.get_char(first) == '/' && url.get_char(first + 1) == '/';
    let end: usize = if named {
        find_host_end(url, len, first + 2)
    } else {
        first
    };
    proof {
        assert(url@.take(end as int) == url@.subrange(0, end as int));
    }
    url.substring_char(0, end).to_owned()
}

} // verus!
