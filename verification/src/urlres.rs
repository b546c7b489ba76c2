//! URL resolution, through the `url` crate.
//!
//! What a resolved URL looks like takes the WHATWG URL standard to state,
//! so the results are only named here: the contracts of the callers speak
//! of `resolved_url` and `parsed_url`, and the library never claims what
//! those names evaluate to on given strings.
use vstd::prelude::*;

verus! {

/// The serialization of `href` resolved against the absolute URL `base`,
/// or none when `base` does not parse or the join fails.
pub uninterp spec fn resolved_url(base: Seq<char>, href: Seq<char>) -> Option<Seq<char>>;

/// The serialization of `s` parsed as an absolute URL, or none when it
/// does not parse.
pub uninterp spec fn parsed_url(s: Seq<char>) -> Option<Seq<char>>;

/// Relies on url::Url::parse and url::Url::join: resolving one string
/// against another is a function of the two strings alone, and the result
/// is the joined URL's serialization.
#[verifier::external_body]
fn join_url(base: &str, href: &str) -> (r: Option<String>)
    ensures
        r matches Some(u) ==> resolved_url(base@, href@) == Some(u@),
        r is None ==> resolved_url(base@, href@) is None,
{
    match url::Url::parse(base) {
        Ok(b) => match b.join(href) {
            Ok(u) => Some(String::from(u)),
            Err(_) => None,
        },
        Err(_) => None,
    }
}

/// Relies on url::Url::parse: parsing is a function of the string alone,
/// and the result is the parsed URL's serialization.
#[verifier::external_body]
fn parse_absolute(s: &str) -> (r: Option<String>)
    ensures
        r matches Some(u) ==> parsed_url(s@) == Some(u@),
        r is None ==> parsed_url(s@) is None,
{
    match url::Url::parse(s) {
        Ok(u) => Some(String::from(u)),
        Err(_) => None,
    }
}

/// What `href` resolves to against an optional base: against the base
/// when there is one, as an absolute URL otherwise.
pub open spec fn spec_resolve_url(base: Option<Seq<char>>, href: Seq<char>) -> Option<Seq<char>> {
    match base {
        Some(b) => resolved_url(b, href),
        None => parsed_url(href),
    }
}

/// The view of an optional stored string.
pub open spec fn opt_string_view(s: Option<String>) -> Option<Seq<char>> {
    match s {
        Some(v) => Some(v@),
        None => None,
    }
}

/// Resolve a document's link target: `href` against the document's base
/// URL when one is set, as an absolute URL otherwise.
pub fn resolve_url(base: &Option<String>, href: &str) -> (r: Option<String>)
    ensures
        r matches Some(u) ==> spec_resolve_url(opt_string_view(*base), href@) == Some(u@),
        r is None ==> spec_resolve_url(opt_string_view(*base), href@) is None,
{
    match base {
        Some(b) => join_url(b.as_str(), href),
        None => parse_absolute(href),
    }
}

} // verus!
