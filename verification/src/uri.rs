//! URI parsing and building, done by `hyper`.

use vstd::prelude::*;

verus! {

#[verifier::external_type_specification]
#[verifier::external_body]
pub struct ExUri(hyper::Uri);

/// What `hyper` reads from the text `s` taken as a URI: its scheme,
/// authority, host and path-and-query, each when present; `None` when `s`
/// is no URI. Parsing depends on the text alone.
pub uninterp spec fn uri_components(s: Seq<char>) -> Option<
    (Option<Seq<char>>, Option<Seq<char>>, Option<Seq<char>>, Option<Seq<char>>),
>;

/// Whether `hyper` accepts `s` as a URI.
pub open spec fn uri_parses(s: Seq<char>) -> bool {
    uri_components(s) is Some
}

/// The parts of a parsed URI, as text.
pub struct UriParts {
    pub scheme: Option<String>,
    pub authority: Option<String>,
    pub host: Option<String>,
    pub path_and_query: Option<String>,
}

pub open spec fn opt_text(o: Option<String>) -> Option<Seq<char>> {
    match o {
        Some(s) => Some(s@),
        None => None,
    }
}

/// The parts as text, in the order of `uri_components`.
pub open spec fn parts_view(p: UriParts) -> (
    Option<Seq<char>>,
    Option<Seq<char>>,
    Option<Seq<char>>,
    Option<Seq<char>>,
) {
    (opt_text(p.scheme), opt_text(p.authority), opt_text(p.host), opt_text(p.path_and_query))
}

/// `<hyper::Uri as FromStr>::from_str` (which `Uri::try_from` on a `&str` or
/// a `&String` calls): parses `s` as a URI, and reads its scheme, authority,
/// host and path-and-query. The contract claims that the parts read are the
/// ones `uri_components` names for `s`, and that `None` comes exactly when it
/// names none; nothing is stated of the parsed value beyond its parts.
#[verifier::external_body]
pub(crate) fn parse_uri(s: &str) -> (r: Option<(hyper::Uri, UriParts)>)
    ensures
        match r {
            Some((_, p)) => uri_components(s@) == Some(
                (
                    opt_text(p.scheme),
                    opt_text(p.authority),
                    opt_text(p.host),
                    opt_text(p.path_and_query),
                ),
            ),
            None => uri_components(s@) is None,
        },
{
    let u = s.parse::<hyper::Uri>().ok()?;
    let parts = UriParts {
        scheme: u.scheme_str().map(|x| x.to_string()),
        authority: u.authority().map(|a| a.as_str().to_string()),
        host: u.host().map(|h| h.to_string()),
        path_and_query: u.path_and_query().map(|p| p.as_str().to_string()),
    };
    Some((u, parts))
}

/// The text of the URI that `hyper` builds from a scheme, an authority and a
/// path-and-query, or `None` when it refuses them. Building depends on the
/// three texts alone.
pub uninterp spec fn built_uri(scheme: Seq<char>, authority: Seq<char>, pq: Seq<char>) -> Option<
    Seq<char>,
>;

/// `hyper::Uri::builder()` with `authority`, `scheme` and `path_and_query`,
/// then `build` and `to_string`. The contract claims only that the result is
/// the one `built_uri` names for the three texts.
#[verifier::external_body]
pub(crate) fn build_uri(scheme: &str, authority: &str, pq: &str) -> (r: Option<String>)
    ensures
        opt_text(r) == built_uri(scheme@, authority@, pq@),
{
    hyper::Uri::builder().authority(authority).scheme(scheme).path_and_query(pq).build().ok().map(
        |u| u.to_string(),
    )
}

} // verus!
