//! Absolute URLs, parsed and joined by the `url` crate.
use vstd::prelude::*;

verus! {

/// The serialization of the URL that `Url::parse` reads from `input`, and
/// `None` where it reads none.
pub uninterp spec fn url_parse(input: Seq<char>) -> Option<Seq<char>>;

/// The serialization of the URL that `Url::join` makes of `input` on the
/// base that `Url::parse` reads from `base`, and `None` where either fails.
pub uninterp spec fn url_join(base: Seq<char>, input: Seq<char>) -> Option<Seq<char>>;

/// Calls `Url::parse` and hands back the URL as text. The contract names the
/// result; nothing more is claimed of it.
#[verifier::external_body]
pub(crate) fn parse_url(input: &str) -> (r: Option<String>)
    ensures
        r.deep_view() == url_parse(input@),
{
    ::url::Url::parse(input).ok().map(String::from)
}

/// Calls `Url::join` on the URL parsed from `base` and hands back the joined
/// URL as text. The contract names the result; nothing more is claimed of it.
#[verifier::external_body]
pub(crate) fn join_url(base: &str, input: &str) -> (r: Option<String>)
    ensures
        r.deep_view() == url_join(base@, input@),
{
    ::url::Url::parse(base).ok().and_then(|b| b.join(input).ok()).map(String::from)
}

/// Why a specifier could not be made into an absolute URL.
#[derive(Debug, Clone, Copy, PartialEq, Eq, Structural)]
pub enum UrlError {
    /// The specifier is no absolute URL and there is no base to join it to.
    MissingBase,
    /// The specifier is no absolute URL and neither is the base.
    BaseNotUrl,
    /// The specifier cannot be joined to the base.
    Unjoinable,
}

/// The absolute URL of `specifier`: the specifier itself where it is an
/// absolute URL, else its join with `base`.
pub open spec fn absolute_url(base: Option<Seq<char>>, specifier: Seq<char>) -> Result<
    Seq<char>,
    UrlError,
> {
    match url_parse(specifier) {
        Some(u) => Ok(u),
        None => match base {
            None => Err(UrlError::MissingBase),
            Some(b) => if url_parse(b) is None {
                Err(UrlError::BaseNotUrl)
            } else {
                absolute_url_from(url_join(b, specifier))
            },
        },
    }
}

/// What resolution makes of a join's outcome.
pub open spec fn absolute_url_from(joined: Option<Seq<char>>) -> Result<Seq<char>, UrlError> {
    match joined {
        Some(u) => Ok(u),
        None => Err(UrlError::Unjoinable),
    }
}

/// The view of a resolution's outcome.
pub open spec fn url_result_view(r: Result<String, UrlError>) -> Result<Seq<char>, UrlError> {
    match r {
        Ok(u) => Ok(u@),
        Err(e) => Err(e),
    }
}

/// Resolves `specifier` to an absolute URL, relative to `base` where it is
/// not absolute itself.
pub fn resolve_url(base: Option<&str>, specifier: &str) -> (r: Result<String, UrlError>)
    ensures
        url_result_view(r) == absolute_url(
            match base {
                Some(b) => Some(b@),
                None => None,
            },
            specifier@,
        ),
{
    match parse_url(specifier) {
        Some(u) => Ok(u),
        None => match base {
            None => Err(UrlError::MissingBase),
            Some(b) => {
                if parse_url(b).is_none() {
                    Err(UrlError::BaseNotUrl)
                } else {
                    joined_url(join_url(b, specifier))
                }
            },
        },
    }
}

/// Turns the outcome of a join into the outcome of the resolution.
pub fn joined_url(joined: Option<String>) -> (r: Result<String, UrlError>)
    ensures
        url_result_view(r) == absolute_url_from(joined.deep_view()),
{
    match joined {
        Some(u) => Ok(u),
        None => Err(UrlError::Unjoinable),
    }
}

} // verus!
