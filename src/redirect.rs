//! Where a file's `Location` header points.
use vstd::prelude::*;
use crate::token::opt_view;

verus! {

/// The serialization of `s` read as an absolute URL; `None` where it is none.
pub uninterp spec fn parsed_url(s: Seq<char>) -> Option<Seq<char>>;

/// Relies on url's `Url::parse`: `s` read as an absolute URL and serialized,
/// or `None` where it does not parse. The result depends on `s` alone.
#[verifier::external_body]
fn parse_absolute_url(s: &str) -> (r: Option<String>)
    ensures
        opt_view(r) == parsed_url(s@),
{
    url::Url::parse(s).ok().map(String::from)
}

/// Why a `Location` header gives no redirect target.
#[derive(Debug, PartialEq, Eq)]
pub enum RedirectError {
    /// The header value, which is not an absolute URL.
    NotAUrl(String),
}

/// The redirect target that a `Location` header value gives: none where the
/// header is absent, the URL where it holds one, an error where it holds
/// something else.
pub fn redirect_target(location: Option<&str>) -> (r: Result<Option<String>, RedirectError>)
    ensures
        match location {
            None => r matches Ok(None),
            Some(v) => match parsed_url(v@) {
                Some(u) => r matches Ok(Some(t)) && t@ == u,
                None => r matches Err(RedirectError::NotAUrl(s)) && s@ == v@,
            },
        },
{
    match location {
        None => Ok(None),
        Some(v) => match parse_absolute_url(v) {
            Some(u) => Ok(Some(u)),
            None => Err(RedirectError::NotAUrl(v.to_owned())),
        },
    }
}

} // verus!
