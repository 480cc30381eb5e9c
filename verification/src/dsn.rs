//! Data-source locations: URLs that say where a store is to be found.

use crate::error::ApiError;
use vstd::prelude::*;
use vstd::string::StringExecFns;

verus! {

/// The parts of a URL that a run reads.
#[derive(Debug, PartialEq, Eq)]
pub struct UrlParts {
    pub scheme: String,
    pub host: Option<String>,
    pub path: String,
}

/// What a [`UrlParts`] holds, as mathematical values.
pub struct UrlPartsView {
    pub scheme: Seq<char>,
    pub host: Option<Seq<char>>,
    pub path: Seq<char>,
}

impl View for UrlParts {
    type V = UrlPartsView;

    open spec fn view(&self) -> UrlPartsView {
        UrlPartsView {
            scheme: self.scheme@,
            host: match self.host {
                Some(host) => Some(host@),
                None => None,
            },
            path: self.path@,
        }
    }
}

/// The scheme, the host and the path of the URL that `raw` writes, or `None` where `raw`
/// writes no URL.
pub uninterp spec fn url_parts(raw: Seq<char>) -> Option<UrlPartsView>;

/// `url::ParseError`, the error of `url::Url::parse`: nothing is read of it.
#[verifier::external_type_specification]
#[verifier::external_body]
pub struct ExParseError(url::ParseError);

/// `url::Url::parse`, with `Url::scheme`, `Url::host_str` and `Url::path` of what it gives.
/// The parts are named, not spelled out: they depend on the text alone.
#[verifier::external_body]
pub(crate) fn parse_url(raw: &str) -> (r: Result<UrlParts, url::ParseError>)
    ensures
        match r {
            Ok(parts) => url_parts(raw@) == Some(parts@),
            Err(_) => url_parts(raw@) is None,
        },
{
    match url::Url::parse(raw) {
        Ok(url) => Ok(
            UrlParts {
                scheme: url.scheme().to_owned(),
                host: url.host_str().map(str::to_owned),
                path: url.path().to_owned(),
            },
        ),
        Err(e) => Err(e),
    }
}

/// The name of the host where a URL names none.
pub open spec fn default_host() -> Seq<char> {
    "localhost"@
}

/// The path of a database in the destination: the host of its URL, or `localhost` where the
/// URL has none, and then the path of the URL.
pub open spec fn database_path(parts: UrlPartsView) -> Seq<char> {
    match parts.host {
        Some(host) => host + parts.path,
        None => default_host() + parts.path,
    }
}

/// Puts the path of a database together from the parts of its URL.
pub fn path_of(parts: &UrlParts) -> (path: String)
    ensures
        path@ == database_path(parts@),
{
    let mut path = match &parts.host {
        Some(host) => host.clone(),
        None => "localhost".to_owned(),
    };
    path.append(parts.path.as_str());
    path
}

/// The path of the database that the data-source location `raw` names. A location that is
/// not a URL names none.
pub fn get_path(raw: &str) -> (r: Result<String, ApiError>)
    ensures
        match r {
            Ok(path) => url_parts(raw@) is Some && path@ == database_path(url_parts(raw@)->Some_0),
            Err(e) => e == ApiError::InvalidDsn && url_parts(raw@) is None,
        },
{
    match parse_url(raw) {
        Ok(parts) => Ok(path_of(&parts)),
        Err(_) => Err(ApiError::InvalidDsn),
    }
}

} // verus!
