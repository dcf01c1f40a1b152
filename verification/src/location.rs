//! Where a data file lies, and whether it can be read from here.
//!
//! Files are read by direct local access only. A location that does not lead
//! to a path on the local file system is refused before anything is opened.

use crate::error::Error;
use std::path::PathBuf;
use vstd::prelude::*;

verus! {

/// What the storage reports of one file.
#[derive(Debug, PartialEq, Eq)]
pub struct FileMeta {
    /// The file's location, as a URL.
    pub location: String,
    /// Time of the last modification, in milliseconds since the epoch.
    pub last_modified: i64,
    /// Size in bytes.
    pub size: usize,
}

/// Declares `url::Url`, a parsed URL, as a type whose inside is not looked
/// at: a value is carried from the parser to the path conversion.
#[verifier::external_type_specification]
#[verifier::external_body]
pub struct ExUrl(url::Url);

/// Declares `std::path::PathBuf`, a path of the local file system, as a type
/// whose inside is not looked at: a path is handed to whoever opens the
/// file, as the platform wrote it.
#[verifier::external_type_specification]
#[verifier::external_body]
pub struct ExPathBuf(PathBuf);

/// Whether a text lacks the colon that ends the scheme of every absolute
/// URL. Such a text is no URL, whatever else it holds.
pub open spec fn lacks_scheme(location: Seq<char>) -> bool {
    !location.contains(':')
}

/// Calls `url::Url::parse`. It takes no base URL, reads the scheme up to the
/// first colon and fails where it meets none: a text without a colon is no
/// URL. Of any other text nothing is claimed.
#[verifier::external_body]
fn parse_url(location: &str) -> (url: Option<url::Url>)
    ensures
        lacks_scheme(location@) ==> url is None,
{
    url::Url::parse(location).ok()
}

/// Calls `url::Url::to_file_path`. Which URLs lead to a path, and to which,
/// is for the platform's path rules to say: nothing is claimed of it.
#[verifier::external_body]
fn url_file_path(url: &url::Url) -> (path: Option<PathBuf>) {
    url.to_file_path().ok()
}

/// What is owed for a URL: the local path it leads to, or the refusal of a
/// URL that leads to none.
pub open spec fn local_or_unsupported(path: Option<PathBuf>) -> Result<PathBuf, Error> {
    match path {
        Some(p) => Ok(p),
        None => Err(Error::UnsupportedLocation),
    }
}

/// Accepts a URL that led to a local path and refuses one that did not.
pub fn require_local(path: Option<PathBuf>) -> (local: Result<PathBuf, Error>)
    ensures
        local == local_or_unsupported(path),
{
    match path {
        Some(p) => Ok(p),
        None => Err(Error::UnsupportedLocation),
    }
}

/// The local path behind a location, as the platform writes it. A text that
/// is no URL is refused, and so is a URL that leads to no local path; no
/// other failure occurs. A text without a scheme is never a URL.
pub fn local_path(location: &str) -> (local: Result<PathBuf, Error>)
    ensures
        local is Err ==> local == Err::<PathBuf, _>(Error::UnsupportedLocation),
        lacks_scheme(location@) ==> local is Err,
{
    match parse_url(location) {
        Some(url) => require_local(url_file_path(&url)),
        None => Err(Error::UnsupportedLocation),
    }
}

impl FileMeta {
    /// The local path of the file, if it has one: that of its location. A
    /// location that is no URL for want of a scheme is always refused.
    pub fn local_path(&self) -> (local: Result<PathBuf, Error>)
        ensures
            local is Err ==> local == Err::<PathBuf, _>(Error::UnsupportedLocation),
            lacks_scheme(self.location@) ==> local is Err,
    {
        local_path(self.location.as_str())
    }
}

} // verus!
