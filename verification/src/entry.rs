//! Filtering of registry entries into classification candidates.
//!
//! An entry qualifies when it names a repository and was first released
//! strictly after a cutoff instant. A qualifying entry's repository URL,
//! stripped of the known code-hosting prefix, becomes the candidate
//! identifier. A missing or unparsable release date on an entry that names a
//! repository is a per-entry error, surfaced rather than silently coerced
//! into exclusion.

use crate::probe::{github_host, spec_github_host};
use crate::text::{strip_all, strip_prefix_all};
use vstd::prelude::*;

verus! {

/// What one registry entry carries, as far as the filter reads it: an
/// optional repository URL and an optional release date, both byte strings.
pub struct EntryMeta {
    pub code_repository: Option<Vec<u8>>,
    pub first_released: Option<Vec<u8>>,
}

/// Why one entry could not be filtered.
#[derive(Clone, Copy, Debug, PartialEq, Eq, Structural)]
pub enum EntryError {
    /// The entry names a repository but carries no release date.
    MissingReleaseDate,
    /// The release date does not parse as an RFC 3339 timestamp.
    InvalidReleaseDate,
}

/// The instant an RFC 3339 timestamp text denotes, in milliseconds since the
/// Unix epoch, or nothing when the text is not a valid timestamp (or not
/// UTF-8). The instant is a function of the text alone.
pub uninterp spec fn rfc3339_millis(s: Seq<u8>) -> Option<i64>;

/// Relies on `chrono::DateTime::parse_from_rfc3339` and
/// `chrono::DateTime::timestamp_millis`: parsing accepts exactly the valid
/// RFC 3339 date-and-time strings, and both depend on the text alone.
#[verifier::external_body]
fn parse_rfc3339_millis(s: &Vec<u8>) -> (r: Option<i64>)
    ensures
        r == rfc3339_millis(s@),
{
    match std::str::from_utf8(s.as_slice()) {
        Ok(text) => match chrono::DateTime::parse_from_rfc3339(text) {
            Ok(instant) => Some(instant.timestamp_millis()),
            Err(_) => None,
        },
        Err(_) => None,
    }
}

/// The view of an optional byte string.
pub open spec fn opt_view(o: Option<Vec<u8>>) -> Option<Seq<u8>> {
    match o {
        Option::None => Option::None,
        Option::Some(v) => Option::Some(v@),
    }
}

/// What the filter decides for one entry:
/// no repository, an empty repository URL, or a release at or before the
/// cutoff excludes the entry; a missing or unparsable date on an entry that
/// names a repository is that entry's error; otherwise the candidate is the
/// repository URL with the code-hosting prefix stripped.
pub open spec fn spec_filter_entry(
    repo: Option<Seq<u8>>,
    released: Option<Seq<u8>>,
    cutoff_millis: i64,
) -> Result<Option<Seq<u8>>, EntryError> {
    match repo {
        Option::None => Result::Ok(Option::None),
        Option::Some(url) => if url.len() == 0 {
            Result::Ok(Option::None)
        } else {
            match released {
                Option::None => Result::Err(EntryError::MissingReleaseDate),
                Option::Some(date) => match rfc3339_millis(date) {
                    Option::None => Result::Err(EntryError::InvalidReleaseDate),
                    Option::Some(instant) => if instant > cutoff_millis {
                        Result::Ok(Option::Some(strip_all(url, spec_github_host())))
                    } else {
                        Result::Ok(Option::None)
                    },
                },
            }
        },
    }
}

/// The view of what the executable filter returns.
pub open spec fn filter_result_view(r: Result<Option<Vec<u8>>, EntryError>) -> Result<
    Option<Seq<u8>>,
    EntryError,
> {
    match r {
        Result::Ok(c) => Result::Ok(opt_view(c)),
        Result::Err(e) => Result::Err(e),
    }
}

/// Decide whether one registry entry qualifies for classification, and under
/// which candidate identifier.
pub fn filter_entry(meta: &EntryMeta, cutoff_millis: i64) -> (r: Result<
    Option<Vec<u8>>,
    EntryError,
>)
    ensures
        filter_result_view(r) == spec_filter_entry(
            opt_view(meta.code_repository),
            opt_view(meta.first_released),
            cutoff_millis,
        ),
{
    match &meta.code_repository {
        Option::None => Result::Ok(Option::None),
        Option::Some(url) => {
            if url.len() == 0 {
                Result::Ok(Option::None)
            } else {
                match &meta.first_released {
                    Option::None => Result::Err(EntryError::MissingReleaseDate),
                    Option::Some(date) => {
                        match parse_rfc3339_millis(date) {
                            Option::None => Result::Err(EntryError::InvalidReleaseDate),
                            Option::Some(instant) => {
                                if instant > cutoff_millis {
                                    let host = github_host();
                                    let candidate = strip_prefix_all(url, &host);
                                    Result::Ok(Option::Some(candidate))
                                } else {
                                    Result::Ok(Option::None)
                                }
                            },
                        }
                    },
                }
            }
        },
    }
}

/// The candidate identifier of a repository URL taken from a pre-computed
/// tabular listing, where no date filter applies: the URL with the
/// code-hosting prefix stripped.
pub fn candidate_from_url(url: &Vec<u8>) -> (r: Vec<u8>)
    ensures
        r@ == strip_all(url@, spec_github_host()),
{
    let host = github_host();
    strip_prefix_all(url, &host)
}

} // verus!
