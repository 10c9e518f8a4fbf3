//! What version control says of the repository, as plain values.

use vstd::prelude::*;
use crate::types::GitInfo;

verus! {

/// The `YYYY-MM-DD` text of the UTC day that holds the instant `seconds`
/// after the epoch.
pub uninterp spec fn utc_day(seconds: int) -> Seq<char>;

/// The last second of the year 9999.
pub const LAST_SECOND_OF_9999: i64 = 253_402_300_799;

/// Relies on chrono's DateTime::from_timestamp, which fails only outside its
/// range of dates (a range that holds the years 1970 to 9999), and on
/// formatting the instant with `%Y-%m-%d`, whose year has four digits there.
#[verifier::external_body]
fn day_of_timestamp(seconds: i64) -> (r: Option<String>)
    ensures
        r matches Some(s) ==> s@ == utc_day(seconds as int) && (0 <= seconds <= LAST_SECOND_OF_9999 ==> s@.len() == 10),
        0 <= seconds <= LAST_SECOND_OF_9999 ==> r is Some,
{
    match chrono::DateTime::from_timestamp(seconds, 0) {
        Some(d) => Some(d.format("%Y-%m-%d").to_string()),
        None => None,
    }
}

/// The day of a commit made `seconds` after the epoch; when that instant is
/// out of range, the day of `now_seconds` instead, and the empty text when
/// both are.
pub fn commit_date(seconds: i64, now_seconds: i64) -> (r: String)
    ensures
        0 <= seconds <= LAST_SECOND_OF_9999 ==> r@ == utc_day(seconds as int),
        r@ == utc_day(seconds as int) || r@ == utc_day(now_seconds as int) || r@.len() == 0,
{
    match day_of_timestamp(seconds) {
        Some(d) => d,
        None => match day_of_timestamp(now_seconds) {
            Some(d) => d,
            None => String::new(),
        },
    }
}

impl GitInfo {
    /// The facts of the head commit: its branch (`unknown` when the head has
    /// no short name), hash, author (`Unknown` when not valid text), the
    /// author's e-mail, and its day.
    pub fn from_commit(branch: Option<String>, commit_hash: String, author: Option<String>, email: Option<String>, date: String) -> (r: GitInfo)
        ensures
            r.is_repo,
            r.commit_hash == Some(commit_hash),
            r.branch matches Some(b) && b@ == (match branch { Some(x) => x@, None => "unknown"@ }),
            r.author matches Some(a) && a@ == (match author { Some(x) => x@, None => "Unknown"@ }),
            r.email == email,
            r.date == Some(date),
    {
        let branch = match branch {
            Some(b) => b,
            None => String::from_str("unknown"),
        };
        let author = match author {
            Some(a) => a,
            None => String::from_str("Unknown"),
        };
        GitInfo { is_repo: true, commit_hash: Some(commit_hash), branch: Some(branch), author: Some(author), email, date: Some(date) }
    }

    /// The facts of a directory that is not a repository.
    pub fn unavailable() -> (r: GitInfo)
        ensures
            !r.is_repo,
            r.commit_hash is None,
            r.branch is None,
            r.author is None,
            r.email is None,
            r.date is None,
    {
        GitInfo { is_repo: false, commit_hash: None, branch: None, author: None, email: None, date: None }
    }
}

} // verus!
