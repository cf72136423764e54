//! The errors a standup ends with, and the text each is reported with.

use vstd::prelude::*;

use crate::since::{IntErrorKind, SinceError, SinceFail};

verus! {

/// Why a standup cannot be produced.
#[derive(Debug, PartialEq, Eq)]
pub enum StandupError {
    /// The single-repository scope runs outside a git repository.
    NotGitRepo,
    /// `--repo-dir` (expanded) is not a directory.
    RepoDirNotDirectory(String),
    /// Neither `--repos` nor `--repo-dir` named a repository.
    NoRepos,
    /// `--gh` without the GitHub CLI on `PATH`.
    GhMissing,
    /// `--gh` cannot turn the `--since` window into a date.
    SinceUnsupported(String, SinceError),
    /// `gh search commits` failed; its standard error.
    GhSearchFailed(String),
    /// `--me` with neither `user.email` nor `user.name` configured.
    MeUnset,
}

/// The message of `ParseIntError` for a kind.
pub open spec fn int_error_text(k: IntErrorKind) -> Seq<char> {
    match k {
        IntErrorKind::Empty => "cannot parse integer from empty string"@,
        IntErrorKind::InvalidDigit => "invalid digit found in string"@,
        IntErrorKind::PosOverflow => "number too large to fit in target type"@,
        IntErrorKind::NegOverflow => "number too small to fit in target type"@,
    }
}

/// The text of `ParseIntError` for this kind.
pub fn int_error_message(k: IntErrorKind) -> (s: &'static str)
    ensures
        s@ == int_error_text(k),
{
    match k {
        IntErrorKind::Empty => "cannot parse integer from empty string",
        IntErrorKind::InvalidDigit => "invalid digit found in string",
        IntErrorKind::PosOverflow => "number too large to fit in target type",
        IntErrorKind::NegOverflow => "number too small to fit in target type",
    }
}

/// How a failure to read the `--since` window `since` is described, with its
/// cause after a colon. The last four failures are the points where the
/// computation stops: they are described as what stopped it.
pub open spec fn since_error_text(since: Seq<char>, f: SinceFail) -> Seq<char> {
    match f {
        SinceFail::ExpectedNumber => "expected number"@,
        SinceFail::ExpectedUnit => "expected unit"@,
        SinceFail::Unrecognized => "unrecognized --since spec: '"@ + since + "'"@,
        SinceFail::ExpectedInteger(k) => "expected integer for --since: "@ + int_error_text(k),
        SinceFail::UnsupportedUnit(u) => "unsupported --since unit: '"@ + u + "'"@,
        SinceFail::CannotConvert => "can't convert --since '"@ + since + "' to an ISO date"@,
        SinceFail::MultiplyOverflow => "attempt to multiply with overflow"@,
        SinceFail::DurationOverflow => "overflow constructing `time::SignedDuration`"@,
        SinceFail::OutOfRange => "resulting value is out of range"@,
        SinceFail::NotCharBoundary => "byte index 10 is not a char boundary"@,
    }
}

/// The text a `StandupError` is reported with.
pub open spec fn error_text(e: StandupError) -> Seq<char> {
    match e {
        StandupError::NotGitRepo => "not inside a git repository (use --repos, --repo-dir, or --gh)"@,
        StandupError::RepoDirNotDirectory(d) => "--repo-dir '"@ + d@ + "' is not a directory"@,
        StandupError::NoRepos => "no repos to scan"@,
        StandupError::GhMissing => "--gh requires the GitHub CLI (gh) to be installed and authenticated"@,
        StandupError::SinceUnsupported(since, f) => "--gh can't convert --since '"@ + since@
            + "' to an ISO date; use a relative form (\"1 week ago\", \"yesterday\") or YYYY-MM-DD: "@
            + since_error_text(since@, f@),
        StandupError::GhSearchFailed(err) => "`gh search commits` failed: "@ + crate::text::trim_spec(
            err@,
        ),
        StandupError::MeUnset => "--me passed but neither user.email nor user.name is set"@,
    }
}

/// Describes a failure to read the `--since` window `since`.
pub fn since_error_message(since: &str, e: &SinceError) -> (s: String)
    ensures
        s@ == since_error_text(since@, e@),
{
    let mut s = String::new();
    match e {
        SinceError::ExpectedNumber => s.append("expected number"),
        SinceError::ExpectedUnit => s.append("expected unit"),
        SinceError::Unrecognized => {
            s.append("unrecognized --since spec: '");
            s.append(since);
            s.append("'");
        },
        SinceError::ExpectedInteger(k) => {
            s.append("expected integer for --since: ");
            s.append(int_error_message(*k));
        },
        SinceError::UnsupportedUnit(u) => {
            s.append("unsupported --since unit: '");
            s.append(u.as_str());
            s.append("'");
        },
        SinceError::CannotConvert => {
            s.append("can't convert --since '");
            s.append(since);
            s.append("' to an ISO date");
        },
        SinceError::MultiplyOverflow => s.append("attempt to multiply with overflow"),
        SinceError::DurationOverflow => s.append("overflow constructing `time::SignedDuration`"),
        SinceError::OutOfRange => s.append("resulting value is out of range"),
        SinceError::NotCharBoundary => s.append("byte index 10 is not a char boundary"),
    }
    s
}

impl StandupError {
    /// The text this error is reported with.
    pub fn message(&self) -> (s: String)
        ensures
            s@ == error_text(*self),
    {
        let mut s = String::new();
        match self {
            StandupError::NotGitRepo => s.append(
                "not inside a git repository (use --repos, --repo-dir, or --gh)",
            ),
            StandupError::RepoDirNotDirectory(d) => {
                s.append("--repo-dir '");
                s.append(d.as_str());
                s.append("' is not a directory");
            },
            StandupError::NoRepos => s.append("no repos to scan"),
            StandupError::GhMissing => s.append(
                "--gh requires the GitHub CLI (gh) to be installed and authenticated",
            ),
            StandupError::SinceUnsupported(since, e) => {
                s.append("--gh can't convert --since '");
                s.append(since.as_str());
                s.append(
                    "' to an ISO date; use a relative form (\"1 week ago\", \"yesterday\") or YYYY-MM-DD: ",
                );
                let inner = since_error_message(since.as_str(), e);
                s.append(inner.as_str());
            },
            StandupError::GhSearchFailed(err) => {
                s.append("`gh search commits` failed: ");
                let t = crate::text::trim(err.as_str());
                s.append(t.as_str());
            },
            StandupError::MeUnset => s.append(
                "--me passed but neither user.email nor user.name is set",
            ),
        }
        s
    }
}

} // verus!
