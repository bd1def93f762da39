//! The outcome of a review, and what follows from it.
use vstd::prelude::*;


verus! {

/// The outcome of a review.
#[derive(Debug, Clone, Copy, PartialEq, Eq, Structural)]
pub enum ReviewStatus {
    Passed,
    NeedsChanges,
    ReviewError,
}

/// The word for an outcome.
pub open spec fn status_word(status: ReviewStatus) -> Seq<char> {
    match status {
        ReviewStatus::Passed => "passed"@,
        ReviewStatus::NeedsChanges => "needs_changes"@,
        ReviewStatus::ReviewError => "review_error"@,
    }
}

impl ReviewStatus {
    /// The word for the outcome.
    pub fn as_str(self) -> (r: &'static str)
        ensures
            r@ == status_word(self),
    {
        match self {
            ReviewStatus::Passed => "passed",
            ReviewStatus::NeedsChanges => "needs_changes",
            ReviewStatus::ReviewError => "review_error",
        }
    }
}

/// The exit code of a command that reports an outcome.
pub open spec fn exit_code(status: ReviewStatus) -> u8 {
    match status {
        ReviewStatus::Passed => 0,
        ReviewStatus::NeedsChanges => 2,
        ReviewStatus::ReviewError => 3,
    }
}

/// The exit code of a command that reports an outcome.
pub fn agent_status_exit_code(status: ReviewStatus) -> (r: u8)
    ensures
        r == exit_code(status),
{
    match status {
        ReviewStatus::Passed => 0,
        ReviewStatus::NeedsChanges => 2,
        ReviewStatus::ReviewError => 3,
    }
}

/// Only a passed review exits with success, and each outcome has an exit code of its own.
pub proof fn law_exit_codes(a: ReviewStatus, b: ReviewStatus)
    ensures
        exit_code(a) == 0 <==> a == ReviewStatus::Passed,
        exit_code(a) == exit_code(b) ==> a == b,
{
}

/// The conclusion of the check run.
pub open spec fn check_conclusion(status: ReviewStatus) -> Seq<char> {
    if status == ReviewStatus::Passed {
        "success"@
    } else {
        "failure"@
    }
}

/// The conclusion of the check run: it fails for blockers and for review errors.
pub fn check_run_conclusion_for_status(status: ReviewStatus) -> (r: &'static str)
    ensures
        r@ == check_conclusion(status),
{
    match status {
        ReviewStatus::Passed => "success",
        ReviewStatus::NeedsChanges => "failure",
        ReviewStatus::ReviewError => "failure",
    }
}

// ---------------------------------------------------------------------------
// What holds of it
// ---------------------------------------------------------------------------

/// A status has its word, its exit code and its conclusion, and only a review that passed is
/// a success.
pub proof fn law_statuses(a: ReviewStatus, b: ReviewStatus)
    ensures
        status_word(a) == "passed"@ <==> a == ReviewStatus::Passed,
        status_word(a) == "needs_changes"@ <==> a == ReviewStatus::NeedsChanges,
        status_word(a) == "review_error"@ <==> a == ReviewStatus::ReviewError,
        status_word(a) == status_word(b) ==> a == b,
        exit_code(a) == 2 <==> a == ReviewStatus::NeedsChanges,
        exit_code(a) == 3 <==> a == ReviewStatus::ReviewError,
        check_conclusion(a) == "success"@ <==> exit_code(a) == 0,
        check_conclusion(a) == "failure"@ <==> exit_code(a) != 0,
{
    reveal_strlit("passed");
    reveal_strlit("needs_changes");
    reveal_strlit("review_error");
    reveal_strlit("success");
    reveal_strlit("failure");
    assert("passed"@.len() == 6 && "needs_changes"@.len() == 13 && "review_error"@.len() == 12);
    assert("success"@[0] == 's' && "failure"@[0] == 'f');
}

} // verus!
