//! The rules for changing and listing saved links: the statuses and
//! priorities a link can have, what an update must name, and how a change
//! that touched nothing is answered.

use vstd::prelude::*;
use crate::error::{AppError, ErrorKind};
use crate::text::{spec_trim, str_eq, trim};

verus! {

pub const NOTHING_TO_UPDATE: &'static str = "Choose a status or priority to update.";
pub const UNKNOWN_STATUS: &'static str = "Unknown status.";
pub const UNKNOWN_PRIORITY: &'static str = "Unknown priority.";
pub const TOKEN_GONE: &'static str = "That feed token no longer exists or is already revoked.";

/// The statuses a saved link can have.
pub open spec fn is_status(s: Seq<char>) -> bool {
    s == "queue"@ || s == "read"@ || s == "archived"@
}

/// The priorities a saved link can have.
pub open spec fn is_priority(p: Seq<char>) -> bool {
    p == "next"@ || p == "soon"@ || p == "later"@
}

/// The characters of an optional string slice.
pub open spec fn opt_str_view(o: Option<&str>) -> Option<Seq<char>> {
    match o {
        Some(s) => Some(s@),
        None => None,
    }
}

/// Whether `s` is one of the statuses.
pub fn status_known(s: &str) -> (b: bool)
    ensures
        b == is_status(s@),
{
    str_eq(s, "queue") || str_eq(s, "read") || str_eq(s, "archived")
}

/// Whether `p` is one of the priorities.
pub fn priority_known(p: &str) -> (b: bool)
    ensures
        b == is_priority(p@),
{
    str_eq(p, "next") || str_eq(p, "soon") || str_eq(p, "later")
}

/// An update request must name a status or a priority.
pub fn require_change(status: Option<&str>, priority: Option<&str>) -> (r: Result<(), AppError>)
    ensures
        (status is None && priority is None) ==> (r matches Err(e) && e.is(ErrorKind::Bad, NOTHING_TO_UPDATE@)),
        !(status is None && priority is None) ==> r is Ok,
{
    if status.is_none() && priority.is_none() {
        return Err(AppError::bad(NOTHING_TO_UPDATE));
    }
    Ok(())
}

/// The refusal of an update's new status or priority, if any: an unknown
/// status is refused first, then an unknown priority.
pub open spec fn update_refusal(status: Option<Seq<char>>, priority: Option<Seq<char>>) -> Option<Seq<char>> {
    if status matches Some(s) && !is_status(s) {
        Some(UNKNOWN_STATUS@)
    } else if priority matches Some(p) && !is_priority(p) {
        Some(UNKNOWN_PRIORITY@)
    } else {
        None
    }
}

/// Checks the new status and priority of an update; a value that is given
/// must be one of the known ones.
pub fn check_update(status: Option<&str>, priority: Option<&str>) -> (r: Result<(), AppError>)
    ensures
        match update_refusal(opt_str_view(status), opt_str_view(priority)) {
            Some(msg) => r matches Err(e) && e.is(ErrorKind::Bad, msg),
            None => r is Ok,
        },
{
    if let Some(s) = status {
        if !status_known(s) {
            return Err(AppError::bad(UNKNOWN_STATUS));
        }
    }
    if let Some(p) = priority {
        if !priority_known(p) {
            return Err(AppError::bad(UNKNOWN_PRIORITY));
        }
    }
    Ok(())
}

/// A change that touched no row is answered with "not found", with the
/// given message.
pub fn require_affected(rows_affected: u64, message: &str) -> (r: Result<(), AppError>)
    ensures
        rows_affected == 0 ==> (r matches Err(e) && e.is(ErrorKind::Missing, message@)),
        rows_affected != 0 ==> r is Ok,
{
    if rows_affected == 0 {
        return Err(AppError::not_found(message));
    }
    Ok(())
}

/// The filters a listing is made with: the status to keep (empty for all)
/// and the trimmed search text (empty for none).
pub fn list_filter(status: Option<&str>, search: Option<&str>) -> (filter: (String, String))
    ensures
        filter.0@ == match status { Some(s) => s@, None => Seq::<char>::empty() },
        filter.1@ == match search { Some(s) => spec_trim(s@), None => spec_trim(Seq::<char>::empty()) },
{
    let wanted = match status {
        Some(s) => s.to_owned(),
        None => String::new(),
    };
    let term = match search {
        Some(s) => trim(s),
        None => trim(""),
    };
    proof {
        reveal_strlit("");
    }
    (wanted, term)
}

/// A status given in an update is refused, with "Unknown status.", exactly
/// when it is none of "queue", "read" and "archived", whatever the
/// priority; without a status, a priority is refused exactly when it is
/// none of "next", "soon" and "later"; an update naming neither is not
/// refused by this check.
pub proof fn lemma_update_values(s: Seq<char>, priority: Option<Seq<char>>, p: Seq<char>)
    ensures
        (update_refusal(Some(s), priority) == Some(UNKNOWN_STATUS@))
            <==> !(s == "queue"@ || s == "read"@ || s == "archived"@),
        (s == "queue"@ || s == "read"@ || s == "archived"@) ==> update_refusal(Some(s), None) is None,
        (update_refusal(None, Some(p)) is None) <==> (p == "next"@ || p == "soon"@ || p == "later"@),
        update_refusal(None, Some(p)) is Some ==> update_refusal(None, Some(p)) == Some(UNKNOWN_PRIORITY@),
        update_refusal(None, None) is None,
        (s == "queue"@ || s == "read"@ || s == "archived"@) ==> (
            (update_refusal(Some(s), Some(p)) is None) <==> (p == "next"@ || p == "soon"@ || p == "later"@)),
{
    reveal_strlit("Unknown status.");
    reveal_strlit("Unknown priority.");
    assert(UNKNOWN_STATUS@[8] != UNKNOWN_PRIORITY@[8]);
}

} // verus!
