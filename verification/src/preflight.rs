//! Capability preflight: whether acquisition may begin at all.  Reading
//! the I/O memory map and loading the probe both demand the administrative
//! capability, so a process without it must stop before touching the
//! kernel.

use vstd::prelude::*;

verus! {

/// Diagnostic returned when the effective set lacks the administrative
/// capability.
pub const ERROR_MISSING_CAPABILITY: &'static str =
    "Missing necessary capabilities (CAP_SYS_ADMIN) - You should try to run emd as root.";

/// Diagnostic returned when the capability query itself failed.
pub const ERROR_CAPABILITY_CHECK: &'static str =
    "Unable to verify capabilities (You should try to run emd as root)";

/// Capability preflight decision: acquisition may proceed only when the
/// effective capability set is known to hold the administrative capability.
/// `query` carries the capability query's answer, `None` when the query
/// itself failed; anything but a positive answer refuses with a diagnostic
/// naming the problem.
pub fn check_capability(query: Option<bool>) -> (r: Result<(), &'static str>)
    ensures
        r is Ok <==> query == Some(true),
        query == Some(false) ==> (r matches Err(m) && m@ == ERROR_MISSING_CAPABILITY@),
        query is None ==> (r matches Err(m) && m@ == ERROR_CAPABILITY_CHECK@),
{
    match query {
        Some(true) => Result::Ok(()),
        Some(false) => Result::Err(ERROR_MISSING_CAPABILITY),
        None => Result::Err(ERROR_CAPABILITY_CHECK),
    }
}

} // verus!
