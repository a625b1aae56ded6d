//! The privilege check at entry, and the answer to the question that comes
//! before a pool is created.

use vstd::prelude::*;
use crate::error::PoolError;
use crate::text::same_text;

verus! {

/// What the operator is asked before the disks of a new pool are wiped.
pub const CONFIRMATION_PROMPT: &'static str =
    "All data on the disks will be lost. Are you sure? [y/N]: ";

/// The real user ID of the process, by `nix::unistd::getuid`, which never
/// fails. It depends on who runs the process and nothing is claimed of it.
#[verifier::external_body]
fn current_uid() -> u32 {
    nix::unistd::getuid().as_raw()
}

/// Whether a user ID is that of the superuser.
pub fn is_root_uid(uid: u32) -> (root: bool)
    ensures
        root == (uid == 0),
{
    uid == 0
}

/// Whether the process runs as the superuser.
pub fn is_root() -> bool {
    is_root_uid(current_uid())
}

/// The privilege check for a user ID: only the superuser may go on.
pub fn check_privilege(uid: u32) -> (outcome: Result<(), PoolError>)
    ensures
        uid == 0 ==> outcome is Ok,
        uid != 0 ==> outcome == Err::<(), PoolError>(PoolError::NotRoot),
{
    if is_root_uid(uid) {
        Ok(())
    } else {
        Err(PoolError::NotRoot)
    }
}

/// Whether the operator's reply to the prompt confirms: only `y` does.
pub fn confirms(reply: &str) -> (confirmed: bool)
    ensures
        confirmed == (reply@ == "y"@),
{
    same_text(reply, "y")
}

/// The exit code of the program for the outcome of an operation: 0 for
/// success, 1 for any failure.
pub fn exit_code<T>(outcome: &Result<T, PoolError>) -> (code: i32)
    ensures
        outcome is Ok ==> code == 0,
        outcome is Err ==> code == 1,
{
    match outcome {
        Ok(_) => 0,
        Err(_) => 1,
    }
}

} // verus!
