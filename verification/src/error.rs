//! The ways in which an operation on a pool can fail.

use vstd::prelude::*;

verus! {

/// What was wrong with a request.
#[derive(Debug, Clone, Copy, PartialEq, Eq)]
pub enum InputFault {
    /// The RAID level is none of 0, 1, 5 and 6.
    UnknownRaidLevel,
    /// A pool of that name exists already.
    DuplicateName,
    /// No pool has that name.
    NoSuchArray,
    /// No disks were named.
    MissingDisks,
    /// Fewer disks were named than a pool needs.
    InsufficientDisks,
}

/// Why an operation failed.
#[derive(Debug, PartialEq, Eq)]
pub enum PoolError {
    /// The caller is not the superuser.
    NotRoot,
    /// The request itself is at fault.
    BadInput(InputFault),
    /// A disk or partition path is absent, is no device path, or its
    /// partition table cannot be read.
    BadDevice,
    /// A sub-array name breaks the rules on prefix and length.
    BadName,
    /// A sub-array was asked for at a level other than 0, 1, 5 and 6.
    BadLevel,
    /// A delegated tool failed; the text is what it wrote to standard error.
    EngineError(String),
    /// A field was missing from, or malformed in, a tool's report.
    ParseError,
    /// A new partition did not appear as a device node in time.
    KernelNotReady,
    /// The manifest does not describe pools that could have been made.
    ManifestCorrupt,
    /// A request does not fit in one frame of the daemon's socket.
    RequestTooLarge,
}

/// What the operator is told of each kind of failure.
pub const NOT_ROOT: &'static str = "HyRAID must be run as root. Quitting.";

pub const UNKNOWN_RAID_LEVEL: &'static str =
    "Incorrect RAID level. Only RAID0,RAID1,RAID5 and RAID6 is supported.";

pub const DUPLICATE_NAME: &'static str = "Error: A HyRAID array of that name exists already.";

pub const NO_SUCH_ARRAY: &'static str = "Error: No such HyRAID array.";

pub const MISSING_DISKS: &'static str = "Error: No disks were given.";

pub const INSUFFICIENT_DISKS: &'static str = "Error: A HyRAID array needs two disks or more.";

pub const BAD_DEVICE: &'static str = "Incorrect device path or unreadable partition table.";

pub const BAD_NAME: &'static str = "Incorrect md device name (32 bytes at most, under /dev/).";

pub const BAD_LEVEL: &'static str = "Incorrect raid level.";

pub const PARSE_ERROR: &'static str = "Could not read the details of the RAID array.";

pub const KERNEL_NOT_READY: &'static str = "A new partition did not appear in time.";

pub const MANIFEST_CORRUPT: &'static str = "The HyRAID manifest is corrupt.";

pub const REQUEST_TOO_LARGE: &'static str = "Request is longer than 1024 bytes.";

/// The line for the operator that says what went wrong: a fixed text for
/// each kind of failure, and for a failure of an engine what the engine
/// itself wrote.
pub open spec fn message_text(error: PoolError) -> Seq<char> {
    match error {
        PoolError::NotRoot => NOT_ROOT@,
        PoolError::BadInput(InputFault::UnknownRaidLevel) => UNKNOWN_RAID_LEVEL@,
        PoolError::BadInput(InputFault::DuplicateName) => DUPLICATE_NAME@,
        PoolError::BadInput(InputFault::NoSuchArray) => NO_SUCH_ARRAY@,
        PoolError::BadInput(InputFault::MissingDisks) => MISSING_DISKS@,
        PoolError::BadInput(InputFault::InsufficientDisks) => INSUFFICIENT_DISKS@,
        PoolError::BadDevice => BAD_DEVICE@,
        PoolError::BadName => BAD_NAME@,
        PoolError::BadLevel => BAD_LEVEL@,
        PoolError::EngineError(diagnostic) => diagnostic@,
        PoolError::ParseError => PARSE_ERROR@,
        PoolError::KernelNotReady => KERNEL_NOT_READY@,
        PoolError::ManifestCorrupt => MANIFEST_CORRUPT@,
        PoolError::RequestTooLarge => REQUEST_TOO_LARGE@,
    }
}

impl PoolError {
    /// A line for the operator that says what went wrong.
    pub fn message(&self) -> (text: String)
        ensures
            text@ == message_text(*self),
    {
        match self {
            PoolError::NotRoot => NOT_ROOT.to_owned(),
            PoolError::BadInput(InputFault::UnknownRaidLevel) => UNKNOWN_RAID_LEVEL.to_owned(),
            PoolError::BadInput(InputFault::DuplicateName) => DUPLICATE_NAME.to_owned(),
            PoolError::BadInput(InputFault::NoSuchArray) => NO_SUCH_ARRAY.to_owned(),
            PoolError::BadInput(InputFault::MissingDisks) => MISSING_DISKS.to_owned(),
            PoolError::BadInput(InputFault::InsufficientDisks) => INSUFFICIENT_DISKS.to_owned(),
            PoolError::BadDevice => BAD_DEVICE.to_owned(),
            PoolError::BadName => BAD_NAME.to_owned(),
            PoolError::BadLevel => BAD_LEVEL.to_owned(),
            PoolError::EngineError(diagnostic) => diagnostic.clone(),
            PoolError::ParseError => PARSE_ERROR.to_owned(),
            PoolError::KernelNotReady => KERNEL_NOT_READY.to_owned(),
            PoolError::ManifestCorrupt => MANIFEST_CORRUPT.to_owned(),
            PoolError::RequestTooLarge => REQUEST_TOO_LARGE.to_owned(),
        }
    }
}

} // verus!
