//! The sub-array driver: the calls of the RAID engine, with the rules on
//! names, members and levels that hold before any of them is made.

use vstd::prelude::*;
use vstd::string::StringExecFns;
use crate::command::{push_all, Invocation, InvocationModel};
use crate::decimal::{decimal_digits, decimal_string, parse_decimal, parsed};
use crate::error::PoolError;
use crate::mapper::is_raid_level;
use crate::text::{from_chars, skip_repeats, starts_with, texts, to_chars, trimmed_start};

verus! {

/// The program that manages the sub-arrays.
pub const MDADM: &'static str = "mdadm";

/// What every device path begins with.
pub const DEV_PREFIX: &'static str = "/dev/";

/// The longest name, in bytes, that a sub-array can have once its prefix is
/// taken off.
pub const MAX_NAME_BYTES: usize = 32;

/// The name of a sub-array as the engine counts it: the device path without
/// its leading `/dev/`, `md` and `/`.
pub open spec fn stripped_name(raid_dev: Seq<char>) -> Seq<char> {
    trimmed_start(trimmed_start(trimmed_start(raid_dev, DEV_PREFIX@), "md"@), "/"@)
}

/// The number of bytes that a text takes.
pub open spec fn byte_len(text: Seq<char>) -> nat {
    vstd::utf8::encode_utf8(text).len()
}

/// The path is a device path.
pub open spec fn is_device_path(path: Seq<char>) -> bool {
    DEV_PREFIX@.is_prefix_of(path)
}

/// Every member is a device path.
pub open spec fn all_device_paths(members: Seq<Seq<char>>) -> bool {
    forall|i: int| 0 <= i < members.len() ==> is_device_path(#[trigger] members[i])
}

/// The name of a sub-array is in order: a device path, and short enough once
/// stripped.
pub open spec fn is_valid_name(raid_dev: Seq<char>) -> bool {
    is_device_path(raid_dev) && byte_len(stripped_name(raid_dev)) <= MAX_NAME_BYTES
}

/// The fault, if any, in the name and the members of a call: a bad name
/// comes before a bad member.
pub open spec fn call_fault(raid_dev: Seq<char>, members: Seq<Seq<char>>) -> Option<PoolError> {
    if !is_valid_name(raid_dev) {
        Some(PoolError::BadName)
    } else if !all_device_paths(members) {
        Some(PoolError::BadDevice)
    } else {
        None
    }
}

/// Strips a sub-array's device path down to its name.
pub fn strip_name(raid_dev: &str) -> (name: String)
    ensures
        name@ == stripped_name(raid_dev@),
{
    let chars = to_chars(raid_dev);
    let dev = to_chars(DEV_PREFIX);
    let md = to_chars("md");
    let slash = to_chars("/");
    let a = skip_repeats(&chars, 0, &dev);
    let b = skip_repeats(&chars, a, &md);
    let c = skip_repeats(&chars, b, &slash);
    proof {
        assert(chars@.skip(0) =~= chars@);
        assert(chars@.skip(c as int) =~= chars@.subrange(c as int, chars@.len() as int));
    }
    from_chars(&chars, c, chars.len())
}

/// Tests the name of a sub-array.
pub fn check_name(raid_dev: &str) -> (valid: bool)
    ensures
        valid == is_valid_name(raid_dev@),
{
    if !starts_with(raid_dev, DEV_PREFIX) {
        return false;
    }
    let name = strip_name(raid_dev);
    let bytes = name.as_str().as_bytes();
    bytes.len() <= MAX_NAME_BYTES
}

/// Tests that every member is a device path.
pub fn check_members(members: &Vec<String>) -> (valid: bool)
    ensures
        valid == all_device_paths(texts(members@)),
{
    let mut i: usize = 0;
    while i < members.len()
        invariant
            0 <= i <= members@.len(),
            forall|k: int| 0 <= k < i ==> is_device_path(#[trigger] texts(members@)[k]),
        decreases members.len() - i,
    {
        if !starts_with(members[i].as_str(), DEV_PREFIX) {
            assert(!is_device_path(texts(members@)[i as int]));
            return false;
        }
        i = i + 1;
    }
    true
}

/// Tests the name and the members of a call.
pub fn check_call(raid_dev: &str, members: &Vec<String>) -> (outcome: Result<(), PoolError>)
    ensures
        match outcome {
            Ok(_) => call_fault(raid_dev@, texts(members@)) is None,
            Err(e) => call_fault(raid_dev@, texts(members@)) == Some(e),
        },
{
    if !check_name(raid_dev) {
        Err(PoolError::BadName)
    } else if !check_members(members) {
        Err(PoolError::BadDevice)
    } else {
        Ok(())
    }
}

/// The device path under which the engine creates a sub-array: numbered
/// arrays stand directly under `/dev`, named ones in `/dev/md`.
pub open spec fn md_device_path(raid_dev: Seq<char>) -> Seq<char> {
    let name = stripped_name(raid_dev);
    if parsed(name) is Some {
        "/dev/md"@ + name
    } else {
        "/dev/md/"@ + name
    }
}

/// The argument that asks for a RAID level.
pub open spec fn level_argument(level: nat) -> Seq<char> {
    "--level="@ + decimal_digits(level)
}

/// The call that creates a sub-array with an internal bitmap and metadata of
/// version 1.2.
pub open spec fn create_call(raid_dev: Seq<char>, members: Seq<Seq<char>>, level: nat)
    -> InvocationModel {
    InvocationModel {
        program: MDADM@,
        args: seq![
            "--create"@,
            md_device_path(raid_dev),
            "--metadata"@,
            "1.2"@,
            level_argument(level),
            "--raid-devices"@,
            decimal_digits(members.len()),
            "--bitmap=internal"@,
        ] + members,
    }
}

/// A call that names a sub-array, an action, and the members it applies to.
pub open spec fn member_call(raid_dev: Seq<char>, action: Seq<char>, members: Seq<Seq<char>>)
    -> InvocationModel {
    InvocationModel { program: MDADM@, args: seq![raid_dev, action] + members }
}

/// The call that changes the level of a sub-array.
pub open spec fn grow_call(raid_dev: Seq<char>, level: nat) -> InvocationModel {
    InvocationModel { program: MDADM@, args: seq!["--grow"@, raid_dev, level_argument(level)] }
}

/// The call that reports on a sub-array or a partition.
pub open spec fn detail_call(dev: Seq<char>) -> InvocationModel {
    InvocationModel { program: MDADM@, args: seq!["--detail"@, dev] }
}

/// The model of a call, or the error in its place.
pub open spec fn call_model(call: Result<Invocation, PoolError>) -> Result<
    InvocationModel,
    PoolError,
> {
    match call {
        Ok(invocation) => Ok(invocation@),
        Err(e) => Err(e),
    }
}

/// What creating a sub-array comes to: a bad level is refused first, then a
/// bad name, then a bad member.
pub open spec fn create_outcome(raid_dev: Seq<char>, members: Seq<Seq<char>>, level: nat)
    -> Result<InvocationModel, PoolError> {
    if !is_raid_level(level as int) {
        Err(PoolError::BadLevel)
    } else {
        match call_fault(raid_dev, members) {
            Some(e) => Err(e),
            None => Ok(create_call(raid_dev, members, level)),
        }
    }
}

/// What a call on the members of a sub-array comes to.
pub open spec fn member_outcome(raid_dev: Seq<char>, action: Seq<char>, members: Seq<Seq<char>>)
    -> Result<InvocationModel, PoolError> {
    match call_fault(raid_dev, members) {
        Some(e) => Err(e),
        None => Ok(member_call(raid_dev, action, members)),
    }
}

/// What changing the level of a sub-array comes to.
pub open spec fn grow_outcome(raid_dev: Seq<char>, level: nat) -> Result<
    InvocationModel,
    PoolError,
> {
    if !is_valid_name(raid_dev) {
        Err(PoolError::BadName)
    } else if !is_raid_level(level as int) {
        Err(PoolError::BadLevel)
    } else {
        Ok(grow_call(raid_dev, level))
    }
}

/// The argument that asks for a RAID level.
fn level_arg(level: usize) -> (arg: String)
    ensures
        arg@ == level_argument(level as nat),
{
    let digits = decimal_string(level);
    "--level=".to_owned().concat(digits.as_str())
}

/// The device path under which the engine creates the sub-array.
fn device_path(raid_dev: &str) -> (path: String)
    ensures
        path@ == md_device_path(raid_dev@),
{
    let name = strip_name(raid_dev);
    if parse_decimal(name.as_str()).is_some() {
        "/dev/md".to_owned().concat(name.as_str())
    } else {
        "/dev/md/".to_owned().concat(name.as_str())
    }
}

/// Create a new RAID array from the given partitions.
pub fn create_raid_array(raid_dev: &str, partitions: &Vec<String>, raid_level: usize) -> (call:
    Result<Invocation, PoolError>)
    ensures
        call_model(call) == create_outcome(raid_dev@, texts(partitions@), raid_level as nat),
{
    if !(raid_level == 0 || raid_level == 1 || raid_level == 5 || raid_level == 6) {
        return Err(PoolError::BadLevel);
    }
    match check_call(raid_dev, partitions) {
        Err(e) => {
            return Err(e);
        },
        Ok(_) => {},
    }
    let mut args: Vec<String> = Vec::new();
    args.push("--create".to_owned());
    args.push(device_path(raid_dev));
    args.push("--metadata".to_owned());
    args.push("1.2".to_owned());
    args.push(level_arg(raid_level));
    args.push("--raid-devices".to_owned());
    args.push(decimal_string(partitions.len()));
    args.push("--bitmap=internal".to_owned());
    proof {
        assert(texts(args@) =~= seq![
            "--create"@,
            md_device_path(raid_dev@),
            "--metadata"@,
            "1.2"@,
            level_argument(raid_level as nat),
            "--raid-devices"@,
            decimal_digits(partitions@.len()),
            "--bitmap=internal"@,
        ]);
    }
    push_all(&mut args, partitions);
    let invocation = Invocation { program: MDADM.to_owned(), args };
    proof {
        assert(invocation.args.deep_view() =~= texts(invocation.args@));
    }
    Ok(invocation)
}

/// A call on members of a sub-array, once name and members are in order.
fn member_invocation(raid_dev: &str, action: &str, partitions: &Vec<String>) -> (call: Result<
    Invocation,
    PoolError,
>)
    ensures
        call_model(call) == member_outcome(raid_dev@, action@, texts(partitions@)),
{
    match check_call(raid_dev, partitions) {
        Err(e) => {
            return Err(e);
        },
        Ok(_) => {},
    }
    let mut args: Vec<String> = Vec::new();
    args.push(raid_dev.to_owned());
    args.push(action.to_owned());
    proof {
        assert(texts(args@) =~= seq![raid_dev@, action@]);
    }
    push_all(&mut args, partitions);
    let invocation = Invocation { program: MDADM.to_owned(), args };
    proof {
        assert(invocation.args.deep_view() =~= texts(invocation.args@));
    }
    Ok(invocation)
}

/// Mark partitions of a sub-array as faulty.
pub fn fail_from_raid_array(raid_dev: &str, partitions: &Vec<String>) -> (call: Result<
    Invocation,
    PoolError,
>)
    ensures
        call_model(call) == member_outcome(raid_dev@, "--fail"@, texts(partitions@)),
{
    member_invocation(raid_dev, "--fail", partitions)
}

/// Remove partitions from a sub-array.
pub fn remove_from_raid_array(raid_dev: &str, partitions: &Vec<String>) -> (call: Result<
    Invocation,
    PoolError,
>)
    ensures
        call_model(call) == member_outcome(raid_dev@, "--remove"@, texts(partitions@)),
{
    member_invocation(raid_dev, "--remove", partitions)
}

/// Add partitions to an existing sub-array.
pub fn add_to_raid_array(raid_dev: &str, partitions: &Vec<String>) -> (call: Result<
    Invocation,
    PoolError,
>)
    ensures
        call_model(call) == member_outcome(raid_dev@, "--add"@, texts(partitions@)),
{
    member_invocation(raid_dev, "--add", partitions)
}

/// Change the level of a sub-array.
pub fn grow_raid_array(raid_dev: &str, raid_level: usize) -> (call: Result<Invocation, PoolError>)
    ensures
        call_model(call) == grow_outcome(raid_dev@, raid_level as nat),
{
    if !check_name(raid_dev) {
        return Err(PoolError::BadName);
    }
    if !(raid_level == 0 || raid_level == 1 || raid_level == 5 || raid_level == 6) {
        return Err(PoolError::BadLevel);
    }
    let mut args: Vec<String> = Vec::new();
    args.push("--grow".to_owned());
    args.push(raid_dev.to_owned());
    args.push(level_arg(raid_level));
    let invocation = Invocation { program: MDADM.to_owned(), args };
    proof {
        assert(invocation.args.deep_view() =~= seq![
            "--grow"@,
            raid_dev@,
            level_argument(raid_level as nat),
        ]);
    }
    Ok(invocation)
}

/// The call that asks the engine for its report on a device.
pub fn detail_invocation(dev: &str) -> (call: Invocation)
    ensures
        call@ == detail_call(dev@),
{
    let mut args: Vec<String> = Vec::new();
    args.push("--detail".to_owned());
    args.push(dev.to_owned());
    let invocation = Invocation { program: MDADM.to_owned(), args };
    proof {
        assert(invocation.args.deep_view() =~= seq!["--detail"@, dev@]);
    }
    invocation
}

} // verus!
