//! Marking members of a pool faulty and taking them out: which sub-array
//! holds a partition, what is asked of the engine, and what stays in the
//! manifest.

use vstd::prelude::*;
use crate::command::{Invocation, InvocationModel};
use crate::controller::{calls_model, disk_layout, models, Plan};
use crate::error::{InputFault, PoolError};
use crate::manifest::{find_array, has_name, is_first_named};
use crate::mdadm::{call_model, fail_from_raid_array, member_outcome, remove_from_raid_array};
use crate::text::texts;
use crate::types::{
    clone_disks, DiskPartition, HyraidArray, PartitionModel, RaidMap,
};

verus! {

/// What is done to a member.
#[derive(Debug, Clone, Copy, PartialEq, Eq)]
pub enum MemberAction {
    /// It is marked faulty.
    Fail,
    /// It is taken out of its sub-array.
    Remove,
}

/// The engine's word for an action.
pub open spec fn action_text(action: MemberAction) -> Seq<char> {
    match action {
        MemberAction::Fail => "--fail"@,
        MemberAction::Remove => "--remove"@,
    }
}

/// Some member is the partition `p`: same path, same size.
pub open spec fn has_member(members: Seq<DiskPartition>, p: PartitionModel) -> bool {
    exists|i: int| 0 <= i < members.len() && (#[trigger] members[i])@ == p
}

/// Sub-array `i` is the first of the map that holds the partition `p`.
pub open spec fn is_first_holder(
    map: Seq<(String, Vec<DiskPartition>)>,
    p: PartitionModel,
    i: int,
) -> bool {
    &&& 0 <= i < map.len()
    &&& has_member(map[i].1@, p)
    &&& forall|k: int| 0 <= k < i ==> !has_member((#[trigger] map[k]).1@, p)
}

/// The first sub-array of the map that holds the partition `p`, if any does.
pub open spec fn holder(map: Seq<(String, Vec<DiskPartition>)>, p: PartitionModel) -> Option<int> {
    if exists|i: int| is_first_holder(map, p, i) {
        Some(choose|i: int| is_first_holder(map, p, i))
    } else {
        None
    }
}

/// Whether two partitions are the same: same path, same size.
pub fn same_partition(a: &DiskPartition, b: &DiskPartition) -> (same: bool)
    ensures
        same == (a@ == b@),
{
    if a.size != b.size {
        return false;
    }
    match (&a.path, &b.path) {
        (Some(x), Some(y)) => *x == *y,
        (None, None) => true,
        _ => false,
    }
}

/// Whether some member is the given partition.
pub fn holds_partition(members: &Vec<DiskPartition>, p: &DiskPartition) -> (held: bool)
    ensures
        held == has_member(members@, p@),
{
    let mut i: usize = 0;
    while i < members.len()
        invariant
            0 <= i <= members@.len(),
            forall|k: int| 0 <= k < i ==> (#[trigger] members@[k])@ != p@,
        decreases members.len() - i,
    {
        if same_partition(&members[i], p) {
            return true;
        }
        i = i + 1;
    }
    false
}

/// Finds the first sub-array that holds the given partition.
pub fn find_holder(map: &RaidMap, p: &DiskPartition) -> (place: Option<usize>)
    ensures
        match place {
            Some(i) => holder(map@, p@) == Some(i as int) && i < map@.len(),
            None => holder(map@, p@) is None,
        },
{
    let mut i: usize = 0;
    while i < map.len()
        invariant
            0 <= i <= map@.len(),
            forall|k: int| 0 <= k < i ==> !has_member((#[trigger] map@[k]).1@, p@),
        decreases map.len() - i,
    {
        if holds_partition(&map[i].1, p) {
            proof {
                assert(is_first_holder(map@, p@, i as int));
                let c = choose|c: int| is_first_holder(map@, p@, c);
                assert(c == i) by {
                    if c < i {
                        assert(!has_member(map@[c].1@, p@));
                    }
                    if i < c {
                        assert(!has_member(map@[i as int].1@, p@));
                    }
                }
            }
            return Some(i);
        }
        i = i + 1;
    }
    proof {
        assert forall|c: int| !is_first_holder(map@, p@, c) by {
            if 0 <= c < map@.len() {
                assert(!has_member(map@[c].1@, p@));
            }
        }
    }
    None
}

/// The call that applies an action to one partition in its sub-array; a
/// partition without a path cannot be named to the engine.
pub open spec fn member_call_for(array: Seq<char>, action: MemberAction, p: DiskPartition)
    -> Result<InvocationModel, PoolError> {
    match p.path {
        None => Err(PoolError::BadDevice),
        Some(path) => member_outcome(array, action_text(action), seq![path@]),
    }
}

/// The calls that apply an action to each of the partitions that some
/// sub-array of the map holds, in the order of the partitions; partitions
/// that no sub-array holds are passed over, and the first call that cannot
/// be made decides the error.
pub open spec fn member_calls(
    map: Seq<(String, Vec<DiskPartition>)>,
    action: MemberAction,
    partitions: Seq<DiskPartition>,
) -> Result<Seq<InvocationModel>, PoolError>
    decreases partitions.len(),
{
    if partitions.len() == 0 {
        Ok(Seq::empty())
    } else {
        match member_calls(map, action, partitions.drop_last()) {
            Err(e) => Err(e),
            Ok(calls) => match holder(map, partitions.last()@) {
                None => Ok(calls),
                Some(i) => match member_call_for(map[i].0@, action, partitions.last()) {
                    Err(e) => Err(e),
                    Ok(call) => Ok(calls.push(call)),
                },
            },
        }
    }
}

/// Once a call cannot be made, the error stays whatever partitions follow.
pub proof fn lemma_member_calls_fail(
    map: Seq<(String, Vec<DiskPartition>)>,
    action: MemberAction,
    partitions: Seq<DiskPartition>,
    m: int,
)
    requires
        0 <= m <= partitions.len(),
        member_calls(map, action, partitions.take(m)) is Err,
    ensures
        member_calls(map, action, partitions) == member_calls(map, action, partitions.take(m)),
    decreases partitions.len(),
{
    if m == partitions.len() {
        assert(partitions.take(m) =~= partitions);
    } else {
        assert(partitions.drop_last().take(m) =~= partitions.take(m));
        lemma_member_calls_fail(map, action, partitions.drop_last(), m);
    }
}

/// Makes the call that applies an action to one partition in a sub-array.
pub fn member_command(array: &str, action: MemberAction, p: &DiskPartition) -> (call: Result<
    Invocation,
    PoolError,
>)
    ensures
        call_model(call) == member_call_for(array@, action, *p),
{
    match &p.path {
        None => Err(PoolError::BadDevice),
        Some(path) => {
            let mut paths: Vec<String> = Vec::new();
            paths.push(path.clone());
            proof {
                assert(texts(paths@) =~= seq![path@]);
            }
            match action {
                MemberAction::Fail => fail_from_raid_array(array, &paths),
                MemberAction::Remove => remove_from_raid_array(array, &paths),
            }
        },
    }
}

/// Makes the calls that apply an action to the partitions that the map
/// holds.
pub fn member_commands(map: &RaidMap, action: MemberAction, partitions: &Vec<DiskPartition>) -> (calls:
    Result<Vec<Invocation>, PoolError>)
    ensures
        calls_model(calls) == member_calls(map@, action, partitions@),
{
    let mut calls: Vec<Invocation> = Vec::new();
    let mut i: usize = 0;
    proof {
        assert(partitions@.take(0) =~= Seq::empty());
        assert(models(calls@) =~= Seq::empty());
    }
    while i < partitions.len()
        invariant
            0 <= i <= partitions@.len(),
            member_calls(map@, action, partitions@.take(i as int)) == Ok::<
                Seq<InvocationModel>,
                PoolError,
            >(models(calls@)),
        decreases partitions.len() - i,
    {
        proof {
            assert(partitions@.take(i + 1).drop_last() =~= partitions@.take(i as int));
            assert(partitions@.take(i + 1).last() == partitions@[i as int]);
        }
        let ghost earlier = calls@;
        match find_holder(map, &partitions[i]) {
            None => {},
            Some(at) => match member_command(map[at].0.as_str(), action, &partitions[i]) {
                Ok(call) => {
                    calls.push(call);
                    proof {
                        assert(models(calls@) =~= models(earlier).push(call@));
                    }
                },
                Err(e) => {
                    proof {
                        lemma_member_calls_fail(map@, action, partitions@, i + 1);
                    }
                    return Err(e);
                },
            },
        }
        i = i + 1;
    }
    proof {
        assert(partitions@.take(i as int) =~= partitions@);
    }
    Ok(calls)
}

/// What marking the partitions of disks faulty in the pool `name` comes to:
/// there must be such a pool; its manifest entry says which sub-array holds
/// which partition. The manifest stays as it is.
pub open spec fn fail_outcome(
    entries: Seq<HyraidArray>,
    name: Seq<char>,
    partitions: Seq<DiskPartition>,
    calls: Result<Seq<InvocationModel>, PoolError>,
) -> bool {
    if has_name(entries, name) {
        exists|i: int| #[trigger]
            is_first_named(entries, name, i) && calls == member_calls(
                entries[i].raid_map@,
                MemberAction::Fail,
                partitions,
            )
    } else {
        calls == Err::<Seq<InvocationModel>, PoolError>(
            PoolError::BadInput(InputFault::NoSuchArray),
        )
    }
}

/// Plans the marking as faulty of the given partitions, those of the disks
/// that were named, in the pool `name`.
pub fn fail_from_hyraid_array(
    entries: &Vec<HyraidArray>,
    name: &str,
    partitions: &Vec<DiskPartition>,
) -> (calls: Result<Vec<Invocation>, PoolError>)
    ensures
        fail_outcome(entries@, name@, partitions@, calls_model(calls)),
{
    match find_array(entries, name) {
        None => Err(PoolError::BadInput(InputFault::NoSuchArray)),
        Some(i) => {
            let calls = member_commands(&entries[i].raid_map, MemberAction::Fail, partitions);
            proof {
                assert(is_first_named(entries@, name@, i as int));
            }
            calls
        },
    }
}

/// The members that stay when the given partitions are taken out.
pub open spec fn remaining(members: Seq<DiskPartition>, removed: Seq<DiskPartition>) -> Seq<
    DiskPartition,
> {
    members.filter(|m: DiskPartition| !has_member(removed, m@))
}

/// A sub-array map as names and members.
pub open spec fn map_model(map: Seq<(String, Vec<DiskPartition>)>) -> Seq<
    (Seq<char>, Seq<DiskPartition>),
> {
    Seq::new(map.len(), |i: int| (map[i].0@, map[i].1@))
}

/// The map once the given partitions are taken out of every sub-array: a
/// sub-array that loses all its members leaves the map; the others keep
/// their order.
pub open spec fn shrunk(map: Seq<(String, Vec<DiskPartition>)>, removed: Seq<DiskPartition>)
    -> Seq<(Seq<char>, Seq<DiskPartition>)>
    decreases map.len(),
{
    if map.len() == 0 {
        Seq::empty()
    } else {
        let before = shrunk(map.drop_last(), removed);
        let left = remaining(map.last().1@, removed);
        if left.len() == 0 {
            before
        } else {
            before.push((map.last().0@, left))
        }
    }
}

/// No sub-array without members stays in the map.
pub proof fn shrunk_has_no_empty_sub_array(
    map: Seq<(String, Vec<DiskPartition>)>,
    removed: Seq<DiskPartition>,
    k: int,
)
    requires
        0 <= k < shrunk(map, removed).len(),
    ensures
        shrunk(map, removed)[k].1.len() > 0,
    decreases map.len(),
{
    if map.len() > 0 {
        let before = shrunk(map.drop_last(), removed);
        if k < before.len() {
            shrunk_has_no_empty_sub_array(map.drop_last(), removed, k);
        }
    }
}

/// The members of a sub-array without the given partitions.
pub fn remaining_members(members: &Vec<DiskPartition>, removed: &Vec<DiskPartition>) -> (left: Vec<
    DiskPartition,
>)
    ensures
        left@ == remaining(members@, removed@),
{
    let mut left: Vec<DiskPartition> = Vec::new();
    let mut i: usize = 0;
    proof {
        assert(members@.take(0) =~= Seq::empty());
    }
    while i < members.len()
        invariant
            0 <= i <= members@.len(),
            left@ == remaining(members@.take(i as int), removed@),
        decreases members.len() - i,
    {
        proof {
            assert(members@.take(i + 1).drop_last() =~= members@.take(i as int));
            assert(members@.take(i + 1).last() == members@[i as int]);
            reveal_with_fuel(Seq::filter, 2);
        }
        if !holds_partition(removed, &members[i]) {
            left.push(members[i].clone());
        }
        i = i + 1;
    }
    proof {
        assert(members@.take(i as int) =~= members@);
    }
    left
}

/// The sub-array map without the given partitions.
pub fn shrink_map(map: &RaidMap, removed: &Vec<DiskPartition>) -> (left: RaidMap)
    ensures
        map_model(left@) == shrunk(map@, removed@),
{
    let mut left: RaidMap = Vec::new();
    let mut i: usize = 0;
    proof {
        assert(map@.take(0) =~= Seq::empty());
        assert(map_model(left@) =~= shrunk(map@.take(0), removed@));
    }
    while i < map.len()
        invariant
            0 <= i <= map@.len(),
            map_model(left@) == shrunk(map@.take(i as int), removed@),
        decreases map.len() - i,
    {
        proof {
            assert(map@.take(i + 1).drop_last() =~= map@.take(i as int));
            assert(map@.take(i + 1).last() == map@[i as int]);
        }
        let members = remaining_members(&map[i].1, removed);
        let ghost earlier = left@;
        if members.len() > 0 {
            left.push((map[i].0.clone(), members));
            proof {
                assert(map_model(left@) =~= map_model(earlier).push(
                    (map@[i as int].0@, members@),
                ));
            }
        }
        i = i + 1;
    }
    proof {
        assert(map@.take(i as int) =~= map@);
    }
    left
}

/// `plan` takes the given partitions out of the pool that `entry` records:
/// each of them that a sub-array holds is removed from it, and the entry
/// to write differs from `entry` in its sub-array map alone.
pub open spec fn is_remove_plan(plan: Plan, entry: HyraidArray, partitions: Seq<DiskPartition>)
    -> bool {
    &&& member_calls(entry.raid_map@, MemberAction::Remove, partitions) == Ok::<
        Seq<InvocationModel>,
        PoolError,
    >(models(plan.commands@))
    &&& map_model(plan.entry.raid_map@) == shrunk(entry.raid_map@, partitions)
    &&& plan.entry.name == entry.name
    &&& plan.entry.lvm_lv_path == entry.lvm_lv_path
    &&& plan.entry.raid_level == entry.raid_level
    &&& disk_layout(plan.entry.disks@) == disk_layout(entry.disks@)
    &&& plan.entry.slices@ == entry.slices@
}

/// What taking the partitions of disks out of the pool `name` comes to.
pub open spec fn remove_outcome(
    entries: Seq<HyraidArray>,
    name: Seq<char>,
    partitions: Seq<DiskPartition>,
    outcome: Result<Plan, PoolError>,
) -> bool {
    if has_name(entries, name) {
        exists|i: int| #[trigger]
            is_first_named(entries, name, i) && match outcome {
                Ok(plan) => is_remove_plan(plan, entries[i], partitions),
                Err(e) => member_calls(entries[i].raid_map@, MemberAction::Remove, partitions)
                    == Err::<Seq<InvocationModel>, PoolError>(e),
            }
    } else {
        outcome matches Err(e) && e == PoolError::BadInput(InputFault::NoSuchArray)
    }
}

/// Plans the removal of the given partitions, those of the disks that were
/// named, from the pool `name`.
pub fn remove_disk_from_array(
    entries: &Vec<HyraidArray>,
    name: &str,
    partitions: &Vec<DiskPartition>,
) -> (outcome: Result<Plan, PoolError>)
    ensures
        remove_outcome(entries@, name@, partitions@, outcome),
{
    match find_array(entries, name) {
        None => Err(PoolError::BadInput(InputFault::NoSuchArray)),
        Some(i) => {
            let entry = &entries[i];
            proof {
                assert(is_first_named(entries@, name@, i as int));
            }
            match member_commands(&entry.raid_map, MemberAction::Remove, partitions) {
                Err(e) => Err(e),
                Ok(commands) => {
                    let disks = clone_disks(&entry.disks);
                    proof {
                        assert(disk_layout(disks@) =~= disk_layout(entry.disks@));
                    }
                    let changed = HyraidArray {
                        name: entry.name.clone(),
                        lvm_lv_path: entry.lvm_lv_path.clone(),
                        raid_level: entry.raid_level,
                        disks,
                        raid_map: shrink_map(&entry.raid_map, partitions),
                        slices: entry.slices.clone(),
                    };
                    Ok(Plan { commands, entry: changed })
                },
            }
        },
    }
}

/// What stands in the manifest once the plan of a change to a pool has been
/// carried out: the list with the changed entry in the place of the pool's,
/// where every call succeeded. Where one failed, its error is handed on and
/// nothing is to be written.
pub fn commit_change(entries: &Vec<HyraidArray>, entry: &HyraidArray, run: Result<(), PoolError>)
    -> (written: Result<Vec<HyraidArray>, PoolError>)
    ensures
        match run {
            Err(e) => written == Err::<Vec<HyraidArray>, PoolError>(e),
            Ok(_) => written matches Ok(list) && list@.len() == entries@.len() && forall|i: int|
                0 <= i < entries@.len() ==> (#[trigger] list@[i])@ == (if entries@[i].name@
                    == entry.name@ {
                    entry@
                } else {
                    entries@[i]@
                }),
        },
{
    match run {
        Err(e) => Err(e),
        Ok(_) => Ok(crate::manifest::modify(entries, entry.name.as_str(), entry)),
    }
}

} // verus!
