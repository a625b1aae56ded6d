//! The pool controller: what each operation on a pool asks of the engines,
//! and what it leaves in the manifest.

use vstd::prelude::*;
use vstd::string::StringExecFns;
use crate::command::{Invocation, InvocationModel};
use crate::error::{InputFault, PoolError};
use crate::groups::{groups_of, layout, survivors};
use crate::manifest::{find_array, has_name};
use crate::lvm2::{
    device_call, lv_create_call, lvm_lv_create, lvm_pv_create, lvm_vg_create, SizeFormat,
};
use crate::mapper::{
    all_have_paths, effective_level, find_raid_level, init_raid_map, into_paths_slice,
    is_raid_level, names_of,
};
use crate::mdadm::{
    all_device_paths, call_model, create_outcome, create_raid_array, is_valid_name,
};
use crate::name_laws::lemma_md_names_are_valid;
use crate::names::{fresh_vg_name, is_md_name, is_vg_name};
use crate::text::texts;
use crate::types::{clone_partitions, Disk, DiskPartition, HyraidArray, PartitionMap, RaidMap};

verus! {

/// What an operation asks for: the calls to make, in order, and the entry
/// that the manifest is to hold once all of them have succeeded.
#[derive(Debug)]
pub struct Plan {
    pub commands: Vec<Invocation>,
    pub entry: HyraidArray,
}

/// The models of a list of calls.
pub open spec fn models(calls: Seq<Invocation>) -> Seq<InvocationModel> {
    Seq::new(calls.len(), |i: int| calls[i]@)
}

/// The models of a list of calls, or the error in their place.
pub open spec fn calls_model(calls: Result<Vec<Invocation>, PoolError>) -> Result<
    Seq<InvocationModel>,
    PoolError,
> {
    match calls {
        Ok(list) => Ok(models(list@)),
        Err(e) => Err(e),
    }
}

/// What is wrong with a request to create a pool, if anything: too few
/// disks, then an unknown level, then a name that is taken.
pub open spec fn create_fault(
    entries: Seq<HyraidArray>,
    name: Seq<char>,
    disks: nat,
    raid_level: nat,
) -> Option<PoolError> {
    if disks == 0 {
        Some(PoolError::BadInput(InputFault::MissingDisks))
    } else if disks < 2 {
        Some(PoolError::BadInput(InputFault::InsufficientDisks))
    } else if !is_raid_level(raid_level as int) {
        Some(PoolError::BadInput(InputFault::UnknownRaidLevel))
    } else if has_name(entries, name) {
        Some(PoolError::BadInput(InputFault::DuplicateName))
    } else {
        None
    }
}

/// Tests a request to create a pool before anything is touched.
pub fn check_create(entries: &Vec<HyraidArray>, name: &str, disks: usize, raid_level: usize) -> (outcome:
    Result<(), PoolError>)
    ensures
        match outcome {
            Ok(_) => create_fault(entries@, name@, disks as nat, raid_level as nat) is None,
            Err(e) => create_fault(entries@, name@, disks as nat, raid_level as nat) == Some(e),
        },
{
    if disks == 0 {
        Err(PoolError::BadInput(InputFault::MissingDisks))
    } else if disks < 2 {
        Err(PoolError::BadInput(InputFault::InsufficientDisks))
    } else if !(raid_level == 0 || raid_level == 1 || raid_level == 5 || raid_level == 6) {
        Err(PoolError::BadInput(InputFault::UnknownRaidLevel))
    } else if find_array(entries, name).is_some() {
        Err(PoolError::BadInput(InputFault::DuplicateName))
    } else {
        Ok(())
    }
}

/// The paths of the partitions as texts; empty for one that has none.
pub open spec fn path_texts(partitions: Seq<DiskPartition>) -> Seq<Seq<char>> {
    Seq::new(
        partitions.len(),
        |i: int|
            match partitions[i].path {
                Some(path) => path@,
                None => Seq::<char>::empty(),
            },
    )
}

/// The call that creates the sub-array of one group in a pool of the
/// intended level, or why there is none: an unknown level, a group of fewer
/// than two members, a member without a path, or what the sub-array driver
/// refuses.
pub open spec fn sub_array_call(name: Seq<char>, members: Seq<DiskPartition>, intended: nat)
    -> Result<InvocationModel, PoolError> {
    if !is_raid_level(intended as int) {
        Err(PoolError::BadInput(InputFault::UnknownRaidLevel))
    } else if members.len() < 2 {
        Err(PoolError::BadInput(InputFault::InsufficientDisks))
    } else if !all_have_paths(members) {
        Err(PoolError::BadDevice)
    } else {
        create_outcome(
            name,
            path_texts(members),
            effective_level(members.len() as int, intended as int) as nat,
        )
    }
}

/// The paths of partitions that all have one.
pub fn member_paths(members: &Vec<DiskPartition>) -> (paths: Result<Vec<String>, PoolError>)
    ensures
        match paths {
            Ok(list) => all_have_paths(members@) && texts(list@) == path_texts(members@),
            Err(e) => e == PoolError::BadDevice && !all_have_paths(members@),
        },
{
    match into_paths_slice(members) {
        Some(list) => {
            proof {
                assert forall|i: int| 0 <= i < list@.len() implies texts(list@)[i] == path_texts(
                    members@,
                )[i] by {
                    assert(Some(list@[i]) == members@[i].path);
                }
                assert(texts(list@) =~= path_texts(members@));
            }
            Ok(list)
        },
        None => Err(PoolError::BadDevice),
    }
}

/// Makes the call that creates the sub-array of one group.
pub fn create_sub_array(name: &str, members: &Vec<DiskPartition>, raid_level: usize) -> (call:
    Result<Invocation, PoolError>)
    ensures
        call_model(call) == sub_array_call(name@, members@, raid_level as nat),
{
    if !(raid_level == 0 || raid_level == 1 || raid_level == 5 || raid_level == 6) {
        return Err(PoolError::BadInput(InputFault::UnknownRaidLevel));
    }
    if members.len() < 2 {
        return Err(PoolError::BadInput(InputFault::InsufficientDisks));
    }
    let level = find_raid_level(members.len(), raid_level)?;
    let paths = member_paths(members)?;
    create_raid_array(name, &paths, level)
}

/// The calls that create the sub-arrays of a map, in its order; the first
/// group that cannot be created decides the error.
pub open spec fn create_calls(map: Seq<(String, Vec<DiskPartition>)>, intended: nat) -> Result<
    Seq<InvocationModel>,
    PoolError,
>
    decreases map.len(),
{
    if map.len() == 0 {
        Ok(Seq::empty())
    } else {
        match create_calls(map.drop_last(), intended) {
            Err(e) => Err(e),
            Ok(calls) => match sub_array_call(map.last().0@, map.last().1@, intended) {
                Err(e) => Err(e),
                Ok(call) => Ok(calls.push(call)),
            },
        }
    }
}

/// Makes the calls that create the sub-arrays of a map.
pub fn create_init_raid_map(raid_map: &RaidMap, raid_level: usize) -> (calls: Result<
    Vec<Invocation>,
    PoolError,
>)
    ensures
        calls_model(calls) == create_calls(raid_map@, raid_level as nat),
{
    let mut calls: Vec<Invocation> = Vec::new();
    let mut i: usize = 0;
    proof {
        assert(raid_map@.take(0) =~= Seq::empty());
        assert(models(calls@) =~= Seq::empty());
    }
    while i < raid_map.len()
        invariant
            0 <= i <= raid_map@.len(),
            create_calls(raid_map@.take(i as int), raid_level as nat) == Ok::<
                Seq<InvocationModel>,
                PoolError,
            >(models(calls@)),
        decreases raid_map.len() - i,
    {
        proof {
            assert(raid_map@.take(i + 1).drop_last() =~= raid_map@.take(i as int));
            assert(raid_map@.take(i + 1).last() == raid_map@[i as int]);
        }
        let ghost earlier = calls@;
        match create_sub_array(raid_map[i].0.as_str(), &raid_map[i].1, raid_level) {
            Ok(call) => {
                calls.push(call);
                proof {
                    assert(models(calls@) =~= models(earlier).push(call@));
                }
            },
            Err(e) => {
                proof {
                    lemma_create_calls_fail(raid_map@, raid_level as nat, i + 1);
                }
                return Err(e);
            },
        }
        i = i + 1;
    }
    proof {
        assert(raid_map@.take(i as int) =~= raid_map@);
    }
    Ok(calls)
}

/// Once a group cannot be created, no longer list of groups can be either,
/// and the error stays the same.
pub proof fn lemma_create_calls_fail(map: Seq<(String, Vec<DiskPartition>)>, intended: nat, m: int)
    requires
        0 <= m <= map.len(),
        create_calls(map.take(m), intended) is Err,
    ensures
        create_calls(map, intended) == create_calls(map.take(m), intended),
    decreases map.len(),
{
    if m == map.len() {
        assert(map.take(m) =~= map);
    } else {
        assert(map.drop_last().take(m) =~= map.take(m));
        lemma_create_calls_fail(map.drop_last(), intended, m);
    }
}

/// The calls that set up the volume of a pool over its sub-arrays: each
/// sub-array becomes a physical volume, the volume group spans them, and one
/// logical volume takes all of its extents.
pub open spec fn lvm_calls(arrays: Seq<Seq<char>>, vg: Seq<char>) -> Seq<InvocationModel> {
    seq![
        device_call("pvcreate"@, Seq::empty(), arrays),
        device_call("vgcreate"@, seq![vg], arrays),
        lv_create_call(vg, arrays, SizeFormat::EXTENTS, "100%FREE"@),
    ]
}

/// The path of the logical volume of a volume group.
pub open spec fn lv_path(vg: Seq<char>) -> Seq<char> {
    "/dev/"@ + vg + "/lvol0"@
}

/// The names of the sub-arrays of a map.
pub fn array_names(raid_map: &RaidMap) -> (names: Vec<String>)
    ensures
        texts(names@) == names_of(raid_map@),
{
    let mut names: Vec<String> = Vec::new();
    let mut i: usize = 0;
    while i < raid_map.len()
        invariant
            0 <= i <= raid_map@.len(),
            names@.len() == i,
            forall|k: int| 0 <= k < i ==> (#[trigger] names@[k])@ == raid_map@[k].0@,
        decreases raid_map.len() - i,
    {
        names.push(raid_map[i].0.clone());
        i = i + 1;
    }
    assert(texts(names@) =~= names_of(raid_map@));
    names
}

/// Makes the calls that set up the volume of a pool in the volume group of
/// the given name, and the path of its logical volume.
pub fn lvm_plan(arrays: &Vec<String>, vg: &str) -> (plan: (Vec<Invocation>, String))
    ensures
        models(plan.0@) == lvm_calls(texts(arrays@), vg@),
        plan.1@ == lv_path(vg@),
{
    let mut calls: Vec<Invocation> = Vec::new();
    calls.push(lvm_pv_create(arrays));
    calls.push(lvm_vg_create(vg, arrays));
    calls.push(lvm_lv_create(vg, arrays, SizeFormat::EXTENTS, "100%FREE"));
    let path = "/dev/".to_owned().concat(vg).concat("/lvol0");
    proof {
        assert(models(calls@) =~= lvm_calls(texts(arrays@), vg@));
    }
    (calls, path)
}

/// Create the LVM logical volume that combines all of the sub-arrays, in a
/// volume group of a fresh name.
pub fn create_lvm(raid_map: &RaidMap) -> (plan: (Vec<Invocation>, String))
    ensures
        exists|vg: Seq<char>|
            is_vg_name(vg) && models(plan.0@) == lvm_calls(names_of(raid_map@), vg) && plan.1@
                == #[trigger] lv_path(vg),
{
    let vg = fresh_vg_name();
    let arrays = array_names(raid_map);
    let plan = lvm_plan(&arrays, vg.as_str());
    proof {
        assert(is_vg_name(vg@) && models(plan.0@) == lvm_calls(names_of(raid_map@), vg@) && plan.1@
            == lv_path(vg@));
    }
    plan
}

/// The partitions of each disk of a list of disks.
pub open spec fn disk_layout(disks: Seq<Disk>) -> Seq<Seq<DiskPartition>> {
    Seq::new(disks.len(), |i: int| disks[i].partitions@)
}

/// The disks of a partition map as the manifest records them.
pub fn disks_of(part_map: &PartitionMap) -> (disks: Vec<Disk>)
    ensures
        disk_layout(disks@) == layout(part_map@),
{
    let mut disks: Vec<Disk> = Vec::new();
    let mut i: usize = 0;
    while i < part_map.len()
        invariant
            0 <= i <= part_map@.len(),
            disks@.len() == i,
            forall|k: int| 0 <= k < i ==> (#[trigger] disks@[k]).partitions@ == part_map@[k].1@,
        decreases part_map.len() - i,
    {
        disks.push(Disk { partitions: clone_partitions(&part_map[i].1) });
        i = i + 1;
    }
    assert(disk_layout(disks@) =~= layout(part_map@));
    disks
}

/// `plan` is the plan that creates the pool `name` over the sub-arrays of
/// `raid_map` in the volume group `vg`: the sub-arrays are created in the
/// order of the map, then the volume is set up over them; the entry records
/// the pool as it will then be.
pub open spec fn is_create_plan(
    plan: Plan,
    name: String,
    raid_map: Seq<(String, Vec<DiskPartition>)>,
    part_map: Seq<(String, Vec<DiskPartition>)>,
    raid_level: usize,
    slices: Seq<usize>,
    vg: Seq<char>,
) -> bool {
    &&& create_calls(raid_map, raid_level as nat) is Ok
    &&& models(plan.commands@) == create_calls(raid_map, raid_level as nat).unwrap() + lvm_calls(
        names_of(raid_map),
        vg,
    )
    &&& plan.entry.name == name
    &&& plan.entry.lvm_lv_path@ == lv_path(vg)
    &&& plan.entry.raid_level == raid_level
    &&& disk_layout(plan.entry.disks@) == layout(part_map)
    &&& plan.entry.raid_map@ == raid_map
    &&& plan.entry.slices@ == slices
}

/// Why a pool cannot be created over the sub-arrays of `raid_map`, if it
/// cannot: there is no sub-array at all, or one of them cannot be created.
pub open spec fn create_plan_fault(raid_map: Seq<(String, Vec<DiskPartition>)>, raid_level: usize)
    -> Option<PoolError> {
    if raid_map.len() == 0 {
        Some(PoolError::BadInput(InputFault::InsufficientDisks))
    } else {
        match create_calls(raid_map, raid_level as nat) {
            Err(e) => Some(e),
            Ok(_) => None,
        }
    }
}

/// Plans the creation of a pool over given sub-arrays, in a volume group of
/// the given name.
pub fn plan_create(
    name: String,
    raid_map: RaidMap,
    part_map: &PartitionMap,
    raid_level: usize,
    slices: Vec<usize>,
    vg: &str,
) -> (outcome: Result<Plan, PoolError>)
    ensures
        match outcome {
            Ok(plan) => create_plan_fault(raid_map@, raid_level) is None && is_create_plan(
                plan,
                name,
                raid_map@,
                part_map@,
                raid_level,
                slices@,
                vg@,
            ),
            Err(e) => create_plan_fault(raid_map@, raid_level) == Some(e),
        },
{
    if raid_map.len() == 0 {
        return Err(PoolError::BadInput(InputFault::InsufficientDisks));
    }
    let mut commands = create_init_raid_map(&raid_map, raid_level)?;
    let ghost created = models(commands@);
    let arrays = array_names(&raid_map);
    let (volume_calls, lvm_lv_path) = lvm_plan(&arrays, vg);
    let mut volume_calls = volume_calls;
    commands.append(&mut volume_calls);
    proof {
        assert(models(commands@) =~= created + lvm_calls(names_of(raid_map@), vg@));
    }
    let entry = HyraidArray {
        name,
        lvm_lv_path,
        raid_level,
        disks: disks_of(part_map),
        raid_map,
        slices,
    };
    Ok(Plan { commands, entry })
}

/// What keeps one group from becoming a sub-array, whatever its name: an
/// unknown level, fewer than two members, a member without a path, or a
/// member whose path is no device path.
pub open spec fn group_fault(members: Seq<DiskPartition>, intended: nat) -> Option<PoolError> {
    if !is_raid_level(intended as int) {
        Some(PoolError::BadInput(InputFault::UnknownRaidLevel))
    } else if members.len() < 2 {
        Some(PoolError::BadInput(InputFault::InsufficientDisks))
    } else if !all_have_paths(members) {
        Some(PoolError::BadDevice)
    } else if !all_device_paths(path_texts(members)) {
        Some(PoolError::BadDevice)
    } else {
        None
    }
}

/// The fault of the first group that cannot become a sub-array, if there is
/// one.
pub open spec fn groups_fault(groups: Seq<Seq<DiskPartition>>, intended: nat) -> Option<PoolError>
    decreases groups.len(),
{
    if groups.len() == 0 {
        None
    } else {
        match groups_fault(groups.drop_last(), intended) {
            Some(e) => Some(e),
            None => group_fault(groups.last(), intended),
        }
    }
}

/// Why no pool can be created over the given groups, if none can: there is
/// no group at all, or one of them cannot become a sub-array.
pub open spec fn creation_fault(groups: Seq<Seq<DiskPartition>>, intended: nat) -> Option<
    PoolError,
> {
    if groups.len() == 0 {
        Some(PoolError::BadInput(InputFault::InsufficientDisks))
    } else {
        groups_fault(groups, intended)
    }
}

/// Under a name that the driver accepts, a group becomes a sub-array unless
/// the group itself is at fault.
pub proof fn lemma_sub_array_call_under_valid_name(
    name: Seq<char>,
    members: Seq<DiskPartition>,
    intended: nat,
)
    requires
        is_valid_name(name),
    ensures
        match sub_array_call(name, members, intended) {
            Ok(_) => group_fault(members, intended) is None,
            Err(e) => group_fault(members, intended) == Some(e),
        },
{
}

/// Under names that the driver accepts, the sub-arrays of a map can be
/// created unless one of its groups is at fault.
pub proof fn lemma_create_calls_under_valid_names(
    map: Seq<(String, Vec<DiskPartition>)>,
    intended: nat,
)
    requires
        forall|k: int| 0 <= k < map.len() ==> is_valid_name(#[trigger] names_of(map)[k]),
    ensures
        match create_calls(map, intended) {
            Ok(_) => groups_fault(layout(map), intended) is None,
            Err(e) => groups_fault(layout(map), intended) == Some(e),
        },
    decreases map.len(),
{
    if map.len() > 0 {
        let shorter = map.drop_last();
        assert forall|k: int| 0 <= k < shorter.len() implies is_valid_name(
            #[trigger] names_of(shorter)[k],
        ) by {
            assert(names_of(shorter)[k] == names_of(map)[k]);
        }
        lemma_create_calls_under_valid_names(shorter, intended);
        assert(layout(map).drop_last() =~= layout(shorter));
        assert(layout(map).last() == map.last().1@);
        assert(names_of(map)[map.len() - 1] == map.last().0@);
        lemma_sub_array_call_under_valid_name(map.last().0@, map.last().1@, intended);
    }
}

/// Plans the creation of a pool from the partitions of its disks, as they
/// are once every disk has been partitioned: the groups of two members or
/// more become sub-arrays under fresh names, and the volume is set up over
/// them in a volume group of a fresh name. The plan is made unless the
/// groups themselves are at fault.
pub fn create_hyraid_array(
    name: String,
    part_map: &PartitionMap,
    raid_level: usize,
    slices: Vec<usize>,
) -> (outcome: Result<Plan, PoolError>)
    ensures
        match outcome {
            Ok(plan) => {
                &&& creation_fault(survivors(groups_of(layout(part_map@))), raid_level as nat)
                    is None
                &&& layout(plan.entry.raid_map@) == survivors(groups_of(layout(part_map@)))
                &&& forall|k: int|
                    0 <= k < plan.entry.raid_map@.len() ==> is_md_name(
                        #[trigger] names_of(plan.entry.raid_map@)[k],
                    )
                &&& exists|vg: Seq<char>|
                    is_vg_name(vg) && #[trigger] is_create_plan(
                        plan,
                        name,
                        plan.entry.raid_map@,
                        part_map@,
                        raid_level,
                        slices@,
                        vg,
                    )
            },
            Err(e) => creation_fault(survivors(groups_of(layout(part_map@))), raid_level as nat)
                == Some(e),
        },
{
    let raid_map = init_raid_map(part_map);
    let vg = fresh_vg_name();
    let ghost map = raid_map@;
    proof {
        assert forall|k: int| 0 <= k < map.len() implies is_valid_name(
            #[trigger] names_of(map)[k],
        ) by {
            lemma_md_names_are_valid(names_of(map)[k]);
        }
        lemma_create_calls_under_valid_names(map, raid_level as nat);
    }
    let outcome = plan_create(name, raid_map, part_map, raid_level, slices, vg.as_str());
    proof {
        if outcome is Ok {
            assert(is_vg_name(vg@) && is_create_plan(
                outcome->Ok_0,
                name,
                outcome->Ok_0.entry.raid_map@,
                part_map@,
                raid_level,
                slices@,
                vg@,
            ));
        }
    }
    outcome
}

/// What stands in the manifest once a plan has been carried out: the list
/// with the new entry at its end, where every call succeeded and the
/// logical volume is there. Where a call failed, its error is handed on and
/// nothing is to be written; where the volume is missing, the device is at
/// fault.
pub fn commit_create(
    entries: Vec<HyraidArray>,
    entry: HyraidArray,
    run: Result<(), PoolError>,
    volume_exists: bool,
) -> (written: Result<Vec<HyraidArray>, PoolError>)
    ensures
        match run {
            Err(e) => written == Err::<Vec<HyraidArray>, PoolError>(e),
            Ok(_) => if volume_exists {
                written matches Ok(list) && list@ == entries@.push(entry)
            } else {
                written == Err::<Vec<HyraidArray>, PoolError>(PoolError::BadDevice)
            },
        },
{
    match run {
        Err(e) => Err(e),
        Ok(_) => {
            if volume_exists {
                let mut list = entries;
                list.push(entry);
                Ok(list)
            } else {
                Err(PoolError::BadDevice)
            }
        },
    }
}

} // verus!
