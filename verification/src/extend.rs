//! Adding disks to a pool: which sub-arrays grow, which are created, and
//! what the manifest holds afterwards.

use vstd::prelude::*;
use crate::command::{Invocation, InvocationModel};
use crate::controller::{
    create_sub_array, disk_layout, disks_of, member_paths, models, path_texts, sub_array_call, Plan,
};
use crate::error::{InputFault, PoolError};
use crate::groups::{group_partitions, groups_of, layout, members};
use crate::manifest::{find_array, has_name, is_first_named};
use crate::lvm2::{device_call, lvm_pv_create, lvm_pv_resize, lvm_vg_extend};
use crate::mapper::{all_have_paths, capacities, names_of};
use crate::mdadm::{add_to_raid_array, member_outcome};
use crate::membership::{has_member, holds_partition};
use crate::names::{fresh_md_names, is_md_name};
use crate::planner::{checked_total, is_extension, recompute_slices, total};
use crate::text::{texts, trim_end, trimmed_end};
use crate::types::{
    clone_disks, clone_map, clone_partitions, Disk, DiskPartition, HyraidArray, PartitionMap,
    RaidMap,
};

verus! {

/// The partitions of ordinal `j` of the disks that have one, in the order of
/// the disks.
pub open spec fn ordinal_members(disks: Seq<Seq<DiskPartition>>, j: int) -> Seq<DiskPartition>
    decreases disks.len(),
{
    if disks.len() == 0 {
        Seq::empty()
    } else {
        let before = ordinal_members(disks.drop_last(), j);
        if disks.last().len() > j {
            before.push(disks.last()[j])
        } else {
            before
        }
    }
}

/// The sub-array holds one of the given partitions.
pub open spec fn shares_member(array: Seq<DiskPartition>, partitions: Seq<DiskPartition>) -> bool {
    exists|k: int| 0 <= k < partitions.len() && has_member(array, (#[trigger] partitions[k])@)
}

/// Sub-array `i` is the first of the map that holds one of the partitions.
pub open spec fn is_first_sharing(
    map: Seq<(String, Vec<DiskPartition>)>,
    partitions: Seq<DiskPartition>,
    i: int,
) -> bool {
    &&& 0 <= i < map.len()
    &&& shares_member(map[i].1@, partitions)
    &&& forall|k: int| 0 <= k < i ==> !shares_member((#[trigger] map[k]).1@, partitions)
}

/// The first sub-array of the map that holds one of the partitions, if any
/// does.
pub open spec fn holder_of_any(
    map: Seq<(String, Vec<DiskPartition>)>,
    partitions: Seq<DiskPartition>,
) -> Option<int> {
    if exists|i: int| is_first_sharing(map, partitions, i) {
        Some(choose|i: int| is_first_sharing(map, partitions, i))
    } else {
        None
    }
}

/// A pool while disks are added to it: the names and members of its
/// sub-arrays, and the calls planned so far.
pub struct AddState {
    pub names: Seq<Seq<char>>,
    pub groups: Seq<Seq<DiskPartition>>,
    pub calls: Seq<InvocationModel>,
}

/// The call that adds members to a sub-array.
pub open spec fn grow_call_for(array: Seq<char>, added: Seq<DiskPartition>) -> Result<
    InvocationModel,
    PoolError,
> {
    if all_have_paths(added) {
        member_outcome(array, "--add"@, path_texts(added))
    } else {
        Err(PoolError::BadDevice)
    }
}

/// What the group of one ordinal does to the pool. Where a sub-array holds
/// one of the partitions that the pool has at this ordinal already, the new
/// partitions join it, and its physical volume is resized. Otherwise the old
/// and the new partitions of the ordinal together, where they are two or
/// more, become a new sub-array under the fresh name, which is made a
/// physical volume and joined to the volume group. A lone partition is left
/// alone.
pub open spec fn add_step(
    recorded: Seq<(String, Vec<DiskPartition>)>,
    state: AddState,
    present: Seq<DiskPartition>,
    added: Seq<DiskPartition>,
    fresh: Seq<char>,
    vg: Seq<char>,
    raid_level: nat,
) -> Result<AddState, PoolError> {
    match holder_of_any(recorded, present) {
        Some(i) => match grow_call_for(recorded[i].0@, added) {
            Err(e) => Err(e),
            Ok(call) => Ok(
                AddState {
                    names: state.names,
                    groups: state.groups.update(i, state.groups[i] + added),
                    calls: state.calls + seq![
                        call,
                        device_call("pvresize"@, Seq::empty(), seq![recorded[i].0@]),
                    ],
                },
            ),
        },
        None => if present.len() + added.len() < 2 {
            Ok(state)
        } else {
            match sub_array_call(fresh, present + added, raid_level) {
                Err(e) => Err(e),
                Ok(call) => Ok(
                    AddState {
                        names: state.names.push(fresh),
                        groups: state.groups.push(present + added),
                        calls: state.calls + seq![
                            call,
                            device_call("pvcreate"@, Seq::empty(), seq![fresh]),
                            device_call("vgextend"@, seq![vg], seq![fresh]),
                        ],
                    },
                ),
            }
        },
    }
}

/// The pool after the groups of the first `upto` ordinals of the new disks
/// have been dealt with, in ordinal order; the first call that cannot be
/// made decides the error.
pub open spec fn add_steps(
    recorded: Seq<(String, Vec<DiskPartition>)>,
    old_disks: Seq<Seq<DiskPartition>>,
    new_groups: Seq<Seq<DiskPartition>>,
    fresh: Seq<Seq<char>>,
    vg: Seq<char>,
    raid_level: nat,
    upto: int,
) -> Result<AddState, PoolError>
    decreases upto,
{
    if upto <= 0 {
        Ok(AddState { names: names_of(recorded), groups: layout(recorded), calls: Seq::empty() })
    } else {
        match add_steps(recorded, old_disks, new_groups, fresh, vg, raid_level, upto - 1) {
            Err(e) => Err(e),
            Ok(state) => add_step(
                recorded,
                state,
                ordinal_members(old_disks, upto - 1),
                new_groups[upto - 1],
                fresh[upto - 1],
                vg,
                raid_level,
            ),
        }
    }
}

/// Once a step fails, the error stays whatever ordinals follow.
pub proof fn lemma_add_steps_fail(
    recorded: Seq<(String, Vec<DiskPartition>)>,
    old_disks: Seq<Seq<DiskPartition>>,
    new_groups: Seq<Seq<DiskPartition>>,
    fresh: Seq<Seq<char>>,
    vg: Seq<char>,
    raid_level: nat,
    m: int,
    upto: int,
)
    requires
        0 <= m <= upto,
        add_steps(recorded, old_disks, new_groups, fresh, vg, raid_level, m) is Err,
    ensures
        add_steps(recorded, old_disks, new_groups, fresh, vg, raid_level, upto) == add_steps(
            recorded,
            old_disks,
            new_groups,
            fresh,
            vg,
            raid_level,
            m,
        ),
    decreases upto,
{
    if m < upto {
        lemma_add_steps_fail(recorded, old_disks, new_groups, fresh, vg, raid_level, m, upto - 1);
    }
}

/// The partitions of ordinal `j` of the disks that have one.
pub fn members_at(disks: &Vec<Disk>, j: usize) -> (found: Vec<DiskPartition>)
    ensures
        found@ == ordinal_members(disk_layout(disks@), j as int),
{
    let ghost all = disk_layout(disks@);
    let mut found: Vec<DiskPartition> = Vec::new();
    let mut i: usize = 0;
    proof {
        assert(all.take(0) =~= Seq::empty());
    }
    while i < disks.len()
        invariant
            0 <= i <= disks@.len(),
            all == disk_layout(disks@),
            found@ == ordinal_members(all.take(i as int), j as int),
        decreases disks.len() - i,
    {
        proof {
            assert(all.take(i + 1).drop_last() =~= all.take(i as int));
            assert(all.take(i + 1).last() == disks@[i as int].partitions@);
        }
        if disks[i].partitions.len() > j {
            found.push(disks[i].partitions[j].clone());
        }
        i = i + 1;
    }
    proof {
        assert(all.take(i as int) =~= all);
    }
    found
}

/// Whether the sub-array holds one of the partitions.
pub fn holds_any(array: &Vec<DiskPartition>, partitions: &Vec<DiskPartition>) -> (held: bool)
    ensures
        held == shares_member(array@, partitions@),
{
    let mut k: usize = 0;
    while k < partitions.len()
        invariant
            0 <= k <= partitions@.len(),
            forall|i: int| 0 <= i < k ==> !has_member(array@, (#[trigger] partitions@[i])@),
        decreases partitions.len() - k,
    {
        if holds_partition(array, &partitions[k]) {
            return true;
        }
        k = k + 1;
    }
    false
}

/// Finds the first sub-array that holds one of the partitions.
pub fn find_holder_of_any(map: &RaidMap, partitions: &Vec<DiskPartition>) -> (place: Option<usize>)
    ensures
        match place {
            Some(i) => holder_of_any(map@, partitions@) == Some(i as int) && i < map@.len(),
            None => holder_of_any(map@, partitions@) is None,
        },
{
    let mut i: usize = 0;
    while i < map.len()
        invariant
            0 <= i <= map@.len(),
            forall|k: int| 0 <= k < i ==> !shares_member((#[trigger] map@[k]).1@, partitions@),
        decreases map.len() - i,
    {
        if holds_any(&map[i].1, partitions) {
            proof {
                assert(is_first_sharing(map@, partitions@, i as int));
                let c = choose|c: int| is_first_sharing(map@, partitions@, c);
                assert(c == i) by {
                    if c < i {
                        assert(!shares_member(map@[c].1@, partitions@));
                    }
                    if i < c {
                        assert(!shares_member(map@[i as int].1@, partitions@));
                    }
                }
            }
            return Some(i);
        }
        i = i + 1;
    }
    proof {
        assert forall|c: int| !is_first_sharing(map@, partitions@, c) by {
            if 0 <= c < map@.len() {
                assert(!shares_member(map@[c].1@, partitions@));
            }
        }
    }
    None
}

/// The two lists of partitions, one after the other.
pub fn concat_partitions(first: &Vec<DiskPartition>, second: &Vec<DiskPartition>) -> (both: Vec<
    DiskPartition,
>)
    ensures
        both@ == first@ + second@,
{
    let mut both = clone_partitions(first);
    let mut i: usize = 0;
    while i < second.len()
        invariant
            0 <= i <= second@.len(),
            both@ == first@ + second@.take(i as int),
        decreases second.len() - i,
    {
        both.push(second[i].clone());
        i = i + 1;
        assert(both@ =~= first@ + second@.take(i as int));
    }
    assert(second@.take(i as int) =~= second@);
    both
}

/// One text as a list.
fn single(text: &str) -> (list: Vec<String>)
    ensures
        texts(list@) == seq![text@],
{
    let mut list: Vec<String> = Vec::new();
    list.push(text.to_owned());
    assert(texts(list@) =~= seq![text@]);
    list
}

/// The name of the volume group of a pool, for the volume manager: the path
/// of its logical volume without the volume's own name.
pub open spec fn volume_group_of(lv_path: Seq<char>) -> Seq<char> {
    trimmed_end(lv_path, "/lvol0"@)
}

/// The state that a sub-array map and a list of calls stand for.
pub open spec fn state_of(map: Seq<(String, Vec<DiskPartition>)>, calls: Seq<Invocation>)
    -> AddState {
    AddState { names: names_of(map), groups: layout(map), calls: models(calls) }
}

/// Plans the growth of sub-array `i` by the added partitions.
fn grow_step(
    recorded: &RaidMap,
    i: usize,
    raid_map: &mut RaidMap,
    calls: &mut Vec<Invocation>,
    added: &Vec<DiskPartition>,
) -> (outcome: Result<(), PoolError>)
    requires
        i < recorded@.len() <= old(raid_map)@.len(),
    ensures
        match outcome {
            Ok(_) => {
                &&& grow_call_for(recorded@[i as int].0@, added@) is Ok
                &&& final(raid_map)@.len() == old(raid_map)@.len()
                &&& names_of(final(raid_map)@) == names_of(old(raid_map)@)
                &&& layout(final(raid_map)@) == layout(old(raid_map)@).update(
                    i as int,
                    layout(old(raid_map)@)[i as int] + added@,
                )
                &&& models(final(calls)@) == models(old(calls)@) + seq![
                    grow_call_for(recorded@[i as int].0@, added@).unwrap(),
                    device_call("pvresize"@, Seq::empty(), seq![recorded@[i as int].0@]),
                ]
            },
            Err(e) => grow_call_for(recorded@[i as int].0@, added@) == Err::<
                InvocationModel,
                PoolError,
            >(e),
        },
{
    let ghost map_before = raid_map@;
    let ghost calls_before = calls@;
    let paths = member_paths(added)?;
    let call = add_to_raid_array(recorded[i].0.as_str(), &paths)?;
    let resize = lvm_pv_resize(&single(recorded[i].0.as_str()));
    let ghost grow = call@;
    let ghost resized = resize@;
    calls.push(call);
    calls.push(resize);
    proof {
        assert(models(calls@) =~= models(calls_before) + seq![grow, resized]);
    }
    let (array_name, group) = raid_map.remove(i);
    let grown = concat_partitions(&group, added);
    raid_map.insert(i, (array_name, grown));
    proof {
        assert(names_of(raid_map@) =~= names_of(map_before));
        assert(layout(raid_map@) =~= layout(map_before).update(
            i as int,
            layout(map_before)[i as int] + added@,
        ));
    }
    Ok(())
}

/// Plans a new sub-array of the given members under the fresh name.
fn create_step(
    raid_map: &mut RaidMap,
    calls: &mut Vec<Invocation>,
    group: Vec<DiskPartition>,
    fresh: &str,
    vg: &str,
    raid_level: usize,
) -> (outcome: Result<(), PoolError>)
    ensures
        match outcome {
            Ok(_) => {
                &&& sub_array_call(fresh@, group@, raid_level as nat) is Ok
                &&& final(raid_map)@.len() == old(raid_map)@.len() + 1
                &&& names_of(final(raid_map)@) == names_of(old(raid_map)@).push(fresh@)
                &&& layout(final(raid_map)@) == layout(old(raid_map)@).push(group@)
                &&& models(final(calls)@) == models(old(calls)@) + seq![
                    sub_array_call(fresh@, group@, raid_level as nat).unwrap(),
                    device_call("pvcreate"@, Seq::empty(), seq![fresh@]),
                    device_call("vgextend"@, seq![vg@], seq![fresh@]),
                ]
            },
            Err(e) => sub_array_call(fresh@, group@, raid_level as nat) == Err::<
                InvocationModel,
                PoolError,
            >(e),
        },
{
    let ghost map_before = raid_map@;
    let ghost calls_before = calls@;
    let call = create_sub_array(fresh, &group, raid_level)?;
    let fresh_list = single(fresh);
    let make_pv = lvm_pv_create(&fresh_list);
    let join = lvm_vg_extend(vg, &fresh_list);
    let ghost created = call@;
    let ghost made = make_pv@;
    let ghost joined = join@;
    calls.push(call);
    calls.push(make_pv);
    calls.push(join);
    proof {
        assert(models(calls@) =~= models(calls_before) + seq![created, made, joined]);
    }
    let ghost members = group@;
    raid_map.push((fresh.to_owned(), group));
    proof {
        assert(names_of(raid_map@) =~= names_of(map_before).push(fresh@));
        assert(layout(raid_map@) =~= layout(map_before).push(members));
    }
    Ok(())
}

/// Deals with the group of one ordinal.
fn apply_step(
    recorded: &RaidMap,
    raid_map: &mut RaidMap,
    calls: &mut Vec<Invocation>,
    present: &Vec<DiskPartition>,
    added: &Vec<DiskPartition>,
    fresh: &str,
    vg: &str,
    raid_level: usize,
) -> (outcome: Result<(), PoolError>)
    requires
        old(raid_map)@.len() >= recorded@.len(),
    ensures
        match outcome {
            Ok(_) => add_step(
                recorded@,
                state_of(old(raid_map)@, old(calls)@),
                present@,
                added@,
                fresh@,
                vg@,
                raid_level as nat,
            ) == Ok::<AddState, PoolError>(state_of(final(raid_map)@, final(calls)@))
                && final(raid_map)@.len() >= recorded@.len(),
            Err(e) => add_step(
                recorded@,
                state_of(old(raid_map)@, old(calls)@),
                present@,
                added@,
                fresh@,
                vg@,
                raid_level as nat,
            ) == Err::<AddState, PoolError>(e),
        },
{
    match find_holder_of_any(recorded, present) {
        Some(i) => grow_step(recorded, i, raid_map, calls, added),
        None => {
            if present.len() < 2 && added.len() < 2 - present.len() {
                return Ok(());
            }
            let group = concat_partitions(present, added);
            create_step(raid_map, calls, group, fresh, vg, raid_level)
        },
    }
}

/// The state of the pool once all the groups of the new disks have been
/// dealt with.
pub open spec fn added_state(
    entry: HyraidArray,
    part_map: Seq<(String, Vec<DiskPartition>)>,
    fresh: Seq<Seq<char>>,
) -> Result<AddState, PoolError> {
    add_steps(
        entry.raid_map@,
        disk_layout(entry.disks@),
        groups_of(layout(part_map)),
        fresh,
        volume_group_of(entry.lvm_lv_path@),
        entry.raid_level as nat,
        groups_of(layout(part_map)).len() as int,
    )
}

/// Why disks cannot be added to the pool that `entry` records, if they
/// cannot: its slices sum to more than the machine can count, there are
/// fewer fresh names than ordinals, or a call cannot be made.
pub open spec fn add_fault(
    entry: HyraidArray,
    part_map: Seq<(String, Vec<DiskPartition>)>,
    fresh: Seq<Seq<char>>,
) -> Option<PoolError> {
    if total(entry.slices@) > usize::MAX {
        Some(PoolError::ManifestCorrupt)
    } else if fresh.len() < groups_of(layout(part_map)).len() {
        Some(PoolError::BadName)
    } else {
        match added_state(entry, part_map, fresh) {
            Err(e) => Some(e),
            Ok(_) => None,
        }
    }
}

/// `plan` adds the disks of `part_map`, of the given capacities, to the
/// pool that `entry` records: the calls and the sub-array map are those of
/// the steps above; the slice list is extended for the new capacities; the
/// new disks follow the old ones; the rest of the entry stays.
pub open spec fn is_add_plan(
    plan: Plan,
    entry: HyraidArray,
    caps: Seq<usize>,
    part_map: Seq<(String, Vec<DiskPartition>)>,
    fresh: Seq<Seq<char>>,
) -> bool {
    &&& added_state(entry, part_map, fresh) == Ok::<AddState, PoolError>(
        state_of(plan.entry.raid_map@, plan.commands@),
    )
    &&& is_extension(entry.slices@, caps, plan.entry.slices@)
    &&& disk_layout(plan.entry.disks@) == disk_layout(entry.disks@) + layout(part_map)
    &&& plan.entry.name == entry.name
    &&& plan.entry.lvm_lv_path == entry.lvm_lv_path
    &&& plan.entry.raid_level == entry.raid_level
}

/// The capacities of the disks.
pub fn capacities_of(disks: &Vec<(String, usize)>) -> (caps: Vec<usize>)
    ensures
        caps@ == capacities(disks@),
{
    let mut caps: Vec<usize> = Vec::new();
    let mut i: usize = 0;
    while i < disks.len()
        invariant
            0 <= i <= disks@.len(),
            caps@.len() == i,
            forall|k: int| 0 <= k < i ==> caps@[k] == (#[trigger] disks@[k]).1,
        decreases disks.len() - i,
    {
        caps.push(disks[i].1);
        i = i + 1;
    }
    assert(caps@ =~= capacities(disks@));
    caps
}

/// Plans the addition of disks to the pool that `entry` records, with the
/// given fresh names, one for the group of each ordinal of the new disks.
pub fn plan_add(
    entry: &HyraidArray,
    disks: &Vec<(String, usize)>,
    part_map: &PartitionMap,
    names: &Vec<String>,
) -> (outcome: Result<Plan, PoolError>)
    ensures
        match outcome {
            Ok(plan) => add_fault(*entry, part_map@, texts(names@)) is None && is_add_plan(
                plan,
                *entry,
                capacities(disks@),
                part_map@,
                texts(names@),
            ),
            Err(e) => add_fault(*entry, part_map@, texts(names@)) == Some(e),
        },
{
    if checked_total(&entry.slices).is_none() {
        return Err(PoolError::ManifestCorrupt);
    }
    let new_groups = group_partitions(part_map);
    if names.len() < new_groups.len() {
        return Err(PoolError::BadName);
    }
    let caps = capacities_of(disks);
    let slices = recompute_slices(&caps, &entry.slices);
    let vg = trim_end(entry.lvm_lv_path.as_str(), "/lvol0");
    let mut raid_map = clone_map(&entry.raid_map);
    let mut commands: Vec<Invocation> = Vec::new();
    let ghost fresh = texts(names@);
    let ghost groups = groups_of(layout(part_map@));
    let ghost old_disks = disk_layout(entry.disks@);
    proof {
        assert(names_of(raid_map@) =~= names_of(entry.raid_map@));
        assert(layout(raid_map@) =~= layout(entry.raid_map@));
        assert(models(commands@) =~= Seq::empty());
    }
    let mut j: usize = 0;
    while j < new_groups.len()
        invariant
            0 <= j <= new_groups@.len(),
            members(new_groups@) == groups,
            groups == groups_of(layout(part_map@)),
            total(entry.slices@) <= usize::MAX,
            fresh == texts(names@),
            fresh.len() >= groups.len(),
            old_disks == disk_layout(entry.disks@),
            vg@ == volume_group_of(entry.lvm_lv_path@),
            raid_map@.len() >= entry.raid_map@.len(),
            add_steps(
                entry.raid_map@,
                old_disks,
                groups,
                fresh,
                vg@,
                entry.raid_level as nat,
                j as int,
            ) == Ok::<AddState, PoolError>(state_of(raid_map@, commands@)),
        decreases new_groups.len() - j,
    {
        let present = members_at(&entry.disks, j);
        proof {
            assert(groups[j as int] == new_groups@[j as int]@);
            assert(fresh[j as int] == names@[j as int]@);
        }
        match apply_step(
            &entry.raid_map,
            &mut raid_map,
            &mut commands,
            &present,
            &new_groups[j],
            names[j].as_str(),
            vg.as_str(),
            entry.raid_level,
        ) {
            Ok(_) => {},
            Err(e) => {
                proof {
                    assert(add_steps(
                        entry.raid_map@,
                        old_disks,
                        groups,
                        fresh,
                        vg@,
                        entry.raid_level as nat,
                        j + 1,
                    ) == Err::<AddState, PoolError>(e));
                    lemma_add_steps_fail(
                        entry.raid_map@,
                        old_disks,
                        groups,
                        fresh,
                        vg@,
                        entry.raid_level as nat,
                        j + 1,
                        groups.len() as int,
                    );
                }
                return Err(e);
            },
        }
        j = j + 1;
    }
    let mut all_disks = clone_disks(&entry.disks);
    let mut new_disks = disks_of(part_map);
    let ghost new_layout = disk_layout(new_disks@);
    all_disks.append(&mut new_disks);
    proof {
        assert(disk_layout(all_disks@) =~= disk_layout(entry.disks@) + new_layout);
    }
    let changed = HyraidArray {
        name: entry.name.clone(),
        lvm_lv_path: entry.lvm_lv_path.clone(),
        raid_level: entry.raid_level,
        disks: all_disks,
        raid_map,
        slices,
    };
    Ok(Plan { commands, entry: changed })
}

/// The outcome is that of adding the disks of `part_map` to the pool that
/// `entry` records, with the given fresh names.
pub open spec fn is_add_outcome(
    entry: HyraidArray,
    caps: Seq<usize>,
    part_map: Seq<(String, Vec<DiskPartition>)>,
    fresh: Seq<Seq<char>>,
    outcome: Result<Plan, PoolError>,
) -> bool {
    match outcome {
        Ok(plan) => add_fault(entry, part_map, fresh) is None && is_add_plan(
            plan,
            entry,
            caps,
            part_map,
            fresh,
        ),
        Err(e) => add_fault(entry, part_map, fresh) == Some(e),
    }
}

/// What adding disks to the pool `name` comes to: there must be such a
/// pool; the plan is the one above for some fresh names of sub-arrays.
pub open spec fn add_outcome(
    entries: Seq<HyraidArray>,
    name: Seq<char>,
    caps: Seq<usize>,
    part_map: Seq<(String, Vec<DiskPartition>)>,
    outcome: Result<Plan, PoolError>,
) -> bool {
    if has_name(entries, name) {
        exists|i: int, fresh: Seq<Seq<char>>| #[trigger]
            is_first_named(entries, name, i) && fresh.len() == groups_of(layout(part_map)).len()
                && (forall|k: int| 0 <= k < fresh.len() ==> is_md_name(#[trigger] fresh[k]))
                && #[trigger] is_add_outcome(entries[i], caps, part_map, fresh, outcome)
    } else {
        outcome matches Err(e) && e == PoolError::BadInput(InputFault::NoSuchArray)
    }
}

/// Plans the addition of disks to the pool `name`: the disks by path and
/// capacity, and their partitions as they are once each disk has been
/// partitioned against the extended slice list.
pub fn add_disk_to_hyraid_array(
    entries: &Vec<HyraidArray>,
    name: &str,
    disks: &Vec<(String, usize)>,
    part_map: &PartitionMap,
) -> (outcome: Result<Plan, PoolError>)
    ensures
        add_outcome(entries@, name@, capacities(disks@), part_map@, outcome),
        outcome is Ok ==> exists|i: int| #[trigger]
            is_first_named(entries@, name@, i) && is_extension(
                entries@[i].slices@,
                capacities(disks@),
                outcome->Ok_0.entry.slices@,
            ),
{
    match find_array(entries, name) {
        None => Err(PoolError::BadInput(InputFault::NoSuchArray)),
        Some(i) => {
            let count = group_partitions(part_map).len();
            let names = fresh_md_names(count);
            let outcome = plan_add(&entries[i], disks, part_map, &names);
            proof {
                let fresh = texts(names@);
                assert(is_first_named(entries@, name@, i as int));
                assert(is_add_outcome(
                    entries@[i as int],
                    capacities(disks@),
                    part_map@,
                    fresh,
                    outcome,
                ));
            }
            outcome
        },
    }
}

} // verus!
