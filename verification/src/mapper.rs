//! From a slice list to the layout of each disk, and from the partitions of
//! the disks to the sub-arrays of a pool.

use vstd::prelude::*;
use crate::error::{InputFault, PoolError};
use crate::group_laws::aligned;
use crate::groups::{
    disk_order_of, group_partitions, groups_of, is_disk_order, is_grouping, layout, members,
    surviving_groups, survivors,
};
use crate::names::{fresh_md_names, is_md_name};
use crate::planner::{find_range_sum, gen_slices, holds, is_fitting_count, is_plan, total};
use crate::planner_laws::{lemma_plan_unique, plan_uses_every_disk_in_full};
use crate::text::texts;
use crate::types::{clone_partitions, DiskPartition, PartitionMap, RaidMap};

verus! {

/// One of the RAID levels that a pool can be asked for.
pub open spec fn is_raid_level(level: int) -> bool {
    level == 0 || level == 1 || level == 5 || level == 6
}

/// The level at which a group of `partitions` members is built in a pool of
/// the intended level: striping and mirroring stay as asked; parity levels
/// need three members and fall back to mirroring below that.
pub open spec fn effective_level(partitions: int, intended: int) -> int {
    if (intended == 5 || intended == 6) && partitions < 3 {
        1
    } else {
        intended
    }
}

/// Determines the RAID level of one group from its number of members and the
/// level intended for the pool.
pub fn find_raid_level(partitions: usize, intended_raid_level: usize) -> (level: Result<
    usize,
    PoolError,
>)
    requires
        intended_raid_level == 0 ==> partitions >= 2,
    ensures
        is_raid_level(intended_raid_level as int) ==> level == Ok::<usize, PoolError>(
            effective_level(partitions as int, intended_raid_level as int) as usize,
        ),
        !is_raid_level(intended_raid_level as int) ==> level == Err::<usize, PoolError>(
            PoolError::BadInput(InputFault::UnknownRaidLevel),
        ),
{
    if intended_raid_level == 0 {
        Ok(0)
    } else if intended_raid_level == 1 {
        Ok(1)
    } else if intended_raid_level == 5 {
        if partitions < 3 {
            Ok(1)
        } else {
            Ok(5)
        }
    } else if intended_raid_level == 6 {
        if partitions < 3 {
            Ok(1)
        } else {
            Ok(6)
        }
    } else {
        Err(PoolError::BadInput(InputFault::UnknownRaidLevel))
    }
}

/// Every partition of the list has a path.
pub open spec fn all_have_paths(partitions: Seq<DiskPartition>) -> bool {
    forall|i: int| 0 <= i < partitions.len() ==> (#[trigger] partitions[i]).path is Some
}

/// The paths of the partitions, in order; `None` where one of them has no
/// path yet.
pub fn into_paths_slice(partitions: &Vec<DiskPartition>) -> (paths: Option<Vec<String>>)
    ensures
        paths is Some <==> all_have_paths(partitions@),
        paths matches Some(list) ==> list@.len() == partitions@.len() && forall|i: int|
            0 <= i < list@.len() ==> Some(#[trigger] list@[i]) == partitions@[i].path,
{
    let mut list: Vec<String> = Vec::new();
    let mut i: usize = 0;
    while i < partitions.len()
        invariant
            0 <= i <= partitions@.len(),
            list@.len() == i,
            forall|k: int| 0 <= k < i ==> Some(#[trigger] list@[k]) == partitions@[k].path,
        decreases partitions.len() - i,
    {
        match &partitions[i].path {
            Some(path) => {
                list.push(path.clone());
            },
            None => {
                assert(partitions@[i as int].path is None);
                return None;
            },
        }
        i = i + 1;
    }
    assert forall|k: int| 0 <= k < partitions@.len() implies (#[trigger] partitions@[k]).path is Some by {
        assert(Some(list@[k]) == partitions@[k].path);
    }
    Some(list)
}

/// The sizes of the partitions, in order.
pub open spec fn sizes(partitions: Seq<DiskPartition>) -> Seq<usize> {
    Seq::new(partitions.len(), |i: int| partitions[i].size)
}

/// The capacities of the disks, in order.
pub open spec fn capacities(disks: Seq<(String, usize)>) -> Seq<usize> {
    Seq::new(disks.len(), |i: int| disks[i].1)
}

/// `partitions` is what a disk of the given capacity receives from the slice
/// list: one partition, not yet created, for each slice of the longest prefix
/// that fits.
pub open spec fn is_disk_layout(
    slices: Seq<usize>,
    capacity: int,
    partitions: Seq<DiskPartition>,
) -> bool {
    &&& is_fitting_count(slices, capacity, partitions.len() as int)
    &&& sizes(partitions) == slices.take(partitions.len() as int)
    &&& forall|j: int| 0 <= j < partitions.len() ==> (#[trigger] partitions[j]).path is None
}

/// Lays out each disk, given by path and capacity, against the slice list.
pub fn make_partition_map(disks: &Vec<(String, usize)>, slices: &Vec<usize>) -> (map: PartitionMap)
    ensures
        map@.len() == disks@.len(),
        forall|i: int|
            0 <= i < map@.len() ==> (#[trigger] map@[i]).0 == disks@[i].0 && is_disk_layout(
                slices@,
                disks@[i].1 as int,
                map@[i].1@,
            ),
{
    let mut map: PartitionMap = Vec::new();
    let mut i: usize = 0;
    while i < disks.len()
        invariant
            0 <= i <= disks@.len(),
            map@.len() == i,
            forall|k: int|
                0 <= k < i ==> (#[trigger] map@[k]).0 == disks@[k].0 && is_disk_layout(
                    slices@,
                    disks@[k].1 as int,
                    map@[k].1@,
                ),
        decreases disks.len() - i,
    {
        let range = find_range_sum(slices, disks[i].1);
        let mut partitions: Vec<DiskPartition> = Vec::new();
        let mut j: usize = 0;
        while j < range.len()
            invariant
                0 <= j <= range@.len(),
                partitions@.len() == j,
                forall|k: int|
                    0 <= k < j ==> (#[trigger] partitions@[k]).path is None && partitions@[k].size
                        == range@[k],
            decreases range.len() - j,
        {
            partitions.push(DiskPartition { path: None, size: range[j] });
            j = j + 1;
        }
        proof {
            assert(sizes(partitions@) =~= slices@.take(partitions@.len() as int));
        }
        map.push((disks[i].0.clone(), partitions));
        i = i + 1;
    }
    map
}

/// Disks that are laid out against one slice list have partitions of the
/// same size at the same ordinal: the size of the slice of that ordinal.
pub proof fn layouts_of_one_slice_list_are_aligned(
    slices: Seq<usize>,
    caps: Seq<int>,
    map: Seq<(String, Vec<DiskPartition>)>,
)
    requires
        caps.len() == map.len(),
        forall|i: int| 0 <= i < map.len() ==> is_disk_layout(slices, caps[i], (#[trigger] map[i]).1@),
    ensures
        aligned(layout(map)),
        forall|i: int, j: int|
            0 <= i < map.len() && 0 <= j < map[i].1@.len() ==> j < slices.len() && (
            #[trigger] layout(map)[i][j]).size == slices[j],
{
    assert forall|i: int, j: int| 0 <= i < map.len() && 0 <= j < map[i].1@.len() implies j
        < slices.len() && (#[trigger] layout(map)[i][j]).size == slices[j] by {
        let parts = map[i].1@;
        assert(is_disk_layout(slices, caps[i], parts));
        assert(sizes(parts)[j] == parts[j].size);
        assert(slices.take(parts.len() as int)[j] == slices[j]);
    }
}

/// The slice plan of `caps`.
pub open spec fn plan_of(caps: Seq<usize>) -> Seq<usize> {
    choose|s: Seq<usize>| is_plan(caps, s)
}

/// Plans the slices of the given disks and lays out each disk against them:
/// for each disk, by path, the sizes of its partitions. Every disk is used
/// in full.
pub fn init_partition_map(disks: &Vec<(String, usize)>) -> (map: Vec<(String, Vec<usize>)>)
    ensures
        is_plan(capacities(disks@), plan_of(capacities(disks@))),
        map@.len() == disks@.len(),
        forall|i: int|
            0 <= i < map@.len() ==> (#[trigger] map@[i]).0 == disks@[i].0 && map@[i].1@.is_prefix_of(
                plan_of(capacities(disks@)),
            ) && total(map@[i].1@) == disks@[i].1,
{
    let ghost caps = capacities(disks@);
    let mut sizes_of_disks: Vec<usize> = Vec::new();
    let mut i: usize = 0;
    while i < disks.len()
        invariant
            0 <= i <= disks@.len(),
            caps == capacities(disks@),
            sizes_of_disks@ == caps.take(i as int),
        decreases disks.len() - i,
    {
        sizes_of_disks.push(disks[i].1);
        i = i + 1;
        assert(sizes_of_disks@ =~= caps.take(i as int));
    }
    assert(caps.take(i as int) =~= caps);
    let slices = gen_slices(&sizes_of_disks);
    proof {
        lemma_plan_unique(caps, slices@, plan_of(caps));
    }
    let mut map: Vec<(String, Vec<usize>)> = Vec::new();
    let mut k: usize = 0;
    while k < disks.len()
        invariant
            0 <= k <= disks@.len(),
            caps == capacities(disks@),
            is_plan(caps, slices@),
            slices@ == plan_of(caps),
            map@.len() == k,
            forall|i: int|
                0 <= i < k ==> (#[trigger] map@[i]).0 == disks@[i].0 && map@[i].1@.is_prefix_of(
                    slices@,
                ) && total(map@[i].1@) == disks@[i].1,
        decreases disks.len() - k,
    {
        let range = find_range_sum(&slices, disks[k].1);
        proof {
            let cap = disks@[k as int].1 as int;
            let n = range@.len() as int;
            assert(caps[k as int] == cap);
            assert(holds(caps, cap));
            plan_uses_every_disk_in_full(caps, slices@, cap, n);
            assert(range@ =~= slices@.take(n));
        }
        map.push((disks[k].0.clone(), range));
        k = k + 1;
    }
    map
}

/// The names of the sub-arrays of a map, in order.
pub open spec fn names_of(map: Seq<(String, Vec<DiskPartition>)>) -> Seq<Seq<char>> {
    Seq::new(map.len(), |i: int| map[i].0@)
}

/// Gives each group its name: the sub-array map of the groups, in their
/// order. `None` where there are not as many names as groups.
pub fn name_groups(groups: &Vec<Vec<DiskPartition>>, names: &Vec<String>) -> (map: Option<RaidMap>)
    ensures
        map is Some <==> groups@.len() == names@.len(),
        map matches Some(m) ==> layout(m@) == members(groups@) && m@.len() == names@.len()
            && forall|i: int| 0 <= i < m@.len() ==> (#[trigger] m@[i]).0 == names@[i],
{
    if groups.len() != names.len() {
        return None;
    }
    let mut m: RaidMap = Vec::new();
    let mut i: usize = 0;
    while i < groups.len()
        invariant
            0 <= i <= groups@.len(),
            groups@.len() == names@.len(),
            m@.len() == i,
            forall|k: int|
                0 <= k < i ==> (#[trigger] m@[k]).0 == names@[k] && m@[k].1@ == groups@[k]@,
        decreases groups.len() - i,
    {
        m.push((names[i].clone(), clone_partitions(&groups[i])));
        i = i + 1;
    }
    assert(layout(m@) =~= members(groups@));
    Some(m)
}

/// Forms the sub-arrays of a pool from the partitions of its disks: the
/// groups of two members or more, in ordinal order, each under a fresh name.
pub fn init_raid_map(part_map: &PartitionMap) -> (raid_map: RaidMap)
    ensures
        is_disk_order(layout(part_map@), disk_order_of(layout(part_map@))),
        is_grouping(
            layout(part_map@),
            disk_order_of(layout(part_map@)),
            groups_of(layout(part_map@)),
        ),
        layout(raid_map@) == survivors(groups_of(layout(part_map@))),
        forall|k: int| 0 <= k < raid_map@.len() ==> is_md_name(#[trigger] names_of(raid_map@)[k]),
{
    let groups = group_partitions(part_map);
    let kept = surviving_groups(&groups);
    let names = fresh_md_names(kept.len());
    match name_groups(&kept, &names) {
        Some(raid_map) => {
            proof {
                assert forall|k: int| 0 <= k < raid_map@.len() implies is_md_name(
                    #[trigger] names_of(raid_map@)[k],
                ) by {
                    assert(names_of(raid_map@)[k] == texts(names@)[k]);
                }
            }
            raid_map
        },
        None => Vec::new(),
    }
}

} // verus!
