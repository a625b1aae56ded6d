//! What every operation keeps true of the manifest: entries stay well
//! formed, and names stay unique.

use vstd::prelude::*;
use crate::controller::{is_create_plan, Plan};
use crate::extend::is_add_plan;
use crate::manifest::{has_name, is_valid_manifest, is_well_formed, write_keeps_names_unique};
use crate::mapper::is_raid_level;
use crate::membership::is_remove_plan;
use crate::planner::{holds, is_extension, is_plan, prefix_total, total};
use crate::planner_laws::{plan_slices_positive, plan_total_is_largest_capacity};
use crate::types::{DiskPartition, HyraidArray};

verus! {

/// An extended slice list sums either to what the list summed to before or
/// to one of the capacities that it was extended for: in either case to a
/// size that the machine can count.
pub proof fn extension_total_is_countable(
    old_slices: Seq<usize>,
    caps: Seq<usize>,
    extended: Seq<usize>,
)
    requires
        is_extension(old_slices, caps, extended),
        total(old_slices) <= usize::MAX,
    ensures
        total(extended) == total(old_slices) || holds(caps, total(extended)),
        total(extended) <= usize::MAX,
{
    assert(extended.take(extended.len() as int) =~= extended);
    if extended.len() == old_slices.len() {
        assert(extended =~= old_slices);
    } else {
        assert(holds(caps, prefix_total(extended, extended.len() as int)));
    }
}

/// The entry of a pool that was planned over disks which all have some
/// capacity, at a level that a pool can have, is well formed.
pub proof fn created_entry_is_well_formed(
    plan: Plan,
    name: String,
    raid_map: Seq<(String, Vec<DiskPartition>)>,
    part_map: Seq<(String, Vec<DiskPartition>)>,
    raid_level: usize,
    slices: Seq<usize>,
    vg: Seq<char>,
    caps: Seq<usize>,
)
    requires
        is_create_plan(plan, name, raid_map, part_map, raid_level, slices, vg),
        is_raid_level(raid_level as int),
        is_plan(caps, slices),
        caps.len() > 0,
        forall|i: int| 0 <= i < caps.len() ==> caps[i] > 0,
    ensures
        is_well_formed(plan.entry),
{
    plan_slices_positive(caps, slices);
    plan_total_is_largest_capacity(caps, slices);
}

/// A valid manifest stays valid when the entry of a new pool is written to
/// it, where the entry is well formed and its name was free.
pub proof fn create_keeps_manifest_valid(entries: Seq<HyraidArray>, entry: HyraidArray)
    requires
        is_valid_manifest(entries),
        is_well_formed(entry),
        !has_name(entries, entry.name@),
    ensures
        is_valid_manifest(entries.push(entry)),
{
    write_keeps_names_unique(entries, entry);
    let written = entries.push(entry);
    assert forall|i: int| 0 <= i < written.len() implies is_well_formed(#[trigger] written[i]) by {
        if i < entries.len() {
            assert(written[i] == entries[i]);
        }
    }
}

/// The entry of a pool stays well formed when disks are added to it.
pub proof fn add_keeps_entry_well_formed(
    plan: Plan,
    entry: HyraidArray,
    caps: Seq<usize>,
    part_map: Seq<(String, Vec<DiskPartition>)>,
    fresh: Seq<Seq<char>>,
)
    requires
        is_well_formed(entry),
        is_add_plan(plan, entry, caps, part_map, fresh),
    ensures
        is_well_formed(plan.entry),
        entry.slices@.is_prefix_of(plan.entry.slices@),
{
    let before = entry.slices@;
    let after = plan.entry.slices@;
    extension_total_is_countable(before, caps, after);
    assert(after.subrange(0, before.len() as int) =~= after.take(before.len() as int));
    assert forall|j: int| 0 <= j < after.len() implies after[j] > 0 by {
        if j < before.len() {
            assert(after[j] == after.take(before.len() as int)[j]);
        }
    }
}

/// The entry of a pool stays well formed when members are taken out of it.
pub proof fn remove_keeps_entry_well_formed(
    plan: Plan,
    entry: HyraidArray,
    partitions: Seq<DiskPartition>,
)
    requires
        is_well_formed(entry),
        is_remove_plan(plan, entry, partitions),
    ensures
        is_well_formed(plan.entry),
{
}

/// A valid manifest stays valid when the entry of a pool is replaced by a
/// well-formed entry of the same name.
pub proof fn change_keeps_manifest_valid(
    entries: Seq<HyraidArray>,
    entry: HyraidArray,
    written: Seq<HyraidArray>,
)
    requires
        is_valid_manifest(entries),
        is_well_formed(entry),
        written.len() == entries.len(),
        forall|i: int|
            0 <= i < entries.len() ==> (#[trigger] written[i])@ == (if entries[i].name@
                == entry.name@ {
                entry@
            } else {
                entries[i]@
            }),
    ensures
        is_valid_manifest(written),
{
    assert forall|i: int| 0 <= i < written.len() implies is_well_formed(#[trigger] written[i]) by {
        assert(is_well_formed(entries[i]));
        if entries[i].name@ == entry.name@ {
            assert(written[i]@ == entry@);
            assert(written[i].slices@ == entry.slices@);
        } else {
            assert(written[i]@ == entries[i]@);
            assert(written[i].slices@ == entries[i].slices@);
        }
    }
    assert forall|i: int, j: int| 0 <= i < j < written.len() implies (#[trigger] written[i]).name@
        != (#[trigger] written[j]).name@ by {
        assert(entries[i].name@ != entries[j].name@);
        assert(written[i]@.name == entries[i]@.name);
        assert(written[j]@.name == entries[j]@.name);
    }
}

} // verus!
