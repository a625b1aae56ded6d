//! The manifest: the list of the pools, and the changes that are made to it.
//! Every change gives the whole list anew.

use vstd::prelude::*;
use crate::error::PoolError;
use crate::mapper::is_raid_level;
use crate::planner::{checked_total, total};
use crate::types::HyraidArray;

verus! {

/// Some entry has the given name.
pub open spec fn has_name(entries: Seq<HyraidArray>, name: Seq<char>) -> bool {
    exists|i: int| 0 <= i < entries.len() && (#[trigger] entries[i]).name@ == name
}

/// Entry `i` is the first of the given name.
pub open spec fn is_first_named(entries: Seq<HyraidArray>, name: Seq<char>, i: int) -> bool {
    &&& 0 <= i < entries.len()
    &&& entries[i].name@ == name
    &&& forall|k: int| 0 <= k < i ==> (#[trigger] entries[k]).name@ != name
}

/// No two entries have the same name.
pub open spec fn names_unique(entries: Seq<HyraidArray>) -> bool {
    forall|i: int, j: int|
        0 <= i < j < entries.len() ==> (#[trigger] entries[i]).name@ != (#[trigger] entries[j]).name@
}

/// Names stay unique when an entry is added whose name no entry has.
pub proof fn write_keeps_names_unique(entries: Seq<HyraidArray>, entry: HyraidArray)
    requires
        names_unique(entries),
        !has_name(entries, entry.name@),
    ensures
        names_unique(entries.push(entry)),
{
    let written = entries.push(entry);
    assert forall|i: int, j: int| 0 <= i < j < written.len() implies (#[trigger] written[i]).name@
        != (#[trigger] written[j]).name@ by {
        assert(written[i] == entries[i]);
        if j < entries.len() {
            assert(written[j] == entries[j]);
        }
    }
}

/// Finds the entry of the given name: the place of the first one.
pub fn find_array(entries: &Vec<HyraidArray>, name: &str) -> (place: Option<usize>)
    ensures
        match place {
            Some(i) => is_first_named(entries@, name@, i as int),
            None => !has_name(entries@, name@),
        },
{
    let wanted = name.to_owned();
    let mut i: usize = 0;
    while i < entries.len()
        invariant
            0 <= i <= entries@.len(),
            wanted@ == name@,
            forall|k: int| 0 <= k < i ==> (#[trigger] entries@[k]).name@ != name@,
        decreases entries.len() - i,
    {
        if entries[i].name == wanted {
            return Some(i);
        }
        i = i + 1;
    }
    None
}

/// The list with the entry added at its end.
pub fn write_array(entries: Vec<HyraidArray>, hyraid_array: HyraidArray) -> (written: Vec<
    HyraidArray,
>)
    ensures
        written@ == entries@.push(hyraid_array),
{
    let mut written = entries;
    written.push(hyraid_array);
    written
}

/// The list in which every entry of the given name is replaced by the given
/// entry; the other entries stay as and where they are.
pub fn modify(entries: &Vec<HyraidArray>, name: &str, hyraid_array: &HyraidArray) -> (modified: Vec<
    HyraidArray,
>)
    ensures
        modified@.len() == entries@.len(),
        forall|i: int|
            0 <= i < entries@.len() ==> (#[trigger] modified@[i])@ == (if entries@[i].name@
                == name@ {
                hyraid_array@
            } else {
                entries@[i]@
            }),
{
    let wanted = name.to_owned();
    let mut modified: Vec<HyraidArray> = Vec::new();
    let mut i: usize = 0;
    while i < entries.len()
        invariant
            0 <= i <= entries@.len(),
            wanted@ == name@,
            modified@.len() == i,
            forall|k: int|
                0 <= k < i ==> (#[trigger] modified@[k])@ == (if entries@[k].name@ == name@ {
                    hyraid_array@
                } else {
                    entries@[k]@
                }),
        decreases entries.len() - i,
    {
        if entries[i].name == wanted {
            modified.push(hyraid_array.clone());
        } else {
            modified.push(entries[i].clone());
        }
        i = i + 1;
    }
    modified
}

/// An entry is in order as far as the manifest itself can show: its level
/// is one that a pool can have, every slice is positive, and the slices sum
/// to a size that the machine can count.
pub open spec fn is_well_formed(entry: HyraidArray) -> bool {
    &&& is_raid_level(entry.raid_level as int)
    &&& forall|j: int| 0 <= j < entry.slices@.len() ==> entry.slices@[j] > 0
    &&& total(entry.slices@) <= usize::MAX
}

/// The manifest is in order: every entry is, and no two have the same name.
pub open spec fn is_valid_manifest(entries: Seq<HyraidArray>) -> bool {
    &&& forall|i: int| 0 <= i < entries.len() ==> is_well_formed(#[trigger] entries[i])
    &&& names_unique(entries)
}

/// Tests one entry.
pub fn check_entry(entry: &HyraidArray) -> (valid: bool)
    ensures
        valid == is_well_formed(*entry),
{
    let level = entry.raid_level;
    if !(level == 0 || level == 1 || level == 5 || level == 6) {
        return false;
    }
    let mut j: usize = 0;
    while j < entry.slices.len()
        invariant
            0 <= j <= entry.slices@.len(),
            forall|k: int| 0 <= k < j ==> entry.slices@[k] > 0,
        decreases entry.slices.len() - j,
    {
        if entry.slices[j] == 0 {
            return false;
        }
        j = j + 1;
    }
    checked_total(&entry.slices).is_some()
}

/// Tests the manifest as it was read: one that is not in order is corrupt.
pub fn check_manifest(entries: &Vec<HyraidArray>) -> (outcome: Result<(), PoolError>)
    ensures
        is_valid_manifest(entries@) ==> outcome is Ok,
        !is_valid_manifest(entries@) ==> outcome == Err::<(), PoolError>(
            PoolError::ManifestCorrupt,
        ),
{
    let mut i: usize = 0;
    while i < entries.len()
        invariant
            0 <= i <= entries@.len(),
            forall|k: int| 0 <= k < i ==> is_well_formed(#[trigger] entries@[k]),
            forall|a: int, b: int|
                0 <= a < b < i ==> (#[trigger] entries@[a]).name@ != (#[trigger] entries@[b]).name@,
        decreases entries.len() - i,
    {
        if !check_entry(&entries[i]) {
            return Err(PoolError::ManifestCorrupt);
        }
        let mut a: usize = 0;
        while a < i
            invariant
                0 <= a <= i < entries@.len(),
                forall|k: int| 0 <= k < a ==> (#[trigger] entries@[k]).name@ != entries@[i as int].name@,
            decreases i - a,
        {
            if entries[a].name == entries[i].name {
                return Err(PoolError::ManifestCorrupt);
            }
            a = a + 1;
        }
        i = i + 1;
    }
    Ok(())
}

} // verus!
