//! The device inspector and the partitioner, as far as they compute: paths
//! of partitions, sizes in bytes and sectors, the label of a partition
//! table, and the wait for a new partition.

use vstd::prelude::*;
use vstd::string::StringExecFns;
use crate::decimal::{parse_decimal, parsed};
use crate::error::PoolError;
use crate::pattern::{find_groups, group, group_text, groups_in};
use crate::text::{from_chars, same_text, skip_repeats, to_chars, trim_end, trimmed_end, trimmed_start};
use crate::types::{Disk, DiskPartition};

verus! {

/// The directory in which every partition has a link named by its GUID,
/// which stays the same when the kernel renumbers devices.
pub const BY_PARTUUID: &'static str = "/dev/disk/by-partuuid/";

/// The name that every partition of a pool is given.
pub const PARTITION_NAME: &'static str = "hyraid_partition";

/// What `sfdisk` is told in order to write an empty GPT label.
pub const GPT_LABEL_SCRIPT: &'static str = "label: gpt\n\twrite\n";

/// The pattern of the line in which `sfdisk` names the kind of a partition
/// table; its one group is the kind.
pub const LABEL_PATTERN: &'static str = "label: (?<table>.+)";

/// Milliseconds between two looks for a new partition.
pub const POLL_INTERVAL_MS: u64 = 100;

/// Milliseconds after which a partition that has not appeared is given up.
pub const POLL_LIMIT_MS: u64 = 30000;

/// One entry of a GPT partition table, as far as a pool needs it: the
/// partition's GUID, written in the usual hyphenated form, and its length
/// in sectors.
#[derive(Debug, PartialEq, Eq)]
pub struct GptEntry {
    pub guid: String,
    pub sectors: u64,
}

/// The stable path of the partition with the given GUID.
pub fn get_path_of_partition(guid: &str) -> (path: String)
    ensures
        path@ == BY_PARTUUID@ + guid@,
{
    BY_PARTUUID.to_owned().concat(guid)
}

/// The size in bytes of `sectors` sectors, where it fits.
pub open spec fn bytes_of(sectors: u64, sector_size: usize) -> Option<usize> {
    if sectors * sector_size <= usize::MAX {
        Some((sectors * sector_size) as usize)
    } else {
        None
    }
}

/// The size in bytes of a number of sectors. A size that the machine cannot
/// count is the device's fault.
pub fn sectors_to_bytes(sectors: u64, sector_size: usize) -> (bytes: Result<usize, PoolError>)
    ensures
        match bytes {
            Ok(b) => bytes_of(sectors, sector_size) == Some(b),
            Err(e) => e == PoolError::BadDevice && bytes_of(sectors, sector_size) is None,
        },
{
    if sectors > usize::MAX as u64 {
        proof {
            if sector_size > 0 {
                assert(sectors * sector_size >= sectors) by (nonlinear_arith)
                    requires
                        sector_size >= 1,
                        sectors >= 0,
                ;
            }
        }
        if sector_size == 0 {
            return Ok(0);
        }
        return Err(PoolError::BadDevice);
    }
    match (sectors as usize).checked_mul(sector_size) {
        Some(b) => Ok(b),
        None => Err(PoolError::BadDevice),
    }
}

/// The number of sectors that hold `bytes` bytes exactly, where there is
/// one: sizes are never rounded.
pub open spec fn sectors_of(bytes: usize, sector_size: usize) -> Option<u64> {
    if sector_size > 0 && bytes % sector_size == 0 {
        Some((bytes / sector_size) as u64)
    } else {
        None
    }
}

/// The number of sectors of a size in bytes. A size that is no whole number
/// of sectors is refused.
pub fn bytes_to_sectors(bytes: usize, sector_size: usize) -> (sectors: Result<u64, PoolError>)
    ensures
        match sectors {
            Ok(s) => sectors_of(bytes, sector_size) == Some(s),
            Err(e) => e == PoolError::BadDevice && sectors_of(bytes, sector_size) is None,
        },
{
    if sector_size == 0 || bytes % sector_size != 0 {
        return Err(PoolError::BadDevice);
    }
    Ok((bytes / sector_size) as u64)
}

/// The free space of a disk in bytes, from its free ranges, each given by
/// its first sector and its length in sectors, and the size of a sector: it
/// is the first free range that counts. A disk without a free range has no
/// free space.
pub fn get_free_space(free: &Vec<(u64, u64)>, sector_size: usize) -> (bytes: Result<usize, PoolError>)
    ensures
        free@.len() == 0 ==> bytes == Ok::<usize, PoolError>(0),
        free@.len() > 0 ==> match bytes {
            Ok(b) => bytes_of(free@[0].1, sector_size) == Some(b),
            Err(e) => e == PoolError::BadDevice && bytes_of(free@[0].1, sector_size) is None,
        },
{
    if free.len() == 0 {
        return Ok(0);
    }
    sectors_to_bytes(free[0].1, sector_size)
}

impl DiskPartition {
    /// The partition that a GPT entry describes on a disk of the given
    /// sector size.
    pub fn from(partition: &GptEntry, sector_size: usize) -> (made: Result<DiskPartition, PoolError>)
        ensures
            match made {
                Ok(p) => bytes_of(partition.sectors, sector_size) == Some(p.size) && (p.path matches Some(
                    path,
                ) && path@ == BY_PARTUUID@ + partition.guid@),
                Err(e) => e == PoolError::BadDevice && bytes_of(partition.sectors, sector_size)
                    is None,
            },
    {
        let size = sectors_to_bytes(partition.sectors, sector_size)?;
        Ok(DiskPartition { path: Some(get_path_of_partition(partition.guid.as_str())), size })
    }
}

/// Every entry has a size in bytes that the machine can count.
pub open spec fn all_countable(entries: Seq<GptEntry>, sector_size: usize) -> bool {
    forall|i: int|
        0 <= i < entries.len() ==> bytes_of((#[trigger] entries[i]).sectors, sector_size) is Some
}

impl Disk {
    /// The disk whose partition table holds the given entries, in their
    /// order.
    pub fn from(partitions: &Vec<GptEntry>, sector_size: usize) -> (made: Result<Disk, PoolError>)
        ensures
            match made {
                Ok(disk) => all_countable(partitions@, sector_size) && disk.partitions@.len()
                    == partitions@.len() && forall|i: int|
                    0 <= i < partitions@.len() ==> bytes_of(partitions@[i].sectors, sector_size)
                        == Some((#[trigger] disk.partitions@[i]).size) && (disk.partitions@[i].path matches Some(
                        path,
                    ) && path@ == BY_PARTUUID@ + partitions@[i].guid@),
                Err(e) => e == PoolError::BadDevice && !all_countable(partitions@, sector_size),
            },
    {
        let mut made: Vec<DiskPartition> = Vec::new();
        let mut i: usize = 0;
        while i < partitions.len()
            invariant
                0 <= i <= partitions@.len(),
                made@.len() == i,
                forall|k: int|
                    0 <= k < i ==> bytes_of(partitions@[k].sectors, sector_size) == Some(
                        (#[trigger] made@[k]).size,
                    ) && (made@[k].path matches Some(path) && path@ == BY_PARTUUID@
                        + partitions@[k].guid@),
            decreases partitions.len() - i,
        {
            match DiskPartition::from(&partitions[i], sector_size) {
                Ok(p) => {
                    made.push(p);
                },
                Err(e) => {
                    return Err(e);
                },
            }
            i = i + 1;
        }
        proof {
            assert forall|k: int| 0 <= k < partitions@.len() implies bytes_of(
                (#[trigger] partitions@[k]).sectors,
                sector_size,
            ) is Some by {
                assert(bytes_of(partitions@[k].sectors, sector_size) == Some(made@[k].size));
            }
        }
        Ok(Disk { partitions: made })
    }
}

/// The partitions are in ascending order of size.
pub open spec fn ascending_sizes(partitions: Seq<DiskPartition>) -> bool {
    forall|i: int, j: int|
        0 <= i <= j < partitions.len() ==> partitions[i].size <= partitions[j].size
}

/// The partitions of the given size, in their order.
pub open spec fn of_size(partitions: Seq<DiskPartition>, size: usize) -> Seq<DiskPartition> {
    partitions.filter(|p: DiskPartition| p.size == size)
}

/// The partitions of one size among two lists put together are those of the
/// first, then those of the second.
pub proof fn lemma_of_size_concat(a: Seq<DiskPartition>, b: Seq<DiskPartition>, size: usize)
    ensures
        of_size(a + b, size) == of_size(a, size) + of_size(b, size),
{
    Seq::filter_distributes_over_add(a, b, |p: DiskPartition| p.size == size);
}

/// Where no partition has the size, there are none of that size.
pub proof fn lemma_of_size_none(a: Seq<DiskPartition>, size: usize)
    requires
        forall|i: int| 0 <= i < a.len() ==> a[i].size != size,
    ensures
        of_size(a, size) == Seq::<DiskPartition>::empty(),
    decreases a.len(),
{
    reveal_with_fuel(Seq::filter, 2);
    if a.len() > 0 {
        lemma_of_size_none(a.drop_last(), size);
    }
}

/// The partitions of one size in a list of one partition.
pub proof fn lemma_of_size_one(x: DiskPartition, size: usize)
    ensures
        of_size(seq![x], size) == if x.size == size {
            seq![x]
        } else {
            Seq::<DiskPartition>::empty()
        },
{
    reveal_with_fuel(Seq::filter, 2);
    assert(seq![x].drop_last() =~= Seq::<DiskPartition>::empty());
    assert(seq![x].last() == x);
    if x.size == size {
        assert(Seq::<DiskPartition>::empty().push(x) =~= seq![x]);
    }
}

/// The partitions in ascending order of size; partitions of one size stay
/// in the order in which they were.
pub fn sort_partitions(partitions: &Vec<DiskPartition>) -> (sorted: Vec<DiskPartition>)
    ensures
        ascending_sizes(sorted@),
        forall|size: usize| #[trigger] of_size(sorted@, size) == of_size(partitions@, size),
        sorted@.to_multiset() == partitions@.to_multiset(),
        sorted@.len() == partitions@.len(),
{
    let mut sorted: Vec<DiskPartition> = Vec::new();
    let mut k: usize = 0;
    proof {
        assert(partitions@.take(0) =~= Seq::<DiskPartition>::empty());
    }
    while k < partitions.len()
        invariant
            0 <= k <= partitions@.len(),
            ascending_sizes(sorted@),
            sorted@.len() == k,
            sorted@.to_multiset() == partitions@.take(k as int).to_multiset(),
            forall|size: usize| #[trigger]
                of_size(sorted@, size) == of_size(partitions@.take(k as int), size),
        decreases partitions.len() - k,
    {
        let x = partitions[k].clone();
        let mut pos: usize = 0;
        while pos < sorted.len() && sorted[pos].size <= x.size
            invariant
                0 <= pos <= sorted@.len(),
                forall|i: int| 0 <= i < pos ==> sorted@[i].size <= x.size,
            decreases sorted.len() - pos,
        {
            pos = pos + 1;
        }
        proof {
            let seen = partitions@.take(k as int);
            let before = sorted@;
            let head = before.take(pos as int);
            let tail = before.skip(pos as int);
            let after = before.insert(pos as int, x);
            assert(partitions@.take(k + 1) =~= seen.push(x));
            vstd::seq_lib::to_multiset_build(seen, x);
            vstd::seq_lib::to_multiset_insert(before, pos as int, x);
            assert forall|i: int, j: int| 0 <= i <= j < after.len() implies after[i].size
                <= after[j].size by {
                if j < pos {
                    assert(after[i] == before[i] && after[j] == before[j]);
                } else if j == pos {
                    if i < pos {
                        assert(after[i] == before[i]);
                    }
                } else {
                    assert(after[j] == before[j - 1]);
                    if i < pos {
                        assert(after[i] == before[i]);
                    } else if i > pos {
                        assert(after[i] == before[i - 1]);
                    } else {
                        assert(before[pos as int].size <= before[j - 1].size);
                    }
                }
            }
            assert(before =~= head + tail);
            assert(after =~= head + seq![x] + tail);
            assert(seen.push(x) =~= seen + seq![x]);
            assert forall|size: usize| #[trigger]
                of_size(after, size) == of_size(seen.push(x), size) by {
                lemma_of_size_concat(head, tail, size);
                lemma_of_size_concat(head + seq![x], tail, size);
                lemma_of_size_concat(head, seq![x], size);
                lemma_of_size_concat(seen, seq![x], size);
                lemma_of_size_one(x, size);
                assert(of_size(before, size) == of_size(seen, size));
                if x.size == size {
                    assert forall|i: int| 0 <= i < tail.len() implies tail[i].size != size by {
                        assert(tail[i] == before[pos + i]);
                        assert(before[pos as int].size <= before[pos + i].size);
                    }
                    lemma_of_size_none(tail, size);
                    assert(of_size(head, size) + seq![x] + Seq::<DiskPartition>::empty()
                        =~= of_size(head, size) + Seq::<DiskPartition>::empty() + seq![x]);
                } else {
                    assert(of_size(head, size) + Seq::<DiskPartition>::empty() =~= of_size(
                        head,
                        size,
                    ));
                    assert(of_size(seen, size) + Seq::<DiskPartition>::empty() =~= of_size(
                        seen,
                        size,
                    ));
                }
            }
        }
        sorted.insert(pos, x);
        k = k + 1;
    }
    proof {
        assert(partitions@.take(k as int) =~= partitions@);
    }
    sorted
}

/// The kind of partition table that a dump by `sfdisk` names.
pub open spec fn label_in(dump: Seq<char>) -> Option<Seq<char>> {
    match groups_in(LABEL_PATTERN@, dump) {
        Some(groups) => group_text(groups, 1),
        None => None,
    }
}

/// Reads the kind of partition table from a dump by `sfdisk`.
pub fn partition_table_label(dump: &str) -> (label: Option<String>)
    ensures
        label.deep_view() == label_in(dump@),
{
    match find_groups(LABEL_PATTERN, dump) {
        Some(groups) => group(&groups, 1),
        None => None,
    }
}

/// Ensures that the partition table of a disk is GPT, as far as a decision
/// goes: from the disk's dump by `sfdisk`, what is to be fed to `sfdisk` to
/// give it an empty GPT label, or nothing where its table is GPT already. A
/// dump that names no kind of table is the device's fault.
pub fn ensure_gpt(dump: &str) -> (script: Result<Option<String>, PoolError>)
    ensures
        match label_in(dump@) {
            Some(label) => if label == "gpt"@ {
                script == Ok::<Option<String>, PoolError>(None)
            } else {
                script matches Ok(Some(text)) && text@ == GPT_LABEL_SCRIPT@
            },
            None => script == Err::<Option<String>, PoolError>(PoolError::BadDevice),
        },
{
    match partition_table_label(dump) {
        Some(label) => if same_text(label.as_str(), "gpt") {
            Ok(None)
        } else {
            Ok(Some(GPT_LABEL_SCRIPT.to_owned()))
        },
        None => Err(PoolError::BadDevice),
    }
}

/// The name under which the kernel lists a block device: its path without
/// the leading `/dev/` and without slashes at its end.
pub open spec fn block_name(dev_path: Seq<char>) -> Seq<char> {
    trimmed_end(trimmed_start(dev_path, "/dev/"@), "/"@)
}

/// The file in which the kernel gives the logical sector size of a device,
/// from the device's canonical path.
pub fn sector_size_file(dev_path: &str) -> (file: String)
    ensures
        file@ == "/sys/block/"@ + block_name(dev_path@) + "/queue/logical_block_size"@,
{
    let chars = to_chars(dev_path);
    let dev = to_chars("/dev/");
    let start = skip_repeats(&chars, 0, &dev);
    proof {
        assert(chars@.skip(0) =~= chars@);
        assert(chars@.skip(start as int) =~= chars@.subrange(start as int, chars@.len() as int));
    }
    let tail = from_chars(&chars, start, chars.len());
    let name = trim_end(tail.as_str(), "/");
    "/sys/block/".to_owned().concat(name.as_str()).concat("/queue/logical_block_size")
}

/// The sector size that the kernel reports, from the text of that file once
/// the surrounding blanks are taken off: a positive decimal number.
pub fn get_sector_size(text: &str) -> (size: Result<usize, PoolError>)
    ensures
        match size {
            Ok(n) => parsed(text@) == Some(n) && n > 0,
            Err(e) => e == PoolError::BadDevice && (parsed(text@) is None || parsed(text@)
                == Some(0usize)),
        },
{
    match parse_decimal(text) {
        Some(n) => if n > 0 {
            Ok(n)
        } else {
            Err(PoolError::BadDevice)
        },
        None => Err(PoolError::BadDevice),
    }
}

/// What to do about a partition that was just created.
#[derive(Debug, Clone, Copy, PartialEq, Eq)]
pub enum PollStep {
    /// Its device node is there.
    Ready,
    /// Look again after so many milliseconds.
    Wait(u64),
    /// It did not appear in time.
    GiveUp,
}

/// Decides how the wait for a new partition goes on, from whether its
/// device node exists now and how long the wait has lasted.
pub fn validate_partition(exists: bool, waited_ms: u64) -> (step: PollStep)
    ensures
        exists ==> step == PollStep::Ready,
        !exists && waited_ms < POLL_LIMIT_MS ==> step == PollStep::Wait(POLL_INTERVAL_MS),
        !exists && waited_ms >= POLL_LIMIT_MS ==> step == PollStep::GiveUp,
{
    if exists {
        PollStep::Ready
    } else if waited_ms < POLL_LIMIT_MS {
        PollStep::Wait(POLL_INTERVAL_MS)
    } else {
        PollStep::GiveUp
    }
}

} // verus!
