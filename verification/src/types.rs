//! The records that describe a pool: partitions, disks, and the manifest entry.

use vstd::prelude::*;

verus! {

/// Sizes of the slices of a pool, in bytes, in slice order.
pub type PartitionSlices = Vec<usize>;

/// For each sub-array, by device name, the partitions that are its members.
pub type RaidMap = Vec<(String, Vec<DiskPartition>)>;

/// For each disk, by device path, its partitions in ascending order of size.
pub type PartitionMap = Vec<(String, Vec<DiskPartition>)>;

/// One partition of a disk: its stable path, once it has been created, and
/// its size in bytes.
#[derive(Debug, PartialEq, Eq)]
pub struct DiskPartition {
    pub path: Option<String>,
    pub size: usize,
}

/// A disk of a pool, as the manifest records it.
#[derive(Debug, PartialEq, Eq)]
pub struct Disk {
    pub partitions: Vec<DiskPartition>,
}

/// The manifest entry of one pool.
#[derive(Debug, PartialEq, Eq)]
pub struct HyraidArray {
    pub name: String,
    pub lvm_lv_path: String,
    pub raid_level: usize,
    pub disks: Vec<Disk>,
    pub raid_map: RaidMap,
    pub slices: PartitionSlices,
}

/// What a `DiskPartition` stands for.
pub struct PartitionModel {
    pub path: Option<Seq<char>>,
    pub size: usize,
}

/// What a `Disk` stands for.
pub struct DiskModel {
    pub partitions: Seq<PartitionModel>,
}

/// What a `HyraidArray` stands for.
pub struct ArrayModel {
    pub name: Seq<char>,
    pub lvm_lv_path: Seq<char>,
    pub raid_level: usize,
    pub disks: Seq<DiskModel>,
    pub raid_map: Seq<(Seq<char>, Seq<PartitionModel>)>,
    pub slices: Seq<usize>,
}

impl DeepView for DiskPartition {
    type V = PartitionModel;

    open spec fn deep_view(&self) -> PartitionModel {
        PartitionModel { path: self.path.deep_view(), size: self.size }
    }
}

impl View for DiskPartition {
    type V = PartitionModel;

    open spec fn view(&self) -> PartitionModel {
        self.deep_view()
    }
}

impl DeepView for Disk {
    type V = DiskModel;

    open spec fn deep_view(&self) -> DiskModel {
        DiskModel { partitions: self.partitions.deep_view() }
    }
}

impl View for Disk {
    type V = DiskModel;

    open spec fn view(&self) -> DiskModel {
        self.deep_view()
    }
}

impl DeepView for HyraidArray {
    type V = ArrayModel;

    open spec fn deep_view(&self) -> ArrayModel {
        ArrayModel {
            name: self.name@,
            lvm_lv_path: self.lvm_lv_path@,
            raid_level: self.raid_level,
            disks: self.disks.deep_view(),
            raid_map: self.raid_map.deep_view(),
            slices: self.slices@,
        }
    }
}

impl View for HyraidArray {
    type V = ArrayModel;

    open spec fn view(&self) -> ArrayModel {
        self.deep_view()
    }
}

impl Clone for DiskPartition {
    fn clone(&self) -> (copy: Self)
        ensures
            copy == *self,
    {
        let path = match &self.path {
            Some(p) => Some(p.clone()),
            None => None,
        };
        DiskPartition { path, size: self.size }
    }
}

/// A copy of a list of partitions.
pub fn clone_partitions(partitions: &Vec<DiskPartition>) -> (copy: Vec<DiskPartition>)
    ensures
        copy@ == partitions@,
{
    let mut copy: Vec<DiskPartition> = Vec::new();
    let mut i: usize = 0;
    while i < partitions.len()
        invariant
            0 <= i <= partitions@.len(),
            copy@ == partitions@.take(i as int),
        decreases partitions.len() - i,
    {
        copy.push(partitions[i].clone());
        i = i + 1;
        assert(copy@ =~= partitions@.take(i as int));
    }
    assert(partitions@.take(i as int) =~= partitions@);
    copy
}

impl Clone for Disk {
    fn clone(&self) -> (copy: Self)
        ensures
            copy.partitions@ == self.partitions@,
            copy@ == self@,
    {
        let copy = Disk { partitions: clone_partitions(&self.partitions) };
        assert(copy.partitions.deep_view() =~= self.partitions.deep_view());
        copy
    }
}

/// A copy of a list of disks.
pub fn clone_disks(disks: &Vec<Disk>) -> (copy: Vec<Disk>)
    ensures
        copy@.len() == disks@.len(),
        forall|i: int| 0 <= i < copy@.len() ==> (#[trigger] copy@[i]).partitions@ == disks@[i].partitions@,
        copy.deep_view() == disks.deep_view(),
{
    let mut copy: Vec<Disk> = Vec::new();
    let mut i: usize = 0;
    while i < disks.len()
        invariant
            0 <= i <= disks@.len(),
            copy@.len() == i,
            forall|k: int| 0 <= k < i ==> (#[trigger] copy@[k]).partitions@ == disks@[k].partitions@,
            forall|k: int| 0 <= k < i ==> (#[trigger] copy@[k])@ == disks@[k]@,
        decreases disks.len() - i,
    {
        copy.push(disks[i].clone());
        i = i + 1;
    }
    assert(copy.deep_view() =~= disks.deep_view());
    copy
}

/// A copy of a map from names to partitions.
pub fn clone_map(map: &Vec<(String, Vec<DiskPartition>)>) -> (copy: Vec<(String, Vec<DiskPartition>)>)
    ensures
        copy@.len() == map@.len(),
        forall|i: int|
            0 <= i < copy@.len() ==> (#[trigger] copy@[i]).0 == map@[i].0 && copy@[i].1@
                == map@[i].1@,
        copy.deep_view() == map.deep_view(),
{
    let mut copy: Vec<(String, Vec<DiskPartition>)> = Vec::new();
    let mut i: usize = 0;
    while i < map.len()
        invariant
            0 <= i <= map@.len(),
            copy@.len() == i,
            forall|k: int|
                0 <= k < i ==> (#[trigger] copy@[k]).0 == map@[k].0 && copy@[k].1@ == map@[k].1@,
        decreases map.len() - i,
    {
        copy.push((map[i].0.clone(), clone_partitions(&map[i].1)));
        i = i + 1;
    }
    proof {
        assert forall|k: int| 0 <= k < copy@.len() implies (#[trigger] copy@[k]).deep_view()
            == map@[k].deep_view() by {
            assert(copy@[k].1.deep_view() =~= map@[k].1.deep_view());
        }
        assert(copy.deep_view() =~= map.deep_view());
    }
    copy
}

impl Clone for HyraidArray {
    fn clone(&self) -> (copy: Self)
        ensures
            copy@ == self@,
            copy.name == self.name,
            copy.lvm_lv_path == self.lvm_lv_path,
            copy.raid_level == self.raid_level,
            copy.slices@ == self.slices@,
    {
        HyraidArray {
            name: self.name.clone(),
            lvm_lv_path: self.lvm_lv_path.clone(),
            raid_level: self.raid_level,
            disks: clone_disks(&self.disks),
            raid_map: clone_map(&self.raid_map),
            slices: self.slices.clone(),
        }
    }
}

} // verus!
