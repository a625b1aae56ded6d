use hyraid::error::{InputFault, PoolError};
use hyraid::groups::{group_partitions, surviving_groups};
use hyraid::mapper::init_raid_map;
use hyraid::partitioner::sort_partitions;
use hyraid::mdadm::{check_name, strip_name};
use hyraid::names::{fresh_md_name, fresh_vg_name, md_name, vg_name};
use hyraid::planner::{find_range_sum, gen_slices, recompute_slices};
use hyraid::types::DiskPartition;

fn held(disk: usize, ordinal: usize, size: usize) -> DiskPartition {
    DiskPartition { path: Some(format!("/dev/disk/by-partuuid/{}-{}", disk, ordinal)), size }
}

fn laid_out(capacities: &[usize]) -> Vec<(String, Vec<DiskPartition>)> {
    let slices = gen_slices(&capacities.to_vec());
    capacities
        .iter()
        .enumerate()
        .map(|(d, capacity)| {
            let sizes = find_range_sum(&slices, *capacity);
            let parts = sizes.iter().enumerate().map(|(j, s)| held(d, j, *s)).collect();
            (format!("/dev/disk{}", d), parts)
        })
        .collect()
}

fn sample_sets() -> Vec<Vec<usize>> {
    vec![
        vec![1000, 1000, 1000],
        vec![1000, 2000, 3000],
        vec![500, 500, 1000, 2000],
        vec![1000, 1500],
        vec![7],
        vec![3, 9, 9, 4, 4, 4, 12],
        vec![10, 20, 30, 40, 50],
    ]
}

#[test]
fn every_plan_sums_to_the_largest_disk_and_has_no_more_slices_than_disks() {
    for caps in sample_sets() {
        let plan = gen_slices(&caps);
        assert_eq!(plan.iter().sum::<usize>(), *caps.iter().max().unwrap());
        assert!(plan.len() <= caps.len());
        assert!(plan.iter().all(|s| *s > 0));
        for c in &caps {
            assert_eq!(find_range_sum(&plan, *c).iter().sum::<usize>(), *c);
        }
    }
}

#[test]
fn every_plan_is_the_same_for_every_order_of_the_disks() {
    for caps in sample_sets() {
        let plan = gen_slices(&caps);
        let reversed: Vec<usize> = caps.iter().rev().copied().collect();
        let mut rotated = caps.clone();
        rotated.rotate_left(1);
        assert_eq!(gen_slices(&reversed), plan);
        assert_eq!(gen_slices(&rotated), plan);
    }
}

#[test]
fn every_extension_begins_with_the_plan_it_extends() {
    for caps in sample_sets() {
        let plan = gen_slices(&caps);
        for more in sample_sets() {
            let mut all = caps.clone();
            all.extend(more.iter());
            let extended = recompute_slices(&all, &plan);
            assert_eq!(&extended[..plan.len()], &plan[..]);
            assert_eq!(extended.iter().sum::<usize>(), *all.iter().max().unwrap());
            assert_eq!(recompute_slices(&more, &plan), recompute_slices(&all, &plan));
        }
    }
}

#[test]
fn every_surviving_group_holds_one_size_and_every_shared_partition_is_in_one() {
    for caps in sample_sets() {
        let map = laid_out(&caps);
        let groups = group_partitions(&map);
        let kept = surviving_groups(&groups);
        for group in &kept {
            assert!(group.len() >= 2);
            assert!(group.iter().all(|p| p.size == group[0].size));
        }
        let tallest = map.iter().map(|(_, parts)| parts.len()).max().unwrap();
        let mut shared_ordinals = 0;
        for j in 0..tallest {
            let owners: Vec<&DiskPartition> =
                map.iter().filter(|(_, parts)| parts.len() > j).map(|(_, parts)| &parts[j]).collect();
            if owners.len() >= 2 {
                shared_ordinals += 1;
                assert_eq!(kept[j].len(), owners.len());
                for owner in &owners {
                    assert_eq!(kept[j].iter().filter(|p| p == owner).count(), 1);
                }
            } else {
                assert!(kept.len() <= j);
            }
        }
        assert_eq!(kept.len(), shared_ordinals);
        let members: usize = kept.iter().map(|g| g.len()).sum();
        let shared: usize = map
            .iter()
            .map(|(_, parts)| parts.len().min(shared_ordinals))
            .sum();
        assert_eq!(members, shared);
    }
}

#[test]
fn partitions_sorted_by_size_need_not_line_up_by_ordinal() {
    let slices = gen_slices(&vec![1000, 1500]);
    assert_eq!(slices, vec![1000, 500]);
    let in_slice_order = laid_out(&[1000, 1500]);
    let kept = surviving_groups(&group_partitions(&in_slice_order));
    assert_eq!(kept.len(), 1);
    assert!(kept[0].iter().all(|p| p.size == 1000));
    let by_size: Vec<(String, Vec<DiskPartition>)> = in_slice_order
        .iter()
        .map(|(disk, parts)| (disk.clone(), sort_partitions(parts)))
        .collect();
    let mixed = surviving_groups(&group_partitions(&by_size));
    assert_eq!(mixed.len(), 1);
    let sizes: Vec<usize> = mixed[0].iter().map(|p| p.size).collect();
    assert_eq!(sizes, vec![500, 1000]);
}

#[test]
fn fresh_names_are_accepted_by_the_sub_array_driver() {
    for _ in 0..20 {
        let name = fresh_md_name();
        assert!(check_name(&name));
        assert_eq!(strip_name(&name).len(), 20);
        assert!(strip_name(&name).starts_with("hyraid_md_"));
        let vg = fresh_vg_name();
        assert!(vg.starts_with("hyraid_vg_"));
        assert_eq!(vg.chars().count(), 26);
    }
    assert_eq!(md_name("0123456789"), "/dev/md/hyraid_md_0123456789");
    assert_eq!(vg_name("0123456789abcdef"), "hyraid_vg_0123456789abcdef");
    let first = init_raid_map(&laid_out(&[10, 10, 10]));
    let second = init_raid_map(&laid_out(&[10, 10, 10]));
    assert_eq!(first[0].1, second[0].1);
}

#[test]
fn messages_say_what_went_wrong() {
    assert_eq!(PoolError::NotRoot.message(), "HyRAID must be run as root. Quitting.");
    assert_eq!(
        PoolError::BadInput(InputFault::UnknownRaidLevel).message(),
        "Incorrect RAID level. Only RAID0,RAID1,RAID5 and RAID6 is supported."
    );
    assert_eq!(PoolError::BadInput(InputFault::NoSuchArray).message(), "Error: No such HyRAID array.");
    assert_eq!(PoolError::RequestTooLarge.message(), "Request is longer than 1024 bytes.");
    assert_eq!(PoolError::EngineError("pvcreate: no".to_string()).message(), "pvcreate: no");
}
