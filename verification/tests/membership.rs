use hyraid::command::Invocation;
use hyraid::error::{InputFault, PoolError};
use hyraid::membership::{
    commit_change, fail_from_hyraid_array, find_holder, holds_partition, member_command,
    member_commands, remaining_members, remove_disk_from_array, same_partition, shrink_map,
    MemberAction,
};
use hyraid::types::{Disk, DiskPartition, HyraidArray};

fn slot(disk: &str, ordinal: usize, size: usize) -> DiskPartition {
    DiskPartition { path: Some(format!("/dev/disk/by-partuuid/{}-{}", disk, ordinal)), size }
}

fn entry_of_tiers(name: &str) -> HyraidArray {
    HyraidArray {
        name: name.to_string(),
        lvm_lv_path: "/dev/hyraid_vg_0123456789abcdef/lvol0".to_string(),
        raid_level: 5,
        disks: vec![
            Disk { partitions: vec![slot("sda", 0, 1000)] },
            Disk { partitions: vec![slot("sdb", 0, 1000), slot("sdb", 1, 1000)] },
            Disk { partitions: vec![slot("sdc", 0, 1000), slot("sdc", 1, 1000), slot("sdc", 2, 1000)] },
        ],
        raid_map: vec![
            (
                "/dev/md/hyraid_md_aaaaaaaaaa".to_string(),
                vec![slot("sdc", 0, 1000), slot("sdb", 0, 1000), slot("sda", 0, 1000)],
            ),
            ("/dev/md/hyraid_md_bbbbbbbbbb".to_string(), vec![slot("sdc", 1, 1000), slot("sdb", 1, 1000)]),
        ],
        slices: vec![1000, 1000, 1000],
    }
}

fn engine(args: &[&str]) -> Invocation {
    Invocation { program: "mdadm".to_string(), args: args.iter().map(|s| s.to_string()).collect() }
}

#[test]
fn partitions_are_the_same_by_path_and_size() {
    assert!(same_partition(&slot("sda", 0, 10), &slot("sda", 0, 10)));
    assert!(!same_partition(&slot("sda", 0, 10), &slot("sda", 0, 11)));
    assert!(!same_partition(&slot("sda", 0, 10), &slot("sda", 1, 10)));
    assert!(!same_partition(&slot("sda", 0, 10), &DiskPartition { path: None, size: 10 }));
    assert!(same_partition(&DiskPartition { path: None, size: 10 }, &DiskPartition { path: None, size: 10 }));
    let members = vec![slot("sda", 0, 10), slot("sdb", 0, 10)];
    assert!(holds_partition(&members, &slot("sdb", 0, 10)));
    assert!(!holds_partition(&members, &slot("sdc", 0, 10)));
    assert!(!holds_partition(&vec![], &slot("sdc", 0, 10)));
}

#[test]
fn holder_is_the_first_sub_array_with_the_partition() {
    let entry = entry_of_tiers("pool");
    assert_eq!(find_holder(&entry.raid_map, &slot("sdb", 0, 1000)), Some(0));
    assert_eq!(find_holder(&entry.raid_map, &slot("sdb", 1, 1000)), Some(1));
    assert_eq!(find_holder(&entry.raid_map, &slot("sdc", 2, 1000)), None);
    assert_eq!(find_holder(&vec![], &slot("sdc", 2, 1000)), None);
    let mut twice = entry_of_tiers("pool").raid_map;
    twice[1].1.push(slot("sdb", 0, 1000));
    assert_eq!(find_holder(&twice, &slot("sdb", 0, 1000)), Some(0));
}

#[test]
fn failing_a_disk_marks_its_members_faulty_and_leaves_the_manifest() {
    let entries = vec![entry_of_tiers("other"), entry_of_tiers("pool")];
    let on_sdb = vec![slot("sdb", 0, 1000), slot("sdb", 1, 1000)];
    let calls = fail_from_hyraid_array(&entries, "pool", &on_sdb).unwrap();
    assert_eq!(
        calls,
        vec![
            engine(&["/dev/md/hyraid_md_aaaaaaaaaa", "--fail", "/dev/disk/by-partuuid/sdb-0"]),
            engine(&["/dev/md/hyraid_md_bbbbbbbbbb", "--fail", "/dev/disk/by-partuuid/sdb-1"]),
        ]
    );
    assert_eq!(entries, vec![entry_of_tiers("other"), entry_of_tiers("pool")]);
}

#[test]
fn failing_passes_over_partitions_that_no_sub_array_holds() {
    let entries = vec![entry_of_tiers("pool")];
    let on_sdc = vec![slot("sdc", 0, 1000), slot("sdc", 1, 1000), slot("sdc", 2, 1000)];
    let calls = fail_from_hyraid_array(&entries, "pool", &on_sdc).unwrap();
    assert_eq!(calls.len(), 2);
    assert_eq!(calls[1].args, vec!["/dev/md/hyraid_md_bbbbbbbbbb", "--fail", "/dev/disk/by-partuuid/sdc-1"]);
    assert_eq!(fail_from_hyraid_array(&entries, "pool", &vec![]), Ok(vec![]));
    assert_eq!(fail_from_hyraid_array(&entries, "pool", &vec![slot("sdz", 0, 1000)]), Ok(vec![]));
}

#[test]
fn failing_in_a_pool_that_is_not_there_is_bad_input() {
    let entries = vec![entry_of_tiers("pool")];
    assert_eq!(
        fail_from_hyraid_array(&entries, "nowhere", &vec![slot("sdb", 0, 1000)]),
        Err(PoolError::BadInput(InputFault::NoSuchArray))
    );
    assert_eq!(
        remove_disk_from_array(&vec![], "pool", &vec![slot("sdb", 0, 1000)]).err(),
        Some(PoolError::BadInput(InputFault::NoSuchArray))
    );
}

#[test]
fn removing_a_member_shrinks_its_sub_array_in_the_manifest() {
    let entries = vec![entry_of_tiers("pool")];
    let plan = remove_disk_from_array(&entries, "pool", &vec![slot("sdb", 0, 1000)]).unwrap();
    assert_eq!(
        plan.commands,
        vec![engine(&["/dev/md/hyraid_md_aaaaaaaaaa", "--remove", "/dev/disk/by-partuuid/sdb-0"])]
    );
    let mut expected = entry_of_tiers("pool");
    expected.raid_map[0].1 = vec![slot("sdc", 0, 1000), slot("sda", 0, 1000)];
    assert_eq!(plan.entry, expected);
}

#[test]
fn removing_every_member_deletes_the_sub_array_from_the_manifest() {
    let entries = vec![entry_of_tiers("pool")];
    let gone = vec![slot("sdb", 1, 1000), slot("sdc", 1, 1000), slot("sdb", 0, 1000)];
    let plan = remove_disk_from_array(&entries, "pool", &gone).unwrap();
    assert_eq!(plan.commands.len(), 3);
    assert_eq!(plan.commands[0].args, vec!["/dev/md/hyraid_md_bbbbbbbbbb", "--remove", "/dev/disk/by-partuuid/sdb-1"]);
    assert_eq!(plan.commands[1].args, vec!["/dev/md/hyraid_md_bbbbbbbbbb", "--remove", "/dev/disk/by-partuuid/sdc-1"]);
    assert_eq!(plan.commands[2].args, vec!["/dev/md/hyraid_md_aaaaaaaaaa", "--remove", "/dev/disk/by-partuuid/sdb-0"]);
    assert_eq!(
        plan.entry.raid_map,
        vec![(
            "/dev/md/hyraid_md_aaaaaaaaaa".to_string(),
            vec![slot("sdc", 0, 1000), slot("sda", 0, 1000)]
        )]
    );
    assert_eq!(plan.entry.disks, entry_of_tiers("pool").disks);
    assert_eq!(plan.entry.slices, vec![1000, 1000, 1000]);
}

#[test]
fn members_that_stay() {
    let members = vec![slot("sda", 0, 1), slot("sdb", 0, 1), slot("sdc", 0, 1)];
    assert_eq!(
        remaining_members(&members, &vec![slot("sdb", 0, 1), slot("sdx", 0, 1)]),
        vec![slot("sda", 0, 1), slot("sdc", 0, 1)]
    );
    assert_eq!(remaining_members(&members, &vec![]), members);
    assert_eq!(remaining_members(&members, &members), vec![]);
    let map = vec![("/dev/md/a".to_string(), vec![slot("sda", 0, 1)]), ("/dev/md/b".to_string(), vec![slot("sdb", 0, 1)])];
    assert_eq!(shrink_map(&map, &vec![slot("sda", 0, 1)]), vec![("/dev/md/b".to_string(), vec![slot("sdb", 0, 1)])]);
}

#[test]
fn member_without_a_path_cannot_be_named_to_the_engine() {
    let pathless = DiskPartition { path: None, size: 5 };
    assert_eq!(member_command("/dev/md/a", MemberAction::Fail, &pathless), Err(PoolError::BadDevice));
    assert_eq!(
        member_command("/dev/md/a", MemberAction::Remove, &slot("sda", 0, 5)),
        Ok(engine(&["/dev/md/a", "--remove", "/dev/disk/by-partuuid/sda-0"]))
    );
    assert_eq!(member_command("md/a", MemberAction::Fail, &slot("sda", 0, 5)), Err(PoolError::BadName));
    let map = vec![("/dev/md/a".to_string(), vec![DiskPartition { path: None, size: 5 }])];
    assert_eq!(member_commands(&map, MemberAction::Fail, &vec![pathless]), Err(PoolError::BadDevice));
}

#[test]
fn change_is_written_in_the_place_of_the_pool() {
    let entries = vec![entry_of_tiers("first"), entry_of_tiers("pool"), entry_of_tiers("last")];
    let mut changed = entry_of_tiers("pool");
    changed.raid_map.pop();
    let written = commit_change(&entries, &changed, Ok(())).unwrap();
    assert_eq!(written.len(), 3);
    assert_eq!(written[0], entry_of_tiers("first"));
    assert_eq!(written[1], changed);
    assert_eq!(written[2], entry_of_tiers("last"));
    assert_eq!(
        commit_change(&entries, &changed, Err(PoolError::EngineError("no".to_string()))),
        Err(PoolError::EngineError("no".to_string()))
    );
}
