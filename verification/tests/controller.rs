use hyraid::command::Invocation;
use hyraid::controller::{
    array_names, check_create, commit_create, create_hyraid_array, create_init_raid_map,
    create_lvm, create_sub_array, disks_of, lvm_plan, member_paths, plan_create,
};
use hyraid::error::{InputFault, PoolError};
use hyraid::types::{Disk, DiskPartition, HyraidArray, PartitionMap, RaidMap};

fn cut(disk: &str, ordinal: usize, size: usize) -> DiskPartition {
    DiskPartition { path: Some(format!("/dev/disk/by-partuuid/{}-{}", disk, ordinal)), size }
}

fn disk_with(disk: &str, sizes: &[usize]) -> (String, Vec<DiskPartition>) {
    let parts = sizes.iter().enumerate().map(|(j, s)| cut(disk, j, *s)).collect();
    (format!("/dev/{}", disk), parts)
}

fn tiers() -> PartitionMap {
    vec![
        disk_with("sda", &[1000]),
        disk_with("sdb", &[1000, 1000]),
        disk_with("sdc", &[1000, 1000, 1000]),
    ]
}

fn tier_arrays() -> RaidMap {
    vec![
        (
            "/dev/md/hyraid_md_aaaaaaaaaa".to_string(),
            vec![cut("sdc", 0, 1000), cut("sdb", 0, 1000), cut("sda", 0, 1000)],
        ),
        ("/dev/md/hyraid_md_bbbbbbbbbb".to_string(), vec![cut("sdc", 1, 1000), cut("sdb", 1, 1000)]),
    ]
}

fn call(program: &str, args: &[&str]) -> Invocation {
    Invocation { program: program.to_string(), args: args.iter().map(|s| s.to_string()).collect() }
}

fn pool(name: &str) -> HyraidArray {
    HyraidArray {
        name: name.to_string(),
        lvm_lv_path: "/dev/hyraid_vg_0000000000000000/lvol0".to_string(),
        raid_level: 1,
        disks: vec![],
        raid_map: vec![],
        slices: vec![],
    }
}

#[test]
fn create_with_one_disk_is_bad_input() {
    assert_eq!(
        check_create(&vec![], "pool", 1, 5),
        Err(PoolError::BadInput(InputFault::InsufficientDisks))
    );
}

#[test]
fn create_with_no_disk_is_bad_input() {
    assert_eq!(check_create(&vec![], "pool", 0, 5), Err(PoolError::BadInput(InputFault::MissingDisks)));
}

#[test]
fn create_with_level_two_is_bad_input() {
    assert_eq!(
        check_create(&vec![], "pool", 3, 2),
        Err(PoolError::BadInput(InputFault::UnknownRaidLevel))
    );
}

#[test]
fn create_with_a_taken_name_is_bad_input() {
    let entries = vec![pool("first"), pool("second")];
    assert_eq!(
        check_create(&entries, "second", 3, 5),
        Err(PoolError::BadInput(InputFault::DuplicateName))
    );
    assert_eq!(check_create(&entries, "third", 3, 5), Ok(()));
    assert_eq!(check_create(&entries, "third", 2, 0), Ok(()));
    assert_eq!(check_create(&entries, "third", 2, 1), Ok(()));
    assert_eq!(check_create(&entries, "third", 2, 6), Ok(()));
}

#[test]
fn too_few_disks_come_before_a_bad_level_and_a_taken_name() {
    let entries = vec![pool("first")];
    assert_eq!(
        check_create(&entries, "first", 1, 2),
        Err(PoolError::BadInput(InputFault::InsufficientDisks))
    );
    assert_eq!(
        check_create(&entries, "first", 2, 2),
        Err(PoolError::BadInput(InputFault::UnknownRaidLevel))
    );
}

#[test]
fn sub_array_of_three_members_is_built_at_the_intended_level() {
    let members = vec![cut("sdc", 0, 1000), cut("sdb", 0, 1000), cut("sda", 0, 1000)];
    assert_eq!(
        create_sub_array("/dev/md/hyraid_md_aaaaaaaaaa", &members, 5),
        Ok(call(
            "mdadm",
            &[
                "--create",
                "/dev/md/hyraid_md_aaaaaaaaaa",
                "--metadata",
                "1.2",
                "--level=5",
                "--raid-devices",
                "3",
                "--bitmap=internal",
                "/dev/disk/by-partuuid/sdc-0",
                "/dev/disk/by-partuuid/sdb-0",
                "/dev/disk/by-partuuid/sda-0",
            ]
        ))
    );
}

#[test]
fn sub_array_of_two_members_falls_back_to_mirroring() {
    let members = vec![cut("sdc", 1, 1000), cut("sdb", 1, 1000)];
    for (intended, built) in [(0usize, "--level=0"), (1, "--level=1"), (5, "--level=1"), (6, "--level=1")] {
        let made = create_sub_array("/dev/md/x", &members, intended).unwrap();
        assert_eq!(made.args[4], built);
        assert_eq!(made.args[6], "2");
    }
}

#[test]
fn sub_array_faults() {
    let two = vec![cut("sdc", 1, 1000), cut("sdb", 1, 1000)];
    let one = vec![cut("sdc", 1, 1000)];
    let pathless = vec![cut("sdc", 1, 1000), DiskPartition { path: None, size: 1000 }];
    let elsewhere = vec![cut("sdc", 1, 1000), DiskPartition { path: Some("sdb2".to_string()), size: 1000 }];
    assert_eq!(
        create_sub_array("/dev/md/x", &two, 3),
        Err(PoolError::BadInput(InputFault::UnknownRaidLevel))
    );
    assert_eq!(
        create_sub_array("/dev/md/x", &one, 1),
        Err(PoolError::BadInput(InputFault::InsufficientDisks))
    );
    assert_eq!(create_sub_array("/dev/md/x", &pathless, 1), Err(PoolError::BadDevice));
    assert_eq!(create_sub_array("/dev/md/x", &elsewhere, 1), Err(PoolError::BadDevice));
    assert_eq!(create_sub_array("md/x", &two, 1), Err(PoolError::BadName));
    assert_eq!(member_paths(&pathless), Err(PoolError::BadDevice));
    assert_eq!(
        member_paths(&two),
        Ok(vec!["/dev/disk/by-partuuid/sdc-1".to_string(), "/dev/disk/by-partuuid/sdb-1".to_string()])
    );
}

#[test]
fn sub_arrays_are_created_in_the_order_of_the_map() {
    let calls = create_init_raid_map(&tier_arrays(), 5).unwrap();
    assert_eq!(calls.len(), 2);
    assert_eq!(calls[0].args[1], "/dev/md/hyraid_md_aaaaaaaaaa");
    assert_eq!(calls[0].args[4], "--level=5");
    assert_eq!(calls[1].args[1], "/dev/md/hyraid_md_bbbbbbbbbb");
    assert_eq!(calls[1].args[4], "--level=1");
    assert_eq!(create_init_raid_map(&vec![], 5), Ok(vec![]));
    assert_eq!(
        create_init_raid_map(&tier_arrays(), 4),
        Err(PoolError::BadInput(InputFault::UnknownRaidLevel))
    );
    let mut broken = tier_arrays();
    broken[1].1[0].path = None;
    assert_eq!(create_init_raid_map(&broken, 5), Err(PoolError::BadDevice));
}

#[test]
fn volume_is_set_up_over_the_sub_arrays() {
    let arrays = vec!["/dev/md/a".to_string(), "/dev/md/b".to_string()];
    let (calls, path) = lvm_plan(&arrays, "hyraid_vg_0123456789abcdef");
    assert_eq!(
        calls,
        vec![
            call("pvcreate", &["/dev/md/a", "/dev/md/b"]),
            call("vgcreate", &["hyraid_vg_0123456789abcdef", "/dev/md/a", "/dev/md/b"]),
            call(
                "lvcreate",
                &["hyraid_vg_0123456789abcdef", "/dev/md/a", "/dev/md/b", "-l", "100%FREE"]
            ),
        ]
    );
    assert_eq!(path, "/dev/hyraid_vg_0123456789abcdef/lvol0");
}

#[test]
fn volume_group_gets_a_fresh_name() {
    let (calls, path) = create_lvm(&tier_arrays());
    assert_eq!(calls.len(), 3);
    let vg = calls[1].args[0].clone();
    assert!(vg.starts_with("hyraid_vg_"));
    assert_eq!(vg.len(), 26);
    assert!(vg["hyraid_vg_".len()..].chars().all(|c| c.is_ascii_alphanumeric()));
    assert_eq!(path, format!("/dev/{}/lvol0", vg));
    assert_eq!(calls[0], call("pvcreate", &["/dev/md/hyraid_md_aaaaaaaaaa", "/dev/md/hyraid_md_bbbbbbbbbb"]));
    assert_eq!(calls[2].args[0], vg);
    assert_eq!(array_names(&tier_arrays()), vec!["/dev/md/hyraid_md_aaaaaaaaaa", "/dev/md/hyraid_md_bbbbbbbbbb"]);
}

#[test]
fn creation_is_planned_over_given_sub_arrays() {
    let plan = plan_create(
        "pool".to_string(),
        tier_arrays(),
        &tiers(),
        5,
        vec![1000, 1000, 1000],
        "hyraid_vg_0123456789abcdef",
    )
    .unwrap();
    assert_eq!(plan.commands.len(), 5);
    assert_eq!(plan.commands[0].program, "mdadm");
    assert_eq!(plan.commands[0].args[4], "--level=5");
    assert_eq!(plan.commands[1].program, "mdadm");
    assert_eq!(plan.commands[1].args[4], "--level=1");
    assert_eq!(
        plan.commands[2],
        call("pvcreate", &["/dev/md/hyraid_md_aaaaaaaaaa", "/dev/md/hyraid_md_bbbbbbbbbb"])
    );
    assert_eq!(plan.commands[3].program, "vgcreate");
    assert_eq!(plan.commands[4].program, "lvcreate");
    assert_eq!(
        plan.entry,
        HyraidArray {
            name: "pool".to_string(),
            lvm_lv_path: "/dev/hyraid_vg_0123456789abcdef/lvol0".to_string(),
            raid_level: 5,
            disks: vec![
                Disk { partitions: vec![cut("sda", 0, 1000)] },
                Disk { partitions: vec![cut("sdb", 0, 1000), cut("sdb", 1, 1000)] },
                Disk {
                    partitions: vec![cut("sdc", 0, 1000), cut("sdc", 1, 1000), cut("sdc", 2, 1000)]
                },
            ],
            raid_map: tier_arrays(),
            slices: vec![1000, 1000, 1000],
        }
    );
}

#[test]
fn creation_needs_a_sub_array() {
    let outcome = plan_create("pool".to_string(), vec![], &tiers(), 5, vec![1000], "hyraid_vg_x");
    assert_eq!(outcome.err(), Some(PoolError::BadInput(InputFault::InsufficientDisks)));
    let lone = vec![disk_with("sda", &[1000, 500])];
    let outcome = create_hyraid_array("pool".to_string(), &lone, 5, vec![1000, 500]);
    assert_eq!(outcome.err(), Some(PoolError::BadInput(InputFault::InsufficientDisks)));
}

#[test]
fn creation_from_partitioned_disks() {
    let plan = create_hyraid_array("pool".to_string(), &tiers(), 5, vec![1000, 1000, 1000]).unwrap();
    assert_eq!(plan.entry.name, "pool");
    assert_eq!(plan.entry.raid_level, 5);
    assert_eq!(plan.entry.slices, vec![1000, 1000, 1000]);
    assert_eq!(plan.entry.disks, disks_of(&tiers()));
    assert_eq!(plan.entry.raid_map.len(), 2);
    assert_eq!(plan.entry.raid_map[0].1, tier_arrays()[0].1);
    assert_eq!(plan.entry.raid_map[1].1, tier_arrays()[1].1);
    for (name, _) in &plan.entry.raid_map {
        assert!(name.starts_with("/dev/md/hyraid_md_"));
        assert_eq!(name.len(), 28);
    }
    assert_eq!(plan.commands.len(), 5);
    assert_eq!(plan.commands[0].args[1], plan.entry.raid_map[0].0);
    assert_eq!(plan.commands[0].args[4], "--level=5");
    assert_eq!(plan.commands[0].args[6], "3");
    assert_eq!(plan.commands[1].args[1], plan.entry.raid_map[1].0);
    assert_eq!(plan.commands[1].args[4], "--level=1");
    assert_eq!(plan.commands[1].args[6], "2");
    let vg = plan.commands[3].args[0].clone();
    assert_eq!(plan.entry.lvm_lv_path, format!("/dev/{}/lvol0", vg));
}

#[test]
fn creation_of_a_pool_of_equal_disks() {
    let map = vec![disk_with("sda", &[1000]), disk_with("sdb", &[1000]), disk_with("sdc", &[1000])];
    let plan = create_hyraid_array("pool".to_string(), &map, 5, vec![1000]).unwrap();
    assert_eq!(plan.entry.raid_map.len(), 1);
    assert_eq!(plan.entry.raid_map[0].1.len(), 3);
    assert_eq!(plan.commands.len(), 4);
    assert_eq!(plan.commands[0].args[4], "--level=5");
}

#[test]
fn creation_with_an_unknown_level_is_refused() {
    let outcome = create_hyraid_array("pool".to_string(), &tiers(), 2, vec![1000, 1000, 1000]);
    assert_eq!(outcome.err(), Some(PoolError::BadInput(InputFault::UnknownRaidLevel)));
}

#[test]
fn manifest_is_written_only_after_success() {
    let entries = vec![pool("first")];
    let written = commit_create(vec![pool("first")], pool("second"), Ok(()), true).unwrap();
    assert_eq!(written, vec![pool("first"), pool("second")]);
    assert_eq!(
        commit_create(
            vec![pool("first")],
            pool("second"),
            Err(PoolError::EngineError("mdadm: failed".to_string())),
            true
        ),
        Err(PoolError::EngineError("mdadm: failed".to_string()))
    );
    assert_eq!(commit_create(vec![pool("first")], pool("second"), Ok(()), false), Err(PoolError::BadDevice));
    assert_eq!(entries, vec![pool("first")]);
}
