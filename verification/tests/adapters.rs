use hyraid::command::{push_all, Invocation};
use hyraid::daemon::{decode_bytes, encode_bytes, strip_padding, BUFFER_SIZE};
use hyraid::error::{InputFault, PoolError};
use hyraid::manifest::{check_entry, check_manifest, find_array, modify, write_array};
use hyraid::lvm2::{
    lvm_lv_create, lvm_lv_resize, lvm_pv_create, lvm_pv_resize, lvm_vg_create, lvm_vg_extend,
    SizeFormat,
};
use hyraid::partitioner::{
    bytes_to_sectors, ensure_gpt, get_free_space, get_path_of_partition, get_sector_size,
    partition_table_label, sector_size_file, sectors_to_bytes, sort_partitions,
    validate_partition, GptEntry, PollStep,
};
use hyraid::types::{Disk, DiskPartition, HyraidArray};
use hyraid::utils::{check_privilege, confirms, exit_code, is_root, is_root_uid};

fn list(items: &[&str]) -> Vec<String> {
    items.iter().map(|s| s.to_string()).collect()
}

fn tool(program: &str, args: &[&str]) -> Invocation {
    Invocation { program: program.to_string(), args: list(args) }
}

fn named(name: &str, level: usize) -> HyraidArray {
    HyraidArray {
        name: name.to_string(),
        lvm_lv_path: format!("/dev/vg_{}/lvol0", name),
        raid_level: level,
        disks: vec![Disk { partitions: vec![DiskPartition { path: None, size: level }] }],
        raid_map: vec![],
        slices: vec![level],
    }
}

#[test]
fn volume_manager_calls() {
    let devices = list(&["/dev/md/a", "/dev/md/b"]);
    assert_eq!(lvm_pv_create(&devices), tool("pvcreate", &["/dev/md/a", "/dev/md/b"]));
    assert_eq!(lvm_pv_resize(&devices), tool("pvresize", &["/dev/md/a", "/dev/md/b"]));
    assert_eq!(lvm_vg_create("vg0", &devices), tool("vgcreate", &["vg0", "/dev/md/a", "/dev/md/b"]));
    assert_eq!(lvm_vg_extend("vg0", &devices), tool("vgextend", &["vg0", "/dev/md/a", "/dev/md/b"]));
    assert_eq!(
        lvm_lv_create("vg0", &devices, SizeFormat::EXTENTS, "100%FREE"),
        tool("lvcreate", &["vg0", "/dev/md/a", "/dev/md/b", "-l", "100%FREE"])
    );
    assert_eq!(
        lvm_lv_create("vg0", &vec![], SizeFormat::SIZE, "10G"),
        tool("lvcreate", &["vg0", "-L", "10G"])
    );
    assert_eq!(
        lvm_lv_resize("/dev/vg0/lvol0", true, SizeFormat::EXTENTS, "+100%FREE"),
        tool("lvresize", &["/dev/vg0/lvol0", "--resizefs", "-l", "+100%FREE"])
    );
    assert_eq!(
        lvm_lv_resize("/dev/vg0/lvol0", false, SizeFormat::SIZE, "5G"),
        tool("lvresize", &["/dev/vg0/lvol0", "-L", "5G"])
    );
    assert_eq!(lvm_pv_create(&vec![]), tool("pvcreate", &[]));
}

#[test]
fn arguments_are_appended_in_order() {
    let mut args = list(&["a"]);
    push_all(&mut args, &list(&["b", "c"]));
    push_all(&mut args, &vec![]);
    assert_eq!(args, list(&["a", "b", "c"]));
}

#[test]
fn partition_paths_go_by_guid() {
    assert_eq!(
        get_path_of_partition("0fc63daf-8483-4772-8e79-3d69d8477de4"),
        "/dev/disk/by-partuuid/0fc63daf-8483-4772-8e79-3d69d8477de4"
    );
}

#[test]
fn bytes_and_sectors_convert_exactly() {
    assert_eq!(sectors_to_bytes(8, 512), Ok(4096));
    assert_eq!(sectors_to_bytes(8, 4096), Ok(32768));
    assert_eq!(sectors_to_bytes(0, 512), Ok(0));
    assert_eq!(sectors_to_bytes(7, 0), Ok(0));
    assert_eq!(sectors_to_bytes(u64::MAX, 2), Err(PoolError::BadDevice));
    assert_eq!(sectors_to_bytes(u64::MAX, 1), Ok(usize::MAX));
    assert_eq!(bytes_to_sectors(4096, 512), Ok(8));
    assert_eq!(bytes_to_sectors(4096, 4096), Ok(1));
    assert_eq!(bytes_to_sectors(0, 512), Ok(0));
    assert_eq!(bytes_to_sectors(4097, 512), Err(PoolError::BadDevice));
    assert_eq!(bytes_to_sectors(512, 4096), Err(PoolError::BadDevice));
    assert_eq!(bytes_to_sectors(512, 0), Err(PoolError::BadDevice));
}

#[test]
fn free_space_is_that_of_the_first_free_range() {
    assert_eq!(get_free_space(&vec![(2048, 1000), (9000, 50)], 512), Ok(512000));
    assert_eq!(get_free_space(&vec![(34, 10)], 4096), Ok(40960));
    assert_eq!(get_free_space(&vec![], 512), Ok(0));
    assert_eq!(get_free_space(&vec![(34, u64::MAX)], 512), Err(PoolError::BadDevice));
}

#[test]
fn partitions_are_made_from_table_entries() {
    let entry = GptEntry { guid: "aaaa-bbbb".to_string(), sectors: 100 };
    assert_eq!(
        DiskPartition::from(&entry, 512),
        Ok(DiskPartition { path: Some("/dev/disk/by-partuuid/aaaa-bbbb".to_string()), size: 51200 })
    );
    let huge = GptEntry { guid: "cccc".to_string(), sectors: u64::MAX };
    assert_eq!(DiskPartition::from(&huge, 4096), Err(PoolError::BadDevice));
    let table = vec![
        GptEntry { guid: "one".to_string(), sectors: 10 },
        GptEntry { guid: "two".to_string(), sectors: 20 },
    ];
    assert_eq!(
        Disk::from(&table, 4096),
        Ok(Disk {
            partitions: vec![
                DiskPartition { path: Some("/dev/disk/by-partuuid/one".to_string()), size: 40960 },
                DiskPartition { path: Some("/dev/disk/by-partuuid/two".to_string()), size: 81920 },
            ]
        })
    );
    assert_eq!(Disk::from(&vec![], 512), Ok(Disk { partitions: vec![] }));
    let bad = vec![GptEntry { guid: "one".to_string(), sectors: 10 }, huge];
    assert_eq!(Disk::from(&bad, 4096), Err(PoolError::BadDevice));
}

#[test]
fn partitions_are_sorted_by_size_and_equal_ones_keep_their_order() {
    let p = |path: &str, size: usize| DiskPartition { path: Some(path.to_string()), size };
    let sorted = sort_partitions(&vec![p("a", 30), p("b", 10), p("c", 30), p("d", 10), p("e", 20)]);
    assert_eq!(sorted, vec![p("b", 10), p("d", 10), p("e", 20), p("a", 30), p("c", 30)]);
    assert_eq!(sort_partitions(&vec![]), vec![]);
}

#[test]
fn label_is_read_from_the_dump() {
    let dump = "label: gpt\nlabel-id: 1234\ndevice: /dev/sda\nunit: sectors\n";
    assert_eq!(partition_table_label(dump), Some("gpt".to_string()));
    assert_eq!(ensure_gpt(dump), Ok(None));
    let dos = "label: dos\nlabel-id: 0x1234\n";
    assert_eq!(partition_table_label(dos), Some("dos".to_string()));
    assert_eq!(ensure_gpt(dos), Ok(Some("label: gpt\n\twrite\n".to_string())));
    assert_eq!(ensure_gpt("label: gpt2\n"), Ok(Some("label: gpt\n\twrite\n".to_string())));
    assert_eq!(partition_table_label(""), None);
    assert_eq!(ensure_gpt(""), Err(PoolError::BadDevice));
    assert_eq!(ensure_gpt("label: \n"), Err(PoolError::BadDevice));
    assert_eq!(ensure_gpt("sfdisk: cannot open /dev/sdz"), Err(PoolError::BadDevice));
}

#[test]
fn sector_size_is_read_per_disk() {
    assert_eq!(sector_size_file("/dev/sda"), "/sys/block/sda/queue/logical_block_size");
    assert_eq!(sector_size_file("/dev/nvme0n1/"), "/sys/block/nvme0n1/queue/logical_block_size");
    assert_eq!(sector_size_file("/dev//dev/sdb//"), "/sys/block/sdb/queue/logical_block_size");
    assert_eq!(get_sector_size("512"), Ok(512));
    assert_eq!(get_sector_size("4096"), Ok(4096));
    assert_eq!(get_sector_size("0"), Err(PoolError::BadDevice));
    assert_eq!(get_sector_size(""), Err(PoolError::BadDevice));
    assert_eq!(get_sector_size("512\n"), Err(PoolError::BadDevice));
    assert_eq!(get_sector_size("4k"), Err(PoolError::BadDevice));
}

#[test]
fn wait_for_a_partition_is_bounded() {
    assert_eq!(validate_partition(true, 0), PollStep::Ready);
    assert_eq!(validate_partition(true, 1_000_000), PollStep::Ready);
    assert_eq!(validate_partition(false, 0), PollStep::Wait(100));
    assert_eq!(validate_partition(false, 29_999), PollStep::Wait(100));
    assert_eq!(validate_partition(false, 30_000), PollStep::GiveUp);
    assert_eq!(validate_partition(false, u64::MAX), PollStep::GiveUp);
}

#[test]
fn frame_is_padded_to_its_length() {
    let frame = encode_bytes(&list(&["create", "pool", "5"])).unwrap();
    assert_eq!(frame.len(), BUFFER_SIZE);
    assert_eq!(&frame[..13], b"create;pool;5");
    assert!(frame[13..].iter().all(|b| *b == 0));
    let empty = encode_bytes(&vec![]).unwrap();
    assert!(empty.iter().all(|b| *b == 0));
    let wide = encode_bytes(&list(&["\u{e9}"])).unwrap();
    assert_eq!(&wide[..3], &[0xc3, 0xa9, 0]);
}

#[test]
fn frame_holds_a_request_of_its_length_and_no_more() {
    let full = "a".repeat(1024);
    let frame = encode_bytes(&vec![full.clone()]).unwrap();
    assert_eq!(&frame[..], full.as_bytes());
    assert_eq!(encode_bytes(&vec!["a".repeat(1025)]), Err(PoolError::RequestTooLarge));
    assert_eq!(encode_bytes(&vec!["a".repeat(512), "b".repeat(512)]), Err(PoolError::RequestTooLarge));
    assert!(encode_bytes(&vec!["a".repeat(512), "b".repeat(511)]).is_ok());
}

#[test]
fn frame_is_decoded_into_its_fields() {
    let fields = list(&["add", "pool", "/dev/sdd", ""]);
    let frame = encode_bytes(&fields).unwrap();
    assert_eq!(decode_bytes(&frame), fields);
    assert_eq!(decode_bytes(b"fail;pool"), list(&["fail", "pool"]));
    assert_eq!(decode_bytes(b""), list(&[""]));
    assert_eq!(decode_bytes(&[0u8; 8]), list(&[""]));
    assert_eq!(decode_bytes(&[b'a', 0xff, b';', b'b', 0, b'c']), list(&["a\u{fffd}", "b"]));
    assert_eq!(strip_padding(&[1, 2, 0, 3, 0]), vec![1, 2]);
    assert_eq!(strip_padding(&[1, 2, 3]), vec![1, 2, 3]);
    assert_eq!(strip_padding(&[0, 1]), Vec::<u8>::new());
}

#[test]
fn manifest_entries_are_found_by_name() {
    let entries = vec![named("a", 0), named("b", 1), named("a", 5)];
    assert_eq!(find_array(&entries, "a"), Some(0));
    assert_eq!(find_array(&entries, "b"), Some(1));
    assert_eq!(find_array(&entries, "c"), None);
    assert_eq!(find_array(&entries, ""), None);
    assert_eq!(find_array(&vec![], "a"), None);
}

#[test]
fn manifest_grows_at_its_end() {
    let written = write_array(vec![named("a", 0)], named("b", 1));
    assert_eq!(written, vec![named("a", 0), named("b", 1)]);
    assert_eq!(write_array(vec![], named("b", 1)), vec![named("b", 1)]);
}

#[test]
fn manifest_entry_is_replaced_in_its_place() {
    let entries = vec![named("a", 0), named("b", 1), named("c", 5)];
    let mut changed = named("b", 6);
    changed.slices = vec![1, 2, 3];
    let modified = modify(&entries, "b", &changed);
    assert_eq!(modified.len(), 3);
    assert_eq!(modified[0], named("a", 0));
    assert_eq!(modified[1], changed);
    assert_eq!(modified[2], named("c", 5));
    assert_eq!(modify(&entries, "z", &changed), entries);
    assert_eq!(modify(&vec![], "b", &changed), vec![]);
}

#[test]
fn only_the_superuser_may_go_on() {
    assert!(is_root_uid(0));
    assert!(!is_root_uid(1));
    assert!(!is_root_uid(1000));
    assert_eq!(check_privilege(0), Ok(()));
    assert_eq!(check_privilege(1000), Err(PoolError::NotRoot));
    assert_eq!(is_root(), is_root());
}

#[test]
fn only_y_confirms() {
    assert!(confirms("y"));
    for reply in ["", "n", "Y", "yes", " y", "y ", "N"] {
        assert!(!confirms(reply));
    }
}

#[test]
fn any_failure_exits_with_one() {
    assert_eq!(exit_code(&Ok::<u8, PoolError>(3)), 0);
    assert_eq!(exit_code(&Err::<u8, PoolError>(PoolError::NotRoot)), 1);
    assert_eq!(exit_code(&Err::<u8, PoolError>(PoolError::EngineError("x".to_string()))), 1);
    assert_eq!(exit_code(&Err::<(), PoolError>(PoolError::BadInput(InputFault::NoSuchArray))), 1);
}

#[test]
fn errors_have_messages() {
    assert_eq!(PoolError::EngineError("mdadm: no\n".to_string()).message(), "mdadm: no\n");
    let all = vec![
        PoolError::NotRoot,
        PoolError::BadInput(InputFault::UnknownRaidLevel),
        PoolError::BadInput(InputFault::DuplicateName),
        PoolError::BadInput(InputFault::NoSuchArray),
        PoolError::BadInput(InputFault::MissingDisks),
        PoolError::BadInput(InputFault::InsufficientDisks),
        PoolError::BadDevice,
        PoolError::BadName,
        PoolError::BadLevel,
        PoolError::ParseError,
        PoolError::KernelNotReady,
        PoolError::ManifestCorrupt,
        PoolError::RequestTooLarge,
    ];
    for e in &all {
        assert!(!e.message().is_empty());
    }
}

#[test]
fn manifest_that_is_not_in_order_is_corrupt() {
    assert_eq!(check_manifest(&vec![]), Ok(()));
    assert_eq!(check_manifest(&vec![named("a", 5), named("b", 1), named("c", 6)]), Ok(()));
    assert_eq!(
        check_manifest(&vec![named("a", 5), named("b", 1), named("a", 6)]),
        Err(PoolError::ManifestCorrupt)
    );
    assert_eq!(check_manifest(&vec![named("a", 5), named("b", 2)]), Err(PoolError::ManifestCorrupt));
    assert!(!check_entry(&named("zero", 0)));
    let mut plain = named("plain", 0);
    plain.slices = vec![];
    assert!(check_entry(&plain));
    let mut huge = named("huge", 1);
    huge.slices = vec![usize::MAX, 1];
    assert!(!check_entry(&huge));
    assert_eq!(check_manifest(&vec![huge]), Err(PoolError::ManifestCorrupt));
}
