use hyraid::command::{engine_outcome, Invocation};
use hyraid::error::PoolError;
use hyraid::mdadm::{
    add_to_raid_array, check_call, check_members, check_name, create_raid_array,
    detail_invocation, fail_from_raid_array, grow_raid_array, remove_from_raid_array, strip_name,
};

fn words(list: &[&str]) -> Vec<String> {
    list.iter().map(|s| s.to_string()).collect()
}

fn mdadm(args: &[&str]) -> Invocation {
    Invocation { program: "mdadm".to_string(), args: words(args) }
}

#[test]
fn create_names_the_array_in_the_md_directory() {
    let call = create_raid_array("/dev/md/hyraid_md_abcdefghij", &words(&["/dev/sda1", "/dev/sdb1", "/dev/sdc1"]), 5);
    assert_eq!(
        call,
        Ok(mdadm(&[
            "--create",
            "/dev/md/hyraid_md_abcdefghij",
            "--metadata",
            "1.2",
            "--level=5",
            "--raid-devices",
            "3",
            "--bitmap=internal",
            "/dev/sda1",
            "/dev/sdb1",
            "/dev/sdc1",
        ]))
    );
}

#[test]
fn create_puts_a_numbered_array_directly_under_dev() {
    for name in ["/dev/md0", "/dev/md/0", "/dev/0"] {
        let call = create_raid_array(name, &words(&["/dev/sda1", "/dev/sdb1"]), 1);
        assert_eq!(
            call,
            Ok(mdadm(&[
                "--create",
                "/dev/md0",
                "--metadata",
                "1.2",
                "--level=1",
                "--raid-devices",
                "2",
                "--bitmap=internal",
                "/dev/sda1",
                "/dev/sdb1",
            ]))
        );
    }
}

#[test]
fn create_counts_many_members() {
    let members: Vec<String> = (0..12).map(|i| format!("/dev/sd{}", i)).collect();
    let call = create_raid_array("/dev/md/big", &members, 6).unwrap();
    assert_eq!(call.args[4], "--level=6");
    assert_eq!(call.args[6], "12");
    assert_eq!(&call.args[8..], &members[..]);
}

#[test]
fn create_refuses_a_bad_level_first() {
    for level in [2usize, 3, 4, 7, 50] {
        assert_eq!(create_raid_array("md0", &words(&["sda"]), level), Err(PoolError::BadLevel));
    }
}

#[test]
fn create_refuses_a_bad_name_before_a_bad_member() {
    assert_eq!(create_raid_array("md0", &words(&["sda"]), 5), Err(PoolError::BadName));
    assert_eq!(create_raid_array("/dev/md0", &words(&["/dev/sda", "sdb"]), 5), Err(PoolError::BadDevice));
}

#[test]
fn names_are_stripped_of_their_prefixes() {
    assert_eq!(strip_name("/dev/md/hyraid_md_x"), "hyraid_md_x");
    assert_eq!(strip_name("/dev/md127"), "127");
    assert_eq!(strip_name("/dev//dev/mdmd//x"), "x");
    assert_eq!(strip_name("/dev/"), "");
    assert_eq!(strip_name("plain"), "plain");
    assert_eq!(strip_name("/dev/m"), "m");
}

#[test]
fn a_name_may_have_thirty_two_bytes_and_no_more() {
    let fits = format!("/dev/md/{}", "a".repeat(32));
    let too_long = format!("/dev/md/{}", "a".repeat(33));
    assert!(check_name(&fits));
    assert!(!check_name(&too_long));
    assert!(check_name("/dev/md/hyraid_md_0123456789"));
    assert!(!check_name("md/hyraid_md_0123456789"));
    assert!(!check_name(""));
    let wide = format!("/dev/md/{}", "\u{e9}".repeat(17));
    assert!(!check_name(&wide));
    let wide_fits = format!("/dev/md/{}", "\u{e9}".repeat(16));
    assert!(check_name(&wide_fits));
    assert_eq!(create_raid_array(&too_long, &words(&["/dev/sda"]), 5), Err(PoolError::BadName));
}

#[test]
fn members_must_be_device_paths() {
    assert!(check_members(&words(&["/dev/sda1", "/dev/disk/by-partuuid/x"])));
    assert!(check_members(&vec![]));
    assert!(!check_members(&words(&["/dev/sda1", "dev/sdb1"])));
    assert!(!check_members(&words(&[""])));
    assert_eq!(check_call("/dev/md0", &words(&["/dev/sda1"])), Ok(()));
    assert_eq!(check_call("md0", &words(&["sda1"])), Err(PoolError::BadName));
    assert_eq!(check_call("/dev/md0", &words(&["sda1"])), Err(PoolError::BadDevice));
}

#[test]
fn fail_remove_and_add_name_the_array_then_the_action() {
    let members = words(&["/dev/sda1", "/dev/sdb1"]);
    assert_eq!(
        fail_from_raid_array("/dev/md/x", &members),
        Ok(mdadm(&["/dev/md/x", "--fail", "/dev/sda1", "/dev/sdb1"]))
    );
    assert_eq!(
        remove_from_raid_array("/dev/md/x", &members),
        Ok(mdadm(&["/dev/md/x", "--remove", "/dev/sda1", "/dev/sdb1"]))
    );
    assert_eq!(
        add_to_raid_array("/dev/md/x", &members),
        Ok(mdadm(&["/dev/md/x", "--add", "/dev/sda1", "/dev/sdb1"]))
    );
    assert_eq!(fail_from_raid_array("x", &members), Err(PoolError::BadName));
    assert_eq!(remove_from_raid_array("/dev/md/x", &words(&["sda1"])), Err(PoolError::BadDevice));
    assert_eq!(add_to_raid_array("/dev/md/x", &words(&["/dev/sda1", "/sdb1"])), Err(PoolError::BadDevice));
}

#[test]
fn grow_asks_for_a_level() {
    assert_eq!(grow_raid_array("/dev/md/x", 6), Ok(mdadm(&["--grow", "/dev/md/x", "--level=6"])));
    assert_eq!(grow_raid_array("/dev/md/x", 0), Ok(mdadm(&["--grow", "/dev/md/x", "--level=0"])));
    assert_eq!(grow_raid_array("/dev/md/x", 4), Err(PoolError::BadLevel));
    assert_eq!(grow_raid_array("md/x", 4), Err(PoolError::BadName));
}

#[test]
fn detail_is_asked_of_a_device() {
    assert_eq!(detail_invocation("/dev/md/x"), mdadm(&["--detail", "/dev/md/x"]));
}

#[test]
fn engine_failure_hands_on_the_diagnostic() {
    assert_eq!(engine_outcome(true, "warning".to_string()), Ok(()));
    assert_eq!(
        engine_outcome(false, "mdadm: cannot open /dev/sdz1\n".to_string()),
        Err(PoolError::EngineError("mdadm: cannot open /dev/sdz1\n".to_string()))
    );
    assert_eq!(engine_outcome(false, String::new()), Err(PoolError::EngineError(String::new())));
}
