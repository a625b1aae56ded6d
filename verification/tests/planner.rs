use hyraid::planner::{checked_total, find_range_sum, gen_slices, recompute_slices, sort_sizes};

const GB: usize = 1_000_000_000;

#[test]
fn plan_of_equal_disks_is_one_slice() {
    assert_eq!(gen_slices(&vec![1000 * GB, 1000 * GB, 1000 * GB]), vec![1000 * GB]);
}

#[test]
fn plan_of_three_tiers() {
    assert_eq!(
        gen_slices(&vec![1000 * GB, 2000 * GB, 3000 * GB]),
        vec![1000 * GB, 1000 * GB, 1000 * GB]
    );
}

#[test]
fn plan_of_four_disks_with_a_repeated_size() {
    assert_eq!(
        gen_slices(&vec![500 * GB, 500 * GB, 1000 * GB, 2000 * GB]),
        vec![500 * GB, 500 * GB, 1000 * GB]
    );
}

#[test]
fn plan_of_a_single_disk_is_the_disk() {
    assert_eq!(gen_slices(&vec![750]), vec![750]);
}

#[test]
fn plan_of_no_disks_is_empty() {
    assert_eq!(gen_slices(&vec![]), Vec::<usize>::new());
}

#[test]
fn plan_starts_with_the_smallest_capacity_even_if_zero() {
    assert_eq!(gen_slices(&vec![5, 0]), vec![0, 5]);
}

#[test]
fn plan_sums_to_the_largest_capacity() {
    let caps = vec![40, 10, 30, 10, 25];
    let plan = gen_slices(&caps);
    assert_eq!(plan, vec![10, 15, 5, 10]);
    assert_eq!(plan.iter().sum::<usize>(), 40);
}

#[test]
fn plan_reaches_every_capacity_with_a_prefix() {
    let caps = vec![40, 10, 30, 10, 25];
    let plan = gen_slices(&caps);
    for c in &caps {
        let mut reached = false;
        let mut sum = 0;
        for s in &plan {
            sum += s;
            if sum == *c {
                reached = true;
            }
        }
        assert!(reached);
    }
}

#[test]
fn plan_does_not_depend_on_the_order_of_the_disks() {
    let a = gen_slices(&vec![3000, 1000, 2000]);
    let b = gen_slices(&vec![1000, 2000, 3000]);
    let c = gen_slices(&vec![2000, 3000, 1000]);
    assert_eq!(a, vec![1000, 1000, 1000]);
    assert_eq!(a, b);
    assert_eq!(b, c);
}

#[test]
fn plan_handles_the_largest_sizes_without_overflow() {
    assert_eq!(gen_slices(&vec![usize::MAX, 1, usize::MAX]), vec![1, usize::MAX - 1]);
}

#[test]
fn recompute_appends_a_slice_for_a_larger_disk() {
    let old = vec![1000 * GB, 1000 * GB, 1000 * GB];
    assert_eq!(
        recompute_slices(&vec![4000 * GB], &old),
        vec![1000 * GB, 1000 * GB, 1000 * GB, 1000 * GB]
    );
}

#[test]
fn recompute_keeps_the_plan_as_prefix() {
    let caps = vec![100, 300];
    let more = vec![100, 300, 250, 700, 500];
    let plan = gen_slices(&caps);
    let extended = recompute_slices(&more, &plan);
    assert_eq!(plan, vec![100, 200]);
    assert_eq!(extended, vec![100, 200, 200, 200]);
    assert_eq!(&extended[..plan.len()], &plan[..]);
}

#[test]
fn recompute_adds_nothing_for_disks_that_are_not_larger() {
    let old = vec![100, 200];
    assert_eq!(recompute_slices(&vec![300, 50, 100], &old), vec![100, 200]);
    assert_eq!(recompute_slices(&vec![], &old), vec![100, 200]);
}

#[test]
fn recompute_on_an_empty_list_starts_from_nothing() {
    assert_eq!(recompute_slices(&vec![20, 10, 20], &vec![]), vec![10, 10]);
}

#[test]
fn range_is_the_longest_prefix_that_fits() {
    let slices = vec![500, 500, 1000];
    assert_eq!(find_range_sum(&slices, 500), vec![500]);
    assert_eq!(find_range_sum(&slices, 1000), vec![500, 500]);
    assert_eq!(find_range_sum(&slices, 2000), vec![500, 500, 1000]);
    assert_eq!(find_range_sum(&slices, 1999), vec![500, 500]);
    assert_eq!(find_range_sum(&slices, 499), Vec::<usize>::new());
    assert_eq!(find_range_sum(&slices, usize::MAX), vec![500, 500, 1000]);
    assert_eq!(find_range_sum(&vec![], 10), Vec::<usize>::new());
}

#[test]
fn range_takes_in_slices_of_size_zero() {
    assert_eq!(find_range_sum(&vec![0, 5, 0, 7], 5), vec![0, 5, 0]);
}

#[test]
fn total_is_checked() {
    assert_eq!(checked_total(&vec![]), Some(0));
    assert_eq!(checked_total(&vec![1, 2, 3]), Some(6));
    assert_eq!(checked_total(&vec![usize::MAX, 0]), Some(usize::MAX));
    assert_eq!(checked_total(&vec![usize::MAX, 1]), None);
    assert_eq!(checked_total(&vec![usize::MAX, 1, 0]), None);
}

#[test]
fn sizes_are_sorted_ascending() {
    assert_eq!(sort_sizes(&vec![3, 1, 2, 1, 0]), vec![0, 1, 1, 2, 3]);
    assert_eq!(sort_sizes(&vec![]), Vec::<usize>::new());
}
