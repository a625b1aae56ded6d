//! What holds of every grouping: which groups survive, what they hold, and
//! how many there are.

use vstd::prelude::*;
use vstd::set_lib::{lemma_int_range, set_int_range};
use crate::groups::{is_disk_order, is_group, is_grouping, listed, precedes, survives, survivors};
use crate::types::DiskPartition;

verus! {

/// Two different disks both have a partition of ordinal `j`.
pub open spec fn shared<T>(disks: Seq<Seq<T>>, j: int) -> bool {
    exists|a: int, b: int|
        0 <= a < disks.len() && 0 <= b < disks.len() && a != b && (#[trigger] disks[a]).len() > j
            && (#[trigger] disks[b]).len() > j
}

/// Partitions of the same ordinal have the same size on every disk, as they
/// do where all disks were partitioned by one slice list.
pub open spec fn aligned(disks: Seq<Seq<DiskPartition>>) -> bool {
    forall|a: int, b: int, j: int|
        0 <= a < disks.len() && 0 <= b < disks.len() && 0 <= j < disks[a].len() && j
            < disks[b].len() ==> (#[trigger] disks[a][j]).size == (#[trigger] disks[b][j]).size
}

/// A group of higher ordinal has no more members than one of lower ordinal.
pub proof fn lemma_groups_shrink<T>(
    disks: Seq<Seq<T>>,
    order: Seq<usize>,
    groups: Seq<Seq<T>>,
    i: int,
    j: int,
)
    requires
        is_disk_order(disks, order),
        is_grouping(disks, order, groups),
        0 <= i <= j < groups.len(),
    ensures
        groups[j].len() <= groups[i].len(),
{
    assert(is_group(disks, order, i, groups[i]));
    assert(is_group(disks, order, j, groups[j]));
    if groups[j].len() > groups[i].len() {
        let p = groups[i].len() as int;
        assert(disks[order[p] as int].len() <= i);
        assert(disks[order[p] as int].len() > j);
    }
}

/// A group survives exactly where two different disks share its ordinal.
pub proof fn lemma_survives_iff_shared<T>(
    disks: Seq<Seq<T>>,
    order: Seq<usize>,
    groups: Seq<Seq<T>>,
    j: int,
)
    requires
        is_disk_order(disks, order),
        is_grouping(disks, order, groups),
        0 <= j,
    ensures
        shared(disks, j) <==> (j < groups.len() && survives(groups[j])),
{
    if j < groups.len() {
        assert(is_group(disks, order, j, groups[j]));
        if survives(groups[j]) {
            let a = order[0] as int;
            let b = order[1] as int;
            assert(precedes(disks, a, b));
            assert(disks[a].len() > j && disks[b].len() > j);
            assert(shared(disks, j));
        }
    }
    if shared(disks, j) {
        let (a, b) = choose|a: int, b: int|
            0 <= a < disks.len() && 0 <= b < disks.len() && a != b && (#[trigger] disks[a]).len()
                > j && (#[trigger] disks[b]).len() > j;
        assert(listed(order, a));
        assert(listed(order, b));
        let p = choose|p: int| 0 <= p < order.len() && #[trigger] order[p] == a;
        let q = choose|q: int| 0 <= q < order.len() && #[trigger] order[q] == b;
        assert(p != q);
        if 0 < p {
            assert(precedes(disks, order[0] as int, order[p] as int));
        }
        assert(j < groups.len());
        assert(is_group(disks, order, j, groups[j]));
        assert(p < groups[j].len());
        assert(q < groups[j].len());
    }
}

/// The surviving groups are the leading ones: the groups of the ordinals
/// below the number of survivors.
pub proof fn lemma_survivors_lead<T>(disks: Seq<Seq<T>>, order: Seq<usize>, groups: Seq<Seq<T>>)
    requires
        is_disk_order(disks, order),
        is_grouping(disks, order, groups),
    ensures
        survivors(groups).len() <= groups.len(),
        survivors(groups) == groups.take(survivors(groups).len() as int),
        forall|j: int| 0 <= j < groups.len() ==> (survives(#[trigger] groups[j]) <==> j < survivors(groups).len()),
{
    lemma_leading_filter(disks, order, groups, groups.len() as int);
    assert(groups.take(groups.len() as int) =~= groups);
    let kept = survivors(groups);
    let c = kept.len() as int;
    assert forall|j: int| 0 <= j < groups.len() implies (survives(#[trigger] groups[j]) <==> j
        < c) by {
        if j < c {
        } else if survives(groups[j]) {
            if c < groups.len() {
                lemma_groups_shrink(disks, order, groups, c, j);
                assert(survives(groups[c]));
            }
            lemma_count_all(disks, order, groups, groups.len() as int, j);
        }
    }
}

/// Among the first `m` groups, the survivors are the leading ones.
proof fn lemma_leading_filter<T>(
    disks: Seq<Seq<T>>,
    order: Seq<usize>,
    groups: Seq<Seq<T>>,
    m: int,
)
    requires
        is_disk_order(disks, order),
        is_grouping(disks, order, groups),
        0 <= m <= groups.len(),
    ensures
        survivors(groups.take(m)).len() <= m,
        survivors(groups.take(m)) == groups.take(survivors(groups.take(m)).len() as int),
        forall|j: int|
            survivors(groups.take(m)).len() <= j < m ==> !survives(#[trigger] groups[j]),
        forall|j: int|
            0 <= j < survivors(groups.take(m)).len() ==> survives(#[trigger] groups[j]),
    decreases m,
{
    reveal_with_fuel(Seq::filter, 2);
    if m == 0 {
        assert(survivors(groups.take(0)) =~= groups.take(0));
    } else {
        lemma_leading_filter(disks, order, groups, m - 1);
        let shorter = groups.take(m - 1);
        let c = survivors(shorter).len() as int;
        assert(groups.take(m).drop_last() =~= shorter);
        assert(groups.take(m).last() == groups[m - 1]);
        if survives(groups[m - 1]) {
            if c < m - 1 {
                lemma_groups_shrink(disks, order, groups, c, m - 1);
                assert(!survives(groups[c]));
            }
            assert(survivors(groups.take(m)) =~= groups.take(m));
        } else {
            assert(survivors(groups.take(m)) == survivors(shorter));
        }
    }
}

/// Where group `j` survives, so do all `j + 1` groups up to it.
proof fn lemma_count_all<T>(
    disks: Seq<Seq<T>>,
    order: Seq<usize>,
    groups: Seq<Seq<T>>,
    m: int,
    j: int,
)
    requires
        is_disk_order(disks, order),
        is_grouping(disks, order, groups),
        0 <= j < m <= groups.len(),
        survives(groups[j]),
    ensures
        survivors(groups.take(m)).len() > j,
{
    lemma_leading_filter(disks, order, groups, m);
}

/// Every surviving group holds partitions of one size.
pub proof fn surviving_group_sizes_agree(
    disks: Seq<Seq<DiskPartition>>,
    order: Seq<usize>,
    groups: Seq<Seq<DiskPartition>>,
    k: int,
    a: int,
    b: int,
)
    requires
        aligned(disks),
        is_disk_order(disks, order),
        is_grouping(disks, order, groups),
        0 <= k < survivors(groups).len(),
        0 <= a < survivors(groups)[k].len(),
        0 <= b < survivors(groups)[k].len(),
    ensures
        survivors(groups)[k][a].size == survivors(groups)[k][b].size,
{
    lemma_survivors_lead(disks, order, groups);
    assert(survivors(groups)[k] == groups[k]);
    assert(is_group(disks, order, k, groups[k]));
    assert(groups[k][a] == disks[order[a] as int][k]);
    assert(groups[k][b] == disks[order[b] as int][k]);
}

/// The place of disk `d` in `order`.
pub open spec fn place_of(order: Seq<usize>, d: int) -> int {
    choose|p: int| 0 <= p < order.len() && #[trigger] order[p] == d
}

/// Disk `d` contributes a member to `group`.
pub open spec fn is_member<T>(order: Seq<usize>, group: Seq<T>, d: int) -> bool {
    listed(order, d) && place_of(order, d) < group.len()
}

/// The member that disk `d` contributes to `group`.
pub open spec fn member_of<T>(order: Seq<usize>, group: Seq<T>, d: int) -> T {
    group[place_of(order, d)]
}

/// Partition `j` of disk `d` is a member of the surviving group of its
/// ordinal.
pub open spec fn in_surviving_group<T>(
    disks: Seq<Seq<T>>,
    order: Seq<usize>,
    kept: Seq<Seq<T>>,
    d: int,
    j: int,
) -> bool {
    &&& 0 <= j < kept.len()
    &&& is_member(order, kept[j], d)
    &&& member_of(order, kept[j], d) == disks[d][j]
}

/// The members of the surviving groups are the partitions whose ordinal two
/// or more disks share, each of them once: partition `j` of disk `d` is a
/// member exactly where the ordinal `j` is shared, and every member is such a
/// partition.
pub proof fn surviving_members_are_shared_partitions<T>(
    disks: Seq<Seq<T>>,
    order: Seq<usize>,
    groups: Seq<Seq<T>>,
)
    requires
        is_disk_order(disks, order),
        is_grouping(disks, order, groups),
    ensures
        forall|d: int, j: int|
            0 <= d < disks.len() && 0 <= j < disks[d].len() ==> (shared(disks, j)
                <==> #[trigger] in_surviving_group(disks, order, survivors(groups), d, j)),
        forall|k: int, p: int|
            0 <= k < survivors(groups).len() && 0 <= p < survivors(groups)[k].len() ==> shared(
                disks,
                k,
            ) && order[p] < disks.len() && k < disks[order[p] as int].len()
                && #[trigger] survivors(groups)[k][p] == disks[order[p] as int][k],
{
    lemma_survivors_lead(disks, order, groups);
    let kept = survivors(groups);
    assert forall|d: int, j: int| 0 <= d < disks.len() && 0 <= j < disks[d].len() implies (shared(
        disks,
        j,
    ) <==> #[trigger] in_surviving_group(disks, order, kept, d, j)) by {
        lemma_survives_iff_shared(disks, order, groups, j);
        if shared(disks, j) {
            assert(kept[j] == groups[j]);
            assert(is_group(disks, order, j, groups[j]));
            assert(listed(order, d));
            let p = choose|p: int| 0 <= p < order.len() && #[trigger] order[p] == d;
            assert(p < groups[j].len());
            lemma_place_unique(disks, order, d, p);
            assert(is_member(order, kept[j], d));
        }
        if j < kept.len() {
            assert(kept[j] == groups[j]);
            assert(survives(groups[j]));
        }
    }
    assert forall|k: int, p: int| 0 <= k < kept.len() && 0 <= p < kept[k].len() implies shared(
        disks,
        k,
    ) && order[p] < disks.len() && k < disks[order[p] as int].len() && #[trigger] kept[k][p]
        == disks[order[p] as int][k] by {
        assert(kept[k] == groups[k]);
        assert(is_group(disks, order, k, groups[k]));
        lemma_survives_iff_shared(disks, order, groups, k);
    }
}

/// A disk stands at one place only in a disk order.
pub proof fn lemma_place_unique<T>(disks: Seq<Seq<T>>, order: Seq<usize>, d: int, p: int)
    requires
        is_disk_order(disks, order),
        0 <= p < order.len(),
        order[p] == d,
    ensures
        place_of(order, d) == p,
{
    let q = place_of(order, d);
    if q < p {
        assert(precedes(disks, order[q] as int, order[p] as int));
    }
    if p < q {
        assert(precedes(disks, order[p] as int, order[q] as int));
    }
}

/// There are as many surviving groups as there are ordinals that two or more
/// disks share.
pub proof fn surviving_groups_count_shared_ordinals<T>(
    disks: Seq<Seq<T>>,
    order: Seq<usize>,
    groups: Seq<Seq<T>>,
)
    requires
        is_disk_order(disks, order),
        is_grouping(disks, order, groups),
    ensures
        Set::new(|j: int| 0 <= j && shared(disks, j)).finite(),
        Set::new(|j: int| 0 <= j && shared(disks, j)).len() == survivors(groups).len(),
{
    lemma_survivors_lead(disks, order, groups);
    let c = survivors(groups).len() as int;
    let ordinals = Set::new(|j: int| 0 <= j && shared(disks, j));
    assert forall|j: int| ordinals.contains(j) <==> set_int_range(0, c).contains(j) by {
        if 0 <= j {
            lemma_survives_iff_shared(disks, order, groups, j);
        }
    }
    assert(ordinals =~= set_int_range(0, c));
    lemma_int_range(0, c);
}

/// Every surviving group has two members or more: no group of one stands in
/// a sub-array map.
pub proof fn survivors_have_two_members<T>(
    disks: Seq<Seq<T>>,
    order: Seq<usize>,
    groups: Seq<Seq<T>>,
    k: int,
)
    requires
        is_disk_order(disks, order),
        is_grouping(disks, order, groups),
        0 <= k < survivors(groups).len(),
    ensures
        survivors(groups)[k].len() >= 2,
{
    lemma_survivors_lead(disks, order, groups);
    assert(survivors(groups)[k] == groups[k]);
    assert(survives(groups[k]));
}

/// No partition stands in two groups, nor twice in one: the member at
/// place `p` of the group of ordinal `k` is partition `k` of the disk at
/// place `p` of the disk order, and no other place of any group holds that
/// partition of that disk.
pub proof fn members_belong_to_one_group<T>(
    disks: Seq<Seq<T>>,
    order: Seq<usize>,
    groups: Seq<Seq<T>>,
    k: int,
    p: int,
    q: int,
)
    requires
        is_disk_order(disks, order),
        is_grouping(disks, order, groups),
        0 <= k < groups.len(),
        0 <= p < groups[k].len(),
        0 <= q < groups[k].len(),
        p != q,
    ensures
        groups[k][p] == disks[order[p] as int][k],
        order[p] != order[q],
{
    assert(is_group(disks, order, k, groups[k]));
    if p < q {
        assert(precedes(disks, order[p] as int, order[q] as int));
    } else {
        assert(precedes(disks, order[q] as int, order[p] as int));
    }
}

} // verus!
