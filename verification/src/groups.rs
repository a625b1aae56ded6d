//! The group mapper: from the partitions of each disk to groups of
//! partitions of equal ordinal, one from each disk that has one.

use vstd::prelude::*;
use crate::types::{clone_partitions, DiskPartition, PartitionMap};

verus! {

/// The partitions of each disk of a partition map, without the disk paths.
pub open spec fn layout(part_map: Seq<(String, Vec<DiskPartition>)>) -> Seq<Seq<DiskPartition>> {
    Seq::new(part_map.len(), |i: int| part_map[i].1@)
}

/// Disk `a` comes before disk `b` when the disks are put in descending order
/// of partition count, disks with equally many staying as they were.
pub open spec fn precedes<T>(disks: Seq<Seq<T>>, a: int, b: int) -> bool {
    disks[a].len() > disks[b].len() || (disks[a].len() == disks[b].len() && a < b)
}

/// Disk `d` stands somewhere in `order`.
pub open spec fn listed(order: Seq<usize>, d: int) -> bool {
    exists|p: int| 0 <= p < order.len() && #[trigger] order[p] == d
}

/// `order` lists every disk once, by index, in descending order of partition
/// count, disks with equally many partitions in their given order.
pub open spec fn is_disk_order<T>(disks: Seq<Seq<T>>, order: Seq<usize>) -> bool {
    &&& order.len() == disks.len()
    &&& forall|p: int| 0 <= p < order.len() ==> (#[trigger] order[p]) < disks.len()
    &&& forall|d: int| 0 <= d < disks.len() ==> #[trigger] listed(order, d)
    &&& forall|p: int, q: int|
        0 <= p < q < order.len() ==> precedes(disks, #[trigger] order[p] as int, #[trigger] order[q] as int)
}

/// `group` is the group of ordinal `j`: it holds, in disk order, the `j`-th
/// partition of every disk that has one.
pub open spec fn is_group<T>(disks: Seq<Seq<T>>, order: Seq<usize>, j: int, group: Seq<T>) -> bool {
    &&& group.len() <= order.len()
    &&& forall|p: int|
        0 <= p < group.len() ==> disks[(#[trigger] order[p]) as int].len() > j && group[p]
            == disks[order[p] as int][j]
    &&& forall|p: int|
        group.len() <= p < order.len() ==> disks[(#[trigger] order[p]) as int].len() <= j
}

/// `groups` holds one group for each ordinal that any disk has, in ordinal
/// order.
pub open spec fn is_grouping<T>(disks: Seq<Seq<T>>, order: Seq<usize>, groups: Seq<Seq<T>>) -> bool {
    &&& disks.len() == 0 ==> groups.len() == 0
    &&& disks.len() > 0 ==> groups.len() == disks[order[0] as int].len()
    &&& forall|j: int| 0 <= j < groups.len() ==> is_group(disks, order, j, #[trigger] groups[j])
}

/// A group is kept only where it can be made redundant: with two members or
/// more.
pub open spec fn survives<T>(group: Seq<T>) -> bool {
    group.len() >= 2
}

/// The groups that are kept, in ordinal order.
pub open spec fn survivors<T>(groups: Seq<Seq<T>>) -> Seq<Seq<T>> {
    groups.filter(|g: Seq<T>| survives(g))
}

/// Puts the disks in descending order of partition count; disks with equally
/// many partitions stay in the order in which they were given.
pub fn disk_order(part_map: &PartitionMap) -> (order: Vec<usize>)
    ensures
        is_disk_order(layout(part_map@), order@),
{
    let ghost disks = layout(part_map@);
    let mut order: Vec<usize> = Vec::new();
    let mut k: usize = 0;
    while k < part_map.len()
        invariant
            0 <= k <= part_map@.len(),
            disks == layout(part_map@),
            order@.len() == k,
            forall|p: int| 0 <= p < order@.len() ==> (#[trigger] order@[p]) < k,
            forall|d: int| 0 <= d < k ==> #[trigger] listed(order@, d),
            forall|p: int, q: int|
                0 <= p < q < order@.len() ==> precedes(
                    disks,
                    #[trigger] order@[p] as int,
                    #[trigger] order@[q] as int,
                ),
        decreases part_map.len() - k,
    {
        let count: usize = part_map[k].1.len();
        let mut pos: usize = 0;
        while pos < order.len() && part_map[order[pos]].1.len() >= count
            invariant
                0 <= pos <= order@.len(),
                order@.len() == k,
                k < part_map@.len(),
                disks == layout(part_map@),
                count == disks[k as int].len(),
                forall|p: int| 0 <= p < order@.len() ==> (#[trigger] order@[p]) < k,
                forall|p: int| 0 <= p < pos ==> disks[(#[trigger] order@[p]) as int].len() >= count,
            decreases order.len() - pos,
        {
            pos = pos + 1;
        }
        let ghost before = order@;
        order.insert(pos, k);
        proof {
            let after = order@;
            assert forall|d: int| 0 <= d < k + 1 implies #[trigger] listed(after, d) by {
                if d < k {
                    assert(listed(before, d));
                    let p = choose|p: int| 0 <= p < before.len() && #[trigger] before[p] == d;
                    if p < pos {
                        assert(after[p] == d);
                    } else {
                        assert(after[p + 1] == d);
                    }
                } else {
                    assert(after[pos as int] == d);
                }
            }
            assert forall|p: int, q: int| 0 <= p < q < after.len() implies precedes(
                disks,
                #[trigger] after[p] as int,
                #[trigger] after[q] as int,
            ) by {
                if q < pos {
                    assert(after[p] == before[p] && after[q] == before[q]);
                } else if q == pos {
                    assert(after[p] == before[p]);
                } else if p < pos {
                    assert(after[p] == before[p] && after[q] == before[q - 1]);
                } else if p == pos {
                    assert(after[q] == before[q - 1]);
                    if pos < q - 1 {
                        assert(precedes(disks, before[pos as int] as int, before[q - 1] as int));
                    }
                } else {
                    assert(after[p] == before[p - 1] && after[q] == before[q - 1]);
                }
            }
        }
        k = k + 1;
    }
    order
}

/// Two disk orders of the same disks agree on their first `m` places.
proof fn lemma_orders_agree<T>(disks: Seq<Seq<T>>, x: Seq<usize>, y: Seq<usize>, m: int)
    requires
        is_disk_order(disks, x),
        is_disk_order(disks, y),
        0 <= m <= disks.len(),
    ensures
        x.take(m) == y.take(m),
    decreases m,
{
    if m == 0 {
        assert(x.take(0) =~= y.take(0));
    } else {
        lemma_orders_agree(disks, x, y, m - 1);
        let d = x[m - 1] as int;
        let e = y[m - 1] as int;
        assert(listed(y, d));
        assert(listed(x, e));
        let q = choose|q: int| 0 <= q < y.len() && #[trigger] y[q] == d;
        let r = choose|r: int| 0 <= r < x.len() && #[trigger] x[r] == e;
        if q < m - 1 {
            assert(y[q] == y.take(m - 1)[q]);
            assert(x[q] == x.take(m - 1)[q]);
            assert(precedes(disks, x[q] as int, x[m - 1] as int));
        }
        if r < m - 1 {
            assert(y[r] == y.take(m - 1)[r]);
            assert(x[r] == x.take(m - 1)[r]);
            assert(precedes(disks, y[r] as int, y[m - 1] as int));
        }
        if q > m - 1 && r > m - 1 {
            assert(precedes(disks, y[m - 1] as int, y[q] as int));
            assert(precedes(disks, x[m - 1] as int, x[r] as int));
        }
        assert(x[m - 1] == y[m - 1]);
        assert(x.take(m) =~= x.take(m - 1).push(x[m - 1]));
        assert(y.take(m) =~= y.take(m - 1).push(y[m - 1]));
    }
}

/// The disk order of given disks is unique.
pub proof fn lemma_disk_order_unique<T>(disks: Seq<Seq<T>>, x: Seq<usize>, y: Seq<usize>)
    requires
        is_disk_order(disks, x),
        is_disk_order(disks, y),
    ensures
        x == y,
{
    lemma_orders_agree(disks, x, y, disks.len() as int);
    assert(x.take(x.len() as int) =~= x);
    assert(y.take(y.len() as int) =~= y);
}

/// The disk order of `disks`.
pub open spec fn disk_order_of<T>(disks: Seq<Seq<T>>) -> Seq<usize> {
    choose|order: Seq<usize>| is_disk_order(disks, order)
}

/// The group of a given ordinal is unique.
pub proof fn lemma_group_unique<T>(
    disks: Seq<Seq<T>>,
    order: Seq<usize>,
    j: int,
    x: Seq<T>,
    y: Seq<T>,
)
    requires
        is_group(disks, order, j, x),
        is_group(disks, order, j, y),
    ensures
        x == y,
{
    if x.len() < y.len() {
        assert(disks[order[x.len() as int] as int].len() <= j);
    }
    if y.len() < x.len() {
        assert(disks[order[y.len() as int] as int].len() <= j);
    }
    assert forall|p: int| 0 <= p < x.len() implies x[p] == y[p] by {
        assert(x[p] == disks[order[p] as int][j]);
        assert(y[p] == disks[order[p] as int][j]);
    }
    assert(x =~= y);
}

/// The grouping of given disks in a given order is unique.
pub proof fn lemma_grouping_unique<T>(
    disks: Seq<Seq<T>>,
    order: Seq<usize>,
    x: Seq<Seq<T>>,
    y: Seq<Seq<T>>,
)
    requires
        is_grouping(disks, order, x),
        is_grouping(disks, order, y),
    ensures
        x == y,
{
    assert forall|j: int| 0 <= j < x.len() implies x[j] == y[j] by {
        lemma_group_unique(disks, order, j, x[j], y[j]);
    }
    assert(x =~= y);
}

/// The groups of `disks`, in ordinal order.
pub open spec fn groups_of<T>(disks: Seq<Seq<T>>) -> Seq<Seq<T>> {
    choose|groups: Seq<Seq<T>>| is_grouping(disks, disk_order_of(disks), groups)
}

/// The members of each group of a list of groups.
pub open spec fn members(groups: Seq<Vec<DiskPartition>>) -> Seq<Seq<DiskPartition>> {
    Seq::new(groups.len(), |j: int| groups[j]@)
}

/// Forms the groups of a partition map: group `j` holds the `j`-th partition
/// of every disk that has one, the disks taken in descending order of
/// partition count.
pub fn group_partitions(part_map: &PartitionMap) -> (groups: Vec<Vec<DiskPartition>>)
    ensures
        is_disk_order(layout(part_map@), disk_order_of(layout(part_map@))),
        is_grouping(layout(part_map@), disk_order_of(layout(part_map@)), members(groups@)),
        members(groups@) == groups_of(layout(part_map@)),
{
    let ghost disks = layout(part_map@);
    let order = disk_order(part_map);
    proof {
        lemma_disk_order_unique(disks, order@, disk_order_of(disks));
    }
    let mut groups: Vec<Vec<DiskPartition>> = Vec::new();
    if part_map.len() == 0 {
        proof {
            assert(is_grouping(disks, disk_order_of(disks), members(groups@)));
            lemma_grouping_unique(disks, order@, members(groups@), groups_of(disks));
        }
        return groups;
    }
    let tallest: usize = part_map[order[0]].1.len();
    let mut j: usize = 0;
    while j < tallest
        invariant
            0 <= j <= tallest,
            part_map@.len() > 0,
            disks == layout(part_map@),
            is_disk_order(disks, order@),
            tallest == disks[order@[0] as int].len(),
            groups@.len() == j,
            forall|i: int|
                0 <= i < j ==> is_group(disks, order@, i, #[trigger] members(groups@)[i]),
        decreases tallest - j,
    {
        let mut group: Vec<DiskPartition> = Vec::new();
        let mut p: usize = 0;
        while p < order.len() && part_map[order[p]].1.len() > j
            invariant
                0 <= p <= order@.len(),
                disks == layout(part_map@),
                is_disk_order(disks, order@),
                group@.len() == p,
                forall|i: int|
                    0 <= i < p ==> disks[(#[trigger] order@[i]) as int].len() > j && group@[i]
                        == disks[order@[i] as int][j as int],
            decreases order.len() - p,
        {
            group.push(part_map[order[p]].1[j].clone());
            p = p + 1;
        }
        proof {
            assert forall|q: int| group@.len() <= q < order@.len() implies disks[(
            #[trigger] order@[q]) as int].len() <= j by {
                if p < q {
                    assert(precedes(disks, order@[p as int] as int, order@[q] as int));
                }
            }
            assert(is_group(disks, order@, j as int, group@));
        }
        let ghost earlier = groups@;
        groups.push(group);
        proof {
            assert forall|i: int| 0 <= i < j + 1 implies is_group(
                disks,
                order@,
                i,
                #[trigger] members(groups@)[i],
            ) by {
                if i < j {
                    assert(members(groups@)[i] == members(earlier)[i]);
                }
            }
        }
        j = j + 1;
    }
    proof {
        assert(is_grouping(disks, disk_order_of(disks), members(groups@)));
        lemma_grouping_unique(disks, order@, members(groups@), groups_of(disks));
    }
    groups
}

/// Keeps the groups with two members or more, in their order.
pub fn surviving_groups(groups: &Vec<Vec<DiskPartition>>) -> (kept: Vec<Vec<DiskPartition>>)
    ensures
        members(kept@) == survivors(members(groups@)),
{
    let ghost all = members(groups@);
    let mut kept: Vec<Vec<DiskPartition>> = Vec::new();
    let mut j: usize = 0;
    proof {
        assert(members(kept@) =~= survivors(all.take(0)));
    }
    while j < groups.len()
        invariant
            0 <= j <= groups@.len(),
            all == members(groups@),
            members(kept@) == survivors(all.take(j as int)),
        decreases groups.len() - j,
    {
        let ghost earlier = kept@;
        proof {
            assert(all.take(j + 1).drop_last() =~= all.take(j as int));
            assert(all.take(j + 1).last() == all[j as int]);
            reveal_with_fuel(Seq::filter, 2);
        }
        if groups[j].len() >= 2 {
            kept.push(clone_partitions(&groups[j]));
            proof {
                assert(members(kept@) =~= members(earlier).push(all[j as int]));
            }
        }
        j = j + 1;
    }
    proof {
        assert(all.take(j as int) =~= all);
    }
    kept
}

} // verus!
