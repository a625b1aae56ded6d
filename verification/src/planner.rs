//! The slice planner: from disk capacities to an ordered list of slice sizes.

use vstd::prelude::*;

verus! {

/// Sum of all elements of `s`.
pub open spec fn total(s: Seq<usize>) -> int
    decreases s.len(),
{
    if s.len() == 0 {
        0
    } else {
        total(s.drop_last()) + s.last()
    }
}

/// Sum of the first `k` elements of `s`.
pub open spec fn prefix_total(s: Seq<usize>, k: int) -> int {
    total(s.take(k))
}

/// Extending a prefix by one element adds that element to its sum.
pub proof fn lemma_prefix_total_step(s: Seq<usize>, k: int)
    requires
        0 <= k < s.len(),
    ensures
        prefix_total(s, k + 1) == prefix_total(s, k) + s[k],
{
    assert(s.take(k + 1).drop_last() =~= s.take(k));
}

/// Prefix sums never decrease as the prefix grows.
pub proof fn lemma_prefix_total_monotone(s: Seq<usize>, i: int, j: int)
    requires
        0 <= i <= j <= s.len(),
    ensures
        0 <= prefix_total(s, i) <= prefix_total(s, j),
    decreases j,
{
    if j == 0 {
        assert(s.take(0) =~= Seq::<usize>::empty());
    } else if i == j {
        lemma_prefix_total_monotone(s, 0, j - 1);
        lemma_prefix_total_step(s, j - 1);
    } else {
        lemma_prefix_total_monotone(s, i, j - 1);
        lemma_prefix_total_step(s, j - 1);
    }
}

/// The number of leading slices that a disk of the given capacity receives:
/// the largest `k` whose prefix sum does not exceed the capacity.
pub open spec fn is_fitting_count(slices: Seq<usize>, capacity: int, k: int) -> bool {
    &&& 0 <= k <= slices.len()
    &&& prefix_total(slices, k) <= capacity
    &&& k < slices.len() ==> prefix_total(slices, k + 1) > capacity
}

/// Returns the longest prefix of `slices` whose sum does not exceed `capacity`.
pub fn find_range_sum(slices: &Vec<usize>, capacity: usize) -> (range: Vec<usize>)
    ensures
        is_fitting_count(slices@, capacity as int, range@.len() as int),
        range@ == slices@.take(range@.len() as int),
{
    let mut range: Vec<usize> = Vec::new();
    let mut acc: usize = 0;
    let mut k: usize = 0;
    proof {
        assert(slices@.take(0) =~= Seq::<usize>::empty());
    }
    while k < slices.len() && slices[k] <= capacity - acc
        invariant
            0 <= k <= slices.len(),
            acc == prefix_total(slices@, k as int),
            acc <= capacity,
            range@ == slices@.take(k as int),
        decreases slices.len() - k,
    {
        proof {
            lemma_prefix_total_step(slices@, k as int);
            assert(slices@.take(k + 1) =~= slices@.take(k as int).push(slices@[k as int]));
        }
        acc = acc + slices[k];
        range.push(slices[k]);
        k = k + 1;
    }
    proof {
        if k < slices.len() {
            lemma_prefix_total_step(slices@, k as int);
        }
    }
    range
}

/// `s` is in ascending order.
pub open spec fn ascending(s: Seq<usize>) -> bool {
    forall|i: int, j: int| 0 <= i <= j < s.len() ==> s[i] <= s[j]
}

/// Returns the capacities in ascending order.
pub fn sort_sizes(sizes: &Vec<usize>) -> (sorted: Vec<usize>)
    ensures
        ascending(sorted@),
        sorted@.to_multiset() == sizes@.to_multiset(),
        sorted@.len() == sizes@.len(),
{
    let mut sorted: Vec<usize> = Vec::new();
    let mut k: usize = 0;
    proof {
        assert(sizes@.take(0) =~= Seq::<usize>::empty());
    }
    while k < sizes.len()
        invariant
            0 <= k <= sizes.len(),
            ascending(sorted@),
            sorted@.len() == k,
            sorted@.to_multiset() == sizes@.take(k as int).to_multiset(),
        decreases sizes.len() - k,
    {
        let x: usize = sizes[k];
        let mut pos: usize = 0;
        while pos < sorted.len() && sorted[pos] <= x
            invariant
                0 <= pos <= sorted.len(),
                forall|i: int| 0 <= i < pos ==> sorted@[i] <= x,
            decreases sorted.len() - pos,
        {
            pos = pos + 1;
        }
        proof {
            assert(sizes@.take(k + 1) =~= sizes@.take(k as int).push(x));
            vstd::seq_lib::to_multiset_build(sizes@.take(k as int), x);
            vstd::seq_lib::to_multiset_insert(sorted@, pos as int, x);
            let after = sorted@.insert(pos as int, x);
            assert forall|i: int, j: int| 0 <= i <= j < after.len() implies after[i] <= after[j] by {
                if j < pos {
                    assert(after[i] == sorted@[i] && after[j] == sorted@[j]);
                } else if j == pos {
                    if i < pos {
                        assert(after[i] == sorted@[i]);
                    }
                } else {
                    assert(after[j] == sorted@[j - 1]);
                    if i < pos {
                        assert(after[i] == sorted@[i]);
                    } else if i > pos {
                        assert(after[i] == sorted@[i - 1]);
                    } else {
                        assert(sorted@[pos as int] <= sorted@[j - 1]);
                    }
                }
            }
        }
        sorted.insert(pos, x);
        k = k + 1;
    }
    proof {
        assert(sizes@.take(k as int) =~= sizes@);
    }
    sorted
}

/// Some element of `caps` equals `v`.
pub open spec fn holds(caps: Seq<usize>, v: int) -> bool {
    exists|i: int| 0 <= i < caps.len() && caps[i] == v
}

/// `v` is the sum of the first `m` slices for some `m` with `from < m`.
pub open spec fn is_boundary(s: Seq<usize>, from: int, v: int) -> bool {
    exists|m: int| from < m <= s.len() && #[trigger] prefix_total(s, m) == v
}

/// `s` is the slice plan of the capacities `caps`: its tier boundaries (the
/// sums of its non-empty prefixes) are exactly the distinct capacities, in
/// ascending order. Every slice after the first is positive; the first is
/// the smallest capacity.
pub open spec fn is_plan(caps: Seq<usize>, s: Seq<usize>) -> bool {
    &&& caps.len() == 0 ==> s.len() == 0
    &&& caps.len() > 0 ==> s.len() > 0
    &&& forall|j: int| 1 <= j < s.len() ==> s[j] > 0
    &&& forall|v: int| #[trigger] holds(caps, v) ==> is_boundary(s, 0, v)
    &&& forall|m: int| 0 < m <= s.len() ==> holds(caps, #[trigger] prefix_total(s, m))
}

/// `new` extends the slice list `old` for the capacities `caps`: `old` stays
/// as its prefix, and the tier boundaries after it are exactly the distinct
/// capacities larger than the sum of `old`, in ascending order.
pub open spec fn is_extension(old_slices: Seq<usize>, caps: Seq<usize>, new: Seq<usize>) -> bool {
    &&& old_slices.len() <= new.len()
    &&& new.take(old_slices.len() as int) == old_slices
    &&& forall|j: int| old_slices.len() <= j < new.len() ==> new[j] > 0
    &&& forall|v: int| #[trigger]
        holds(caps, v) && v > total(old_slices) ==> is_boundary(new, old_slices.len() as int, v)
    &&& forall|m: int|
        old_slices.len() < m <= new.len() ==> holds(caps, #[trigger] prefix_total(new, m))
}

/// Appending a slice leaves the sums of the earlier prefixes as they were.
pub proof fn lemma_prefix_total_push(s: Seq<usize>, d: usize, m: int)
    requires
        0 <= m <= s.len(),
    ensures
        prefix_total(s.push(d), m) == prefix_total(s, m),
        prefix_total(s.push(d), s.len() as int + 1) == total(s) + d,
        prefix_total(s, s.len() as int) == total(s),
        total(s.push(d)) == total(s) + d,
{
    assert(s.push(d).take(m) =~= s.take(m));
    assert(s.push(d).take(s.len() as int + 1) =~= s.push(d));
    assert(s.push(d).drop_last() =~= s);
    assert(s.take(s.len() as int) =~= s);
}

/// Two sequences with the same elements, whatever their order, hold the same values.
pub proof fn lemma_same_values(a: Seq<usize>, b: Seq<usize>)
    requires
        a.to_multiset() == b.to_multiset(),
    ensures
        forall|v: int| holds(a, v) <==> holds(b, v),
{
    assert forall|v: int| holds(a, v) <==> holds(b, v) by {
        if holds(a, v) {
            let i = choose|i: int| 0 <= i < a.len() && a[i] == v;
            vstd::seq_lib::to_multiset_contains(a, a[i]);
            vstd::seq_lib::to_multiset_contains(b, a[i]);
            assert(a.contains(a[i]));
            assert(b.contains(a[i]));
            let j = choose|j: int| 0 <= j < b.len() && b[j] == a[i];
            assert(b[j] == v);
        }
        if holds(b, v) {
            let i = choose|i: int| 0 <= i < b.len() && b[i] == v;
            vstd::seq_lib::to_multiset_contains(a, b[i]);
            vstd::seq_lib::to_multiset_contains(b, b[i]);
            assert(b.contains(b[i]));
            assert(a.contains(b[i]));
            let j = choose|j: int| 0 <= j < a.len() && a[j] == b[i];
            assert(a[j] == v);
        }
    }
}

/// Appends to `slices`, whose sum is `acc`, one slice for each distinct
/// capacity of the ascending list `sorted` that exceeds the sum so far.
fn extend_slices(sorted: &Vec<usize>, slices: &mut Vec<usize>, acc: usize)
    requires
        ascending(sorted@),
        acc == total(old(slices)@),
    ensures
        is_extension(old(slices)@, sorted@, final(slices)@),
        sorted@.len() > 0 && sorted@.last() >= acc ==> total(final(slices)@) == sorted@.last(),
        sorted@.len() == 0 || sorted@.last() < acc ==> final(slices)@ == old(slices)@,
        final(slices)@.len() <= old(slices)@.len() + sorted@.len(),
        sorted@.len() > 0 && sorted@[0] <= acc ==> final(slices)@.len() < old(slices)@.len()
            + sorted@.len(),
{
    let ghost before = slices@;
    let mut acc: usize = acc;
    let mut k: usize = 0;
    proof {
        assert(slices@.take(before.len() as int) =~= before);
    }
    while k < sorted.len()
        invariant
            0 <= k <= sorted.len(),
            ascending(sorted@),
            acc == total(slices@),
            acc >= total(before),
            acc == total(before) || (k > 0 && acc == sorted@[k - 1]),
            k > 0 ==> acc >= sorted@[k - 1],
            acc == total(before) ==> slices@ == before,
            before.len() <= slices@.len() <= before.len() + k,
            k > 0 && sorted@[0] <= total(before) ==> slices@.len() < before.len() + k,
            slices@.take(before.len() as int) == before,
            forall|j: int| before.len() <= j < slices@.len() ==> slices@[j] > 0,
            forall|i: int|
                0 <= i < k && sorted@[i] > total(before) ==> is_boundary(
                    slices@,
                    before.len() as int,
                    #[trigger] sorted@[i] as int,
                ),
            forall|m: int|
                before.len() < m <= slices@.len() ==> holds(
                    sorted@.take(k as int),
                    #[trigger] prefix_total(slices@, m),
                ),
        decreases sorted.len() - k,
    {
        let c: usize = sorted[k];
        let ghost prev = slices@;
        if c > acc {
            let d: usize = c - acc;
            slices.push(d);
            proof {
                lemma_prefix_total_push(prev, d, 0);
                assert(slices@.take(before.len() as int) =~= before);
                assert forall|i: int|
                    0 <= i < k + 1 && sorted@[i] > total(before) implies is_boundary(
                    slices@,
                    before.len() as int,
                    #[trigger] sorted@[i] as int,
                ) by {
                    if i < k {
                        let m = choose|m: int|
                            before.len() < m <= prev.len() && #[trigger] prefix_total(prev, m)
                                == sorted@[i];
                        lemma_prefix_total_push(prev, d, m);
                        assert(prefix_total(slices@, m) == sorted@[i]);
                    } else {
                        assert(prefix_total(slices@, prev.len() as int + 1) == sorted@[i]);
                    }
                }
                assert forall|m: int| before.len() < m <= slices@.len() implies holds(
                    sorted@.take(k + 1),
                    #[trigger] prefix_total(slices@, m),
                ) by {
                    if m <= prev.len() {
                        lemma_prefix_total_push(prev, d, m);
                        let i = choose|i: int|
                            0 <= i < sorted@.take(k as int).len() && sorted@.take(k as int)[i]
                                == prefix_total(prev, m);
                        assert(sorted@.take(k + 1)[i] == prefix_total(slices@, m));
                    } else {
                        assert(sorted@.take(k + 1)[k as int] == prefix_total(slices@, m));
                    }
                }
            }
            acc = c;
        } else {
            proof {
                assert forall|i: int|
                    0 <= i < k + 1 && sorted@[i] > total(before) implies is_boundary(
                    slices@,
                    before.len() as int,
                    #[trigger] sorted@[i] as int,
                ) by {
                    if i == k {
                        assert(k > 0 && acc == sorted@[k - 1]);
                        assert(sorted@[k - 1] <= sorted@[k as int]);
                        assert(is_boundary(slices@, before.len() as int, sorted@[k - 1] as int));
                    }
                }
                assert forall|m: int| before.len() < m <= slices@.len() implies holds(
                    sorted@.take(k + 1),
                    #[trigger] prefix_total(slices@, m),
                ) by {
                    let i = choose|i: int|
                        0 <= i < sorted@.take(k as int).len() && sorted@.take(k as int)[i]
                            == prefix_total(slices@, m);
                    assert(sorted@.take(k + 1)[i] == prefix_total(slices@, m));
                }
            }
        }
        k = k + 1;
    }
    proof {
        assert(sorted@.take(k as int) =~= sorted@);
        assert forall|v: int| #[trigger]
            holds(sorted@, v) && v > total(before) implies is_boundary(
            slices@,
            before.len() as int,
            v,
        ) by {
            let i = choose|i: int| 0 <= i < sorted@.len() && sorted@[i] == v;
            assert(is_boundary(slices@, before.len() as int, sorted@[i] as int));
        }
    }
}

/// Sum of the slices, or `None` when it does not fit in `usize`.
pub fn checked_total(slices: &Vec<usize>) -> (sum: Option<usize>)
    ensures
        sum == if total(slices@) <= usize::MAX {
            Some(total(slices@) as usize)
        } else {
            None::<usize>
        },
{
    let mut acc: usize = 0;
    let mut k: usize = 0;
    proof {
        assert(slices@.take(0) =~= Seq::<usize>::empty());
    }
    while k < slices.len()
        invariant
            0 <= k <= slices.len(),
            acc == prefix_total(slices@, k as int),
        decreases slices.len() - k,
    {
        proof {
            lemma_prefix_total_step(slices@, k as int);
            lemma_prefix_total_monotone(slices@, k + 1, slices@.len() as int);
            assert(slices@.take(slices@.len() as int) =~= slices@);
        }
        if slices[k] > usize::MAX - acc {
            return None;
        }
        acc = acc + slices[k];
        k = k + 1;
    }
    proof {
        assert(slices@.take(slices@.len() as int) =~= slices@);
    }
    Some(acc)
}

/// Computes the slice plan of a set of disk capacities: the capacities are
/// put in ascending order, the first slice is the smallest capacity, and each
/// further distinct capacity adds the slice that reaches it.
pub fn gen_slices(capacities: &Vec<usize>) -> (slices: Vec<usize>)
    ensures
        is_plan(capacities@, slices@),
        slices@.len() <= capacities@.len(),
{
    let sorted = sort_sizes(capacities);
    let mut slices: Vec<usize> = Vec::new();
    if sorted.len() == 0 {
        return slices;
    }
    let first: usize = sorted[0];
    slices.push(first);
    proof {
        assert(slices@ =~= seq![first]);
        assert(slices@.drop_last() =~= Seq::<usize>::empty());
        assert(total(slices@.drop_last()) == 0);
    }
    let ghost seed = slices@;
    extend_slices(&sorted, &mut slices, first);
    proof {
        lemma_same_values(sorted@, capacities@);
        assert(slices@.take(1)[0] == seed[0]);
        assert(slices@.take(1) =~= seed);
        assert(prefix_total(slices@, 1) == first);
        assert forall|v: int| #[trigger] holds(capacities@, v) implies is_boundary(
            slices@,
            0,
            v,
        ) by {
            assert(holds(sorted@, v));
            let i = choose|i: int| 0 <= i < sorted@.len() && sorted@[i] == v;
            assert(sorted@[0] <= sorted@[i]);
            if v > first {
                assert(is_boundary(slices@, 1, v));
            }
        }
        assert forall|m: int| 0 < m <= slices@.len() implies holds(
            capacities@,
            #[trigger] prefix_total(slices@, m),
        ) by {
            if m == 1 {
                assert(sorted@[0] == prefix_total(slices@, m));
                assert(holds(sorted@, prefix_total(slices@, m)));
            } else {
                assert(holds(sorted@, prefix_total(slices@, m)));
            }
        }
    }
    slices
}

/// Extends an existing slice list for a set of disks: one slice is appended
/// for each distinct capacity larger than the sum of the list so far, and the
/// existing slices keep their places.
pub fn recompute_slices(capacities: &Vec<usize>, slices: &Vec<usize>) -> (extended: Vec<usize>)
    requires
        total(slices@) <= usize::MAX,
    ensures
        is_extension(slices@, capacities@, extended@),
        extended@.len() <= slices@.len() + capacities@.len(),
{
    let sorted = sort_sizes(capacities);
    let mut extended: Vec<usize> = slices.clone();
    let acc = checked_total(slices);
    proof {
        assert(extended@ =~= slices@);
        lemma_prefix_total_monotone(slices@, 0, slices@.len() as int);
        assert(slices@.take(slices@.len() as int) =~= slices@);
    }
    match acc {
        Some(sum) => {
            extend_slices(&sorted, &mut extended, sum);
        },
        None => {},
    }
    proof {
        lemma_same_values(sorted@, capacities@);
    }
    extended
}

} // verus!
