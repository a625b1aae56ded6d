//! What holds of every slice plan: it is determined by the capacities alone,
//! reaches every capacity, ends at the largest, and survives extension.

use vstd::prelude::*;
use crate::planner::{
    holds, is_boundary, is_extension, is_fitting_count, is_plan, lemma_prefix_total_monotone,
    lemma_prefix_total_step, lemma_same_values, prefix_total, total,
};

verus! {

/// Where every slice from position `from` on is positive, the prefix sums
/// from there on grow strictly.
pub proof fn lemma_boundaries_increase(s: Seq<usize>, from: int, a: int, b: int)
    requires
        0 <= from <= a < b <= s.len(),
        forall|j: int| from <= j < s.len() ==> s[j] > 0,
    ensures
        prefix_total(s, a) < prefix_total(s, b),
    decreases b - a,
{
    lemma_prefix_total_step(s, b - 1);
    if a < b - 1 {
        lemma_boundaries_increase(s, from, a, b - 1);
    }
}

/// The sum of a prefix depends on that prefix alone.
proof fn lemma_prefix_total_of_common_prefix(x: Seq<usize>, y: Seq<usize>, m: int, k: int)
    requires
        0 <= k <= m <= x.len(),
        m <= y.len(),
        x.take(m) == y.take(m),
    ensures
        prefix_total(x, k) == prefix_total(y, k),
{
    assert(x.take(k) =~= x.take(m).take(k));
    assert(y.take(k) =~= y.take(m).take(k));
}

/// One half of the step by which two extensions of the same list are shown
/// to agree: the next boundary of `y` is no larger than that of `x`.
proof fn lemma_next_boundary_bound(
    old_slices: Seq<usize>,
    caps: Seq<usize>,
    x: Seq<usize>,
    y: Seq<usize>,
    m: int,
)
    requires
        is_extension(old_slices, caps, x),
        is_extension(old_slices, caps, y),
        old_slices.len() <= m < x.len(),
        m <= y.len(),
        x.take(m) == y.take(m),
    ensures
        m < y.len(),
        prefix_total(y, m + 1) <= prefix_total(x, m + 1),
{
    let from = old_slices.len() as int;
    let v = prefix_total(x, m + 1);
    lemma_boundaries_increase(x, from, m, m + 1);
    lemma_prefix_total_monotone(x, from, m);
    assert(x.take(from) =~= old_slices);
    assert(holds(caps, v));
    assert(is_boundary(y, from, v));
    let w = choose|w: int| from < w <= y.len() && #[trigger] prefix_total(y, w) == v;
    if w <= m {
        lemma_prefix_total_of_common_prefix(x, y, m, w);
        lemma_prefix_total_monotone(x, w, m);
        assert(false);
    }
    lemma_prefix_total_monotone(y, m + 1, w);
}

/// Two extensions of the same list for the same capacities agree on their
/// first `m` slices, for every `m` that both reach.
proof fn lemma_extensions_agree(
    old_slices: Seq<usize>,
    caps: Seq<usize>,
    x: Seq<usize>,
    y: Seq<usize>,
    m: int,
)
    requires
        is_extension(old_slices, caps, x),
        is_extension(old_slices, caps, y),
        old_slices.len() <= m <= x.len(),
        m <= y.len(),
    ensures
        x.take(m) == y.take(m),
    decreases m,
{
    if m == old_slices.len() {
        assert(x.take(m) =~= old_slices);
        assert(y.take(m) =~= old_slices);
    } else {
        lemma_extensions_agree(old_slices, caps, x, y, m - 1);
        lemma_next_boundary_bound(old_slices, caps, x, y, m - 1);
        lemma_next_boundary_bound(old_slices, caps, y, x, m - 1);
        lemma_prefix_total_step(x, m - 1);
        lemma_prefix_total_step(y, m - 1);
        lemma_prefix_total_of_common_prefix(x, y, m - 1, m - 1);
        assert(x[m - 1] == y[m - 1]);
        assert(x.take(m) =~= x.take(m - 1).push(x[m - 1]));
        assert(y.take(m) =~= y.take(m - 1).push(y[m - 1]));
    }
}

/// The extension of a slice list for given capacities is unique.
pub proof fn lemma_extension_unique(
    old_slices: Seq<usize>,
    caps: Seq<usize>,
    x: Seq<usize>,
    y: Seq<usize>,
)
    requires
        is_extension(old_slices, caps, x),
        is_extension(old_slices, caps, y),
    ensures
        x == y,
{
    if x.len() <= y.len() {
        lemma_extensions_agree(old_slices, caps, x, y, x.len() as int);
        if x.len() < y.len() {
            lemma_next_boundary_bound(old_slices, caps, y, x, x.len() as int);
        }
    } else {
        lemma_extensions_agree(old_slices, caps, x, y, y.len() as int);
        lemma_next_boundary_bound(old_slices, caps, x, y, y.len() as int);
    }
    assert(x.take(x.len() as int) =~= x);
    assert(y.take(y.len() as int) =~= y);
}

/// The first slice of a plan is the smallest capacity.
pub proof fn lemma_plan_starts_at_smallest(caps: Seq<usize>, s: Seq<usize>)
    requires
        is_plan(caps, s),
        caps.len() > 0,
    ensures
        holds(caps, s[0] as int),
        forall|i: int| 0 <= i < caps.len() ==> s[0] <= caps[i],
        prefix_total(s, 1) == s[0],
{
    lemma_prefix_total_step(s, 0);
    assert(prefix_total(s, 0) == 0);
    assert(prefix_total(s, 1) == s[0]);
    assert(holds(caps, prefix_total(s, 1)));
    assert forall|i: int| 0 <= i < caps.len() implies s[0] <= caps[i] by {
        assert(holds(caps, caps[i] as int));
        let m = choose|m: int| 0 < m <= s.len() && #[trigger] prefix_total(s, m) == caps[i];
        lemma_prefix_total_monotone(s, 1, m);
    }
}

/// A plan is the extension of its own first slice.
proof fn lemma_plan_extends_first(caps: Seq<usize>, s: Seq<usize>)
    requires
        is_plan(caps, s),
        caps.len() > 0,
    ensures
        is_extension(seq![s[0]], caps, s),
{
    let seed = seq![s[0]];
    lemma_plan_starts_at_smallest(caps, s);
    assert(s.take(1) =~= seed);
    assert(total(seed) == prefix_total(s, 1));
    assert forall|v: int| #[trigger] holds(caps, v) && v > total(seed) implies is_boundary(
        s,
        1,
        v,
    ) by {
        let m = choose|m: int| 0 < m <= s.len() && #[trigger] prefix_total(s, m) == v;
        assert(m != 1);
    }
}

/// The slice plan of given capacities is unique: the contract of the planner
/// admits one result only.
pub proof fn lemma_plan_unique(caps: Seq<usize>, x: Seq<usize>, y: Seq<usize>)
    requires
        is_plan(caps, x),
        is_plan(caps, y),
    ensures
        x == y,
{
    if caps.len() == 0 {
        assert(x =~= y);
    } else {
        lemma_plan_starts_at_smallest(caps, x);
        lemma_plan_starts_at_smallest(caps, y);
        let i = choose|i: int| 0 <= i < caps.len() && caps[i] == x[0] as int;
        let j = choose|j: int| 0 <= j < caps.len() && caps[j] == y[0] as int;
        assert(y[0] <= caps[i]);
        assert(x[0] <= caps[j]);
        lemma_plan_extends_first(caps, x);
        lemma_plan_extends_first(caps, y);
        lemma_extension_unique(seq![x[0]], caps, x, y);
    }
}

/// The slices of a plan sum to the largest capacity.
pub proof fn plan_total_is_largest_capacity(caps: Seq<usize>, s: Seq<usize>)
    requires
        is_plan(caps, s),
        caps.len() > 0,
    ensures
        holds(caps, total(s)),
        forall|i: int| 0 <= i < caps.len() ==> caps[i] <= total(s),
{
    assert(s.take(s.len() as int) =~= s);
    assert(holds(caps, prefix_total(s, s.len() as int)));
    assert forall|i: int| 0 <= i < caps.len() implies caps[i] <= total(s) by {
        assert(holds(caps, caps[i] as int));
        let m = choose|m: int| 0 < m <= s.len() && #[trigger] prefix_total(s, m) == caps[i];
        lemma_prefix_total_monotone(s, m, s.len() as int);
    }
}

/// Every capacity is reached exactly by some prefix of the plan.
pub proof fn plan_reaches_every_capacity(caps: Seq<usize>, s: Seq<usize>, i: int)
    requires
        is_plan(caps, s),
        0 <= i < caps.len(),
    ensures
        exists|k: int| 0 <= k <= s.len() && #[trigger] prefix_total(s, k) == caps[i],
{
    assert(holds(caps, caps[i] as int));
    let m = choose|m: int| 0 < m <= s.len() && #[trigger] prefix_total(s, m) == caps[i];
    assert(0 <= m <= s.len() && prefix_total(s, m) == caps[i]);
}

/// The plan does not depend on the order in which the capacities are given.
pub proof fn plan_permutation_invariant(
    caps: Seq<usize>,
    permuted: Seq<usize>,
    s: Seq<usize>,
    t: Seq<usize>,
)
    requires
        caps.to_multiset() == permuted.to_multiset(),
        is_plan(caps, s),
        is_plan(permuted, t),
    ensures
        s == t,
{
    lemma_same_values(caps, permuted);
    caps.to_multiset_ensures();
    permuted.to_multiset_ensures();
    assert(caps.len() == permuted.len());
    assert(is_plan(caps, t));
    lemma_plan_unique(caps, s, t);
}

/// Extending the plan of some disks for those disks together with further
/// ones keeps the plan as a prefix: the first slices, and the tier boundaries
/// that they form, stay as they were.
pub proof fn recompute_keeps_plan_as_prefix(
    caps: Seq<usize>,
    added: Seq<usize>,
    s: Seq<usize>,
    extended: Seq<usize>,
)
    requires
        is_plan(caps, s),
        is_extension(s, caps + added, extended),
    ensures
        s.len() <= extended.len(),
        extended.take(s.len() as int) == s,
        forall|m: int| 0 <= m <= s.len() ==> prefix_total(extended, m) == prefix_total(s, m),
{
    assert forall|m: int| 0 <= m <= s.len() implies prefix_total(extended, m) == prefix_total(
        s,
        m,
    ) by {
        assert(extended.take(m) =~= extended.take(s.len() as int).take(m));
    }
}

/// Where every disk has some capacity, every slice of the plan is positive.
pub proof fn plan_slices_positive(caps: Seq<usize>, s: Seq<usize>)
    requires
        is_plan(caps, s),
        forall|i: int| 0 <= i < caps.len() ==> caps[i] > 0,
    ensures
        forall|j: int| 0 <= j < s.len() ==> s[j] > 0,
{
    if caps.len() > 0 {
        lemma_plan_starts_at_smallest(caps, s);
        let i = choose|i: int| 0 <= i < caps.len() && caps[i] == s[0] as int;
        assert(caps[i] > 0);
    }
}

/// The tier boundaries of a plan grow strictly from slice to slice, the
/// first slice apart where the smallest disk is empty.
pub proof fn plan_boundaries_increase(caps: Seq<usize>, s: Seq<usize>, a: int, b: int)
    requires
        is_plan(caps, s),
        1 <= a < b <= s.len(),
    ensures
        prefix_total(s, a) < prefix_total(s, b),
{
    lemma_boundaries_increase(s, 1, a, b);
}

/// An extended slice list begins with the list that it extends, and sums to
/// no less: slices are appended, never reordered or taken away.
pub proof fn extension_keeps_prefix(old_slices: Seq<usize>, caps: Seq<usize>, extended: Seq<usize>)
    requires
        is_extension(old_slices, caps, extended),
    ensures
        old_slices.is_prefix_of(extended),
        total(old_slices) <= total(extended),
{
    assert(extended.subrange(0, old_slices.len() as int) =~= extended.take(old_slices.len() as int));
    lemma_prefix_total_monotone(extended, old_slices.len() as int, extended.len() as int);
    assert(extended.take(extended.len() as int) =~= extended);
}

/// A disk that the plan was made for is used in full: the longest prefix of
/// the plan that fits in it sums to its capacity.
pub proof fn plan_uses_every_disk_in_full(caps: Seq<usize>, s: Seq<usize>, capacity: int, k: int)
    requires
        is_plan(caps, s),
        holds(caps, capacity),
        is_fitting_count(s, capacity, k),
    ensures
        prefix_total(s, k) == capacity,
{
    let m = choose|m: int| 0 < m <= s.len() && #[trigger] prefix_total(s, m) == capacity;
    if k < m {
        lemma_prefix_total_monotone(s, k + 1, m);
    }
    lemma_prefix_total_monotone(s, m, k);
}

/// Where every capacity is a whole number of sectors, so is every slice of
/// the plan.
pub proof fn plan_slices_are_sector_aligned(
    caps: Seq<usize>,
    s: Seq<usize>,
    sector_size: int,
    j: int,
)
    requires
        is_plan(caps, s),
        sector_size > 0,
        forall|i: int| 0 <= i < caps.len() ==> (#[trigger] caps[i]) as int % sector_size == 0,
        0 <= j < s.len(),
    ensures
        s[j] as int % sector_size == 0,
{
    lemma_prefix_total_step(s, j);
    let above = prefix_total(s, j + 1);
    let below = prefix_total(s, j);
    assert(holds(caps, above));
    let a = choose|a: int| 0 <= a < caps.len() && caps[a] == above;
    assert(caps[a] as int % sector_size == 0);
    if j == 0 {
        assert(below == 0);
    } else {
        assert(holds(caps, below));
        let b = choose|b: int| 0 <= b < caps.len() && caps[b] == below;
        assert(caps[b] as int % sector_size == 0);
    }
    vstd::arithmetic::div_mod::lemma_sub_mod_noop(above, below, sector_size);
    assert(0int % sector_size == 0) by {
        vstd::arithmetic::div_mod::lemma_small_mod(0, sector_size as nat);
    }
}

} // verus!
