//! The layout engine: how a container shares the space along its main axis
//! among its children.
//!
//! Children with an exact extent keep it. What is left of the space is the
//! budget of the flexible children, shared in proportion to their weights by
//! the largest-remainder rule: each gets the floor of its share, and the units
//! that the floors leave over go, one each, to the children with the largest
//! remainders. A container without a flexible child gets fillers of weight one
//! before or after its children, as its alignment asks, so that no space is
//! lost.

use vstd::prelude::*;

verus! {

/// The axis along which a container places its children one after another.
/// `Row` stacks them from top to bottom, each child a row of full width;
/// `Column` places them from left to right, each child a column of full height.
#[derive(Clone, Copy, Debug, PartialEq, Eq, Structural)]
pub enum Direction {
    Row,
    Column,
}

/// The extent a component declares along its container's main axis.
#[derive(Clone, Copy, Debug, PartialEq, Eq, Structural)]
pub enum StackWidth {
    /// As large as the component's content.
    Content,
    /// A share of the free space, in proportion to the weight.
    Flex(usize),
    /// That many cells.
    Exact(usize),
}

/// A declared extent after `Content` has been measured.
#[derive(Clone, Copy, Debug, PartialEq, Eq, Structural)]
pub enum ResolvedStackWidth {
    Flex(usize),
    Exact(usize),
}

/// Where the children of a container without a flexible child are placed.
#[derive(Clone, Copy, Debug, PartialEq, Eq, Structural)]
pub enum StackAlign {
    Start,
    Center,
    End,
}

/// One stretch of a container's main axis: a child, by its index, or a filler,
/// each with its extent.
#[derive(Clone, Copy, Debug, PartialEq, Eq, Structural)]
pub enum WidthSegment {
    Child(usize, usize),
    Filler(usize),
}

impl Default for Direction {
    fn default() -> (direction: Self)
        ensures
            direction == Direction::Row,
    {
        Direction::Row
    }
}

impl Default for StackWidth {
    fn default() -> (width: Self)
        ensures
            width == StackWidth::Content,
    {
        StackWidth::Content
    }
}

impl Default for StackAlign {
    fn default() -> (align: Self)
        ensures
            align == StackAlign::Start,
    {
        StackAlign::Start
    }
}

impl WidthSegment {
    /// The extent of the stretch.
    pub open spec fn amount(self) -> nat {
        match self {
            WidthSegment::Child(amount, _) => amount as nat,
            WidthSegment::Filler(amount) => amount as nat,
        }
    }
}

/// The number of `true` entries.
pub open spec fn count_true(flags: Seq<bool>) -> nat
    decreases flags.len(),
{
    if flags.len() == 0 {
        0
    } else {
        count_true(flags.drop_last()) + if flags.last() {
            1nat
        } else {
            0nat
        }
    }
}

/// The sum of the exact extents among `entries`.
pub open spec fn exact_total(entries: Seq<ResolvedStackWidth>) -> nat
    decreases entries.len(),
{
    if entries.len() == 0 {
        0
    } else {
        exact_total(entries.drop_last()) + match entries.last() {
            ResolvedStackWidth::Exact(cells) => cells as nat,
            ResolvedStackWidth::Flex(_) => 0nat,
        }
    }
}

/// The sum of the flex weights among `entries`.
pub open spec fn flex_total(entries: Seq<ResolvedStackWidth>) -> nat
    decreases entries.len(),
{
    if entries.len() == 0 {
        0
    } else {
        flex_total(entries.drop_last()) + match entries.last() {
            ResolvedStackWidth::Exact(_) => 0nat,
            ResolvedStackWidth::Flex(weight) => weight as nat,
        }
    }
}

/// Whether entry `i` is flexible.
pub open spec fn is_flex(entries: Seq<ResolvedStackWidth>, i: int) -> bool {
    0 <= i < entries.len() && entries[i] is Flex
}

/// The number of flexible entries.
pub open spec fn flex_count(entries: Seq<ResolvedStackWidth>) -> nat {
    count_true(Seq::new(entries.len(), |i: int| is_flex(entries, i)))
}

/// Whether any child is flexible, whatever its weight.
pub open spec fn has_flex(children: Seq<ResolvedStackWidth>) -> bool {
    exists|i: int| is_flex(children, i)
}

/// Whether a filler stands before the children.
pub open spec fn leads_with_filler(children: Seq<ResolvedStackWidth>, align: StackAlign) -> bool {
    !has_flex(children) && (align == StackAlign::Center || align == StackAlign::End)
}

/// Whether a filler stands after the children.
pub open spec fn trails_with_filler(children: Seq<ResolvedStackWidth>, align: StackAlign) -> bool {
    !has_flex(children) && (align == StackAlign::Center || align == StackAlign::Start)
}

/// The number of fillers before the children: none or one.
pub open spec fn lead_count(children: Seq<ResolvedStackWidth>, align: StackAlign) -> int {
    if leads_with_filler(children, align) {
        1
    } else {
        0
    }
}

/// What shares the main axis: the children in their order, with the fillers
/// that the alignment asks for, each filler a flexible entry of weight one.
pub open spec fn entries(children: Seq<ResolvedStackWidth>, align: StackAlign) -> Seq<
    ResolvedStackWidth,
> {
    let lead = if leads_with_filler(children, align) {
        seq![ResolvedStackWidth::Flex(1)]
    } else {
        seq![]
    };
    let trail = if trails_with_filler(children, align) {
        seq![ResolvedStackWidth::Flex(1)]
    } else {
        seq![]
    };
    lead + children + trail
}

/// The space that the flexible entries share: what the exact extents leave of
/// `space`, and nothing when they exceed it.
pub open spec fn flex_budget(space: nat, entries: Seq<ResolvedStackWidth>) -> nat {
    if exact_total(entries) >= space {
        0
    } else {
        (space - exact_total(entries)) as nat
    }
}

/// The floor of the share of an entry of weight `weight`, when `budget` is
/// shared among a total weight of `total`.
pub open spec fn floor_share(weight: nat, budget: nat, total: nat) -> nat {
    if total == 0 {
        0
    } else {
        (weight * budget) / total
    }
}

/// What the floor cuts off that share, in units of one over `total`.
pub open spec fn share_remainder(weight: nat, budget: nat, total: nat) -> nat {
    if total == 0 {
        0
    } else {
        (weight * budget) % total
    }
}

/// The weight of entry `i`; zero for an exact entry.
pub open spec fn weight_at(entries: Seq<ResolvedStackWidth>, i: int) -> nat {
    match entries[i] {
        ResolvedStackWidth::Flex(weight) => weight as nat,
        ResolvedStackWidth::Exact(_) => 0,
    }
}

/// The sum of the floor shares of the flexible entries.
pub open spec fn floor_total(entries: Seq<ResolvedStackWidth>, budget: nat, total: nat) -> nat
    decreases entries.len(),
{
    if entries.len() == 0 {
        0
    } else {
        floor_total(entries.drop_last(), budget, total) + floor_share(
            weight_at(entries, entries.len() - 1),
            budget,
            total,
        )
    }
}

/// The sum of the remainders of the flexible entries.
pub open spec fn remainder_total(entries: Seq<ResolvedStackWidth>, budget: nat, total: nat) -> nat
    decreases entries.len(),
{
    if entries.len() == 0 {
        0
    } else {
        remainder_total(entries.drop_last(), budget, total) + share_remainder(
            weight_at(entries, entries.len() - 1),
            budget,
            total,
        )
    }
}

/// The units of the budget that the floor shares leave over; none where the
/// total weight is zero, since nothing is shared then.
pub open spec fn leftover(entries: Seq<ResolvedStackWidth>, budget: nat, total: nat) -> nat {
    if total == 0 || floor_total(entries, budget, total) >= budget {
        0
    } else {
        (budget - floor_total(entries, budget, total)) as nat
    }
}

/// Whether entry `j` is served before entry `i` when the leftover units are
/// handed out: both are flexible, and `j` has the larger remainder, or the same
/// remainder and the later place.
pub open spec fn outranks(
    entries: Seq<ResolvedStackWidth>,
    budget: nat,
    total: nat,
    j: int,
    i: int,
) -> bool {
    &&& is_flex(entries, j)
    &&& is_flex(entries, i)
    &&& {
        let rj = share_remainder(weight_at(entries, j), budget, total);
        let ri = share_remainder(weight_at(entries, i), budget, total);
        rj > ri || (rj == ri && j > i)
    }
}

/// The entries that are served before entry `i`, as flags.
pub open spec fn outranking(
    entries: Seq<ResolvedStackWidth>,
    budget: nat,
    total: nat,
    i: int,
) -> Seq<bool> {
    Seq::new(entries.len(), |j: int| outranks(entries, budget, total, j, i))
}

/// The number of entries that are served before entry `i`.
pub open spec fn rank(entries: Seq<ResolvedStackWidth>, budget: nat, total: nat, i: int) -> nat {
    count_true(outranking(entries, budget, total, i))
}

/// The extent of entry `i` when `entries` share `space`: an exact entry keeps
/// its extent; a flexible one gets its floor share, and one unit more if fewer
/// entries are served before it than units are left over.
pub open spec fn extent(entries: Seq<ResolvedStackWidth>, space: nat, i: int) -> nat {
    let budget = flex_budget(space, entries);
    let total = flex_total(entries);
    match entries[i] {
        ResolvedStackWidth::Exact(cells) => cells as nat,
        ResolvedStackWidth::Flex(weight) => floor_share(weight as nat, budget, total) + if rank(
            entries,
            budget,
            total,
            i,
        ) < leftover(entries, budget, total) {
            1nat
        } else {
            0nat
        },
    }
}

/// The stretches into which the main axis of a container of `space` cells is
/// cut, in order: one for each child and one for each filler.
pub open spec fn segments(space: usize, children: Seq<ResolvedStackWidth>, align: StackAlign) -> Seq<
    WidthSegment,
> {
    let all = entries(children, align);
    let lead = lead_count(children, align);
    Seq::new(
        all.len(),
        |k: int|
            if lead <= k < lead + children.len() {
                WidthSegment::Child(extent(all, space as nat, k) as usize, (k - lead) as usize)
            } else {
                WidthSegment::Filler(extent(all, space as nat, k) as usize)
            },
    )
}

/// The sum of the extents of `segments`.
pub open spec fn segment_total(segments: Seq<WidthSegment>) -> nat
    decreases segments.len(),
{
    if segments.len() == 0 {
        0
    } else {
        segment_total(segments.drop_last()) + segments.last().amount()
    }
}

/// The sum of the extents of the children among `segments`, fillers left out.
pub open spec fn child_total(segments: Seq<WidthSegment>) -> nat
    decreases segments.len(),
{
    if segments.len() == 0 {
        0
    } else {
        child_total(segments.drop_last()) + match segments.last() {
            WidthSegment::Child(amount, _) => amount as nat,
            WidthSegment::Filler(_) => 0nat,
        }
    }
}

/// The sum of the extents of the first `upto` entries when `entries` share
/// `space`.
pub open spec fn extent_total(entries: Seq<ResolvedStackWidth>, space: nat, upto: int) -> nat
    decreases upto,
{
    if upto <= 0 {
        0
    } else {
        extent_total(entries, space, upto - 1) + extent(entries, space, upto - 1)
    }
}

/// The entries that get one of the leftover units, as flags.
pub open spec fn served(entries: Seq<ResolvedStackWidth>, budget: nat, total: nat, units: nat) -> Seq<
    bool,
> {
    Seq::new(
        entries.len(),
        |i: int| is_flex(entries, i) && rank(entries, budget, total, i) < units,
    )
}

proof fn lemma_count_le(a: Seq<bool>, b: Seq<bool>)
    requires
        a.len() == b.len(),
        forall|i: int| 0 <= i < a.len() && a[i] ==> b[i],
    ensures
        count_true(a) <= count_true(b),
    decreases a.len(),
{
    if a.len() > 0 {
        lemma_count_le(a.drop_last(), b.drop_last());
    }
}

proof fn lemma_count_bound(a: Seq<bool>)
    ensures
        count_true(a) <= a.len(),
        (forall|i: int| 0 <= i < a.len() ==> !a[i]) ==> count_true(a) == 0,
    decreases a.len(),
{
    if a.len() > 0 {
        lemma_count_bound(a.drop_last());
    }
}

proof fn lemma_count_set(a: Seq<bool>, i: int)
    requires
        0 <= i < a.len(),
        !a[i],
    ensures
        count_true(a.update(i, true)) == count_true(a) + 1,
    decreases a.len(),
{
    if i == a.len() - 1 {
        assert(a.update(i, true).drop_last() =~= a.drop_last());
    } else {
        lemma_count_set(a.drop_last(), i);
        assert(a.update(i, true).drop_last() =~= a.drop_last().update(i, true));
    }
}

/// Flags that imply others and are fewer leave one of the others unset.
proof fn lemma_count_gap(a: Seq<bool>, b: Seq<bool>) -> (i: int)
    requires
        a.len() == b.len(),
        forall|j: int| 0 <= j < a.len() && a[j] ==> b[j],
        count_true(a) < count_true(b),
    ensures
        0 <= i < a.len(),
        b[i],
        !a[i],
    decreases a.len(),
{
    if b.last() && !a.last() {
        a.len() - 1
    } else {
        lemma_count_gap(a.drop_last(), b.drop_last())
    }
}

/// The flags of the flexible entries.
pub open spec fn flex_flags(entries: Seq<ResolvedStackWidth>) -> Seq<bool> {
    Seq::new(entries.len(), |i: int| is_flex(entries, i))
}

proof fn lemma_flex_flags_drop_last(entries: Seq<ResolvedStackWidth>)
    requires
        entries.len() > 0,
    ensures
        flex_flags(entries).drop_last() == flex_flags(entries.drop_last()),
{
    assert(flex_flags(entries).drop_last() =~= flex_flags(entries.drop_last()));
}

/// The division behind the floor shares, summed over the entries: the budget
/// times the weights is the total weight times the floors, plus the
/// remainders; and each flexible entry has a remainder below the total weight.
proof fn lemma_shares_add_up(entries: Seq<ResolvedStackWidth>, budget: nat, total: nat)
    requires
        total > 0,
    ensures
        flex_total(entries) * budget == total * floor_total(entries, budget, total)
            + remainder_total(entries, budget, total),
        remainder_total(entries, budget, total) <= flex_count(entries) * (total - 1),
    decreases entries.len(),
{
    if entries.len() > 0 {
        let rest = entries.drop_last();
        lemma_shares_add_up(rest, budget, total);
        lemma_flex_flags_drop_last(entries);
        let w = weight_at(entries, entries.len() - 1);
        let q = floor_share(w, budget, total);
        let r = share_remainder(w, budget, total);
        let x = (w * budget) as int;
        vstd::arithmetic::div_mod::lemma_fundamental_div_mod(x, total as int);
        vstd::arithmetic::div_mod::lemma_mod_bound(x, total as int);
        assert(w * budget == total * q + r);
        let a = flex_total(rest);
        let qs = floor_total(rest, budget, total);
        let rs = remainder_total(rest, budget, total);
        let ft = flex_total(entries);
        let fq = floor_total(entries, budget, total);
        let fr = remainder_total(entries, budget, total);
        assert(ft == a + w);
        assert(fq == qs + q);
        assert(fr == rs + r);
        assert(ft * budget == total * fq + fr) by (nonlinear_arith)
            requires
                ft == a + w,
                fq == qs + q,
                fr == rs + r,
                a * budget == total * qs + rs,
                w * budget == total * q + r,
        ;
        if entries.last() is Flex {
            assert(flex_count(entries) == flex_count(rest) + 1);
            assert((flex_count(rest) + 1) * (total - 1) == flex_count(rest) * (total - 1) + (total
                - 1)) by (nonlinear_arith);
        } else {
            assert(w == 0);
            assert(w * budget == 0) by (nonlinear_arith)
                requires
                    w == 0,
            ;
            assert(flex_count(entries) == flex_count(rest));
        }
    } else {
        let ft = flex_total(entries);
        let fq = floor_total(entries, budget, total);
        assert(ft * budget == total * fq) by (nonlinear_arith)
            requires
                ft == 0,
                fq == 0,
        ;
        assert(flex_count(entries) * (total - 1) >= 0) by (nonlinear_arith)
            requires
                total > 0,
                flex_count(entries) >= 0,
        ;
    }
}

/// The floor shares never exceed the budget, and fewer units are left over
/// than there are flexible entries.
pub proof fn lemma_leftover_bounds(entries: Seq<ResolvedStackWidth>, space: nat)
    ensures
        floor_total(entries, flex_budget(space, entries), flex_total(entries)) <= flex_budget(
            space,
            entries,
        ),
        leftover(entries, flex_budget(space, entries), flex_total(entries)) <= flex_count(entries),
        flex_total(entries) > 0 ==> floor_total(
            entries,
            flex_budget(space, entries),
            flex_total(entries),
        ) + leftover(entries, flex_budget(space, entries), flex_total(entries)) == flex_budget(
            space,
            entries,
        ),
        flex_total(entries) == 0 ==> floor_total(
            entries,
            flex_budget(space, entries),
            flex_total(entries),
        ) + leftover(entries, flex_budget(space, entries), flex_total(entries)) == 0,
{
    let budget = flex_budget(space, entries);
    let total = flex_total(entries);
    if total > 0 {
        lemma_shares_add_up(entries, budget, total);
        let q = floor_total(entries, budget, total);
        let rt = remainder_total(entries, budget, total);
        let n = flex_count(entries);
        assert(q <= budget) by (nonlinear_arith)
            requires
                total * budget == total * q + rt,
                total > 0,
                rt >= 0,
        ;
        assert(budget - q <= n) by (nonlinear_arith)
            requires
                total * budget == total * q + rt,
                rt <= n * (total - 1),
                total > 0,
                q <= budget,
        ;
    } else {
        lemma_floor_total_zero(entries, budget);
    }
}

proof fn lemma_floor_total_zero(entries: Seq<ResolvedStackWidth>, budget: nat)
    ensures
        floor_total(entries, budget, 0) == 0,
    decreases entries.len(),
{
    if entries.len() > 0 {
        lemma_floor_total_zero(entries.drop_last(), budget);
    }
}

/// Among the flexible entries below `upto` that `taken` leaves out, one is
/// served before all the others.
proof fn lemma_first_unserved(
    entries: Seq<ResolvedStackWidth>,
    budget: nat,
    total: nat,
    taken: Seq<bool>,
    upto: int,
) -> (b: int)
    requires
        taken.len() == entries.len(),
        0 <= upto <= entries.len(),
        exists|j: int| 0 <= j < upto && is_flex(entries, j) && !taken[j],
    ensures
        0 <= b < upto,
        is_flex(entries, b),
        !taken[b],
        forall|j: int|
            0 <= j < upto && is_flex(entries, j) && !taken[j] && j != b ==> outranks(
                entries,
                budget,
                total,
                b,
                j,
            ),
    decreases upto,
{
    let last = upto - 1;
    if exists|j: int| 0 <= j < last && is_flex(entries, j) && !taken[j] {
        let c = lemma_first_unserved(entries, budget, total, taken, last);
        if is_flex(entries, last) && !taken[last] && outranks(entries, budget, total, last, c) {
            last
        } else {
            c
        }
    } else {
        last
    }
}

/// The first `units` entries in the order of serving: they are flexible, each
/// has fewer than `units` entries before it, and every other flexible entry
/// has at least `units` before it.
proof fn lemma_serving_order(
    entries: Seq<ResolvedStackWidth>,
    budget: nat,
    total: nat,
    units: nat,
) -> (taken: Seq<bool>)
    requires
        units <= flex_count(entries),
    ensures
        taken.len() == entries.len(),
        count_true(taken) == units,
        forall|i: int|
            0 <= i < entries.len() && taken[i] ==> is_flex(entries, i) && rank(
                entries,
                budget,
                total,
                i,
            ) < units,
        forall|i: int|
            is_flex(entries, i) && !taken[i] ==> rank(entries, budget, total, i) >= units,
        forall|i: int, j: int|
            0 <= i < entries.len() && taken[i] && is_flex(entries, j) && !taken[j] ==> outranks(
                entries,
                budget,
                total,
                i,
                j,
            ),
    decreases units,
{
    if units == 0 {
        let none = Seq::new(entries.len(), |i: int| false);
        lemma_count_bound(none);
        none
    } else {
        let before = lemma_serving_order(entries, budget, total, (units - 1) as nat);
        let flags = flex_flags(entries);
        let witness = lemma_count_gap(before, flags);
        assert(is_flex(entries, witness) && !before[witness]);
        let b = lemma_first_unserved(entries, budget, total, before, entries.len() as int);
        let taken = before.update(b, true);
        lemma_count_set(before, b);
        assert(outranking(entries, budget, total, b) =~= before) by {
            assert forall|j: int| 0 <= j < entries.len() implies outranks(
                entries,
                budget,
                total,
                j,
                b,
            ) == before[j] by {
                if before[j] {
                    assert(outranks(entries, budget, total, j, b));
                } else if is_flex(entries, j) && j != b {
                    assert(outranks(entries, budget, total, b, j));
                }
            }
        }
        assert forall|i: int| is_flex(entries, i) && !taken[i] implies rank(
            entries,
            budget,
            total,
            i,
        ) >= units by {
            let above = outranking(entries, budget, total, i);
            assert forall|j: int| 0 <= j < taken.len() && taken[j] implies above[j] by {
                if j == b {
                    assert(outranks(entries, budget, total, b, i));
                } else {
                    assert(before[j]);
                    assert(outranks(entries, budget, total, j, i));
                }
            }
            lemma_count_le(taken, above);
        }
        taken
    }
}

/// Exactly `units` entries have fewer than `units` entries served before
/// them, as long as there are that many flexible entries: the leftover units
/// all find a taker, and no entry gets two.
pub proof fn lemma_served_count(
    entries: Seq<ResolvedStackWidth>,
    budget: nat,
    total: nat,
    units: nat,
)
    requires
        units <= flex_count(entries),
    ensures
        count_true(served(entries, budget, total, units)) == units,
{
    let taken = lemma_serving_order(entries, budget, total, units);
    assert(served(entries, budget, total, units) =~= taken);
}

/// The leftover units go to the largest remainders first: where an entry gets
/// a unit, every entry that is served before it gets one too. That is every
/// flexible entry with a larger remainder, and every later one with the same.
pub proof fn lemma_largest_remainders_first(
    entries: Seq<ResolvedStackWidth>,
    space: nat,
    i: int,
    j: int,
)
    requires
        outranks(entries, flex_budget(space, entries), flex_total(entries), j, i),
        extent(entries, space, i) == floor_share(
            weight_at(entries, i),
            flex_budget(space, entries),
            flex_total(entries),
        ) + 1,
    ensures
        extent(entries, space, j) == floor_share(
            weight_at(entries, j),
            flex_budget(space, entries),
            flex_total(entries),
        ) + 1,
{
    let budget = flex_budget(space, entries);
    let total = flex_total(entries);
    let before_j = outranking(entries, budget, total, j);
    let before_i = outranking(entries, budget, total, i);
    assert forall|k: int| 0 <= k < before_j.len() && before_j[k] implies before_i[k] by {
        assert(outranks(entries, budget, total, k, j));
        assert(outranks(entries, budget, total, k, i));
    }
    lemma_count_le(before_j, before_i);
}

/// A flexible entry gets the floor of its share, or one unit more.
pub proof fn lemma_extent_is_floor_or_next(entries: Seq<ResolvedStackWidth>, space: nat, i: int)
    requires
        is_flex(entries, i),
    ensures
        extent(entries, space, i) == floor_share(
            weight_at(entries, i),
            flex_budget(space, entries),
            flex_total(entries),
        ) || extent(entries, space, i) == floor_share(
            weight_at(entries, i),
            flex_budget(space, entries),
            flex_total(entries),
        ) + 1,
{
}

proof fn lemma_floor_share_of_none(budget: nat, total: nat)
    ensures
        floor_share(0, budget, total) == 0,
        share_remainder(0, budget, total) == 0,
{
    assert(0 * budget == 0) by (nonlinear_arith);
}

proof fn lemma_floor_share_in_total(
    entries: Seq<ResolvedStackWidth>,
    budget: nat,
    total: nat,
    i: int,
)
    requires
        0 <= i < entries.len(),
    ensures
        floor_share(weight_at(entries, i), budget, total) <= floor_total(entries, budget, total),
    decreases entries.len(),
{
    if i < entries.len() - 1 {
        lemma_floor_share_in_total(entries.drop_last(), budget, total, i);
    }
}

/// A flexible entry never gets more than the budget.
pub proof fn lemma_flex_extent_bound(entries: Seq<ResolvedStackWidth>, space: nat, i: int)
    requires
        is_flex(entries, i),
    ensures
        extent(entries, space, i) <= flex_budget(space, entries),
        flex_budget(space, entries) <= space,
{
    let budget = flex_budget(space, entries);
    let total = flex_total(entries);
    lemma_leftover_bounds(entries, space);
    lemma_floor_share_in_total(entries, budget, total, i);
}

proof fn lemma_extent_prefix(entries: Seq<ResolvedStackWidth>, space: nat, upto: int)
    requires
        0 <= upto <= entries.len(),
    ensures
        extent_total(entries, space, upto) == exact_total(entries.take(upto)) + floor_total(
            entries.take(upto),
            flex_budget(space, entries),
            flex_total(entries),
        ) + count_true(
            served(
                entries,
                flex_budget(space, entries),
                flex_total(entries),
                leftover(entries, flex_budget(space, entries), flex_total(entries)),
            ).take(upto),
        ),
    decreases upto,
{
    let budget = flex_budget(space, entries);
    let total = flex_total(entries);
    let units = leftover(entries, budget, total);
    let flags = served(entries, budget, total, units);
    if upto > 0 {
        lemma_extent_prefix(entries, space, upto - 1);
        assert(entries.take(upto).drop_last() =~= entries.take(upto - 1));
        assert(flags.take(upto).drop_last() =~= flags.take(upto - 1));
        assert(weight_at(entries.take(upto), upto - 1) == weight_at(entries, upto - 1));
        lemma_floor_share_of_none(budget, total);
    }
}

/// The extents of all entries add up to the exact extents plus the budget; or
/// to the exact extents alone where the total weight is zero.
pub proof fn lemma_extent_total(entries: Seq<ResolvedStackWidth>, space: nat)
    ensures
        extent_total(entries, space, entries.len() as int) == exact_total(entries) + if flex_total(
            entries,
        ) > 0 {
            flex_budget(space, entries)
        } else {
            0
        },
{
    let budget = flex_budget(space, entries);
    let total = flex_total(entries);
    let units = leftover(entries, budget, total);
    lemma_leftover_bounds(entries, space);
    lemma_served_count(entries, budget, total, units);
    lemma_extent_prefix(entries, space, entries.len() as int);
    assert(entries.take(entries.len() as int) =~= entries);
    let flags = served(entries, budget, total, units);
    assert(flags.take(entries.len() as int) =~= flags);
}

proof fn lemma_totals_concat(a: Seq<ResolvedStackWidth>, b: Seq<ResolvedStackWidth>)
    ensures
        exact_total(a + b) == exact_total(a) + exact_total(b),
        flex_total(a + b) == flex_total(a) + flex_total(b),
    decreases b.len(),
{
    if b.len() == 0 {
        assert(a + b =~= a);
    } else {
        lemma_totals_concat(a, b.drop_last());
        assert((a + b).drop_last() =~= a + b.drop_last());
    }
}

/// The fillers add nothing to the exact extents, and one each to the total
/// weight.
pub proof fn lemma_entries_totals(children: Seq<ResolvedStackWidth>, align: StackAlign)
    ensures
        exact_total(entries(children, align)) == exact_total(children),
        flex_total(entries(children, align)) == flex_total(children) + (if leads_with_filler(
            children,
            align,
        ) {
            1nat
        } else {
            0nat
        }) + (if trails_with_filler(children, align) {
            1nat
        } else {
            0nat
        }),
        !has_flex(children) ==> flex_total(entries(children, align)) > 0,
{
    let filler = seq![ResolvedStackWidth::Flex(1)];
    let none = Seq::<ResolvedStackWidth>::empty();
    let lead = if leads_with_filler(children, align) {
        filler
    } else {
        none
    };
    let trail = if trails_with_filler(children, align) {
        filler
    } else {
        none
    };
    assert(filler.drop_last() =~= none);
    assert(filler.last() == ResolvedStackWidth::Flex(1));
    assert(exact_total(none) == 0 && flex_total(none) == 0);
    assert(exact_total(filler) == 0);
    assert(flex_total(filler) == 1);
    lemma_totals_concat(lead, children);
    lemma_totals_concat(lead + children, trail);
}

proof fn lemma_segment_prefix(
    space: usize,
    children: Seq<ResolvedStackWidth>,
    align: StackAlign,
    upto: int,
)
    requires
        0 <= upto <= entries(children, align).len(),
    ensures
        segment_total(segments(space, children, align).take(upto)) == extent_total(
            entries(children, align),
            space as nat,
            upto,
        ),
        has_flex(children) ==> child_total(segments(space, children, align).take(upto))
            == extent_total(entries(children, align), space as nat, upto),
        !has_flex(children) ==> child_total(segments(space, children, align).take(upto))
            == exact_total(
            children.take(
                if upto - lead_count(children, align) < 0 {
                    0
                } else if upto - lead_count(children, align) > children.len() {
                    children.len() as int
                } else {
                    upto - lead_count(children, align)
                },
            ),
        ),
    decreases upto,
{
    let all = entries(children, align);
    let segs = segments(space, children, align);
    let lead = lead_count(children, align);
    if upto > 0 {
        lemma_segment_prefix(space, children, align, upto - 1);
        assert(segs.take(upto).drop_last() =~= segs.take(upto - 1));
        let k = upto - 1;
        if is_flex(all, k) {
            lemma_flex_extent_bound(all, space as nat, k);
        }
        assert(segs[k].amount() == extent(all, space as nat, k));
        if !has_flex(children) {
            if lead <= k < lead + children.len() {
                let i = k - lead;
                assert(all[k] == children[i]);
                assert(!is_flex(children, i));
                assert(children.take(i + 1).drop_last() =~= children.take(i));
            }
        } else {
            assert(lead == 0);
            assert(all =~= children);
        }
    }
}

/// What the stretches add up to. With a positive total weight and exact
/// extents that fit, they fill the space exactly; otherwise they add up to the
/// exact extents. Without a flexible child the children keep the sum of their
/// exact extents and the fillers take the rest; with one, there is no filler.
pub proof fn lemma_segments_total(
    space: usize,
    children: Seq<ResolvedStackWidth>,
    align: StackAlign,
)
    ensures
        segments(space, children, align).len() == entries(children, align).len(),
        segment_total(segments(space, children, align)) == if flex_total(
            entries(children, align),
        ) > 0 && exact_total(children) <= space {
            space as nat
        } else {
            exact_total(children)
        },
        !has_flex(children) ==> child_total(segments(space, children, align)) == exact_total(
            children,
        ),
        !has_flex(children) && exact_total(children) <= space ==> segment_total(
            segments(space, children, align),
        ) == space,
        has_flex(children) ==> child_total(segments(space, children, align)) == segment_total(
            segments(space, children, align),
        ),
        has_flex(children) && flex_total(children) > 0 && exact_total(children) <= space
            ==> child_total(segments(space, children, align)) == space,
{
    let all = entries(children, align);
    let segs = segments(space, children, align);
    lemma_entries_totals(children, align);
    lemma_extent_total(all, space as nat);
    lemma_segment_prefix(space, children, align, all.len() as int);
    assert(segs.take(all.len() as int) =~= segs);
    assert(children.take(children.len() as int) =~= children);
}

/// Whether any child is flexible.
fn any_flex(children: &Vec<ResolvedStackWidth>) -> (found: bool)
    ensures
        found == has_flex(children@),
{
    let mut i: usize = 0;
    while i < children.len()
        invariant
            i <= children.len(),
            forall|j: int| 0 <= j < i ==> !is_flex(children@, j),
        decreases children.len() - i,
    {
        if let ResolvedStackWidth::Flex(_) = children[i] {
            assert(is_flex(children@, i as int));
            return true;
        }
        i += 1;
    }
    false
}

/// The children with the fillers that the alignment asks for, and the number
/// of fillers in front.
fn with_fillers(children: &Vec<ResolvedStackWidth>, align: StackAlign) -> (out: (
    Vec<ResolvedStackWidth>,
    usize,
))
    ensures
        out.0@ == entries(children@, align),
        out.1 == lead_count(children@, align),
{
    let flexible = any_flex(children);
    let mut all: Vec<ResolvedStackWidth> = Vec::new();
    let mut lead: usize = 0;
    if !flexible {
        match align {
            StackAlign::Center | StackAlign::End => {
                all.push(ResolvedStackWidth::Flex(1));
                lead = 1;
            },
            StackAlign::Start => {},
        }
    }
    let ghost front = all@;
    let mut i: usize = 0;
    while i < children.len()
        invariant
            i <= children.len(),
            all@ == front + children@.take(i as int),
        decreases children.len() - i,
    {
        all.push(children[i]);
        i += 1;
        assert(all@ =~= front + children@.take(i as int));
    }
    assert(children@.take(children.len() as int) =~= children@);
    if !flexible {
        match align {
            StackAlign::Center | StackAlign::Start => {
                all.push(ResolvedStackWidth::Flex(1));
            },
            StackAlign::End => {},
        }
    }
    assert(all@ =~= entries(children@, align));
    (all, lead)
}

/// The sum of the exact extents and the sum of the weights.
fn totals(all: &Vec<ResolvedStackWidth>) -> (sums: (u128, u128))
    ensures
        sums.0 == exact_total(all@),
        sums.1 == flex_total(all@),
{
    let mut exact: u128 = 0;
    let mut flex: u128 = 0;
    let mut i: usize = 0;
    while i < all.len()
        invariant
            i <= all.len(),
            exact == exact_total(all@.take(i as int)),
            flex == flex_total(all@.take(i as int)),
            exact <= i * 0xFFFF_FFFF_FFFF_FFFF,
            flex <= i * 0xFFFF_FFFF_FFFF_FFFF,
        decreases all.len() - i,
    {
        assert(all@.take(i + 1).drop_last() =~= all@.take(i as int));
        match all[i] {
            ResolvedStackWidth::Exact(cells) => {
                exact = exact + cells as u128;
            },
            ResolvedStackWidth::Flex(weight) => {
                flex = flex + weight as u128;
            },
        }
        i += 1;
    }
    assert(all@.take(all.len() as int) =~= all@);
    (exact, flex)
}

proof fn lemma_weight_in_total(entries: Seq<ResolvedStackWidth>, i: int)
    requires
        0 <= i < entries.len(),
    ensures
        weight_at(entries, i) <= flex_total(entries),
    decreases entries.len(),
{
    if i < entries.len() - 1 {
        lemma_weight_in_total(entries.drop_last(), i);
    }
}

/// The floor share and the remainder of every entry, and the units that the
/// floor shares leave over.
fn floor_shares(all: &Vec<ResolvedStackWidth>, space: usize) -> (out: (
    Vec<usize>,
    Vec<u128>,
    usize,
))
    ensures
        out.0@.len() == all@.len(),
        out.1@.len() == all@.len(),
        forall|i: int|
            0 <= i < all@.len() ==> #[trigger] out.0@[i] == match all@[i] {
                ResolvedStackWidth::Exact(cells) => cells as nat,
                ResolvedStackWidth::Flex(weight) => floor_share(
                    weight as nat,
                    flex_budget(space as nat, all@),
                    flex_total(all@),
                ),
            },
        forall|i: int|
            0 <= i < all@.len() ==> #[trigger] out.1@[i] == share_remainder(
                weight_at(all@, i),
                flex_budget(space as nat, all@),
                flex_total(all@),
            ),
        out.2 == leftover(all@, flex_budget(space as nat, all@), flex_total(all@)),
{
    let (exact, total) = totals(all);
    let budget: usize = if exact >= space as u128 {
        0
    } else {
        space - exact as usize
    };
    let ghost b = flex_budget(space as nat, all@);
    let ghost t = flex_total(all@);
    assert(budget == b);
    let mut floors: Vec<usize> = Vec::new();
    let mut rems: Vec<u128> = Vec::new();
    let mut floor_sum: u128 = 0;
    let mut i: usize = 0;
    while i < all.len()
        invariant
            i <= all.len(),
            budget == b,
            total == t,
            b == flex_budget(space as nat, all@),
            t == flex_total(all@),
            floors@.len() == i,
            rems@.len() == i,
            floor_sum == floor_total(all@.take(i as int), b, t),
            floor_sum <= i * 0xFFFF_FFFF_FFFF_FFFF,
            forall|j: int|
                0 <= j < i ==> #[trigger] floors@[j] == match all@[j] {
                    ResolvedStackWidth::Exact(cells) => cells as nat,
                    ResolvedStackWidth::Flex(weight) => floor_share(weight as nat, b, t),
                },
            forall|j: int|
                0 <= j < i ==> #[trigger] rems@[j] == share_remainder(weight_at(all@, j), b, t),
        decreases all.len() - i,
    {
        assert(all@.take(i + 1).drop_last() =~= all@.take(i as int));
        assert(weight_at(all@.take(i + 1), i as int) == weight_at(all@, i as int));
        match all[i] {
            ResolvedStackWidth::Exact(cells) => {
                proof {
                    lemma_floor_share_of_none(b, t);
                }
                floors.push(cells);
                rems.push(0);
            },
            ResolvedStackWidth::Flex(weight) => {
                if total == 0 {
                    floors.push(0);
                    rems.push(0);
                } else {
                    proof {
                        lemma_weight_in_total(all@, i as int);
                        lemma_flex_extent_bound(all@, space as nat, i as int);
                        assert(weight * budget <= 0xFFFF_FFFF_FFFF_FFFF * 0xFFFF_FFFF_FFFF_FFFF)
                            by (nonlinear_arith)
                            requires
                                weight <= 0xFFFF_FFFF_FFFF_FFFF,
                                budget <= 0xFFFF_FFFF_FFFF_FFFF,
                        ;
                    }
                    let product: u128 = weight as u128 * budget as u128;
                    let share: u128 = product / total;
                    let rest: u128 = product % total;
                    assert(share == floor_share(weight as nat, b, t));
                    assert(share <= budget);
                    floors.push(share as usize);
                    rems.push(rest);
                    floor_sum = floor_sum + share;
                }
            },
        }
        i += 1;
    }
    assert(all@.take(all.len() as int) =~= all@);
    proof {
        lemma_leftover_bounds(all@, space as nat);
    }
    let units: usize = if total == 0 {
        0
    } else {
        budget - floor_sum as usize
    };
    (floors, rems, units)
}

/// Whether fewer than `units` entries are served before entry `i`.
fn is_served(
    all: &Vec<ResolvedStackWidth>,
    rems: &Vec<u128>,
    i: usize,
    units: usize,
    Ghost(budget): Ghost<nat>,
    Ghost(total): Ghost<nat>,
) -> (yes: bool)
    requires
        i < all@.len(),
        all@[i as int] is Flex,
        rems@.len() == all@.len(),
        forall|j: int|
            0 <= j < all@.len() ==> #[trigger] rems@[j] == share_remainder(
                weight_at(all@, j),
                budget,
                total,
            ),
    ensures
        yes == (rank(all@, budget, total, i as int) < units),
{
    let ghost flags = outranking(all@, budget, total, i as int);
    let mut before: usize = 0;
    let mut j: usize = 0;
    while j < all.len()
        invariant
            j <= all.len(),
            i < all@.len(),
            all@[i as int] is Flex,
            rems@.len() == all@.len(),
            flags == outranking(all@, budget, total, i as int),
            before == count_true(flags.take(j as int)),
            before <= j,
            forall|k: int|
                0 <= k < all@.len() ==> #[trigger] rems@[k] == share_remainder(
                    weight_at(all@, k),
                    budget,
                    total,
                ),
        decreases all.len() - j,
    {
        assert(flags.take(j + 1).drop_last() =~= flags.take(j as int));
        if let ResolvedStackWidth::Flex(_) = all[j] {
            if rems[j] > rems[i] || (rems[j] == rems[i] && j > i) {
                before += 1;
            }
        }
        j += 1;
    }
    assert(flags.take(all.len() as int) =~= flags);
    before < units
}

/// Cuts the main axis of a container of `space` cells into one stretch for
/// each child and one for each filler.
///
/// `children` holds the resolved extent of each child, in order. The result
/// lists the stretches in order along the axis; a child's stretch carries the
/// child's index.
pub fn distribute(space: usize, children: &Vec<ResolvedStackWidth>, align: StackAlign) -> (widths:
    Vec<WidthSegment>)
    ensures
        widths@ == segments(space, children@, align),
        segment_total(widths@) == if flex_total(entries(children@, align)) > 0 && exact_total(
            children@,
        ) <= space {
            space as nat
        } else {
            exact_total(children@)
        },
        !has_flex(children@) ==> child_total(widths@) == exact_total(children@),
        has_flex(children@) ==> child_total(widths@) == segment_total(widths@),
        has_flex(children@) && flex_total(children@) > 0 && exact_total(children@) <= space
            ==> child_total(widths@) == space,
{
    let (all, lead) = with_fillers(children, align);
    let (floors, rems, units) = floor_shares(&all, space);
    let ghost budget = flex_budget(space as nat, all@);
    let ghost total = flex_total(all@);
    let mut widths: Vec<WidthSegment> = Vec::new();
    let mut k: usize = 0;
    while k < all.len()
        invariant
            k <= all.len(),
            all@ == entries(children@, align),
            lead == lead_count(children@, align),
            budget == flex_budget(space as nat, all@),
            total == flex_total(all@),
            units == leftover(all@, budget, total),
            floors@.len() == all@.len(),
            rems@.len() == all@.len(),
            forall|i: int|
                0 <= i < all@.len() ==> #[trigger] floors@[i] == match all@[i] {
                    ResolvedStackWidth::Exact(cells) => cells as nat,
                    ResolvedStackWidth::Flex(weight) => floor_share(weight as nat, budget, total),
                },
            forall|i: int|
                0 <= i < all@.len() ==> #[trigger] rems@[i] == share_remainder(
                    weight_at(all@, i),
                    budget,
                    total,
                ),
            widths@.len() == k,
            forall|i: int| 0 <= i < k ==> #[trigger] widths@[i] == segments(space, children@, align)[i],
        decreases all.len() - k,
    {
        let amount = match all[k] {
            ResolvedStackWidth::Exact(_) => floors[k],
            ResolvedStackWidth::Flex(_) => {
                if units > 0 && is_served(&all, &rems, k, units, Ghost(budget), Ghost(total)) {
                    proof {
                        lemma_flex_extent_bound(all@, space as nat, k as int);
                    }
                    floors[k] + 1
                } else {
                    floors[k]
                }
            },
        };
        assert(amount == extent(all@, space as nat, k as int));
        if lead <= k && k - lead < children.len() {
            widths.push(WidthSegment::Child(amount, k - lead));
        } else {
            widths.push(WidthSegment::Filler(amount));
        }
        k += 1;
    }
    proof {
        assert(widths@ =~= segments(space, children@, align));
        lemma_segments_total(space, children@, align);
    }
    widths
}

/// The free cells on the four sides of a component's content: above, right,
/// below and left.
pub type Sides = (usize, usize, usize, usize);

/// The value `value`, or the largest machine integer where `value` is larger.
pub open spec fn saturate(value: int) -> usize {
    if value > usize::MAX {
        usize::MAX
    } else if value < 0 {
        0
    } else {
        value as usize
    }
}

/// The padding that counts along `direction`: above and below for a container
/// that stacks rows, left and right for one that places columns.
pub open spec fn axis_padding(padding: Sides, direction: Direction) -> nat {
    match direction {
        Direction::Row => (padding.0 + padding.2) as nat,
        Direction::Column => (padding.1 + padding.3) as nat,
    }
}

/// The extent of a line of `length` characters along `direction`: one row, or
/// as many columns as it has characters, and the padding along that axis.
pub open spec fn text_extent(padding: Sides, direction: Direction, length: nat) -> nat {
    match direction {
        Direction::Row => 1 + axis_padding(padding, direction),
        Direction::Column => length + axis_padding(padding, direction),
    }
}

/// The extent that a line of `length` characters reports to a container that
/// places its children along `direction`: the declared extent, with `Content`
/// measured.
pub open spec fn resolved_text(
    width: StackWidth,
    padding: Sides,
    direction: Direction,
    length: nat,
) -> ResolvedStackWidth {
    match width {
        StackWidth::Content => ResolvedStackWidth::Exact(
            saturate(text_extent(padding, direction, length) as int),
        ),
        StackWidth::Flex(weight) => ResolvedStackWidth::Flex(weight),
        StackWidth::Exact(cells) => ResolvedStackWidth::Exact(cells),
    }
}

/// The extent that a line of `length` characters reports to a container that
/// places its children along `direction`.
pub fn resolve_text(width: StackWidth, padding: Sides, direction: Direction, length: usize) -> (resolved:
    ResolvedStackWidth)
    ensures
        resolved == resolved_text(width, padding, direction, length as nat),
{
    match width {
        StackWidth::Content => {
            let cells = match direction {
                Direction::Row => 1usize.saturating_add(padding.0).saturating_add(padding.2),
                Direction::Column => length.saturating_add(padding.1).saturating_add(padding.3),
            };
            ResolvedStackWidth::Exact(cells)
        },
        StackWidth::Flex(weight) => ResolvedStackWidth::Flex(weight),
        StackWidth::Exact(cells) => ResolvedStackWidth::Exact(cells),
    }
}

/// The largest exact extent among `entries`; zero where there is none.
pub open spec fn exact_max(entries: Seq<ResolvedStackWidth>) -> nat
    decreases entries.len(),
{
    if entries.len() == 0 {
        0
    } else {
        let rest = exact_max(entries.drop_last());
        match entries.last() {
            ResolvedStackWidth::Exact(cells) if cells > rest => cells as nat,
            _ => rest,
        }
    }
}

/// The extent of a container's content along `asking`, the main axis of the
/// container that holds it: the border, the padding along that axis, and the
/// children's exact extents, which add up where the container places its
/// children along the same axis, and of which the largest counts where it
/// places them across.
pub open spec fn container_extent(
    border: bool,
    padding: Sides,
    own: Direction,
    asking: Direction,
    children: Seq<ResolvedStackWidth>,
) -> nat {
    (if border {
        2nat
    } else {
        0nat
    }) + axis_padding(padding, asking) + if own != asking {
        exact_max(children)
    } else {
        exact_total(children)
    }
}

/// The extent that a container reports to the container that holds it: the
/// declared extent, with `Content` measured from the children's extents.
pub open spec fn resolved_container(
    width: StackWidth,
    border: bool,
    padding: Sides,
    own: Direction,
    asking: Direction,
    children: Seq<ResolvedStackWidth>,
) -> ResolvedStackWidth {
    match width {
        StackWidth::Content => ResolvedStackWidth::Exact(
            saturate(container_extent(border, padding, own, asking, children) as int),
        ),
        StackWidth::Flex(weight) => ResolvedStackWidth::Flex(weight),
        StackWidth::Exact(cells) => ResolvedStackWidth::Exact(cells),
    }
}

/// The extent that a container reports to the container that holds it.
/// `children` holds what the container's children report to a container that
/// places its children along `asking`.
pub fn resolve_container(
    width: StackWidth,
    border: bool,
    padding: Sides,
    own: Direction,
    asking: Direction,
    children: &Vec<ResolvedStackWidth>,
) -> (resolved: ResolvedStackWidth)
    ensures
        resolved == resolved_container(width, border, padding, own, asking, children@),
{
    match width {
        StackWidth::Content => {
            let mut total_width: usize = if border {
                2
            } else {
                0
            };
            total_width = match asking {
                Direction::Row => total_width.saturating_add(padding.0).saturating_add(padding.2),
                Direction::Column => total_width.saturating_add(padding.1).saturating_add(
                    padding.3,
                ),
            };
            let across = match (own, asking) {
                (Direction::Row, Direction::Column) | (Direction::Column, Direction::Row) => true,
                _ => false,
            };
            let mut inner: usize = 0;
            let mut i: usize = 0;
            while i < children.len()
                invariant
                    i <= children.len(),
                    across == (own != asking),
                    inner == saturate(
                        if across {
                            exact_max(children@.take(i as int)) as int
                        } else {
                            exact_total(children@.take(i as int)) as int
                        },
                    ),
                decreases children.len() - i,
            {
                assert(children@.take(i + 1).drop_last() =~= children@.take(i as int));
                if let ResolvedStackWidth::Exact(cells) = children[i] {
                    if across {
                        if cells > inner {
                            inner = cells;
                        }
                    } else {
                        inner = inner.saturating_add(cells);
                    }
                }
                i += 1;
            }
            assert(children@.take(children.len() as int) =~= children@);
            ResolvedStackWidth::Exact(total_width.saturating_add(inner))
        },
        StackWidth::Flex(weight) => ResolvedStackWidth::Flex(weight),
        StackWidth::Exact(cells) => ResolvedStackWidth::Exact(cells),
    }
}

} // verus!
