//! Working out how to pay an amount of money out of coin hoppers.
//!
//! Greedy, largest coin first. Where every coin is worth a whole number of every smaller one, that pays as much as can be
//! paid, and gives the fewest coins: see [`fewest`].
pub mod fewest;

use vstd::prelude::*;

use crate::state::{Cash, HopperSettings, Level};

verus! {

/// Where in an order, largest coin first, a coin worth `value` goes: behind all that are worth at least as
/// much.
pub open spec fn place(hoppers: Seq<HopperSettings>, order: Seq<int>, value: Cash) -> int
    decreases order.len(),
{
    if order.len() == 0 || hoppers[order.last()].unit_value >= value {
        order.len() as int
    } else {
        place(hoppers, order.drop_last(), value)
    }
}

/// The first `n` hoppers, largest coin first, and of equal coins the lower hopper first.
pub open spec fn largest_first(hoppers: Seq<HopperSettings>, n: nat) -> Seq<int>
    decreases n,
{
    if n == 0 {
        Seq::empty()
    } else {
        let order = largest_first(hoppers, (n - 1) as nat);
        order.insert(place(hoppers, order, hoppers[n - 1].unit_value), n - 1)
    }
}

/// How many coins a hopper gives towards `left`: as many as go into it, of those the hopper has.
pub open spec fn coins_towards(hopper: HopperSettings, level: Level, left: nat) -> nat {
    if !hopper.enabled || hopper.unit_value == 0 {
        0
    } else if left / hopper.unit_value as nat <= level {
        left / hopper.unit_value as nat
    } else {
        level as nat
    }
}

/// What is left to pay after the first `k` hoppers of `order` have given what they can.
pub open spec fn left_after(
    hoppers: Seq<HopperSettings>,
    levels: Seq<Level>,
    amount: nat,
    order: Seq<int>,
    k: nat,
) -> nat
    decreases k,
{
    if k == 0 {
        amount
    } else {
        let left = left_after(hoppers, levels, amount, order, (k - 1) as nat);
        let i = order[k - 1];
        (left - coins_towards(hoppers[i], levels[i], left) * hoppers[i].unit_value) as nat
    }
}

/// What each hopper gives after the first `k` of `order` have had their turn.
pub open spec fn plan_after(
    hoppers: Seq<HopperSettings>,
    levels: Seq<Level>,
    amount: nat,
    order: Seq<int>,
    k: nat,
) -> Seq<u16>
    decreases k,
{
    if k == 0 {
        Seq::new(hoppers.len(), |i: int| 0u16)
    } else {
        let i = order[k - 1];
        plan_after(hoppers, levels, amount, order, (k - 1) as nat).update(
            i,
            coins_towards(
                hoppers[i],
                levels[i],
                left_after(hoppers, levels, amount, order, (k - 1) as nat),
            ) as u16,
        )
    }
}

/// What each hopper is to give towards `amount`.
pub open spec fn planned(hoppers: Seq<HopperSettings>, levels: Seq<Level>, amount: Cash) -> Seq<u16> {
    plan_after(hoppers, levels, amount as nat, largest_first(hoppers, hoppers.len()), hoppers.len())
}

/// What of `amount` cannot be paid.
pub open spec fn unpayable(hoppers: Seq<HopperSettings>, levels: Seq<Level>, amount: Cash) -> Cash {
    left_after(hoppers, levels, amount as nat, largest_first(hoppers, hoppers.len()), hoppers.len()) as Cash
}

/// What the first `n` entries of a plan come to.
pub open spec fn worth(hoppers: Seq<HopperSettings>, plan: Seq<u16>, n: nat) -> nat
    decreases n,
{
    if n == 0 {
        0
    } else {
        worth(hoppers, plan, (n - 1) as nat) + plan[n - 1] as nat * hoppers[n - 1].unit_value as nat
    }
}

/// The hoppers of `order` are some of the first `n`, none twice.
pub open spec fn picks(order: Seq<int>, n: nat) -> bool {
    &&& order.no_duplicates()
    &&& forall|k: int| 0 <= k < order.len() ==> 0 <= #[trigger] order[k] < n
}

/// Does hopper `a` have its turn before hopper `b`: are its coins worth more, or as much while it is the lower one?
pub open spec fn comes_before(hoppers: Seq<HopperSettings>, a: int, b: int) -> bool {
    hoppers[a].unit_value > hoppers[b].unit_value || hoppers[a].unit_value == hoppers[b].unit_value && a < b
}

/// The order is all the hoppers, each once, and no coin comes before a larger one, nor before an equal one of a lower hopper.
pub proof fn law_largest_first(hoppers: Seq<HopperSettings>, n: nat)
    requires
        n <= hoppers.len(),
    ensures
        largest_first(hoppers, n).len() == n,
        picks(largest_first(hoppers, n), n),
        forall|i: int| 0 <= i < n ==> #[trigger] largest_first(hoppers, n).contains(i),
        forall|a: int, b: int|
            #![trigger largest_first(hoppers, n)[a], largest_first(hoppers, n)[b]]
            0 <= a < b < n ==> comes_before(hoppers, largest_first(hoppers, n)[a], largest_first(hoppers, n)[b]),
        forall|a: int, b: int|
            #![trigger largest_first(hoppers, n)[a], largest_first(hoppers, n)[b]]
            0 <= a < b < n ==> hoppers[largest_first(hoppers, n)[a]].unit_value
                >= hoppers[largest_first(hoppers, n)[b]].unit_value,
    decreases n,
{
    if n > 0 {
        law_largest_first(hoppers, (n - 1) as nat);
        let before = largest_first(hoppers, (n - 1) as nat);
        let value = hoppers[n - 1].unit_value;
        lemma_place(hoppers, before, value);
        let p = place(hoppers, before, value);
        let after = before.insert(p, n - 1);
        assert forall|k: int| 0 <= k < after.len() implies (#[trigger] after[k]) == (if k < p {
            before[k]
        } else if k == p {
            n - 1
        } else {
            before[k - 1]
        }) by {}
        assert forall|i: int| 0 <= i < n implies #[trigger] after.contains(i) by {
            if i == n - 1 {
                assert(after[p] == i);
            } else {
                assert(before.contains(i));
                let k = choose|k: int| 0 <= k < before.len() && before[k] == i;
                if k < p {
                    assert(after[k] == i);
                } else {
                    assert(after[k + 1] == i);
                }
            }
        }
    }
}

/// Everything before the place is worth at least as much, and everything behind it less.
proof fn lemma_place(hoppers: Seq<HopperSettings>, order: Seq<int>, value: Cash)
    requires
        forall|a: int, b: int|
            #![trigger order[a], order[b]]
            0 <= a < b < order.len() ==> hoppers[order[a]].unit_value >= hoppers[order[b]].unit_value,
    ensures
        0 <= place(hoppers, order, value) <= order.len(),
        forall|k: int|
            0 <= k < place(hoppers, order, value) ==> hoppers[#[trigger] order[k]].unit_value >= value,
        forall|k: int|
            place(hoppers, order, value) <= k < order.len() ==> hoppers[#[trigger] order[k]].unit_value
                < value,
    decreases order.len(),
{
    if order.len() > 0 && hoppers[order.last()].unit_value < value {
        let front = order.drop_last();
        assert forall|a: int, b: int| 0 <= a < b < front.len() implies hoppers[#[trigger] front[a]].unit_value
            >= hoppers[#[trigger] front[b]].unit_value by {
            assert(front[a] == order[a] && front[b] == order[b]);
        }
        lemma_place(hoppers, front, value);
        let p = place(hoppers, order, value);
        assert forall|k: int| 0 <= k < p implies hoppers[#[trigger] order[k]].unit_value >= value by {
            assert(front[k] == order[k]);
        }
        assert forall|k: int| p <= k < order.len() implies hoppers[#[trigger] order[k]].unit_value < value by {
            if k < front.len() {
                assert(front[k] == order[k]);
            }
        }
    } else if order.len() > 0 {
        assert forall|k: int| 0 <= k < order.len() implies hoppers[#[trigger] order[k]].unit_value
            >= value by {
            assert(order[order.len() - 1] == order.last());
        }
    }
}

/// A hopper never gives more than is left, nor more than it has, and unless it gives all it has, what is
/// left afterwards is less than one of its coins.
proof fn lemma_coins_towards(hopper: HopperSettings, level: Level, left: nat)
    ensures
        coins_towards(hopper, level, left) <= level,
        coins_towards(hopper, level, left) * hopper.unit_value <= left,
        hopper.enabled && hopper.unit_value > 0 && coins_towards(hopper, level, left) < level ==> left
            - coins_towards(hopper, level, left) * hopper.unit_value < hopper.unit_value,
{
    if hopper.enabled && hopper.unit_value > 0 {
        let unit = hopper.unit_value as int;
        let n = coins_towards(hopper, level, left) as int;
        let q = left as int / unit;
        vstd::arithmetic::div_mod::lemma_fundamental_div_mod(left as int, unit);
        vstd::arithmetic::div_mod::lemma_mod_division_less_than_divisor(left as int, unit);
        assert(unit * q <= left);
        assert(n * unit <= unit * q) by (nonlinear_arith)
            requires
                0 <= n <= q,
                unit > 0,
        ;
        assert(n == q ==> n * unit == unit * q) by (nonlinear_arith);
    } else {
        assert(0 * hopper.unit_value == 0) by (nonlinear_arith);
    }
}

/// Changing one entry of a plan from nothing changes what it comes to by what that entry comes to.
proof fn lemma_worth_update(hoppers: Seq<HopperSettings>, plan: Seq<u16>, i: int, c: u16, n: nat)
    requires
        0 <= i < plan.len(),
        plan[i] == 0,
        n <= plan.len(),
    ensures
        worth(hoppers, plan.update(i, c), n) == worth(hoppers, plan, n) + (if i < n {
            c as nat * hoppers[i].unit_value as nat
        } else {
            0
        }),
    decreases n,
{
    if n > 0 {
        lemma_worth_update(hoppers, plan, i, c, (n - 1) as nat);
        assert(0nat * hoppers[i].unit_value as nat == 0) by (nonlinear_arith);
    }
}

/// A plan of nothing comes to nothing.
proof fn lemma_worth_of_nothing(hoppers: Seq<HopperSettings>, plan: Seq<u16>, n: nat)
    requires
        n <= plan.len(),
        forall|i: int| 0 <= i < plan.len() ==> #[trigger] plan[i] == 0,
    ensures
        worth(hoppers, plan, n) == 0,
    decreases n,
{
    if n > 0 {
        lemma_worth_of_nothing(hoppers, plan, (n - 1) as nat);
        assert(plan[n - 1] == 0);
        assert(0nat * hoppers[n - 1].unit_value as nat == 0) by (nonlinear_arith);
    }
}

/// What the plan pays and what it leaves come to the amount, at every stage of making it.
proof fn lemma_plan(
    hoppers: Seq<HopperSettings>,
    levels: Seq<Level>,
    amount: nat,
    order: Seq<int>,
    k: nat,
)
    requires
        hoppers.len() == levels.len(),
        picks(order, hoppers.len()),
        k <= order.len(),
    ensures
        ({
            let plan = plan_after(hoppers, levels, amount, order, k);
            let left = left_after(hoppers, levels, amount, order, k);
            &&& plan.len() == hoppers.len()
            &&& worth(hoppers, plan, hoppers.len()) + left == amount
            &&& forall|i: int| 0 <= i < plan.len() ==> #[trigger] plan[i] <= levels[i]
            &&& forall|i: int|
                0 <= i < plan.len() && (!hoppers[i].enabled || hoppers[i].unit_value == 0)
                    ==> #[trigger] plan[i] == 0
            &&& forall|i: int, j: int|
                0 <= i < plan.len() && 0 <= j < k && order[j] == i && hoppers[i].enabled
                    && hoppers[i].unit_value > 0 && #[trigger] plan[i] < levels[i] ==> left
                    < hoppers[#[trigger] order[j]].unit_value
            &&& forall|i: int|
                0 <= i < plan.len() && !(exists|j: int| 0 <= j < k && #[trigger] order[j] == i)
                    ==> #[trigger] plan[i] == 0
        }),
    decreases k,
{
    if k == 0 {
        lemma_worth_of_nothing(
            hoppers,
            plan_after(hoppers, levels, amount, order, 0),
            hoppers.len(),
        );
    } else {
        let k1 = (k - 1) as nat;
        lemma_plan(hoppers, levels, amount, order, k1);
        let plan = plan_after(hoppers, levels, amount, order, k1);
        let left = left_after(hoppers, levels, amount, order, k1);
        let i = order[k - 1];
        let c = coins_towards(hoppers[i], levels[i], left);
        lemma_coins_towards(hoppers[i], levels[i], left);
        assert(!(exists|j: int| 0 <= j < k1 && #[trigger] order[j] == i));
        assert(plan[i] == 0);
        lemma_worth_update(hoppers, plan, i, c as u16, hoppers.len());
        let after = plan_after(hoppers, levels, amount, order, k);
        let rest = left_after(hoppers, levels, amount, order, k);
        assert(after == plan.update(i, c as u16));
        assert(rest <= left);
        assert forall|a: int, j: int|
            0 <= a < after.len() && 0 <= j < k && order[j] == a && hoppers[a].enabled
                && hoppers[a].unit_value > 0 && #[trigger] after[a] < levels[a] implies rest
            < hoppers[#[trigger] order[j]].unit_value by {
            if j < k1 {
                assert(order[j] != order[k - 1]);
                assert(plan[a] == after[a]);
            }
        }
        assert forall|a: int|
            0 <= a < after.len() && !(exists|j: int| 0 <= j < k && #[trigger] order[j] == a) implies
            #[trigger] after[a] == 0 by {
            assert(order[k - 1] != a);
            assert(plan[a] == after[a]);
            if exists|j: int| 0 <= j < k1 && #[trigger] order[j] == a {
                let j = choose|j: int| 0 <= j < k1 && #[trigger] order[j] == a;
                assert(0 <= j < k && order[j] == a);
            }
        }
    }
}

/// Change is right to the last coin: what the plan pays and what cannot be paid come to the amount; no hopper
/// is asked for more than it has, and none that is not fitted or whose coins are worth nothing for any; and
/// what cannot be paid is less than one coin of every hopper that has any left.
pub proof fn law_change_adds_up(hoppers: Seq<HopperSettings>, levels: Seq<Level>, amount: Cash)
    requires
        hoppers.len() == levels.len(),
    ensures
        ({
            let plan = planned(hoppers, levels, amount);
            let left = unpayable(hoppers, levels, amount);
            &&& plan.len() == hoppers.len()
            &&& worth(hoppers, plan, hoppers.len()) + left == amount
            &&& forall|i: int| 0 <= i < plan.len() ==> #[trigger] plan[i] <= levels[i]
            &&& forall|i: int|
                0 <= i < plan.len() && (!hoppers[i].enabled || hoppers[i].unit_value == 0)
                    ==> #[trigger] plan[i] == 0
            &&& forall|i: int|
                0 <= i < plan.len() && hoppers[i].enabled && hoppers[i].unit_value > 0
                    && #[trigger] plan[i] < levels[i] ==> left < hoppers[i].unit_value
        }),
{
    let n = hoppers.len();
    let order = largest_first(hoppers, n);
    law_largest_first(hoppers, n);
    lemma_plan(hoppers, levels, amount as nat, order, n);
    let plan = planned(hoppers, levels, amount);
    let left = unpayable(hoppers, levels, amount);
    assert forall|i: int|
        0 <= i < plan.len() && hoppers[i].enabled && hoppers[i].unit_value > 0 && #[trigger] plan[i]
            < levels[i] implies left < hoppers[i].unit_value by {
        assert(order.contains(i));
        let j = choose|j: int| 0 <= j < order.len() && order[j] == i;
        assert(order[j] == i);
    }
}

/// What the first `n` entries of a plan come to, of the hoppers that have their turn after hopper `i`.
pub open spec fn worth_behind(hoppers: Seq<HopperSettings>, plan: Seq<u16>, i: int, n: nat) -> nat
    decreases n,
{
    if n == 0 {
        0
    } else {
        worth_behind(hoppers, plan, i, (n - 1) as nat) + (if comes_before(hoppers, i, n - 1) {
            plan[n - 1] as nat * hoppers[n - 1].unit_value as nat
        } else {
            0
        })
    }
}

/// Changing one entry behind another from nothing.
proof fn lemma_behind_update(hoppers: Seq<HopperSettings>, plan: Seq<u16>, i: int, j: int, c: u16, n: nat)
    requires
        0 <= j < plan.len(),
        plan[j] == 0,
        n <= plan.len(),
        comes_before(hoppers, i, j),
    ensures
        worth_behind(hoppers, plan.update(j, c), i, n) == worth_behind(hoppers, plan, i, n) + (if j < n {
            c as nat * hoppers[j].unit_value as nat
        } else {
            0
        }),
    decreases n,
{
    if n > 0 {
        lemma_behind_update(hoppers, plan, i, j, c, (n - 1) as nat);
        assert(0nat * hoppers[j].unit_value as nat == 0) by (nonlinear_arith);
    }
}

/// Where every entry behind another is nothing, they come to nothing.
proof fn lemma_nothing_behind(hoppers: Seq<HopperSettings>, plan: Seq<u16>, i: int, n: nat)
    requires
        n <= plan.len(),
        forall|j: int| 0 <= j < plan.len() && comes_before(hoppers, i, j) ==> #[trigger] plan[j] == 0,
    ensures
        worth_behind(hoppers, plan, i, n) == 0,
    decreases n,
{
    if n > 0 {
        lemma_nothing_behind(hoppers, plan, i, (n - 1) as nat);
        if comes_before(hoppers, i, n - 1) {
            assert(plan[n - 1] == 0);
            assert(0nat * hoppers[n - 1].unit_value as nat == 0) by (nonlinear_arith);
        }
    }
}

/// What the hoppers behind one give comes out of what that one leaves.
proof fn lemma_behind(
    hoppers: Seq<HopperSettings>,
    levels: Seq<Level>,
    amount: nat,
    order: Seq<int>,
    p: int,
    k: nat,
)
    requires
        hoppers.len() == levels.len(),
        order.len() == hoppers.len(),
        picks(order, hoppers.len()),
        forall|a: int, b: int|
            #![trigger order[a], order[b]]
            0 <= a < b < order.len() ==> comes_before(hoppers, order[a], order[b]),
        0 <= p < k <= order.len(),
    ensures
        worth_behind(hoppers, plan_after(hoppers, levels, amount, order, k), order[p], hoppers.len())
            + left_after(hoppers, levels, amount, order, k) == left_after(
            hoppers,
            levels,
            amount,
            order,
            (p + 1) as nat,
        ),
    decreases k,
{
    let plan = plan_after(hoppers, levels, amount, order, k);
    lemma_plan(hoppers, levels, amount, order, k);
    if k == p + 1 {
        assert forall|j: int| 0 <= j < plan.len() && comes_before(hoppers, order[p], j) implies #[trigger] plan[j]
            == 0 by {
            if exists|a: int| 0 <= a < k && #[trigger] order[a] == j {
                let a = choose|a: int| 0 <= a < k && #[trigger] order[a] == j;
                if a < p {
                    assert(comes_before(hoppers, order[a], order[p]));
                }
            }
        }
        lemma_nothing_behind(hoppers, plan, order[p], hoppers.len());
    } else {
        let k1 = (k - 1) as nat;
        lemma_behind(hoppers, levels, amount, order, p, k1);
        lemma_plan(hoppers, levels, amount, order, k1);
        let before = plan_after(hoppers, levels, amount, order, k1);
        let left = left_after(hoppers, levels, amount, order, k1);
        let j = order[k - 1];
        let c = coins_towards(hoppers[j], levels[j], left);
        lemma_coins_towards(hoppers[j], levels[j], left);
        assert(comes_before(hoppers, order[p], order[k - 1]));
        assert(!(exists|a: int| 0 <= a < k1 && #[trigger] order[a] == j));
        assert(before[j] == 0);
        lemma_behind_update(hoppers, before, order[p], j, c as u16, hoppers.len());
    }
}

/// Coins are paid largest first, whatever they are worth: as long as a hopper that is fitted has coins left, what is paid in smaller
/// coins, and in equal ones of higher hoppers, comes to less than one of its coins together with what cannot be paid.
pub proof fn law_no_larger_coin_is_spared(hoppers: Seq<HopperSettings>, levels: Seq<Level>, amount: Cash, i: int)
    requires
        hoppers.len() == levels.len(),
        0 <= i < hoppers.len(),
        hoppers[i].enabled,
        hoppers[i].unit_value > 0,
        planned(hoppers, levels, amount)[i] < levels[i],
    ensures
        worth_behind(hoppers, planned(hoppers, levels, amount), i, hoppers.len()) + unpayable(
            hoppers,
            levels,
            amount,
        ) < hoppers[i].unit_value,
{
    let n = hoppers.len();
    let order = largest_first(hoppers, n);
    law_largest_first(hoppers, n);
    law_change_adds_up(hoppers, levels, amount);
    assert(order.contains(i));
    let p = choose|p: int| 0 <= p < order.len() && order[p] == i;
    lemma_behind(hoppers, levels, amount as nat, order, p, n);
    lemma_plan(hoppers, levels, amount as nat, order, n);
    lemma_plan(hoppers, levels, amount as nat, order, p as nat);
    fewest::lemma_entry(hoppers, levels, amount as nat, order, n, p);
    let left = left_after(hoppers, levels, amount as nat, order, p as nat);
    lemma_coins_towards(hoppers[i], levels[i], left);
    assert(left_after(hoppers, levels, amount as nat, order, (p + 1) as nat) == left - coins_towards(
        hoppers[i],
        levels[i],
        left,
    ) * hoppers[i].unit_value);
}

/// The hoppers' numbers, largest coin first.
fn payout_order(hoppers: &[HopperSettings]) -> (order: Vec<usize>)
    ensures
        order@.len() == hoppers@.len(),
        order@.map_values(|i: usize| i as int) == largest_first(hoppers@, hoppers@.len()),
{
    let mut order: Vec<usize> = Vec::new();
    let mut n: usize = 0;
    assert(order@.map_values(|i: usize| i as int) =~= largest_first(hoppers@, 0));
    while n < hoppers.len()
        invariant
            n <= hoppers@.len(),
            order@.len() == n,
            order@.map_values(|i: usize| i as int) == largest_first(hoppers@, n as nat),
        decreases hoppers@.len() - n,
    {
        let ghost before = order@.map_values(|i: usize| i as int);
        proof {
            law_largest_first(hoppers@, n as nat);
        }
        let value = hoppers[n].unit_value;
        let mut p: usize = n;
        let mut found = false;
        assert(before.take(n as int) =~= before);
        while p > 0 && !found
            invariant
                p <= n < hoppers@.len(),
                n == order@.len(),
                before == order@.map_values(|i: usize| i as int),
                picks(before, n as nat),
                place(hoppers@, before, value) == place(hoppers@, before.take(p as int), value),
                found ==> place(hoppers@, before.take(p as int), value) == p,
            decreases p, (if found { 0int } else { 1 }),
        {
            let ghost part = before.take(p as int);
            assert(part.last() == before[p - 1]);
            assert(part.drop_last() =~= before.take(p - 1));
            assert(before[p - 1] == order@[p - 1] as int);
            assert(0 <= before[p - 1] < n);
            if hoppers[order[p - 1]].unit_value >= value {
                found = true;
            } else {
                p -= 1;
            }
        }
        order.insert(p, n);
        assert(order@.map_values(|i: usize| i as int) =~= before.insert(p as int, n as int));
        n += 1;
    }
    order
}

/// Work out how to pay `amount` out of the hoppers.
///
/// Returns what each hopper should dispense and what could not be paid at all.
pub fn plan_change(hoppers: &[HopperSettings], levels: &[Level], amount: Cash) -> (planning: (Vec<u16>, Cash))
    requires
        hoppers@.len() == levels@.len(),
    ensures
        planning.0@ == planned(hoppers@, levels@, amount),
        planning.0@.len() == hoppers@.len(),
        planning.1 == unpayable(hoppers@, levels@, amount),
{
    let order = payout_order(hoppers);
    let ghost picked = order@.map_values(|i: usize| i as int);
    proof {
        law_largest_first(hoppers@, hoppers@.len());
    }
    let mut plan: Vec<u16> = Vec::new();
    let mut i: usize = 0;
    while i < hoppers.len()
        invariant
            i <= hoppers@.len(),
            plan@ == Seq::new(i as nat, |j: int| 0u16),
        decreases hoppers@.len() - i,
    {
        plan.push(0);
        i += 1;
        assert(plan@ =~= Seq::new(i as nat, |j: int| 0u16));
    }
    let mut left = amount;
    let mut k: usize = 0;
    while k < order.len()
        invariant
            k <= order@.len() == hoppers@.len() == levels@.len(),
            picked == order@.map_values(|i: usize| i as int),
            picks(picked, hoppers@.len()),
            left == left_after(hoppers@, levels@, amount as nat, picked, k as nat),
            plan@ == plan_after(hoppers@, levels@, amount as nat, picked, k as nat),
            plan@.len() == hoppers@.len(),
        decreases order@.len() - k,
    {
        let i = order[k];
        assert(picked[k as int] == i as int);
        let hopper = hoppers[i];
        let ghost n = coins_towards(hopper, levels@[i as int], left as nat);
        proof {
            lemma_coins_towards(hopper, levels@[i as int], left as nat);
        }
        if hopper.enabled && hopper.unit_value != 0 {
            let available = levels[i] as Cash;
            let wanted = left / hopper.unit_value;
            let take = if wanted <= available {
                wanted
            } else {
                available
            };
            assert(take == n);
            plan[i] = take as u16;
            assert(take * hopper.unit_value <= left);
            left = left - take * hopper.unit_value;
        } else {
            proof {
                lemma_plan(hoppers@, levels@, amount as nat, picked, k as nat);
                assert(plan@[i as int] == 0);
                assert(0 * hopper.unit_value == 0) by (nonlinear_arith);
            }
            assert(plan@ =~= plan@.update(i as int, 0));
        }
        k += 1;
    }
    (plan, left)
}

} // verus!
