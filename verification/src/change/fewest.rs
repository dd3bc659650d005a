//! When paying the largest coins first is best.
//!
//! Where every coin is worth a whole number of every smaller one, it pays as much as can be paid with the coins there
//! are, and does so with the fewest coins.
use vstd::prelude::*;

use crate::change;
use crate::state::{Cash, HopperSettings, Level};

verus! {

/// What counts of coins come to, if the coins have these values.
pub open spec fn value(values: Seq<nat>, counts: Seq<nat>) -> nat
    decreases values.len(),
{
    if values.len() == 0 {
        0
    } else {
        counts[0] * values[0] + value(values.drop_first(), counts.drop_first())
    }
}

/// How many coins there are.
pub open spec fn number(counts: Seq<nat>) -> nat
    decreases counts.len(),
{
    if counts.len() == 0 {
        0
    } else {
        counts[0] + number(counts.drop_first())
    }
}

/// How many of a stock of coins go into an amount.
pub open spec fn going_into(coin: nat, stock: nat, amount: nat) -> nat {
    if coin == 0 || stock == 0 {
        0
    } else if amount / coin <= stock {
        amount / coin
    } else {
        stock
    }
}

/// Pay as many of the first coin as go into the amount, then of the second, and so on.
pub open spec fn greedy(values: Seq<nat>, stock: Seq<nat>, amount: nat) -> Seq<nat>
    decreases values.len(),
{
    if values.len() == 0 {
        Seq::empty()
    } else {
        let n = going_into(values[0], stock[0], amount);
        seq![n] + greedy(values.drop_first(), stock.drop_first(), (amount - n * values[0]) as nat)
    }
}

/// Of the coins there are any of, each is worth a whole number of every later one.
pub open spec fn nested(values: Seq<nat>, stock: Seq<nat>) -> bool {
    &&& values.len() == stock.len()
    &&& forall|j: int| 0 <= j < values.len() && #[trigger] stock[j] > 0 ==> values[j] > 0
    &&& forall|j: int, k: int|
        #![trigger stock[j], stock[k]]
        0 <= j < k < values.len() && stock[j] > 0 && stock[k] > 0 ==> values[j] % values[k] == 0
}

/// No more of any coin than there is.
pub open spec fn within(counts: Seq<nat>, stock: Seq<nat>) -> bool {
    &&& counts.len() == stock.len()
    &&& forall|j: int| 0 <= j < counts.len() ==> #[trigger] counts[j] <= stock[j]
}

/// The counts that are left if some are taken away.
pub open spec fn without(counts: Seq<nat>, taken: Seq<nat>) -> Seq<nat> {
    Seq::new(counts.len(), |j: int| (counts[j] - taken[j]) as nat)
}

/// What goes into two numbers goes into what is left of one when a multiple of the other is taken away.
proof fn lemma_still_divides(target: nat, n: nat, coin: nat, smaller: nat)
    requires
        smaller > 0,
        target % smaller == 0,
        coin % smaller == 0,
        n * coin <= target,
    ensures
        (target - n * coin) % (smaller as int) == 0,
{
    let d = smaller as int;
    vstd::arithmetic::div_mod::lemma_mul_mod_noop_right(n as int, coin as int, d);
    assert((n * coin) as int % d == 0) by {
        assert(n * (coin as int % d) == 0) by (nonlinear_arith)
            requires
                coin as int % d == 0,
        ;
        vstd::arithmetic::div_mod::lemma_small_mod(0, smaller);
    }
    vstd::arithmetic::div_mod::lemma_sub_mod_noop(target as int, (n * coin) as int, d);
    vstd::arithmetic::div_mod::lemma_small_mod(0, smaller);
}

/// Later coins that nest with earlier ones nest among themselves.
proof fn lemma_nested_rest(values: Seq<nat>, stock: Seq<nat>)
    requires
        nested(values, stock),
        values.len() > 0,
    ensures
        nested(values.drop_first(), stock.drop_first()),
{
    let v = values.drop_first();
    let s = stock.drop_first();
    assert forall|j: int| 0 <= j < v.len() && #[trigger] s[j] > 0 implies v[j] > 0 by {
        assert(stock[j + 1] > 0);
    }
    assert forall|j: int, k: int|
        #![trigger s[j], s[k]]
        0 <= j < k < v.len() && s[j] > 0 && s[k] > 0 implies v[j] % v[k] == 0 by {
        assert(stock[j + 1] > 0 && stock[k + 1] > 0);
    }
}

/// A plan of nothing comes to nothing.
proof fn lemma_nothing(values: Seq<nat>, counts: Seq<nat>)
    requires
        values.len() == counts.len(),
        forall|j: int| 0 <= j < counts.len() ==> #[trigger] counts[j] == 0,
    ensures
        value(values, counts) == 0,
        number(counts) == 0,
    decreases values.len(),
{
    if values.len() > 0 {
        let rest = counts.drop_first();
        assert forall|j: int| 0 <= j < rest.len() implies #[trigger] rest[j] == 0 by {
            assert(counts[j + 1] == 0);
        }
        lemma_nothing(values.drop_first(), rest);
        assert(counts[0] == 0);
        assert(0 * values[0] == 0) by (nonlinear_arith);
    }
}

/// Coins that come to a target exactly can be found among coins that come to at least as much, if the target is a
/// whole number of each.
proof fn lemma_exact(values: Seq<nat>, counts: Seq<nat>, target: nat) -> (taken: Seq<nat>)
    requires
        nested(values, counts),
        target <= value(values, counts),
        forall|j: int| 0 <= j < counts.len() && #[trigger] counts[j] > 0 ==> target % values[j] == 0,
    ensures
        within(taken, counts),
        value(values, taken) == target,
    decreases values.len(),
{
    if values.len() == 0 {
        counts
    } else {
        let v = values.drop_first();
        let c = counts.drop_first();
        lemma_nested_rest(values, counts);
        let coin = values[0];
        let n = going_into(coin, counts[0], target);
        if counts[0] > 0 {
            vstd::arithmetic::div_mod::lemma_fundamental_div_mod(target as int, coin as int);
            assert(n * coin <= target) by (nonlinear_arith)
                requires
                    n <= target / coin,
                    target as int == coin * (target as int / coin as int),
                    target as int / coin as int == target / coin,
            ;
        } else {
            assert(n * coin == 0) by (nonlinear_arith)
                requires
                    n == 0,
            ;
        }
        let rest = (target - n * coin) as nat;
        assert forall|j: int| 0 <= j < c.len() && #[trigger] c[j] > 0 implies rest % v[j] == 0 by {
            assert(counts[j + 1] > 0);
            if counts[0] > 0 {
                lemma_still_divides(target, n, coin, v[j]);
            } else {
                assert(rest == target);
            }
        }
        assert(rest <= value(v, c)) by {
            if n == counts[0] {
            } else {
                assert(n == target / coin);
                assert(rest == 0) by (nonlinear_arith)
                    requires
                        n == target / coin,
                        target as int == coin * (target as int / coin as int),
                        target as int / coin as int == target / coin,
                        rest == target - n * coin,
                ;
            }
        }
        let later = lemma_exact(v, c, rest);
        let taken = seq![n] + later;
        assert(taken.drop_first() =~= later);
        assert forall|j: int| 0 <= j < taken.len() implies #[trigger] taken[j] <= counts[j] by {
            if j > 0 {
                assert(later[j - 1] <= c[j - 1]);
            }
        }
        taken
    }
}

/// Taking coins away takes their value and their number away.
proof fn lemma_without(values: Seq<nat>, counts: Seq<nat>, taken: Seq<nat>)
    requires
        values.len() == counts.len(),
        within(taken, counts),
    ensures
        value(values, without(counts, taken)) + value(values, taken) == value(values, counts),
        number(without(counts, taken)) + number(taken) == number(counts),
        within(without(counts, taken), counts),
    decreases values.len(),
{
    if values.len() > 0 {
        let c = counts.drop_first();
        let t = taken.drop_first();
        assert forall|j: int| 0 <= j < t.len() implies #[trigger] t[j] <= c[j] by {
            assert(taken[j + 1] <= counts[j + 1]);
        }
        lemma_without(values.drop_first(), c, t);
        assert(without(counts, taken).drop_first() =~= without(c, t));
        assert(taken[0] <= counts[0]);
        let a = counts[0];
        let b = taken[0];
        let v = values[0];
        assert((a - b) * v + b * v == a * v) by (nonlinear_arith);
    }
}

/// Coins that are worth no more than `coin` each are at least as many as their value has such coins.
proof fn lemma_no_fewer(values: Seq<nat>, counts: Seq<nat>, coin: nat)
    requires
        values.len() == counts.len(),
        forall|j: int| 0 <= j < counts.len() && #[trigger] counts[j] > 0 ==> values[j] <= coin,
    ensures
        value(values, counts) <= number(counts) * coin,
    decreases values.len(),
{
    if values.len() > 0 {
        let v = values.drop_first();
        let c = counts.drop_first();
        assert forall|j: int| 0 <= j < c.len() && #[trigger] c[j] > 0 implies v[j] <= coin by {
            assert(counts[j + 1] > 0);
        }
        lemma_no_fewer(v, c, coin);
        let n = counts[0];
        let w = values[0];
        assert(n * w <= n * coin) by (nonlinear_arith)
            requires
                n == 0 || w <= coin,
        ;
        assert((n + number(c)) * coin == n * coin + number(c) * coin) by (nonlinear_arith);
    } else {
        assert(0 * coin == 0) by (nonlinear_arith);
    }
}

/// The largest coins first pay the most, and of all ways to pay that much, with the fewest coins.
proof fn lemma_best(values: Seq<nat>, stock: Seq<nat>, amount: nat, other: Seq<nat>)
    requires
        nested(values, stock),
        within(other, stock),
        value(values, other) <= amount,
    ensures
        greedy(values, stock, amount).len() == values.len(),
        value(values, other) <= value(values, greedy(values, stock, amount)),
        value(values, other) == value(values, greedy(values, stock, amount)) ==> number(
            greedy(values, stock, amount),
        ) <= number(other),
    decreases values.len(),
{
    if values.len() > 0 {
        let v = values.drop_first();
        let s = stock.drop_first();
        let q = other.drop_first();
        lemma_nested_rest(values, stock);
        assert forall|j: int| 0 <= j < q.len() implies #[trigger] q[j] <= s[j] by {
            assert(other[j + 1] <= stock[j + 1]);
        }
        assert(other[0] <= stock[0]);
        let coin = values[0];
        let n = going_into(coin, stock[0], amount);
        let left = (amount - n * coin) as nat;
        let plan = greedy(values, stock, amount);
        assert(plan.drop_first() =~= greedy(v, s, left));
        if stock[0] == 0 {
            assert(n * coin == 0 && other[0] * coin == 0) by (nonlinear_arith)
                requires
                    n == 0,
                    other[0] == 0,
            ;
            lemma_best(v, s, left, q);
        } else {
            lemma_first_coin(coin, stock[0], amount, other[0], value(v, q));
            let d = (n - other[0]) as nat;
            if value(v, q) >= d * coin {
                assert forall|j: int| 0 <= j < q.len() && #[trigger] q[j] > 0 implies v[j] <= coin
                    && (d * coin) as int % v[j] as int == 0 by {
                    assert(stock[0] > 0 && stock[j + 1] > 0);
                    lemma_multiple(coin, d, v[j]);
                }
                assert(nested(v, q)) by {
                    assert forall|j: int| 0 <= j < v.len() && #[trigger] q[j] > 0 implies v[j] > 0 by {
                        assert(s[j] > 0);
                    }
                    assert forall|j: int, k: int|
                        #![trigger q[j], q[k]]
                        0 <= j < k < v.len() && q[j] > 0 && q[k] > 0 implies v[j] % v[k] == 0 by {
                        assert(s[j] > 0 && s[k] > 0);
                    }
                }
                let taken = lemma_exact(v, q, (d * coin) as nat);
                lemma_without(v, q, taken);
                let rest = without(q, taken);
                assert forall|j: int| 0 <= j < rest.len() implies #[trigger] rest[j] <= s[j] by {
                    assert(q[j] <= s[j]);
                }
                assert(d * coin == n * coin - other[0] * coin) by (nonlinear_arith)
                    requires
                        d == n - other[0],
                ;
                lemma_best(v, s, left, rest);
                assert forall|j: int| 0 <= j < taken.len() && #[trigger] taken[j] > 0 implies v[j]
                    <= coin by {
                    assert(q[j] > 0);
                }
                lemma_no_fewer(v, taken, coin);
                assert(d <= number(taken)) by (nonlinear_arith)
                    requires
                        d * coin <= number(taken) * coin,
                        coin > 0,
                ;
            } else {
                assert(d * coin == n * coin - other[0] * coin) by (nonlinear_arith)
                    requires
                        d == n - other[0],
                ;
                lemma_greedy_len(v, s, left);
            }
        }
    }
}

/// The largest coins first plan has an entry for every coin.
proof fn lemma_greedy_len(values: Seq<nat>, stock: Seq<nat>, amount: nat)
    requires
        values.len() == stock.len(),
    ensures
        greedy(values, stock, amount).len() == values.len(),
    decreases values.len(),
{
    if values.len() > 0 {
        let n = going_into(values[0], stock[0], amount);
        lemma_greedy_len(
            values.drop_first(),
            stock.drop_first(),
            (amount - n * values[0]) as nat,
        );
    }
}

/// No way to pay uses more of the first coin than go into the amount.
proof fn lemma_first_coin(coin: nat, stock: nat, amount: nat, count: nat, rest: nat)
    requires
        coin > 0,
        stock > 0,
        count <= stock,
        count * coin + rest <= amount,
    ensures
        count <= going_into(coin, stock, amount),
        going_into(coin, stock, amount) * coin <= amount,
{
    let q = amount / coin;
    vstd::arithmetic::div_mod::lemma_fundamental_div_mod(amount as int, coin as int);
    vstd::arithmetic::div_mod::lemma_mod_division_less_than_divisor(amount as int, coin as int);
    assert(count <= q) by (nonlinear_arith)
        requires
            count * coin <= amount,
            amount as int == coin * q + amount as int % coin as int,
            amount as int % (coin as int) < coin,
            coin > 0,
    ;
    let n = going_into(coin, stock, amount);
    assert(n * coin <= amount) by (nonlinear_arith)
        requires
            n <= q,
            amount as int == coin * q + amount as int % coin as int,
            0 <= amount as int % coin as int,
    ;
}

/// A coin that goes into a larger one is no larger, and goes into every multiple of it.
proof fn lemma_multiple(coin: nat, n: nat, smaller: nat)
    requires
        coin > 0,
        smaller > 0,
        coin % smaller == 0,
    ensures
        smaller <= coin,
        (n * coin) as int % smaller as int == 0,
{
    if smaller > coin {
        vstd::arithmetic::div_mod::lemma_small_mod(coin, smaller);
    }
    let d = smaller as int;
    vstd::arithmetic::div_mod::lemma_mul_mod_noop_right(n as int, coin as int, d);
    assert(n * (coin as int % d) == 0) by (nonlinear_arith)
        requires
            coin as int % d == 0,
    ;
    vstd::arithmetic::div_mod::lemma_small_mod(0, smaller);
}

/// How many coins the first `n` entries of a plan are.
pub open spec fn coins(plan: Seq<u16>, n: nat) -> nat
    decreases n,
{
    if n == 0 {
        0
    } else {
        coins(plan, (n - 1) as nat) + plan[n - 1] as nat
    }
}

/// Can a hopper pay at all?
pub open spec fn pays(hopper: HopperSettings) -> bool {
    hopper.enabled && hopper.unit_value > 0
}

/// What the coins of the hoppers are worth, in an order.
pub open spec fn values_of(hoppers: Seq<HopperSettings>, order: Seq<int>) -> Seq<nat> {
    Seq::new(order.len(), |k: int| hoppers[order[k]].unit_value as nat)
}

/// How many coins there are to pay with, in an order.
pub open spec fn stock_of(hoppers: Seq<HopperSettings>, levels: Seq<Level>, order: Seq<int>) -> Seq<nat> {
    Seq::new(
        order.len(),
        |k: int|
            if pays(hoppers[order[k]]) {
                levels[order[k]] as nat
            } else {
                0
            },
    )
}

/// The entries of a plan, in an order.
pub open spec fn counts_of(plan: Seq<u16>, order: Seq<int>) -> Seq<nat> {
    Seq::new(order.len(), |k: int| plan[order[k]] as nat)
}

/// What a quantity comes to over an order.
spec fn total(order: Seq<int>, f: spec_fn(int) -> nat) -> nat
    decreases order.len(),
{
    if order.len() == 0 {
        0
    } else {
        f(order[0]) + total(order.drop_first(), f)
    }
}

/// What a quantity comes to over the first `n` numbers.
spec fn upto(f: spec_fn(int) -> nat, n: nat) -> nat
    decreases n,
{
    if n == 0 {
        0
    } else {
        upto(f, (n - 1) as nat) + f(n - 1)
    }
}

/// Where in the order something is put does not matter to what it comes to.
proof fn lemma_total_insert(order: Seq<int>, p: int, x: int, f: spec_fn(int) -> nat)
    requires
        0 <= p <= order.len(),
    ensures
        total(order.insert(p, x), f) == total(order, f) + f(x),
    decreases order.len(),
{
    let after = order.insert(p, x);
    if p == 0 {
        assert(after.drop_first() =~= order);
    } else {
        lemma_total_insert(order.drop_first(), p - 1, x, f);
        assert(after.drop_first() =~= order.drop_first().insert(p - 1, x));
        assert(after[0] == order[0]);
    }
}

/// The order of the hoppers does not matter to what they come to.
proof fn lemma_total_order(hoppers: Seq<HopperSettings>, n: nat, f: spec_fn(int) -> nat)
    requires
        n <= hoppers.len(),
    ensures
        total(change::largest_first(hoppers, n), f) == upto(f, n),
    decreases n,
{
    if n > 0 {
        let before = change::largest_first(hoppers, (n - 1) as nat);
        lemma_total_order(hoppers, (n - 1) as nat, f);
        change::law_largest_first(hoppers, (n - 1) as nat);
        change::lemma_place(hoppers, before, hoppers[n - 1].unit_value);
        lemma_total_insert(
            before,
            change::place(hoppers, before, hoppers[n - 1].unit_value),
            n - 1,
            f,
        );
    }
}

/// What a plan comes to, and how many coins it is, in an order.
proof fn lemma_in_order(hoppers: Seq<HopperSettings>, plan: Seq<u16>, order: Seq<int>)
    ensures
        value(values_of(hoppers, order), counts_of(plan, order)) == total(
            order,
            |i: int| plan[i] as nat * hoppers[i].unit_value as nat,
        ),
        number(counts_of(plan, order)) == total(order, |i: int| plan[i] as nat),
    decreases order.len(),
{
    if order.len() > 0 {
        let rest = order.drop_first();
        lemma_in_order(hoppers, plan, rest);
        assert(values_of(hoppers, order).drop_first() =~= values_of(hoppers, rest));
        assert(counts_of(plan, order).drop_first() =~= counts_of(plan, rest));
    }
}

/// What a plan comes to, and how many coins it is, hopper by hopper.
proof fn lemma_by_hopper(hoppers: Seq<HopperSettings>, plan: Seq<u16>, n: nat)
    ensures
        change::worth(hoppers, plan, n) == upto(
            |i: int| plan[i] as nat * hoppers[i].unit_value as nat,
            n,
        ),
        coins(plan, n) == upto(|i: int| plan[i] as nat, n),
    decreases n,
{
    if n > 0 {
        lemma_by_hopper(hoppers, plan, (n - 1) as nat);
    }
}

/// What each hopper gives is what going through the coins in order gives.
proof fn lemma_greedy(
    hoppers: Seq<HopperSettings>,
    levels: Seq<Level>,
    amount: nat,
    order: Seq<int>,
    k: nat,
)
    requires
        k <= order.len(),
    ensures
        ({
            let tail = order.skip(k as int);
            greedy(
                values_of(hoppers, tail),
                stock_of(hoppers, levels, tail),
                change::left_after(hoppers, levels, amount, order, k),
            ) == Seq::new(
                tail.len(),
                |j: int|
                    change::coins_towards(
                        hoppers[tail[j]],
                        levels[tail[j]],
                        change::left_after(hoppers, levels, amount, order, (k + j) as nat),
                    ),
            )
        }),
    decreases order.len() - k,
{
    let tail = order.skip(k as int);
    let left = change::left_after(hoppers, levels, amount, order, k);
    let all = greedy(values_of(hoppers, tail), stock_of(hoppers, levels, tail), left);
    let wanted = Seq::new(
        tail.len(),
        |j: int|
            change::coins_towards(
                hoppers[tail[j]],
                levels[tail[j]],
                change::left_after(hoppers, levels, amount, order, (k + j) as nat),
            ),
    );
    if k < order.len() {
        let next = order.skip((k + 1) as int);
        lemma_greedy(hoppers, levels, amount, order, k + 1);
        assert(tail.drop_first() =~= next);
        assert(values_of(hoppers, tail).drop_first() =~= values_of(hoppers, next));
        assert(stock_of(hoppers, levels, tail).drop_first() =~= stock_of(hoppers, levels, next));
        let i = order[k as int];
        assert(tail[0] == i);
        let n = going_into(
            values_of(hoppers, tail)[0],
            stock_of(hoppers, levels, tail)[0],
            left,
        );
        assert(n == change::coins_towards(hoppers[i], levels[i], left));
        assert(change::left_after(hoppers, levels, amount, order, k + 1) == (left - n
            * hoppers[i].unit_value) as nat);
        let later = greedy(
            values_of(hoppers, next),
            stock_of(hoppers, levels, next),
            change::left_after(hoppers, levels, amount, order, k + 1),
        );
        assert(all == seq![n] + later);
        assert forall|j: int| 0 <= j < tail.len() implies #[trigger] all[j] == wanted[j] by {
            if j > 0 {
                assert(all[j] == later[j - 1]);
                assert(next[j - 1] == tail[j]);
                assert((k + 1 + (j - 1)) as nat == (k + j) as nat);
            }
        }
    }
    assert(all =~= wanted);
}

/// An entry of a plan is what its hopper gave when it had its turn.
pub proof fn lemma_entry(
    hoppers: Seq<HopperSettings>,
    levels: Seq<Level>,
    amount: nat,
    order: Seq<int>,
    k: nat,
    j: int,
)
    requires
        hoppers.len() == levels.len(),
        change::picks(order, hoppers.len()),
        k <= order.len(),
        0 <= j < k,
    ensures
        change::plan_after(hoppers, levels, amount, order, k).len() == hoppers.len(),
        change::plan_after(hoppers, levels, amount, order, k)[order[j]] == change::coins_towards(
            hoppers[order[j]],
            levels[order[j]],
            change::left_after(hoppers, levels, amount, order, j as nat),
        ),
    decreases k,
{
    let k1 = (k - 1) as nat;
    change::lemma_plan(hoppers, levels, amount, order, k1);
    let i = order[k - 1];
    change::lemma_coins_towards(
        hoppers[i],
        levels[i],
        change::left_after(hoppers, levels, amount, order, k1),
    );
    if j < k1 {
        lemma_entry(hoppers, levels, amount, order, k1, j);
        assert(order[j] != order[k - 1]);
    }
}

/// Largest coin first is best where every coin is worth a whole number of every smaller one: no other way of paying
/// with the coins there are comes closer to the amount without going over it, and none that comes as close uses
/// fewer coins.
pub proof fn law_largest_first_is_best(
    hoppers: Seq<HopperSettings>,
    levels: Seq<Level>,
    amount: Cash,
    other: Seq<u16>,
)
    requires
        hoppers.len() == levels.len(),
        hoppers.len() == other.len(),
        forall|i: int, j: int|
            #![trigger hoppers[i], hoppers[j]]
            0 <= i < hoppers.len() && 0 <= j < hoppers.len() && pays(hoppers[i]) && pays(hoppers[j])
                && hoppers[i].unit_value >= hoppers[j].unit_value ==> hoppers[i].unit_value
                % hoppers[j].unit_value == 0,
        forall|i: int|
            0 <= i < other.len() ==> #[trigger] other[i] <= (if pays(hoppers[i]) {
                levels[i]
            } else {
                0
            }),
        change::worth(hoppers, other, hoppers.len()) <= amount,
    ensures
        ({
            let n = hoppers.len();
            let plan = change::planned(hoppers, levels, amount);
            &&& change::worth(hoppers, other, n) <= change::worth(hoppers, plan, n)
            &&& change::worth(hoppers, other, n) == change::worth(hoppers, plan, n) ==> coins(plan, n)
                <= coins(other, n)
        }),
{
    let n = hoppers.len();
    let plan = change::planned(hoppers, levels, amount);
    let order = change::largest_first(hoppers, n);
    change::law_largest_first(hoppers, n);
    let values = values_of(hoppers, order);
    let stock = stock_of(hoppers, levels, order);
    let counts = counts_of(other, order);
    assert(nested(values, stock)) by {
        assert forall|j: int, k: int|
            #![trigger stock[j], stock[k]]
            0 <= j < k < values.len() && stock[j] > 0 && stock[k] > 0 implies values[j] % values[k] == 0 by {
            assert(hoppers[order[j]].unit_value >= hoppers[order[k]].unit_value);
        }
    }
    assert(within(counts, stock)) by {
        assert forall|j: int| 0 <= j < counts.len() implies #[trigger] counts[j] <= stock[j] by {
            assert(0 <= order[j] < n);
            assert(other[order[j]] <= (if pays(hoppers[order[j]]) {
                levels[order[j]]
            } else {
                0
            }));
        }
    }
    lemma_in_order(hoppers, other, order);
    lemma_in_order(hoppers, plan, order);
    lemma_by_hopper(hoppers, other, n);
    lemma_by_hopper(hoppers, plan, n);
    lemma_total_order(hoppers, n, |i: int| other[i] as nat * hoppers[i].unit_value as nat);
    lemma_total_order(hoppers, n, |i: int| plan[i] as nat * hoppers[i].unit_value as nat);
    lemma_total_order(hoppers, n, |i: int| other[i] as nat);
    lemma_total_order(hoppers, n, |i: int| plan[i] as nat);
    lemma_greedy(hoppers, levels, amount as nat, order, 0);
    assert(order.skip(0) =~= order);
    assert(counts_of(plan, order) =~= greedy(values, stock, amount as nat)) by {
        assert forall|j: int| 0 <= j < order.len() implies #[trigger] counts_of(plan, order)[j] == greedy(
            values,
            stock,
            amount as nat,
        )[j] by {
            lemma_entry(hoppers, levels, amount as nat, order, n, j);
            assert((0 + j) as nat == j as nat);
        }
    }
    lemma_best(values, stock, amount as nat, counts);
}

} // verus!
