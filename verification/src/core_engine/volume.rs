//! The exact volume of a side: the sum of the values of its quantities, as a
//! mathematical integer, and how resting and matching change it.

use crate::core_engine::amount::Amount;
use crate::core_engine::order::Order;
use crate::core_engine::orderbook::insert_order;
use crate::core_engine::orderbook::order_quantities;
use crate::core_engine::orderbook::position;
use crate::core_engine::orderbook::quantities;
use crate::core_engine::orderbook::Level;
use vstd::prelude::*;

verus! {

/// The sum of the values of `qs`, in units of `10^-28`.
pub open spec fn sum_units(qs: Seq<Amount>) -> int
    decreases qs.len(),
{
    if qs.len() == 0 {
        0
    } else {
        sum_units(qs.drop_last()) + qs.last().units()
    }
}

/// The exact volume of one level.
pub open spec fn level_units(orders: Seq<Order>) -> int {
    sum_units(order_quantities(orders))
}

/// The exact volume of one side.
pub open spec fn side_units(levels: Seq<Level>) -> int {
    sum_units(quantities(levels))
}

/// No quantity of the level is negative, and each has the scale `s` or is
/// zero.
pub open spec fn level_uniform(orders: Seq<Order>, s: nat) -> bool {
    forall|k: int|
        0 <= k < orders.len() ==> (#[trigger] orders[k]).quantity.fits(s) && orders[k].quantity.units()
            >= 0
}

/// Every level of the side is uniform at the scale `s`.
pub open spec fn side_uniform(levels: Seq<Level>, s: nat) -> bool {
    forall|i: int| 0 <= i < levels.len() ==> level_uniform((#[trigger] levels[i]).orders, s)
}

/// The sum of two runs of quantities, one behind the other.
pub proof fn lemma_sum_concat(a: Seq<Amount>, b: Seq<Amount>)
    ensures
        sum_units(a + b) == sum_units(a) + sum_units(b),
    decreases b.len(),
{
    if b.len() == 0 {
        assert(a + b =~= a);
    } else {
        assert((a + b).drop_last() =~= a + b.drop_last());
        assert((a + b).last() == b.last());
        lemma_sum_concat(a, b.drop_last());
    }
}

/// The sum after one quantity was replaced.
pub proof fn lemma_sum_update(qs: Seq<Amount>, i: int, x: Amount)
    requires
        0 <= i < qs.len(),
    ensures
        sum_units(qs.update(i, x)) == sum_units(qs) - qs[i].units() + x.units(),
    decreases qs.len(),
{
    let u = qs.update(i, x);
    if i == qs.len() - 1 {
        assert(u.drop_last() =~= qs.drop_last());
    } else {
        assert(u.drop_last() =~= qs.drop_last().update(i, x));
        assert(u.last() == qs.last());
        lemma_sum_update(qs.drop_last(), i, x);
    }
}

/// Quantities none of which is negative sum to no negative value.
pub proof fn lemma_sum_nonneg(qs: Seq<Amount>)
    requires
        forall|k: int| 0 <= k < qs.len() ==> (#[trigger] qs[k]).units() >= 0,
    ensures
        sum_units(qs) >= 0,
    decreases qs.len(),
{
    if qs.len() > 0 {
        assert forall|k: int| 0 <= k < qs.drop_last().len() implies (#[trigger] qs.drop_last()[k]).units()
            >= 0 by {
            assert(qs.drop_last()[k] == qs[k]);
        }
        lemma_sum_nonneg(qs.drop_last());
    }
}

/// Of quantities none of which is negative, a prefix sums to no more than
/// the whole.
pub proof fn lemma_sum_prefix(qs: Seq<Amount>, j: int)
    requires
        0 <= j <= qs.len(),
        forall|k: int| 0 <= k < qs.len() ==> (#[trigger] qs[k]).units() >= 0,
    ensures
        sum_units(qs.take(j)) <= sum_units(qs),
{
    assert(qs =~= qs.take(j) + qs.skip(j));
    lemma_sum_concat(qs.take(j), qs.skip(j));
    assert forall|k: int| 0 <= k < qs.skip(j).len() implies (#[trigger] qs.skip(j)[k]).units() >= 0 by {
        assert(qs.skip(j)[k] == qs[k + j]);
    }
    lemma_sum_nonneg(qs.skip(j));
}

/// The volume of a level after one of its orders was replaced.
pub proof fn lemma_level_update(orders: Seq<Order>, i: int, o: Order)
    requires
        0 <= i < orders.len(),
    ensures
        level_units(orders.update(i, o)) == level_units(orders) - orders[i].quantity.units()
            + o.quantity.units(),
{
    assert(order_quantities(orders.update(i, o)) =~= order_quantities(orders).update(i, o.quantity));
    lemma_sum_update(order_quantities(orders), i, o.quantity);
}

/// The volume of a uniform level is not negative.
pub proof fn lemma_level_nonneg(orders: Seq<Order>, s: nat)
    requires
        level_uniform(orders, s),
    ensures
        level_units(orders) >= 0,
{
    let qs = order_quantities(orders);
    assert forall|k: int| 0 <= k < qs.len() implies (#[trigger] qs[k]).units() >= 0 by {
        assert(qs[k] == orders[k].quantity);
    }
    lemma_sum_nonneg(qs);
}

/// The volume of a side after one of its levels was replaced.
pub proof fn lemma_side_update(levels: Seq<Level>, i: int, l: Level)
    requires
        0 <= i < levels.len(),
    ensures
        side_units(levels.update(i, l)) == side_units(levels) - level_units(levels[i].orders)
            + level_units(l.orders),
    decreases levels.len(),
{
    let u = levels.update(i, l);
    lemma_sum_concat(quantities(u.drop_last()), order_quantities(u.last().orders));
    lemma_sum_concat(quantities(levels.drop_last()), order_quantities(levels.last().orders));
    if i == levels.len() - 1 {
        assert(u.drop_last() =~= levels.drop_last());
    } else {
        assert(u.drop_last() =~= levels.drop_last().update(i, l));
        assert(u.last() == levels.last());
        lemma_side_update(levels.drop_last(), i, l);
    }
}

/// The volume of a side after a level was put in.
pub proof fn lemma_side_insert(levels: Seq<Level>, i: int, l: Level)
    requires
        0 <= i <= levels.len(),
    ensures
        side_units(levels.insert(i, l)) == side_units(levels) + level_units(l.orders),
    decreases levels.len(),
{
    let u = levels.insert(i, l);
    lemma_sum_concat(quantities(u.drop_last()), order_quantities(u.last().orders));
    if i == levels.len() {
        assert(u.drop_last() =~= levels);
        assert(u.last() == l);
    } else {
        assert(u.drop_last() =~= levels.drop_last().insert(i, l));
        assert(u.last() == levels.last());
        lemma_sum_concat(quantities(levels.drop_last()), order_quantities(levels.last().orders));
        lemma_side_insert(levels.drop_last(), i, l);
    }
}

/// Of a uniform side, the first `i` levels hold no more volume than all.
pub proof fn lemma_side_prefix(levels: Seq<Level>, i: int, s: nat)
    requires
        0 <= i <= levels.len(),
        side_uniform(levels, s),
    ensures
        0 <= side_units(levels.take(i)) <= side_units(levels),
    decreases levels.len(),
{
    if levels.len() == 0 {
        assert(levels.take(i) =~= levels);
    } else {
        let front = levels.drop_last();
        let j = if i == levels.len() {
            i - 1
        } else {
            i
        };
        assert forall|a: int| 0 <= a < front.len() implies level_uniform((#[trigger] front[a]).orders, s) by {
            assert(front[a] == levels[a]);
        }
        lemma_side_prefix(front, j, s);
        lemma_sum_concat(quantities(front), order_quantities(levels.last().orders));
        lemma_level_nonneg(levels.last().orders, s);
        if i == levels.len() {
            assert(levels.take(i) =~= levels);
            assert(front.take(j) =~= front);
        } else {
            assert(levels.take(i) =~= front.take(i));
        }
    }
}

/// The place of a price lies within the side.
pub proof fn lemma_position_bound(levels: Seq<Level>, p: Amount)
    ensures
        position(levels, p) <= levels.len(),
    decreases levels.len(),
{
    if levels.len() > 0 && !(levels.last().price.units() < p.units()) {
        lemma_position_bound(levels.drop_last(), p);
    }
}

/// Volume under resting: an order that comes to rest adds exactly its
/// quantity to the volume of its side. So after any run of orders put to
/// rest in an empty side, the volume of the side is the sum of their
/// quantities.
pub proof fn law_insert_adds_volume(levels: Seq<Level>, o: Order)
    ensures
        side_units(insert_order(levels, o)) == side_units(levels) + o.quantity.units(),
        side_units(Seq::<Level>::empty()) == 0,
{
    lemma_position_bound(levels, o.price);
    let i = position(levels, o.price) as int;
    if i < levels.len() && levels[i].price.units() == o.price.units() {
        let grown = levels[i].orders.push(o);
        lemma_side_update(levels, i, Level { price: levels[i].price, orders: grown });
        assert(order_quantities(grown).drop_last() =~= order_quantities(levels[i].orders));
        assert(order_quantities(grown).last() == o.quantity);
    } else {
        lemma_side_insert(levels, i, Level { price: o.price, orders: seq![o] });
        let one = order_quantities(seq![o]);
        assert(one.drop_last() =~= Seq::<Amount>::empty());
        assert(one.last() == o.quantity);
        assert(sum_units(one.drop_last()) == 0);
    }
    assert(quantities(Seq::<Level>::empty()) =~= Seq::<Amount>::empty());
}

/// A side after the orders `os` have come to rest in it, one after the
/// other.
pub open spec fn rest_all(levels: Seq<Level>, os: Seq<Order>) -> Seq<Level>
    decreases os.len(),
{
    if os.len() == 0 {
        levels
    } else {
        insert_order(rest_all(levels, os.drop_last()), os.last())
    }
}

/// Volume after any run of orders put to rest in an empty side: the sum of
/// their quantities.
pub proof fn law_volume_of_inserts(os: Seq<Order>)
    ensures
        side_units(rest_all(Seq::<Level>::empty(), os)) == level_units(os),
    decreases os.len(),
{
    if os.len() == 0 {
        assert(quantities(Seq::<Level>::empty()) =~= Seq::<Amount>::empty());
        assert(order_quantities(os) =~= Seq::<Amount>::empty());
    } else {
        law_volume_of_inserts(os.drop_last());
        law_insert_adds_volume(rest_all(Seq::<Level>::empty(), os.drop_last()), os.last());
        assert(order_quantities(os).drop_last() =~= order_quantities(os.drop_last()));
        assert(order_quantities(os).last() == os.last().quantity);
    }
}

/// Resting keeps a side uniform, where the order's quantity fits.
pub proof fn lemma_insert_uniform(levels: Seq<Level>, o: Order, s: nat)
    requires
        side_uniform(levels, s),
        o.quantity.fits(s),
        o.quantity.units() >= 0,
    ensures
        side_uniform(insert_order(levels, o), s),
{
    lemma_position_bound(levels, o.price);
    let i = position(levels, o.price) as int;
    let out = insert_order(levels, o);
    assert forall|a: int| 0 <= a < out.len() implies level_uniform((#[trigger] out[a]).orders, s) by {
        if i < levels.len() && levels[i].price.units() == o.price.units() {
            assert(level_uniform(levels[a].orders, s));
            if a == i {
                assert forall|k: int| 0 <= k < out[a].orders.len() implies (
                #[trigger] out[a].orders[k]).quantity.fits(s) && out[a].orders[k].quantity.units()
                    >= 0 by {
                    if k < levels[a].orders.len() {
                        assert(out[a].orders[k] == levels[a].orders[k]);
                    }
                }
            }
        } else {
            if a < i {
                assert(out[a] == levels[a]);
            } else if a > i {
                assert(out[a] == levels[a - 1]);
            }
        }
    }
}

} // verus!
