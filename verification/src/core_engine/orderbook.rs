//! The order book of one instrument: two sides of price levels, each level a
//! queue of resting orders, and the matching of an incoming order against
//! the opposite side.

use crate::core_engine::amount::lemma_zero_units;
use crate::core_engine::amount::max_units;
use crate::core_engine::amount::Amount;
use crate::core_engine::order::BuyOrSell;
use crate::core_engine::order::Order;
use crate::core_engine::volume::law_insert_adds_volume;
use crate::core_engine::volume::lemma_insert_uniform;
use crate::core_engine::volume::lemma_level_update;
use crate::core_engine::volume::lemma_side_prefix;
use crate::core_engine::volume::lemma_side_update;
use crate::core_engine::volume::lemma_sum_concat;
use crate::core_engine::volume::lemma_sum_nonneg;
use crate::core_engine::volume::lemma_sum_prefix;
use crate::core_engine::volume::level_uniform;
use crate::core_engine::volume::level_units;
use crate::core_engine::volume::side_uniform;
use crate::core_engine::volume::side_units;
use crate::core_engine::volume::sum_units;
use vstd::prelude::*;

verus! {

/// How many price levels, best first, one match may walk into the book.
pub const DEPTH: usize = 5;

/// The resting orders at one price, earliest first.
pub struct PriceLevel {
    pub price: Amount,
    pub orders: Vec<Order>,
}

/// One side of the book: its price levels, ascending by price, no price twice.
pub struct PriceLevels {
    pub levels: Vec<PriceLevel>,
}

/// The book of one instrument.
pub struct OrderBook {
    pub buy_orders: PriceLevels,
    pub sell_orders: PriceLevels,
}

/// A price level as a mathematical value.
pub struct Level {
    pub price: Amount,
    pub orders: Seq<Order>,
}

impl View for PriceLevel {
    type V = Level;

    open spec fn view(&self) -> Level {
        Level { price: self.price, orders: self.orders@ }
    }
}

impl View for PriceLevels {
    type V = Seq<Level>;

    open spec fn view(&self) -> Seq<Level> {
        self.levels@.map_values(|l: PriceLevel| l@)
    }
}

/// The other side.
pub open spec fn opposite(side: BuyOrSell) -> BuyOrSell {
    match side {
        BuyOrSell::Buy => BuyOrSell::Sell,
        BuyOrSell::Sell => BuyOrSell::Buy,
    }
}

/// `o` with the quantity `q`.
pub open spec fn with_quantity(o: Order, q: Amount) -> Order {
    Order { quantity: q, price: o.price, order_type: o.order_type }
}

/// The prices ascend strictly.
pub open spec fn sorted(levels: Seq<Level>) -> bool {
    forall|i: int, j: int|
        0 <= i < j < levels.len() ==> (#[trigger] levels[i]).price.units() < (
        #[trigger] levels[j]).price.units()
}

/// A resting order of `side` at the level of `price`: it has that side, that
/// price in value, and no negative quantity.
pub open spec fn rests_at(o: Order, side: BuyOrSell, price: Amount) -> bool {
    &&& o.order_type == side
    &&& o.price.units() == price.units()
    &&& o.quantity.units() >= 0
}

/// Every order of the level rests there.
pub open spec fn level_wf(level: Level, side: BuyOrSell) -> bool {
    forall|k: int| 0 <= k < level.orders.len() ==> rests_at(#[trigger] level.orders[k], side, level.price)
}

/// The levels of one side of a book: sorted, and each well formed.
pub open spec fn side_wf(levels: Seq<Level>, side: BuyOrSell) -> bool {
    &&& sorted(levels)
    &&& forall|i: int| 0 <= i < levels.len() ==> level_wf(#[trigger] levels[i], side)
}

/// The index of the `k`-th best of `n` levels: the bids are best at the
/// highest price, the asks at the lowest.
pub open spec fn nth_best(n: nat, side: BuyOrSell, k: nat) -> int {
    match side {
        BuyOrSell::Buy => n - 1 - k,
        BuyOrSell::Sell => k as int,
    }
}

/// The number of levels that a match sees.
pub open spec fn depth(n: nat) -> nat {
    if n < DEPTH {
        n
    } else {
        DEPTH as nat
    }
}

/// Up to `DEPTH` prices of a side, best first.
pub open spec fn top_prices(levels: Seq<Level>, side: BuyOrSell) -> Seq<Amount> {
    Seq::new(depth(levels.len()), |k: int| levels[nth_best(levels.len(), side, k as nat)].price)
}

/// How many levels lie below the price `p`.
pub open spec fn position(levels: Seq<Level>, p: Amount) -> nat
    decreases levels.len(),
{
    if levels.len() == 0 {
        0
    } else if levels.last().price.units() < p.units() {
        levels.len()
    } else {
        position(levels.drop_last(), p)
    }
}

/// The levels after `o` has come to rest: at the tail of the level of its
/// price, or alone in a new level at that price's place.
pub open spec fn insert_order(levels: Seq<Level>, o: Order) -> Seq<Level> {
    let i = position(levels, o.price) as int;
    if i < levels.len() && levels[i].price.units() == o.price.units() {
        levels.update(i, Level { price: levels[i].price, orders: levels[i].orders.push(o) })
    } else {
        levels.insert(i, Level { price: o.price, orders: seq![o] })
    }
}

/// The quantities of the orders of one level, earliest first.
pub open spec fn order_quantities(orders: Seq<Order>) -> Seq<Amount> {
    orders.map_values(|o: Order| o.quantity)
}

/// The quantities of all resting orders, level by level from the lowest
/// price, earliest first within a level.
pub open spec fn quantities(levels: Seq<Level>) -> Seq<Amount>
    decreases levels.len(),
{
    if levels.len() == 0 {
        Seq::empty()
    } else {
        quantities(levels.drop_last()) + order_quantities(levels.last().orders)
    }
}

/// The sum of `qs`, added one by one to zero from the left; `None` once an
/// addition overflows.
pub open spec fn total(qs: Seq<Amount>) -> Option<Amount>
    decreases qs.len(),
{
    if qs.len() == 0 {
        Some(Amount::spec_zero())
    } else {
        match total(qs.drop_last()) {
            Some(acc) => acc.plus(qs.last()),
            None => None,
        }
    }
}

/// One level after an incoming quantity `q` has been matched against its
/// orders from index `i` on, and what is left of `q`. A resting order smaller
/// than `q` is used up and the walk goes on; the first that is as large ends
/// it.
pub open spec fn fill_from(orders: Seq<Order>, q: Amount, i: nat) -> (Seq<Order>, Amount)
    decreases orders.len() - i,
{
    if i >= orders.len() {
        (orders, q)
    } else {
        let r = orders[i as int];
        if r.quantity.units() < q.units() {
            fill_from(
                orders.update(i as int, with_quantity(r, Amount::spec_zero())),
                q.minus(r.quantity).unwrap(),
                i + 1,
            )
        } else if r.quantity.units() == q.units() {
            (orders.update(i as int, with_quantity(r, Amount::spec_zero())), Amount::spec_zero())
        } else {
            (
                orders.update(i as int, with_quantity(r, r.quantity.minus(q).unwrap())),
                Amount::spec_zero(),
            )
        }
    }
}

/// Whether the incoming order may trade at a level of this price: a buy at
/// its own price or below, a sell at its own price or above.
pub open spec fn crosses(taker: Order, price: Amount) -> bool {
    match taker.order_type {
        BuyOrSell::Buy => price.units() <= taker.price.units(),
        BuyOrSell::Sell => taker.price.units() <= price.units(),
    }
}

/// The opposite side after the incoming order `taker` has walked its levels
/// from the `k`-th best on, and what is left of the order's quantity. A limit
/// order passes over a level that it does not cross; a market order trades at
/// every level. The walk ends after `DEPTH` levels, or when nothing is left.
pub open spec fn walk_from(levels: Seq<Level>, taker: Order, limit: bool, k: nat) -> (
    Seq<Level>,
    Amount,
)
    decreases DEPTH - k,
{
    if k >= DEPTH || k >= levels.len() {
        (levels, taker.quantity)
    } else {
        let i = nth_best(levels.len(), opposite(taker.order_type), k);
        if limit && !crosses(taker, levels[i].price) {
            walk_from(levels, taker, limit, k + 1)
        } else {
            let filled = fill_from(levels[i].orders, taker.quantity, 0);
            let next = levels.update(i, Level { price: levels[i].price, orders: filled.0 });
            if filled.1.units() == 0 {
                (next, filled.1)
            } else {
                walk_from(next, with_quantity(taker, filled.1), limit, k + 1)
            }
        }
    }
}

/// Matches `incoming_order` against the orders of one level, earliest first.
/// Where the quantities have one scale, the level loses exactly what the
/// incoming order loses.
pub fn execute_match(valid_orders: &mut Vec<Order>, incoming_order: &mut Order)
    requires
        old(incoming_order).quantity.units() >= 0,
        forall|k: int|
            0 <= k < old(valid_orders)@.len() ==> (#[trigger] old(valid_orders)@[k]).quantity.units()
                >= 0,
    ensures
        final(valid_orders)@ == fill_from(old(valid_orders)@, old(incoming_order).quantity, 0).0,
        final(incoming_order).quantity == fill_from(
            old(valid_orders)@,
            old(incoming_order).quantity,
            0,
        ).1,
        final(incoming_order).price == old(incoming_order).price,
        final(incoming_order).order_type == old(incoming_order).order_type,
        final(incoming_order).quantity.units() >= 0,
        final(valid_orders)@.len() == old(valid_orders)@.len(),
        forall|k: int|
            0 <= k < old(valid_orders)@.len() ==> {
                &&& (#[trigger] final(valid_orders)@[k]).price == old(valid_orders)@[k].price
                &&& final(valid_orders)@[k].order_type == old(valid_orders)@[k].order_type
                &&& final(valid_orders)@[k].quantity.units() >= 0
            },
        forall|s: nat|
            #[trigger] level_uniform(old(valid_orders)@, s) && old(incoming_order).quantity.fits(s) ==> {
                &&& level_uniform(final(valid_orders)@, s)
                &&& final(incoming_order).quantity.fits(s)
                &&& final(incoming_order).quantity.units() <= old(incoming_order).quantity.units()
                &&& level_units(old(valid_orders)@) - level_units(final(valid_orders)@) == old(
                    incoming_order,
                ).quantity.units() - final(incoming_order).quantity.units()
            },
{
    let ghost orders0 = valid_orders@;
    let ghost q0 = incoming_order.quantity;
    let n = valid_orders.len();
    let mut i: usize = 0;
    let mut done = false;
    while i < n && !done
        invariant
            i <= n,
            n == valid_orders@.len(),
            n == orders0.len(),
            incoming_order.price == old(incoming_order).price,
            incoming_order.order_type == old(incoming_order).order_type,
            incoming_order.quantity.units() >= 0,
            forall|k: int|
                0 <= k < n ==> {
                    &&& (#[trigger] valid_orders@[k]).price == orders0[k].price
                    &&& valid_orders@[k].order_type == orders0[k].order_type
                    &&& valid_orders@[k].quantity.units() >= 0
                },
            !done ==> fill_from(valid_orders@, incoming_order.quantity, i as nat) == fill_from(
                orders0,
                q0,
                0,
            ),
            done ==> (valid_orders@, incoming_order.quantity) == fill_from(orders0, q0, 0),
            forall|s: nat|
                #[trigger] level_uniform(orders0, s) && q0.fits(s) ==> {
                    &&& level_uniform(valid_orders@, s)
                    &&& incoming_order.quantity.fits(s)
                    &&& incoming_order.quantity.units() <= q0.units()
                    &&& level_units(orders0) - level_units(valid_orders@) == q0.units()
                        - incoming_order.quantity.units()
                },
        decreases n - i + (if done { 0int } else { 1int }),
    {
        let ghost prev = valid_orders@;
        let resting = valid_orders[i];
        let left: Order;
        if resting.quantity.lt(&incoming_order.quantity) {
            let rest = incoming_order.quantity.checked_sub(&resting.quantity);
            incoming_order.quantity = rest.unwrap();
            left = Order { quantity: Amount::zero(), price: resting.price, order_type: resting.order_type };
            valid_orders.set(i, left);
            i += 1;
        } else if incoming_order.quantity.lt(&resting.quantity) {
            let rest = resting.quantity.checked_sub(&incoming_order.quantity);
            left = Order { quantity: rest.unwrap(), price: resting.price, order_type: resting.order_type };
            valid_orders.set(i, left);
            incoming_order.quantity = Amount::zero();
            done = true;
        } else {
            left = Order { quantity: Amount::zero(), price: resting.price, order_type: resting.order_type };
            valid_orders.set(i, left);
            incoming_order.quantity = Amount::zero();
            done = true;
        }
        proof {
            let at = if done {
                i as int
            } else {
                i - 1
            };
            lemma_zero_units();
            lemma_level_update(prev, at, left);
            assert forall|s: nat| #[trigger] level_uniform(orders0, s) && q0.fits(s) implies {
                &&& level_uniform(valid_orders@, s)
                &&& incoming_order.quantity.fits(s)
                &&& incoming_order.quantity.units() <= q0.units()
                &&& level_units(orders0) - level_units(valid_orders@) == q0.units()
                    - incoming_order.quantity.units()
            } by {
                assert(level_uniform(prev, s));
                assert(prev[at].quantity.fits(s));
                assert forall|k: int| 0 <= k < valid_orders@.len() implies (
                #[trigger] valid_orders@[k]).quantity.fits(s) && valid_orders@[k].quantity.units()
                    >= 0 by {
                    if k != at {
                        assert(valid_orders@[k] == prev[k]);
                    }
                }
            }
        }
    }
}

/// In a sorted side, the place of a price is the first index whose level is
/// not below it.
pub proof fn lemma_position(levels: Seq<Level>, p: Amount, i: int)
    requires
        sorted(levels),
        0 <= i <= levels.len(),
        forall|j: int| 0 <= j < i ==> (#[trigger] levels[j]).price.units() < p.units(),
        i == levels.len() || p.units() <= levels[i].price.units(),
    ensures
        position(levels, p) == i,
    decreases levels.len(),
{
    if levels.len() > 0 {
        let last = levels.len() - 1;
        if levels[last].price.units() < p.units() {
            if i < levels.len() {
                assert(levels[i].price.units() <= levels[last].price.units());
            }
        } else {
            assert(i <= last);
            let front = levels.drop_last();
            assert forall|a: int, b: int| 0 <= a < b < front.len() implies (#[trigger] front[a]).price.units()
                < (#[trigger] front[b]).price.units() by {
                assert(front[a] == levels[a] && front[b] == levels[b]);
            }
            assert forall|j: int| 0 <= j < i implies (#[trigger] front[j]).price.units() < p.units() by {
                assert(front[j] == levels[j]);
            }
            lemma_position(front, p, i);
        }
    }
}

impl PriceLevels {
    /// An empty side.
    pub fn new() -> (r: PriceLevels)
        ensures
            r@ == Seq::<Level>::empty(),
    {
        let r = PriceLevels { levels: Vec::new() };
        assert(r@ =~= Seq::<Level>::empty());
        r
    }

    /// The number of price levels.
    pub fn len(&self) -> (r: usize)
        ensures
            r == self@.len(),
    {
        self.levels.len()
    }

    /// The orders resting at the price `price`, if there is such a level.
    pub fn get(&self, price: &Amount) -> (r: Option<&Vec<Order>>)
        ensures
            match r {
                Some(orders) => exists|i: int|
                    0 <= i < self@.len() && (#[trigger] self@[i]).price.units() == price.units()
                        && self@[i].orders == orders@,
                None => forall|i: int|
                    0 <= i < self@.len() ==> (#[trigger] self@[i]).price.units() != price.units(),
            },
    {
        let n = self.levels.len();
        let mut i: usize = 0;
        while i < n
            invariant
                i <= n,
                n == self.levels@.len(),
                forall|j: int| 0 <= j < i ==> (#[trigger] self@[j]).price.units() != price.units(),
            decreases n - i,
        {
            if self.levels[i].price.same_value(price) {
                assert(self@[i as int].orders == self.levels[i as int].orders@);
                return Some(&self.levels[i].orders);
            }
            i += 1;
        }
        None
    }

    /// Puts `order` to rest on this side.
    pub fn insert(&mut self, order: Order)
        requires
            side_wf(old(self)@, order.order_type),
            order.quantity.units() >= 0,
        ensures
            final(self)@ == insert_order(old(self)@, order),
            side_wf(final(self)@, order.order_type),
            side_units(final(self)@) == side_units(old(self)@) + order.quantity.units(),
            forall|s: nat|
                #[trigger] side_uniform(old(self)@, s) && order.quantity.fits(s) ==> side_uniform(
                    final(self)@,
                    s,
                ),
    {
        proof {
            law_insert_adds_volume(self@, order);
            assert forall|s: nat| #[trigger]
                side_uniform(self@, s) && order.quantity.fits(s) implies side_uniform(
                insert_order(self@, order),
                s,
            ) by {
                lemma_insert_uniform(self@, order, s);
            }
        }
        let ghost side = order.order_type;
        let n = self.levels.len();
        let mut i: usize = 0;
        let mut stop = false;
        while i < n && !stop
            invariant
                i <= n,
                n == self.levels@.len(),
                *self == *old(self),
                forall|j: int| 0 <= j < i ==> (#[trigger] self@[j]).price.units() < order.price.units(),
                stop ==> i < n && order.price.units() <= self@[i as int].price.units(),
            decreases n - i + (if stop { 0int } else { 1int }),
        {
            if self.levels[i].price.lt(&order.price) {
                i += 1;
            } else {
                stop = true;
            }
        }
        proof {
            lemma_position(self@, order.price, i as int);
        }
        let ghost before = self@;
        if i < n && !order.price.lt(&self.levels[i].price) {
            self.levels[i].orders.push(order);
            assert(self@ =~= before.update(
                i as int,
                Level { price: before[i as int].price, orders: before[i as int].orders.push(order) },
            ));
            assert forall|a: int| 0 <= a < self@.len() implies level_wf(#[trigger] self@[a], side) by {
                if a != i {
                    assert(self@[a] == before[a]);
                } else {
                    assert forall|k: int| 0 <= k < self@[a].orders.len() implies rests_at(
                        #[trigger] self@[a].orders[k],
                        side,
                        self@[a].price,
                    ) by {
                        if k < before[a].orders.len() {
                            assert(self@[a].orders[k] == before[a].orders[k]);
                        }
                    }
                }
            }
            assert forall|a: int, b: int| 0 <= a < b < self@.len() implies (#[trigger] self@[a]).price.units()
                < (#[trigger] self@[b]).price.units() by {
                assert(self@[a].price == before[a].price && self@[b].price == before[b].price);
            }
        } else {
            let mut orders: Vec<Order> = Vec::new();
            orders.push(order);
            self.levels.insert(i, PriceLevel { price: order.price, orders });
            assert(self@ =~= before.insert(i as int, Level { price: order.price, orders: seq![order] }));
            assert forall|a: int| 0 <= a < self@.len() implies level_wf(#[trigger] self@[a], side) by {
                if a < i {
                    assert(self@[a] == before[a]);
                } else if a > i {
                    assert(self@[a] == before[a - 1]);
                }
            }
            assert forall|a: int, b: int| 0 <= a < b < self@.len() implies (#[trigger] self@[a]).price.units()
                < (#[trigger] self@[b]).price.units() by {
                if a < i {
                    assert(self@[a] == before[a]);
                } else if a > i {
                    assert(self@[a] == before[a - 1]);
                }
                if b < i {
                    assert(self@[b] == before[b]);
                } else if b > i {
                    assert(self@[b] == before[b - 1]);
                }
            }
        }
    }

    /// The best price of the side, given which side it is: the highest bid,
    /// the lowest ask; `None` where the side has no level.
    pub fn best_price(&self, side: BuyOrSell) -> (r: Option<Amount>)
        ensures
            self@.len() == 0 ==> r is None,
            self@.len() > 0 ==> r == Some(self@[nth_best(self@.len(), side, 0)].price),
            sorted(self@) && r is Some ==> forall|i: int|
                0 <= i < self@.len() ==> match side {
                    BuyOrSell::Buy => (#[trigger] self@[i]).price.units() <= r.unwrap().units(),
                    BuyOrSell::Sell => r.unwrap().units() <= (#[trigger] self@[i]).price.units(),
                },
    {
        let n = self.levels.len();
        if n == 0 {
            None
        } else {
            match side {
                BuyOrSell::Buy => Some(self.levels[n - 1].price),
                BuyOrSell::Sell => Some(self.levels[0].price),
            }
        }
    }

    /// Up to `DEPTH` prices of the side, best first; `None` where the side has
    /// no level.
    pub fn top_n_best_prices(&self, side: BuyOrSell) -> (r: Option<Vec<Amount>>)
        ensures
            self@.len() == 0 ==> r is None,
            self@.len() > 0 ==> r is Some && r.unwrap()@ == top_prices(self@, side),
    {
        let n = self.levels.len();
        if n == 0 {
            return None;
        }
        let mut prices: Vec<Amount> = Vec::new();
        let mut k: usize = 0;
        while k < DEPTH && k < n
            invariant
                k <= DEPTH,
                k <= n,
                n == self.levels@.len(),
                prices@.len() == k,
                forall|j: int|
                    0 <= j < k ==> prices@[j] == self@[nth_best(n as nat, side, j as nat)].price,
            decreases n - k,
        {
            let i: usize = match side {
                BuyOrSell::Buy => n - 1 - k,
                BuyOrSell::Sell => k,
            };
            prices.push(self.levels[i].price);
            k += 1;
        }
        assert(prices@ =~= top_prices(self@, side));
        Some(prices)
    }

    /// The sum of the quantities of all resting orders of the side, added in
    /// the order of [`quantities`]; `None` where an addition overflows.
    pub fn volume(&self) -> (r: Option<Amount>)
        ensures
            r == total(quantities(self@)),
            forall|s: nat|
                #[trigger] side_uniform(self@, s) && side_units(self@) <= max_units(s) ==> r is Some
                    && r.unwrap().units() == side_units(self@),
    {
        let n = self.levels.len();
        let mut sum: Option<Amount> = Some(Amount::zero());
        let mut i: usize = 0;
        assert(self@.take(0) =~= Seq::<Level>::empty());
        while i < n
            invariant
                i <= n,
                n == self.levels@.len(),
                sum == total(quantities(self@.take(i as int))),
                forall|s: nat|
                    #[trigger] side_uniform(self@, s) && side_units(self@) <= max_units(s) ==> {
                        &&& sum is Some
                        &&& sum.unwrap().fits(s)
                        &&& sum.unwrap().units() == side_units(self@.take(i as int))
                    },
            decreases n - i,
        {
            let m = self.levels[i].orders.len();
            let ghost before = quantities(self@.take(i as int));
            let ghost here = order_quantities(self@[i as int].orders);
            let mut j: usize = 0;
            assert(before + here.take(0) =~= before);
            proof {
                let upto = self@.take(i + 1);
                assert(upto.drop_last() =~= self@.take(i as int));
                assert(upto.last() == self@[i as int]);
            }
            while j < m
                invariant
                    i < n,
                    n == self.levels@.len(),
                    j <= m,
                    m == self.levels@[i as int].orders@.len(),
                    here == order_quantities(self@[i as int].orders),
                    sum == total(before + here.take(j as int)),
                    before == quantities(self@.take(i as int)),
                    quantities(self@.take(i + 1)) == before + here,
                    forall|s: nat|
                        #[trigger] side_uniform(self@, s) && side_units(self@) <= max_units(s) ==> {
                            &&& sum is Some
                            &&& sum.unwrap().fits(s)
                            &&& sum.unwrap().units() == sum_units(before + here.take(j as int))
                        },
                decreases m - j,
            {
                let q = self.levels[i].orders[j].quantity;
                let ghost sum_prev = sum;
                proof {
                    let next = before + here.take(j + 1);
                    assert(next.drop_last() =~= before + here.take(j as int));
                    assert(next.last() == q);
                }
                sum =
                match sum {
                    Some(acc) => acc.checked_add(&q),
                    None => None,
                };
                proof {
                    assert forall|s: nat| #[trigger]
                        side_uniform(self@, s) && side_units(self@) <= max_units(s) implies {
                        &&& sum is Some
                        &&& sum.unwrap().fits(s)
                        &&& sum.unwrap().units() == sum_units(before + here.take(j + 1))
                    } by {
                        let acc = sum_prev.unwrap();
                        assert(level_uniform(self@[i as int].orders, s));
                        assert(self@[i as int].orders[j as int].quantity == q);
                        assert forall|k: int| 0 <= k < here.len() implies (#[trigger] here[k]).units()
                            >= 0 by {
                            assert(here[k] == self@[i as int].orders[k].quantity);
                        }
                        lemma_sum_prefix(here, j + 1);
                        lemma_sum_concat(before, here.take(j + 1));
                        lemma_sum_concat(before, here.take(j as int));
                        lemma_sum_concat(before, here);
                        lemma_side_prefix(self@, i + 1, s);
                        lemma_side_prefix(self@, i as int, s);
                        lemma_sum_nonneg(here.take(j as int));
                        let next = before + here.take(j + 1);
                        assert(sum_units(next) == sum_units(next.drop_last()) + q.units());
                        assert(acc.units() >= 0);
                        assert(acc.units() + q.units() <= max_units(s));
                    }
                }
                j += 1;
            }
            proof {
                let upto = self@.take(i + 1);
                assert(upto.drop_last() =~= self@.take(i as int));
                assert(upto.last() == self@[i as int]);
                assert(here.take(m as int) =~= here);
            }
            i += 1;
        }
        assert(self@.take(n as int) =~= self@);
        sum
    }

    /// Walks `incoming_order` through the best levels of this side, the side
    /// opposite to the order's own.
    pub fn scan(&mut self, incoming_order: &mut Order, limit: bool)
        requires
            side_wf(old(self)@, opposite(old(incoming_order).order_type)),
            old(incoming_order).quantity.units() >= 0,
        ensures
            final(self)@ == walk_from(old(self)@, *old(incoming_order), limit, 0).0,
            final(incoming_order).quantity == walk_from(
                old(self)@,
                *old(incoming_order),
                limit,
                0,
            ).1,
            final(incoming_order).price == old(incoming_order).price,
            final(incoming_order).order_type == old(incoming_order).order_type,
            final(incoming_order).quantity.units() >= 0,
            side_wf(final(self)@, opposite(old(incoming_order).order_type)),
            forall|s: nat|
                #[trigger] side_uniform(old(self)@, s) && old(incoming_order).quantity.fits(s) ==> {
                    &&& side_uniform(final(self)@, s)
                    &&& final(incoming_order).quantity.fits(s)
                    &&& final(incoming_order).quantity.units() <= old(incoming_order).quantity.units()
                    &&& side_units(old(self)@) - side_units(final(self)@) == old(
                        incoming_order,
                    ).quantity.units() - final(incoming_order).quantity.units()
                },
    {
        let ghost levels0 = self@;
        let ghost taker0 = *incoming_order;
        let ghost side = opposite(incoming_order.order_type);
        let n = self.levels.len();
        let mut k: usize = 0;
        let mut done = false;
        while k < DEPTH && k < n && !done
            invariant
                k <= DEPTH,
                n == self.levels@.len(),
                incoming_order.price == taker0.price,
                incoming_order.order_type == taker0.order_type,
                incoming_order.quantity.units() >= 0,
                side == opposite(taker0.order_type),
                side_wf(self@, side),
                !done ==> walk_from(self@, *incoming_order, limit, k as nat) == walk_from(
                    levels0,
                    taker0,
                    limit,
                    0,
                ),
                done ==> (self@, incoming_order.quantity) == walk_from(levels0, taker0, limit, 0),
                forall|s: nat|
                    #[trigger] side_uniform(levels0, s) && taker0.quantity.fits(s) ==> {
                        &&& side_uniform(self@, s)
                        &&& incoming_order.quantity.fits(s)
                        &&& incoming_order.quantity.units() <= taker0.quantity.units()
                        &&& side_units(levels0) - side_units(self@) == taker0.quantity.units()
                            - incoming_order.quantity.units()
                    },
            decreases DEPTH - k + (if done { 0int } else { 1int }),
        {
            let i: usize = match incoming_order.order_type {
                BuyOrSell::Buy => k,
                BuyOrSell::Sell => n - 1 - k,
            };
            let level_price = self.levels[i].price;
            let crossing = !limit || match incoming_order.order_type {
                BuyOrSell::Buy => level_price.le(&incoming_order.price),
                BuyOrSell::Sell => incoming_order.price.le(&level_price),
            };
            let ghost before = self@;
            let ghost taker = *incoming_order;
            assert(i == nth_best(n as nat, side, k as nat));
            assert(crossing == !(limit && !crosses(taker, before[i as int].price)));
            if crossing {
                assert(level_wf(before[i as int], side));
                execute_match(&mut self.levels[i].orders, incoming_order);
                assert(self@ =~= before.update(
                    i as int,
                    Level {
                        price: before[i as int].price,
                        orders: fill_from(before[i as int].orders, taker.quantity, 0).0,
                    },
                ));
                assert forall|a: int| 0 <= a < self@.len() implies level_wf(#[trigger] self@[a], side) by {
                    if a != i {
                        assert(self@[a] == before[a]);
                        assert(level_wf(before[a], side));
                    } else {
                        assert forall|j: int| 0 <= j < self@[a].orders.len() implies rests_at(
                            #[trigger] self@[a].orders[j],
                            side,
                            self@[a].price,
                        ) by {
                            assert(rests_at(before[a].orders[j], side, before[a].price));
                        }
                    }
                }
                assert forall|a: int, b: int| 0 <= a < b < self@.len() implies (#[trigger] self@[a]).price.units()
                    < (#[trigger] self@[b]).price.units() by {
                    assert(self@[a].price == before[a].price && self@[b].price == before[b].price);
                }
                assert(*incoming_order == with_quantity(taker, incoming_order.quantity));
                proof {
                    lemma_side_update(before, i as int, self@[i as int]);
                    assert forall|s: nat| #[trigger]
                        side_uniform(levels0, s) && taker0.quantity.fits(s) implies {
                        &&& side_uniform(self@, s)
                        &&& incoming_order.quantity.fits(s)
                        &&& incoming_order.quantity.units() <= taker0.quantity.units()
                        &&& side_units(levels0) - side_units(self@) == taker0.quantity.units()
                            - incoming_order.quantity.units()
                    } by {
                        assert(side_uniform(before, s));
                        assert(level_uniform(before[i as int].orders, s));
                        assert forall|a: int| 0 <= a < self@.len() implies level_uniform(
                            (#[trigger] self@[a]).orders,
                            s,
                        ) by {
                            if a != i {
                                assert(self@[a] == before[a]);
                            }
                        }
                    }
                }
                if incoming_order.quantity.is_zero() {
                    done = true;
                }
            }
            if !done {
                k += 1;
            }
        }
    }
}

impl OrderBook {
    /// Both sides are well formed: the bids hold buy orders, the asks sell
    /// orders.
    pub open spec fn wf(&self) -> bool {
        &&& side_wf(self.buy_orders@, BuyOrSell::Buy)
        &&& side_wf(self.sell_orders@, BuyOrSell::Sell)
    }

    /// The levels of one side.
    pub open spec fn side(&self, side: BuyOrSell) -> Seq<Level> {
        match side {
            BuyOrSell::Buy => self.buy_orders@,
            BuyOrSell::Sell => self.sell_orders@,
        }
    }

    /// The book after `taker` has been matched against it: the opposite
    /// side's levels walked, and what is left of the order put to rest on its
    /// own side. An order that finds the opposite side empty rests whole.
    pub open spec fn matched(&self, taker: Order, limit: bool, after: OrderBook, left: Amount) -> bool {
        let walked = walk_from(self.side(opposite(taker.order_type)), taker, limit, 0);
        &&& left == walked.1
        &&& after.side(opposite(taker.order_type)) == walked.0
        &&& after.side(taker.order_type) == if self.side(opposite(taker.order_type)).len() == 0
            || left.units() != 0 {
            insert_order(self.side(taker.order_type), with_quantity(taker, left))
        } else {
            self.side(taker.order_type)
        }
    }

    /// No resting quantity is negative, and each has the scale `s` or is
    /// zero.
    pub open spec fn uniform(&self, s: nat) -> bool {
        &&& side_uniform(self.buy_orders@, s)
        &&& side_uniform(self.sell_orders@, s)
    }

    /// The exact volume of one side.
    pub open spec fn volume_units(&self, side: BuyOrSell) -> int {
        side_units(self.side(side))
    }

    /// Both legs of a match are equal: the opposite side has lost exactly
    /// what the incoming order has lost, and the order's own side has gained
    /// what is left of it.
    pub open spec fn conserved(&self, taker: Order, after: OrderBook, left: Amount) -> bool {
        let traded = taker.quantity.units() - left.units();
        &&& 0 <= traded
        &&& after.volume_units(opposite(taker.order_type)) == self.volume_units(
            opposite(taker.order_type),
        ) - traded
        &&& after.volume_units(taker.order_type) == self.volume_units(taker.order_type)
            + left.units()
    }

    /// An empty book.
    pub fn new() -> (r: OrderBook)
        ensures
            r.buy_orders@ == Seq::<Level>::empty(),
            r.sell_orders@ == Seq::<Level>::empty(),
            r.wf(),
    {
        OrderBook { buy_orders: PriceLevels::new(), sell_orders: PriceLevels::new() }
    }

    /// Puts `order` to rest on its side, at the tail of the level of its
    /// price. Nothing is matched.
    pub fn add_order_to_orderbook(&mut self, order: Order)
        requires
            old(self).wf(),
            order.quantity.units() >= 0,
        ensures
            final(self).wf(),
            final(self).side(order.order_type) == insert_order(old(self).side(order.order_type), order),
            final(self).side(opposite(order.order_type)) == old(self).side(
                opposite(order.order_type),
            ),
            final(self).volume_units(order.order_type) == old(self).volume_units(order.order_type)
                + order.quantity.units(),
            forall|s: nat|
                #[trigger] old(self).uniform(s) && order.quantity.fits(s) ==> final(self).uniform(s),
    {
        match order.order_type {
            BuyOrSell::Buy => self.buy_orders.insert(order),
            BuyOrSell::Sell => self.sell_orders.insert(order),
        }
    }

    /// The highest price among the bids.
    pub fn best_buy_price(&self) -> (r: Option<Amount>)
        ensures
            self.buy_orders@.len() == 0 ==> r is None,
            self.buy_orders@.len() > 0 ==> r == Some(self.buy_orders@.last().price),
            self.wf() && r is Some ==> forall|i: int|
                0 <= i < self.buy_orders@.len() ==> (#[trigger] self.buy_orders@[i]).price.units()
                    <= r.unwrap().units(),
    {
        self.buy_orders.best_price(BuyOrSell::Buy)
    }

    /// The lowest price among the asks.
    pub fn best_sell_price(&self) -> (r: Option<Amount>)
        ensures
            self.sell_orders@.len() == 0 ==> r is None,
            self.sell_orders@.len() > 0 ==> r == Some(self.sell_orders@.first().price),
            self.wf() && r is Some ==> forall|i: int|
                0 <= i < self.sell_orders@.len() ==> r.unwrap().units() <= (
                #[trigger] self.sell_orders@[i]).price.units(),
    {
        self.sell_orders.best_price(BuyOrSell::Sell)
    }

    /// The price at which a market order of this side would trade: the best
    /// price of the opposite side.
    pub fn market_price(&self, order_type: BuyOrSell) -> (r: Option<Amount>)
        ensures
            self.side(opposite(order_type)).len() == 0 ==> r is None,
            self.side(opposite(order_type)).len() > 0 ==> r == Some(
                self.side(opposite(order_type))[nth_best(
                    self.side(opposite(order_type)).len(),
                    opposite(order_type),
                    0,
                )].price,
            ),
    {
        match order_type {
            BuyOrSell::Buy => self.best_sell_price(),
            BuyOrSell::Sell => self.best_buy_price(),
        }
    }

    /// Up to `DEPTH` bid prices, from the highest down.
    pub fn top_n_best_buy_prices(&self) -> (r: Option<Vec<Amount>>)
        ensures
            self.buy_orders@.len() == 0 ==> r is None,
            self.buy_orders@.len() > 0 ==> r is Some && r.unwrap()@ == top_prices(
                self.buy_orders@,
                BuyOrSell::Buy,
            ),
    {
        self.buy_orders.top_n_best_prices(BuyOrSell::Buy)
    }

    /// Up to `DEPTH` ask prices, from the lowest up.
    pub fn top_n_best_sell_prices(&self) -> (r: Option<Vec<Amount>>)
        ensures
            self.sell_orders@.len() == 0 ==> r is None,
            self.sell_orders@.len() > 0 ==> r is Some && r.unwrap()@ == top_prices(
                self.sell_orders@,
                BuyOrSell::Sell,
            ),
    {
        self.sell_orders.top_n_best_prices(BuyOrSell::Sell)
    }

    /// The sum of the quantities of the resting buy orders.
    pub fn buy_volume(&self) -> (r: Option<Amount>)
        ensures
            r == total(quantities(self.buy_orders@)),
            forall|s: nat|
                #[trigger] side_uniform(self.buy_orders@, s) && side_units(self.buy_orders@)
                    <= max_units(s) ==> r is Some && r.unwrap().units() == side_units(
                    self.buy_orders@,
                ),
    {
        self.buy_orders.volume()
    }

    /// The sum of the quantities of the resting sell orders.
    pub fn sell_volume(&self) -> (r: Option<Amount>)
        ensures
            r == total(quantities(self.sell_orders@)),
            forall|s: nat|
                #[trigger] side_uniform(self.sell_orders@, s) && side_units(self.sell_orders@)
                    <= max_units(s) ==> r is Some && r.unwrap().units() == side_units(
                    self.sell_orders@,
                ),
    {
        self.sell_orders.volume()
    }

    /// Matches an incoming order against the opposite side, as a limit order
    /// or as a market order, and rests what is left of it.
    pub fn match_order(&mut self, incoming_order: &mut Order, limit: bool)
        requires
            old(self).wf(),
            old(incoming_order).quantity.units() >= 0,
        ensures
            final(self).wf(),
            final(incoming_order).price == old(incoming_order).price,
            final(incoming_order).order_type == old(incoming_order).order_type,
            old(self).matched(*old(incoming_order), limit, *final(self), final(incoming_order).quantity),
            forall|s: nat|
                #[trigger] old(self).uniform(s) && old(incoming_order).quantity.fits(s) ==> {
                    &&& final(self).uniform(s)
                    &&& final(incoming_order).quantity.fits(s)
                    &&& old(self).conserved(
                        *old(incoming_order),
                        *final(self),
                        final(incoming_order).quantity,
                    )
                },
    {
        match incoming_order.order_type {
            BuyOrSell::Buy => {
                let empty = self.sell_orders.len() == 0;
                self.sell_orders.scan(incoming_order, limit);
                if empty || !incoming_order.quantity.is_zero() {
                    self.buy_orders.insert(*incoming_order);
                }
            },
            BuyOrSell::Sell => {
                let empty = self.buy_orders.len() == 0;
                self.buy_orders.scan(incoming_order, limit);
                if empty || !incoming_order.quantity.is_zero() {
                    self.sell_orders.insert(*incoming_order);
                }
            },
        }
    }

    /// Matches a market order: it trades at each of the best `DEPTH` levels of
    /// the opposite side, whatever their prices, until nothing is left of it;
    /// what is left after them rests at the order's own price.
    pub fn match_market_order(&mut self, incoming_order: &mut Order)
        requires
            old(self).wf(),
            old(incoming_order).quantity.units() >= 0,
        ensures
            final(self).wf(),
            final(incoming_order).price == old(incoming_order).price,
            final(incoming_order).order_type == old(incoming_order).order_type,
            old(self).matched(*old(incoming_order), false, *final(self), final(incoming_order).quantity),
            forall|s: nat|
                #[trigger] old(self).uniform(s) && old(incoming_order).quantity.fits(s) ==> {
                    &&& final(self).uniform(s)
                    &&& final(incoming_order).quantity.fits(s)
                    &&& old(self).conserved(
                        *old(incoming_order),
                        *final(self),
                        final(incoming_order).quantity,
                    )
                },
    {
        self.match_order(incoming_order, false)
    }

    /// Matches a limit order: it trades at those of the best `DEPTH` levels of
    /// the opposite side whose price it crosses, until nothing is left of it;
    /// what is left rests at the order's price.
    pub fn match_limit_order(&mut self, incoming_order: &mut Order)
        requires
            old(self).wf(),
            old(incoming_order).quantity.units() >= 0,
        ensures
            final(self).wf(),
            final(incoming_order).price == old(incoming_order).price,
            final(incoming_order).order_type == old(incoming_order).order_type,
            old(self).matched(*old(incoming_order), true, *final(self), final(incoming_order).quantity),
            forall|s: nat|
                #[trigger] old(self).uniform(s) && old(incoming_order).quantity.fits(s) ==> {
                    &&& final(self).uniform(s)
                    &&& final(incoming_order).quantity.fits(s)
                    &&& old(self).conserved(
                        *old(incoming_order),
                        *final(self),
                        final(incoming_order).quantity,
                    )
                },
    {
        self.match_order(incoming_order, true)
    }
}

} // verus!
