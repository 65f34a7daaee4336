//! What holds of every match: time priority within a level, the bound on the
//! depth of a walk, and the inclusive limit price.

use crate::core_engine::amount::Amount;
use crate::core_engine::order::BuyOrSell;
use crate::core_engine::order::Order;
use crate::core_engine::orderbook::crosses;
use crate::core_engine::orderbook::fill_from;
use crate::core_engine::orderbook::insert_order;
use crate::core_engine::orderbook::nth_best;
use crate::core_engine::orderbook::opposite;
use crate::core_engine::orderbook::position;
use crate::core_engine::orderbook::walk_from;
use crate::core_engine::orderbook::with_quantity;
use crate::core_engine::orderbook::Level;
use crate::core_engine::orderbook::OrderBook;
use crate::core_engine::orderbook::DEPTH;
use vstd::prelude::*;

verus! {

/// Matching a level from index `i` on keeps its length and leaves the orders
/// before `i` as they were.
pub proof fn lemma_fill_frame(orders: Seq<Order>, q: Amount, i: nat)
    ensures
        fill_from(orders, q, i).0.len() == orders.len(),
        forall|k: int| 0 <= k < i && k < orders.len() ==> fill_from(orders, q, i).0[k] == orders[k],
    decreases orders.len() - i,
{
    if i < orders.len() {
        let r = orders[i as int];
        if r.quantity.units() < q.units() {
            let next = orders.update(i as int, with_quantity(r, Amount::spec_zero()));
            let rest = q.minus(r.quantity).unwrap();
            lemma_fill_frame(next, rest, i + 1);
            let out = fill_from(orders, q, i).0;
            assert(out == fill_from(next, rest, i + 1).0);
            assert forall|k: int| 0 <= k < i implies out[k] == orders[k] by {
                assert(out[k] == next[k]);
            }
        }
    }
}

/// Time priority, from any index on: where a later order of the level was
/// changed, every earlier one from `i` on has been used up.
pub proof fn lemma_fill_fifo(orders: Seq<Order>, q: Amount, i: nat, a: int, b: int)
    requires
        i <= a < b < orders.len(),
    ensures
        fill_from(orders, q, i).0[b] != orders[b] ==> fill_from(orders, q, i).0[a].quantity
            == Amount::spec_zero(),
    decreases orders.len() - i,
{
    let r = orders[i as int];
    if r.quantity.units() < q.units() {
        let next = orders.update(i as int, with_quantity(r, Amount::spec_zero()));
        let rest = q.minus(r.quantity).unwrap();
        assert(fill_from(orders, q, i) == fill_from(next, rest, i + 1));
        if a == i {
            lemma_fill_frame(next, rest, i + 1);
            assert(fill_from(next, rest, i + 1).0[a] == next[a]);
        } else {
            lemma_fill_fifo(next, rest, i + 1, a, b);
            assert(next[b] == orders[b]);
        }
    } else if r.quantity.units() == q.units() {
        assert(fill_from(orders, q, i).0[b] == orders[b]);
    } else {
        assert(fill_from(orders, q, i).0[b] == orders[b]);
    }
}

/// Time priority within a level: of two orders resting at one price, the
/// one that came first is used up before an incoming order touches the
/// other.
pub proof fn law_fifo_within_level(orders: Seq<Order>, q: Amount, a: int, b: int)
    requires
        0 <= a < b < orders.len(),
    ensures
        fill_from(orders, q, 0).0[b] != orders[b] ==> fill_from(orders, q, 0).0[a].quantity
            == Amount::spec_zero(),
{
    lemma_fill_fifo(orders, q, 0, a, b);
}

/// An order that comes to rest at a price that has a level already takes
/// the place behind all orders of that level; every other level stays as it
/// was.
pub proof fn law_insert_at_tail(levels: Seq<Level>, o: Order)
    requires
        position(levels, o.price) < levels.len(),
        levels[position(levels, o.price) as int].price.units() == o.price.units(),
    ensures
        insert_order(levels, o).len() == levels.len(),
        insert_order(levels, o)[position(levels, o.price) as int].orders
            == levels[position(levels, o.price) as int].orders.push(o),
        forall|i: int|
            0 <= i < levels.len() && i != position(levels, o.price) ==> insert_order(levels, o)[i]
                == levels[i],
{
}

/// A walk from the `k`-th best level on keeps the number of levels and
/// their prices, and changes no level but the `k`-th best to the last within
/// the depth.
pub proof fn lemma_walk_frame(levels: Seq<Level>, taker: Order, limit: bool, k: nat)
    ensures
        walk_from(levels, taker, limit, k).0.len() == levels.len(),
        forall|i: int|
            0 <= i < levels.len() ==> (#[trigger] walk_from(levels, taker, limit, k).0[i]).price
                == levels[i].price,
        forall|j: nat|
            j < levels.len() && (j < k || j >= DEPTH) ==> walk_from(levels, taker, limit, k).0[nth_best(
                levels.len(),
                opposite(taker.order_type),
                j,
            )] == levels[#[trigger] nth_best(levels.len(), opposite(taker.order_type), j)],
    decreases DEPTH - k,
{
    if k < DEPTH && k < levels.len() {
        let side = opposite(taker.order_type);
        let i = nth_best(levels.len(), side, k);
        if limit && !crosses(taker, levels[i].price) {
            lemma_walk_frame(levels, taker, limit, k + 1);
        } else {
            let filled = fill_from(levels[i].orders, taker.quantity, 0);
            let next = levels.update(i, Level { price: levels[i].price, orders: filled.0 });
            if filled.1.units() != 0 {
                let rest = with_quantity(taker, filled.1);
                lemma_walk_frame(next, rest, limit, k + 1);
                let out = walk_from(levels, taker, limit, k).0;
                assert(out == walk_from(next, rest, limit, k + 1).0);
                assert forall|j: nat| j < levels.len() && (j < k || j >= DEPTH) implies out[nth_best(
                    levels.len(),
                    side,
                    j,
                )] == levels[#[trigger] nth_best(levels.len(), side, j)] by {
                    let at = nth_best(next.len(), side, j);
                    assert(out[at] == next[at]);
                    assert(at != i);
                }
                assert forall|a: int| 0 <= a < levels.len() implies (#[trigger] out[a]).price
                    == levels[a].price by {
                    assert(out[a].price == next[a].price);
                }
            }
        }
    }
}

/// The depth cap: a match leaves every level beyond the `DEPTH` best of the
/// opposite side as it was, however much of the incoming order is left.
pub proof fn law_depth_cap(levels: Seq<Level>, taker: Order, limit: bool, j: nat)
    requires
        DEPTH <= j < levels.len(),
    ensures
        walk_from(levels, taker, limit, 0).0[nth_best(levels.len(), opposite(taker.order_type), j)]
            == levels[nth_best(levels.len(), opposite(taker.order_type), j)],
{
    lemma_walk_frame(levels, taker, limit, 0);
}

/// What a match leaves of the incoming order comes to rest: on the order's
/// own side, at its own price, behind the orders that rest there already.
/// The opposite side is what the walk made of it, and nothing else changes.
pub proof fn law_remainder_rests(
    book: OrderBook,
    taker: Order,
    limit: bool,
    after: OrderBook,
    left: Amount,
)
    requires
        book.matched(taker, limit, after, left),
        left.units() != 0,
    ensures
        after.side(taker.order_type) == insert_order(
            book.side(taker.order_type),
            with_quantity(taker, left),
        ),
        after.side(opposite(taker.order_type)).len() == book.side(opposite(taker.order_type)).len(),
        forall|j: nat|
            DEPTH <= j < book.side(opposite(taker.order_type)).len() ==> after.side(
                opposite(taker.order_type),
            )[nth_best(book.side(opposite(taker.order_type)).len(), opposite(taker.order_type), j)]
                == book.side(opposite(taker.order_type))[#[trigger] nth_best(
                book.side(opposite(taker.order_type)).len(),
                opposite(taker.order_type),
                j,
            )],
{
    lemma_walk_frame(book.side(opposite(taker.order_type)), taker, limit, 0);
}

/// The limit is inclusive: a limit order whose price equals that of the
/// best opposite level trades at that level, as a market order would.
pub proof fn law_limit_boundary(levels: Seq<Level>, taker: Order)
    requires
        levels.len() > 0,
        levels[nth_best(levels.len(), opposite(taker.order_type), 0)].price.units()
            == taker.price.units(),
    ensures
        crosses(taker, levels[nth_best(levels.len(), opposite(taker.order_type), 0)].price),
        walk_from(levels, taker, true, 0).0[nth_best(
            levels.len(),
            opposite(taker.order_type),
            0,
        )].orders == fill_from(
            levels[nth_best(levels.len(), opposite(taker.order_type), 0)].orders,
            taker.quantity,
            0,
        ).0,
{
    let side = opposite(taker.order_type);
    let i = nth_best(levels.len(), side, 0);
    let filled = fill_from(levels[i].orders, taker.quantity, 0);
    let next = levels.update(i, Level { price: levels[i].price, orders: filled.0 });
    if filled.1.units() != 0 {
        let rest = with_quantity(taker, filled.1);
        lemma_walk_frame(next, rest, true, 1);
        assert(i == nth_best(next.len(), opposite(rest.order_type), 0));
    }
}

/// A limit order passes over a level that its price does not reach: a buy
/// priced below the level, a sell priced above it.
pub proof fn law_no_cross_no_trade(levels: Seq<Level>, taker: Order, k: nat)
    requires
        k < DEPTH,
        k < levels.len(),
        !crosses(taker, levels[nth_best(levels.len(), opposite(taker.order_type), k)].price),
    ensures
        walk_from(levels, taker, true, k) == walk_from(levels, taker, true, k + 1),
        match taker.order_type {
            BuyOrSell::Buy => taker.price.units() < levels[nth_best(
                levels.len(),
                opposite(taker.order_type),
                k,
            )].price.units(),
            BuyOrSell::Sell => levels[nth_best(
                levels.len(),
                opposite(taker.order_type),
                k,
            )].price.units() < taker.price.units(),
        },
{
}

} // verus!
