//! Orders: a side, a price and a quantity.

use crate::core_engine::amount::Amount;
use vstd::prelude::*;

verus! {

/// The side of an order.
#[derive(Clone, Copy, Debug, PartialEq, Eq, Structural)]
pub enum BuyOrSell {
    Buy,
    Sell,
}

/// An order. For a market order the price is the market price that the book
/// gave when the order was made.
#[derive(Clone, Copy, Debug)]
pub struct Order {
    pub quantity: Amount,
    pub price: Amount,
    pub order_type: BuyOrSell,
}

impl Order {
    pub fn new(quantity: Amount, price: Amount, order_type: BuyOrSell) -> (r: Order)
        ensures
            r == (Order { quantity, price, order_type }),
    {
        Order { quantity, price, order_type }
    }
}

} // verus!
