//! The instruments that can be listed (a company, its sector and the market
//! it trades on) and the registry that keeps one order book for each.

use crate::core_engine::orderbook::Level;
use crate::core_engine::orderbook::OrderBook;
use vstd::prelude::*;

verus! {

#[derive(Hash, PartialEq, Eq, Clone, Copy, Debug, Structural)]
pub enum Market {
    IndianMarket(IndianExchange),
    USMarket(USExchange),
    CryptoMarket(CryptoExchange),
}

#[derive(Hash, PartialEq, Eq, Clone, Copy, Debug, Structural)]
pub enum IndianExchange {
    NSE,
    BSE,
}

#[derive(Hash, PartialEq, Eq, Clone, Copy, Debug, Structural)]
pub enum USExchange {
    NASDAQ,
    NYSE,
}

#[derive(Hash, PartialEq, Eq, Clone, Copy, Debug, Structural)]
pub enum CryptoExchange {
    WazirX,
    CoinDCX,
    Binance,
    Coinbase,
}

#[derive(Hash, PartialEq, Eq, Clone, Copy, Debug, Structural)]
pub enum Sector {
    Technology,
    Finance,
    Banking,
    Healthcare,
    Energy,
    ConsumerDiscretionary,
    ConsumerStaples,
    Industrials,
    Materials,
    RealEstate,
    CommunicationServices,
    Utilities,
}

/// A listed company: the key under which its order book is kept.
#[derive(Hash, PartialEq, Eq, Clone, Debug)]
pub struct Company {
    name: String,
    symbol: String,
    sector: Sector,
    market: Market,
}

/// A company as a mathematical value.
pub struct CompanyView {
    pub name: Seq<char>,
    pub symbol: Seq<char>,
    pub sector: Sector,
    pub market: Market,
}

impl View for Company {
    type V = CompanyView;

    closed spec fn view(&self) -> CompanyView {
        CompanyView {
            name: self.name@,
            symbol: self.symbol@,
            sector: self.sector,
            market: self.market,
        }
    }
}

impl Company {
    pub fn new(name: String, symbol: String, sector: Sector, market: Market) -> (r: Company)
        ensures
            r@ == (CompanyView { name: name@, symbol: symbol@, sector, market }),
    {
        Company { name, symbol, sector, market }
    }

    pub fn name(&self) -> (r: &String)
        ensures
            r@ == self@.name,
    {
        &self.name
    }

    pub fn symbol(&self) -> (r: &String)
        ensures
            r@ == self@.symbol,
    {
        &self.symbol
    }

    pub fn sector(&self) -> (r: Sector)
        ensures
            r == self@.sector,
    {
        self.sector
    }

    pub fn market(&self) -> (r: Market)
        ensures
            r == self@.market,
    {
        self.market
    }

    /// Whether the two are the same company: all four parts equal.
    pub fn same_as(&self, other: &Company) -> (r: bool)
        ensures
            r == (self@ == other@),
    {
        self.name == other.name && self.symbol == other.symbol && self.sector == other.sector
            && self.market == other.market
    }
}

/// A listed company with its order book.
pub struct Listing {
    pub company: Company,
    pub orderbook: OrderBook,
}

/// The registry of listed companies. No company is listed twice.
pub struct MatchingEngine {
    pub orderbooks: Vec<Listing>,
}

impl MatchingEngine {
    /// No company is listed twice.
    pub open spec fn wf(&self) -> bool {
        forall|i: int, j: int|
            0 <= i < j < self.orderbooks@.len() ==> (#[trigger] self.orderbooks@[i]).company@ != (
            #[trigger] self.orderbooks@[j]).company@
    }

    /// Whether a company with this value is listed.
    pub open spec fn listed(&self, key: CompanyView) -> bool {
        exists|i: int| 0 <= i < self.orderbooks@.len() && (#[trigger] self.orderbooks@[i]).company@ == key
    }

    /// A registry with no listing.
    pub fn new() -> (r: MatchingEngine)
        ensures
            r.orderbooks@.len() == 0,
            r.wf(),
    {
        MatchingEngine { orderbooks: Vec::new() }
    }

    /// Where `company` is listed, if it is.
    pub fn find(&self, company: &Company) -> (r: Option<usize>)
        ensures
            match r {
                Some(i) => i < self.orderbooks@.len() && self.orderbooks@[i as int].company@
                    == company@,
                None => !self.listed(company@),
            },
    {
        let n = self.orderbooks.len();
        let mut i: usize = 0;
        while i < n
            invariant
                i <= n,
                n == self.orderbooks@.len(),
                forall|j: int| 0 <= j < i ==> (#[trigger] self.orderbooks@[j]).company@ != company@,
            decreases n - i,
        {
            if self.orderbooks[i].company.same_as(company) {
                return Some(i);
            }
            i += 1;
        }
        None
    }

    /// Lists `company` with a fresh, empty order book. Where the company is
    /// listed already, its book is replaced by an empty one.
    pub fn list_new_company(&mut self, company: Company)
        requires
            old(self).wf(),
        ensures
            final(self).wf(),
            final(self).listed(company@),
            forall|i: int|
                0 <= i < old(self).orderbooks@.len() ==> (#[trigger] final(self).orderbooks@[i]).company
                    == old(self).orderbooks@[i].company,
            forall|i: int|
                0 <= i < old(self).orderbooks@.len() && old(self).orderbooks@[i].company@
                    != company@ ==> (#[trigger] final(self).orderbooks@[i]) == old(
                    self,
                ).orderbooks@[i],
            forall|i: int|
                0 <= i < final(self).orderbooks@.len() && (
                #[trigger] final(self).orderbooks@[i]).company@ == company@ ==> {
                    &&& final(self).orderbooks@[i].orderbook.buy_orders@ == Seq::<Level>::empty()
                    &&& final(self).orderbooks@[i].orderbook.sell_orders@ == Seq::<Level>::empty()
                },
            final(self).orderbooks@.len() == old(self).orderbooks@.len() + (if old(self).listed(
                company@,
            ) {
                0int
            } else {
                1int
            }),
    {
        let orderbook = OrderBook::new();
        match self.find(&company) {
            Some(i) => {
                self.orderbooks[i].orderbook = orderbook;
                assert(self.orderbooks@[i as int].company@ == company@);
            },
            None => {
                self.orderbooks.push(Listing { company, orderbook });
                assert(self.orderbooks@[old(self).orderbooks@.len() as int].company@ == company@);
            },
        }
    }

    /// The order book of `company`, to read and to change; `None` where the
    /// company was never listed.
    pub fn get_company_orderbook(&mut self, company: &Company) -> (r: Option<&mut OrderBook>)
        ensures
            r is Some == old(self).listed(company@),
            match r {
                Some(book) => exists|i: int|
                    {
                        &&& 0 <= i < old(self).orderbooks@.len()
                        &&& (#[trigger] old(self).orderbooks@[i]).company@ == company@
                        &&& *book == old(self).orderbooks@[i].orderbook
                        &&& final(self).orderbooks@ == old(self).orderbooks@.update(
                            i,
                            Listing { company: old(self).orderbooks@[i].company, orderbook: *final(book) },
                        )
                    },
                None => *final(self) == *old(self),
            },
    {
        match self.find(company) {
            Some(i) => Some(&mut self.orderbooks[i].orderbook),
            None => None,
        }
    }
}

} // verus!
