//! Records of the exchange: trades, orders, deals and the payloads of its calls.

use crate::primitive::{self, Address};
use vstd::prelude::*;

verus! {

/// What the exchange starts with: for how many blocks an order may stay open.
#[derive(Clone, Copy, Debug, PartialEq, Eq)]
pub struct GenesisPayload {
    pub order_validity: u64,
}

/// An admitted market pair. Orders quote `counter_party` in units of `base_asset`.
#[derive(Clone, Copy, Debug, PartialEq, Eq)]
pub struct Trade {
    pub id: primitive::Hash,
    pub base_asset: primitive::Hash,
    pub counter_party: primitive::Hash,
}

/// A request to admit the trade of two assets.
#[derive(Clone, Copy, Debug, PartialEq, Eq)]
pub struct AddTradePayload {
    pub base_asset: primitive::Hash,
    pub counter_party: primitive::Hash,
}

/// All admitted trades.
#[derive(Debug, PartialEq, Eq)]
pub struct GetTradesResponse {
    pub trades: Vec<Trade>,
}

/// The side of an order.
#[derive(Clone, Copy, Debug, PartialEq, Eq, Structural)]
pub enum OrderKind {
    Buy,
    Sell,
}

impl Default for OrderKind {
    fn default() -> (k: Self)
        ensures
            k == OrderKind::Buy,
    {
        OrderKind::Buy
    }
}

/// How far an order is filled. `Partial(d)` stands for `d` units already settled.
#[derive(Clone, Copy, Debug, PartialEq, Eq, Structural)]
pub enum OrderStatus {
    Fresh,
    Partial(u64),
    Full,
}

impl Default for OrderStatus {
    fn default() -> (s: Self)
        ensures
            s == OrderStatus::Fresh,
    {
        OrderStatus::Fresh
    }
}

/// One settlement: `amount` units at `price` each.
#[derive(Clone, Copy, Debug, PartialEq, Eq, Structural)]
pub struct Deal {
    pub price: u64,
    pub amount: u64,
}

/// Whether an order is still in a book or has left it.
#[derive(Clone, Copy, Debug, PartialEq, Eq, Structural)]
pub enum DealStatus {
    Dealing,
    Dealt,
}

impl Default for DealStatus {
    fn default() -> (s: Self)
        ensures
            s == DealStatus::Dealing,
    {
        DealStatus::Dealing
    }
}

/// A limit order, keyed by the hash of the transaction that placed it.
#[derive(Debug, PartialEq, Eq)]
pub struct Order {
    pub trade_id: primitive::Hash,
    pub tx_hash: primitive::Hash,
    pub kind: OrderKind,
    pub price: u64,
    pub amount: u64,
    pub height: u64,
    pub user: Address,
    pub expiry: u64,
    pub status: OrderStatus,
    pub deals: Vec<Deal>,
}

/// An order as a mathematical value.
pub struct OrderView {
    pub trade_id: primitive::Hash,
    pub tx_hash: primitive::Hash,
    pub kind: OrderKind,
    pub price: u64,
    pub amount: u64,
    pub height: u64,
    pub user: Address,
    pub expiry: u64,
    pub status: OrderStatus,
    pub deals: Seq<Deal>,
}

impl View for Order {
    type V = OrderView;

    open spec fn view(&self) -> OrderView {
        OrderView {
            trade_id: self.trade_id,
            tx_hash: self.tx_hash,
            kind: self.kind,
            price: self.price,
            amount: self.amount,
            height: self.height,
            user: self.user,
            expiry: self.expiry,
            status: self.status,
            deals: self.deals@,
        }
    }
}

/// Copies a list of deals.
pub fn copy_deals(deals: &Vec<Deal>) -> (copy: Vec<Deal>)
    ensures
        copy@ == deals@,
{
    let mut copy: Vec<Deal> = Vec::new();
    let mut i: usize = 0;
    while i < deals.len()
        invariant
            0 <= i <= deals.len(),
            copy@ == deals@.take(i as int),
        decreases deals.len() - i,
    {
        copy.push(deals[i]);
        assert(deals@.take(i + 1) =~= deals@.take(i as int).push(deals@[i as int]));
        i = i + 1;
    }
    assert(deals@.take(deals.len() as int) =~= deals@);
    copy
}

impl Clone for Order {
    fn clone(&self) -> (copy: Self)
        ensures
            copy@ == self@,
    {
        Order {
            trade_id: self.trade_id,
            tx_hash: self.tx_hash,
            kind: self.kind,
            price: self.price,
            amount: self.amount,
            height: self.height,
            user: self.user,
            expiry: self.expiry,
            status: self.status,
            deals: copy_deals(&self.deals),
        }
    }
}

/// A request to place an order.
#[derive(Clone, Copy, Debug, PartialEq, Eq)]
pub struct OrderPayload {
    pub trade_id: primitive::Hash,
    pub kind: OrderKind,
    pub price: u64,
    pub amount: u64,
    pub expiry: u64,
}

/// A request for the order that a transaction placed.
#[derive(Clone, Copy, Debug, PartialEq, Eq)]
pub struct GetOrderPayload {
    pub tx_hash: primitive::Hash,
}

/// An order together with where it stands.
#[derive(Debug, PartialEq, Eq)]
pub struct GetOrderResponse {
    pub trade_id: primitive::Hash,
    pub tx_hash: primitive::Hash,
    pub kind: OrderKind,
    pub price: u64,
    pub amount: u64,
    pub height: u64,
    pub user: Address,
    pub expiry: u64,
    pub order_status: OrderStatus,
    pub deal_status: DealStatus,
    pub deals: Vec<Deal>,
}

impl GetOrderResponse {
    /// Whether this response reports `order` with the given standing.
    pub open spec fn reports(self, order: OrderView, status: DealStatus) -> bool {
        &&& self.trade_id == order.trade_id
        &&& self.tx_hash == order.tx_hash
        &&& self.kind == order.kind
        &&& self.price == order.price
        &&& self.amount == order.amount
        &&& self.height == order.height
        &&& self.user == order.user
        &&& self.expiry == order.expiry
        &&& self.order_status == order.status
        &&& self.deal_status == status
        &&& self.deals@ == order.deals
    }

    /// The response that reports an order with its standing.
    pub fn from_order(order: &Order, status: DealStatus) -> (response: Self)
        ensures
            response.reports(order@, status),
    {
        GetOrderResponse {
            trade_id: order.trade_id,
            tx_hash: order.tx_hash,
            kind: order.kind,
            price: order.price,
            amount: order.amount,
            height: order.height,
            user: order.user,
            expiry: order.expiry,
            order_status: order.status,
            deal_status: status,
            deals: copy_deals(&order.deals),
        }
    }
}

/// A change of `value` units that the exchange asks of the ledger.
#[derive(Clone, Copy, Debug, PartialEq, Eq)]
pub struct ModifyAssetPayload {
    pub asset_id: primitive::Hash,
    pub user: Address,
    pub value: u64,
}


/// What the matching engine did with one pair of orders: the two orders by
/// hash, price and block, the price and amount of the deal, and a code that
/// is zero for a settled deal and the code of the refusal for a pair that
/// was passed over.
#[derive(Clone, Copy, Debug, PartialEq, Eq)]
pub struct MatchRecord {
    pub buy: primitive::Hash,
    pub buy_price: u64,
    pub buy_height: u64,
    pub sell: primitive::Hash,
    pub sell_price: u64,
    pub sell_height: u64,
    pub price: u64,
    pub amount: u64,
    pub code: u64,
}

impl MatchRecord {
    /// Whether the buy order of this record has strictly lower priority than
    /// a buy order of the given price and block.
    pub open spec fn buy_ranks_below(self, price: u64, height: u64) -> bool {
        self.buy_price < price || (self.buy_price == price && self.buy_height > height)
    }

    /// Whether the sell order of this record has strictly lower priority
    /// than a sell order of the given price and block.
    pub open spec fn sell_ranks_below(self, price: u64, height: u64) -> bool {
        self.sell_price > price || (self.sell_price == price && self.sell_height > height)
    }
}

} // verus!
