//! The exchange: admission of trades, placement of orders, and the matching
//! engine that runs after each block.

pub mod book;
pub mod engine;
pub mod matching;
pub mod priority;
pub mod settlement;
pub mod types;

use crate::asset::ledger::{follows, LedgerView};
use crate::asset::types::ModifyBalancePayload;
use crate::asset::{AssetError, AssetFacade};
use crate::context::{admission_token_bytes, Event, EventView, ServiceContext, ServiceContextParams};
use crate::dex::book::{
    book_del, book_get, book_has, book_put, distinct_orders, distinct_trades, has_trade, lemma_del_distinct,
    lemma_order_unique, lemma_put_distinct, lemma_trade_unique, settled, sweep_upto, trade_of, trade_pos,
};
use crate::dex::types::{
    AddTradePayload, Deal, DealStatus, GenesisPayload, GetOrderPayload, GetOrderResponse, GetTradesResponse,
    ModifyAssetPayload, Order, OrderKind, OrderPayload, OrderStatus, OrderView, Trade,
};
use crate::json::append_bytes;
use crate::primitive::{
    self, bytes_lt, digest_of, hex_text, lemma_bytes_lt_total, lemma_hash_by_bytes, null_item, Address,
};
use vstd::prelude::*;

verus! {

/// Why a call of the exchange failed. `Asset` carries the error of the
/// ledger call that the exchange made.
#[derive(Debug)]
pub enum DexError {
    JsonParse(serde_json::Error),
    IllegalTrade,
    TradeExisted,
    TradeNotExisted,
    OrderOverdue,
    OrderNotExisted,
    Asset(AssetError),
}

impl DexError {
    /// The stable numeric code of the error.
    pub open spec fn code_of(self) -> u64 {
        match self {
            DexError::JsonParse(_) => 201,
            DexError::IllegalTrade => 202,
            DexError::TradeExisted => 203,
            DexError::TradeNotExisted => 204,
            DexError::OrderOverdue => 205,
            DexError::OrderNotExisted => 206,
            DexError::Asset(e) => e.code_of(),
        }
    }

    /// The stable numeric code of the error.
    pub fn code(&self) -> (c: u64)
        ensures
            c == self.code_of(),
    {
        match self {
            DexError::JsonParse(_) => 201,
            DexError::IllegalTrade => 202,
            DexError::TradeExisted => 203,
            DexError::TradeNotExisted => 204,
            DexError::OrderOverdue => 205,
            DexError::OrderNotExisted => 206,
            DexError::Asset(e) => e.code(),
        }
    }
}

/// The exchange as a mathematical value: the admitted trades, the three
/// books in the order in which their entries were first put, the validity
/// and the ledger.
pub struct DexView {
    pub trades: Seq<Trade>,
    pub buys: Seq<OrderView>,
    pub sells: Seq<OrderView>,
    pub history: Seq<OrderView>,
    pub validity: u64,
    pub ledger: LedgerView,
}

/// The canonical id of the trade of two assets: the digest of their
/// hexadecimal texts, the smaller hash first.
pub open spec fn trade_id_of(a: primitive::Hash, b: primitive::Hash) -> primitive::Hash {
    if bytes_lt(a@, b@) {
        digest_of(hex_text(a@) + hex_text(b@))
    } else {
        digest_of(hex_text(b@) + hex_text(a@))
    }
}

/// The ledger payload that stands for a payload of the exchange.
pub open spec fn balance_payload(p: ModifyAssetPayload) -> ModifyBalancePayload {
    ModifyBalancePayload { asset_id: p.asset_id, user: p.user, value: p.value }
}

/// The order that a caller places with a payload in a transaction.
pub open spec fn placed_order(
    caller: Address,
    height: u64,
    tx_hash: primitive::Hash,
    p: OrderPayload,
) -> OrderView {
    OrderView {
        trade_id: p.trade_id,
        tx_hash,
        kind: p.kind,
        price: p.price,
        amount: p.amount,
        height,
        user: caller,
        expiry: p.expiry,
        status: OrderStatus::Fresh,
        deals: Seq::empty(),
    }
}

impl DexView {
    /// What admitting a trade makes of the exchange.
    pub open spec fn with_trade(self, p: AddTradePayload) -> Result<DexView, DexError> {
        let id = trade_id_of(p.base_asset, p.counter_party);
        if p.base_asset == p.counter_party {
            Err(DexError::IllegalTrade)
        } else if has_trade(self.trades, id) {
            Err(DexError::TradeExisted)
        } else {
            Ok(
                DexView {
                    trades: self.trades.push(
                        Trade { id, base_asset: p.base_asset, counter_party: p.counter_party },
                    ),
                    ..self
                },
            )
        }
    }

    /// What a buyer escrows for an order, in the base asset of `trade`, or
    /// a seller, in its counter asset.
    pub open spec fn escrow_of(trade: Trade, caller: Address, p: OrderPayload) -> ModifyBalancePayload {
        match p.kind {
            OrderKind::Buy => ModifyBalancePayload {
                asset_id: trade.base_asset,
                user: caller,
                value: (p.amount * p.price) as u64,
            },
            OrderKind::Sell => ModifyBalancePayload {
                asset_id: trade.counter_party,
                user: caller,
                value: p.amount,
            },
        }
    }

    /// What placing an order makes of the exchange: the order must name an
    /// admitted trade, expire within the validity, and its escrow must be
    /// a number that the ledger can lock. Where block height and validity
    /// add up to more than the largest block number, no order is admitted.
    pub open spec fn with_order(
        self,
        caller: Address,
        height: u64,
        tx_hash: primitive::Hash,
        p: OrderPayload,
    ) -> Result<DexView, DexError> {
        let order = placed_order(caller, height, tx_hash, p);
        let trade = trade_of(self.trades, p.trade_id);
        if !has_trade(self.trades, p.trade_id) {
            Err(DexError::TradeNotExisted)
        } else if height + self.validity > u64::MAX || p.expiry > height + self.validity {
            Err(DexError::OrderOverdue)
        } else if p.kind == OrderKind::Buy && p.amount * p.price > u64::MAX {
            Err(DexError::Asset(AssetError::U64Overflow))
        } else {
            match self.ledger.escrowed(Self::escrow_of(trade, caller, p)) {
                Err(e) => Err(DexError::Asset(e)),
                Ok(ledger) => match p.kind {
                    OrderKind::Buy => Ok(DexView { buys: book_put(self.buys, order), ledger, ..self }),
                    OrderKind::Sell => Ok(DexView { sells: book_put(self.sells, order), ledger, ..self }),
                },
            }
        }
    }

    /// The ledger replaced, everything else as it was.
    pub open spec fn with_ledger(self, ledger: LedgerView) -> DexView {
        DexView { ledger, ..self }
    }

    /// The exchange after the expiry sweep at a block height: first the buy
    /// book is swept, then the sell book.
    pub open spec fn swept(self, height: u64) -> DexView {
        let b = sweep_upto(self.buys, self.trades, height, self.history, self.ledger, self.buys.len());
        let s = sweep_upto(self.sells, self.trades, height, b.history, b.ledger, self.sells.len());
        DexView { buys: b.kept, sells: s.kept, history: s.history, ledger: s.ledger, ..self }
    }

    /// The ledger after a deal of `q` units at price `p` between a buy and a
    /// sell order, in the trade that the buy order names: the six balance
    /// changes, all or none.
    pub open spec fn deal_ledger(self, b: OrderView, s: OrderView, p: u64, q: u64) -> Result<
        LedgerView,
        DexError,
    > {
        if !has_trade(self.trades, b.trade_id) {
            Err(DexError::TradeNotExisted)
        } else {
            match settled(self.ledger, trade_of(self.trades, b.trade_id), b.user, s.user, q, p, b.price) {
                Ok(l) => Ok(l),
                Err(e) => Err(DexError::Asset(e)),
            }
        }
    }

    /// A deal that fills the buy order and a part of the sell order: the buy
    /// order leaves its book for the history, the sell order stays with more
    /// settled.
    pub open spec fn buyer_settled(self, p: u64, q: u64, b: OrderView, s: OrderView) -> Result<
        DexView,
        DexError,
    > {
        let deal = Deal { price: p, amount: q };
        match self.deal_ledger(b, s, p, q) {
            Err(e) => Err(e),
            Ok(ledger) => Ok(
                DexView {
                    buys: book_del(self.buys, b.tx_hash),
                    history: book_put(self.history, b.filled(deal)),
                    sells: book_put(self.sells, s.advanced(deal)),
                    ledger,
                    ..self
                },
            ),
        }
    }

    /// A deal that fills the sell order and a part of the buy order.
    pub open spec fn seller_settled(self, p: u64, q: u64, b: OrderView, s: OrderView) -> Result<
        DexView,
        DexError,
    > {
        let deal = Deal { price: p, amount: q };
        match self.deal_ledger(b, s, p, q) {
            Err(e) => Err(e),
            Ok(ledger) => Ok(
                DexView {
                    sells: book_del(self.sells, s.tx_hash),
                    history: book_put(self.history, s.filled(deal)),
                    buys: book_put(self.buys, b.advanced(deal)),
                    ledger,
                    ..self
                },
            ),
        }
    }

    /// A deal that fills both orders: both leave their books for the
    /// history, the sell order first.
    pub open spec fn both_settled(self, p: u64, q: u64, b: OrderView, s: OrderView) -> Result<
        DexView,
        DexError,
    > {
        let deal = Deal { price: p, amount: q };
        match self.deal_ledger(b, s, p, q) {
            Err(e) => Err(e),
            Ok(ledger) => Ok(
                DexView {
                    sells: book_del(self.sells, s.tx_hash),
                    buys: book_del(self.buys, b.tx_hash),
                    history: book_put(book_put(self.history, s.filled(deal)), b.filled(deal)),
                    ledger,
                    ..self
                },
            ),
        }
    }
}

/// The orders of a book as mathematical values.
pub open spec fn views(orders: Seq<Order>) -> Seq<OrderView> {
    orders.map_values(|o: Order| o@)
}

/// The place of the order of a transaction hash, if the book holds one.
fn find_order(book: &Vec<Order>, tx: &primitive::Hash) -> (found: Option<usize>)
    ensures
        match found {
            Some(i) => i < book@.len() && book@[i as int].tx_hash == *tx,
            None => !book_has(views(book@), *tx),
        },
{
    let mut i: usize = 0;
    while i < book.len()
        invariant
            0 <= i <= book@.len(),
            forall|j: int| 0 <= j < i ==> (#[trigger] views(book@)[j]).tx_hash != *tx,
        decreases book@.len() - i,
    {
        if book[i].tx_hash.equals(tx) {
            return Some(i);
        }
        i = i + 1;
    }
    None
}

/// Puts an order into a book, in the place of the order of the same
/// transaction hash if there is one.
fn put_order(book: &mut Vec<Order>, order: Order)
    requires
        distinct_orders(views(old(book)@)),
    ensures
        views(final(book)@) == book_put(views(old(book)@), order@),
        distinct_orders(views(final(book)@)),
{
    let ghost before = views(book@);
    let ghost o = order@;
    proof {
        lemma_put_distinct(before, o);
    }
    match find_order(book, &order.tx_hash) {
        Some(i) => {
            proof {
                assert(before[i as int].tx_hash == o.tx_hash);
                lemma_order_unique(before, i as int);
            }
            book[i] = order;
            assert(views(book@) =~= before.update(i as int, o));
        },
        None => {
            book.push(order);
            assert(views(book@) =~= before.push(o));
        },
    }
}

/// Takes the order of a transaction hash out of a book.
fn remove_order(book: &mut Vec<Order>, tx: &primitive::Hash)
    requires
        distinct_orders(views(old(book)@)),
    ensures
        views(final(book)@) == book_del(views(old(book)@), *tx),
        distinct_orders(views(final(book)@)),
{
    let ghost before = views(book@);
    proof {
        lemma_del_distinct(before, *tx);
    }
    match find_order(book, tx) {
        Some(i) => {
            proof {
                assert(before[i as int].tx_hash == *tx);
                lemma_order_unique(before, i as int);
            }
            let _ = book.remove(i);
            assert(views(book@) =~= before.remove(i as int));
        },
        None => {},
    }
}

/// The exchange. It owns the ledger facade through which it escrows and
/// settles.
pub struct DexService<A: AssetFacade> {
    trades: Vec<Trade>,
    buy_orders: Vec<Order>,
    sell_orders: Vec<Order>,
    history_orders: Vec<Order>,
    validity: u64,
    asset: A,
}

/// The exchange offers no operation to other services.
pub trait DexFacade {

}

impl<A: AssetFacade> DexFacade for DexService<A> {

}

impl<A: AssetFacade> View for DexService<A> {
    type V = DexView;

    closed spec fn view(&self) -> DexView {
        DexView {
            trades: self.trades@,
            buys: views(self.buy_orders@),
            sells: views(self.sell_orders@),
            history: views(self.history_orders@),
            validity: self.validity,
            ledger: self.asset.ledger(),
        }
    }
}

/// Whether an order may stand in the book of its kind: it is open, names an
/// admitted trade, and the price of its whole amount is a number.
pub open spec fn bookable(trades: Seq<Trade>, o: OrderView, kind: OrderKind) -> bool {
    &&& o.kind == kind
    &&& o.open()
    &&& has_trade(trades, o.trade_id)
    &&& o.amount * o.price <= u64::MAX || kind == OrderKind::Sell
}

impl DexView {
    /// The invariant of the exchange: trades and orders are keyed without
    /// repetition, a trade joins two different assets, and every order in a
    /// book may stand there.
    pub open spec fn wf(self) -> bool {
        &&& self.ledger.total()
        &&& distinct_trades(self.trades)
        &&& forall|i: int|
            0 <= i < self.trades.len() ==> (#[trigger] self.trades[i]).base_asset
                != self.trades[i].counter_party
        &&& distinct_orders(self.buys)
        &&& distinct_orders(self.sells)
        &&& distinct_orders(self.history)
        &&& forall|i: int|
            0 <= i < self.buys.len() ==> bookable(self.trades, #[trigger] self.buys[i], OrderKind::Buy)
        &&& forall|i: int|
            0 <= i < self.sells.len() ==> bookable(self.trades, #[trigger] self.sells[i], OrderKind::Sell)
    }
}

impl<A: AssetFacade> DexService<A> {
    /// The invariant of the exchange and of its ledger.
    pub closed spec fn wf(&self) -> bool {
        self@.wf() && self.asset.valid()
    }

    /// Everything that all users together hold of one asset.
    pub closed spec fn held(&self, id: primitive::Hash) -> int {
        self.asset.held(id)
    }

    /// Asset conservation: of every recorded asset, all users together hold
    /// exactly its supply.
    pub open spec fn conserved(&self) -> bool {
        forall|id: primitive::Hash|
            self@.ledger.has_asset(id) ==> #[trigger] self.held(id) == self@.ledger.assets[id].supply
    }

    /// An exchange without trades and orders, with validity zero, over the
    /// given ledger.
    pub fn new(asset: A) -> (service: Self)
        requires
            asset.valid(),
            asset.ledger().total(),
        ensures
            service.wf(),
            service@ == (DexView {
                trades: Seq::empty(),
                buys: Seq::empty(),
                sells: Seq::empty(),
                history: Seq::empty(),
                validity: 0,
                ledger: asset.ledger(),
            }),
            forall|id: primitive::Hash| #[trigger] service.held(id) == asset.held(id),
    {
        let service = DexService {
            trades: Vec::new(),
            buy_orders: Vec::new(),
            sell_orders: Vec::new(),
            history_orders: Vec::new(),
            validity: 0,
            asset,
        };
        assert(service@.buys =~= Seq::empty());
        assert(service@.sells =~= Seq::empty());
        assert(service@.history =~= Seq::empty());
        service
    }

    /// The ledger that the exchange settles through.
    pub fn asset(&self) -> (asset: &A)
        ensures
            asset.ledger() == self@.ledger,
            self.wf() ==> asset.valid(),
            forall|id: primitive::Hash| #[trigger] asset.held(id) == self.held(id),
    {
        &self.asset
    }

    /// The ledger, to be changed by its own operations. The exchange stays
    /// valid as long as the ledger does.
    pub fn asset_mut(&mut self) -> (asset: &mut A)
        ensures
            asset.ledger() == old(self)@.ledger,
            old(self).wf() ==> asset.valid(),
            forall|id: primitive::Hash| #[trigger] asset.held(id) == old(self).held(id),
            final(self)@ == old(self)@.with_ledger(final(asset).ledger()),
            forall|id: primitive::Hash| #[trigger] final(self).held(id) == final(asset).held(id),
            old(self).wf() && final(asset).valid() && final(asset).ledger().total() ==> final(self).wf(),
    {
        &mut self.asset
    }

    /// Sets for how many blocks after its submission an order may stay open.
    pub fn init_genesis(&mut self, payload: GenesisPayload)
        requires
            old(self).wf(),
        ensures
            final(self).wf(),
            final(self)@ == (DexView { validity: payload.order_validity, ..old(self)@ }),
            forall|id: primitive::Hash| #[trigger] final(self).held(id) == old(self).held(id),
            old(self).conserved() ==> final(self).conserved(),
    {
        self.validity = payload.order_validity;
        assert forall|id: primitive::Hash| #[trigger] self.held(id) == old(self).held(id) by {}
    }

    /// The place of the trade of an id, if it is admitted.
    fn find_trade(&self, id: &primitive::Hash) -> (found: Option<usize>)
        ensures
            match found {
                Some(i) => i < self.trades@.len() && self.trades@[i as int].id == *id,
                None => !has_trade(self.trades@, *id),
            },
    {
        let mut i: usize = 0;
        while i < self.trades.len()
            invariant
                0 <= i <= self.trades@.len(),
                forall|j: int| 0 <= j < i ==> (#[trigger] self.trades@[j]).id != *id,
            decreases self.trades@.len() - i,
        {
            if self.trades[i].id.equals(id) {
                return Some(i);
            }
            i = i + 1;
        }
        None
    }

    /// The trade admitted under an id.
    fn get_trade(&self, trade_id: primitive::Hash) -> (res: Result<Trade, DexError>)
        requires
            self.wf(),
        ensures
            match res {
                Ok(trade) => has_trade(self@.trades, trade_id) && trade == trade_of(self@.trades, trade_id)
                    && trade.id == trade_id && trade.base_asset != trade.counter_party,
                Err(e) => !has_trade(self@.trades, trade_id) && e == DexError::TradeNotExisted,
            },
    {
        match self.find_trade(&trade_id) {
            Some(i) => {
                proof {
                    lemma_trade_unique(self.trades@, i as int);
                }
                Ok(self.trades[i])
            },
            None => Err(DexError::TradeNotExisted),
        }
    }

    /// Admits the trade of two different assets under its canonical id, and
    /// publishes it as an event.
    pub fn add_trade(&mut self, ctx: &mut ServiceContext, payload: AddTradePayload) -> (res: Result<
        (),
        DexError,
    >)
        requires
            old(self).wf(),
        ensures
            final(self).wf(),
            follows(old(self)@, final(self)@, res, old(self)@.with_trade(payload)),
            res is Ok ==> final(ctx).emitted() == old(ctx).emitted().push(
                EventView::AddTrade(
                    Trade {
                        id: trade_id_of(payload.base_asset, payload.counter_party),
                        base_asset: payload.base_asset,
                        counter_party: payload.counter_party,
                    },
                ),
            ),
            res is Err ==> final(ctx).emitted() == old(ctx).emitted(),
            final(ctx).caller == old(ctx).caller,
            final(ctx).tx_hash == old(ctx).tx_hash,
            final(ctx).height == old(ctx).height,
            final(ctx).extra == old(ctx).extra,
            forall|id: primitive::Hash| #[trigger] final(self).held(id) == old(self).held(id),
            old(self).conserved() ==> final(self).conserved(),
    {
        let base_asset = payload.base_asset;
        let counter_party = payload.counter_party;
        if base_asset.equals(&counter_party) {
            return Err(DexError::IllegalTrade);
        }
        let trade_id = if base_asset.precedes(&counter_party) {
            let mut text = base_asset.as_hex();
            let second = counter_party.as_hex();
            append_bytes(&mut text, &second);
            primitive::Hash::digest(&text)
        } else {
            let mut text = counter_party.as_hex();
            let second = base_asset.as_hex();
            append_bytes(&mut text, &second);
            primitive::Hash::digest(&text)
        };
        if self.find_trade(&trade_id).is_some() {
            return Err(DexError::TradeExisted);
        }
        let trade = Trade { id: trade_id, base_asset, counter_party };
        let ghost before = self.trades@;
        self.trades.push(trade);
        proof {
            let after = self.trades@;
            assert forall|i: int, j: int| 0 <= i < j < after.len() implies after[i].id != after[j].id by {
                if j < before.len() {
                    assert(before[i].id != before[j].id);
                } else {
                    assert(before[i].id != trade_id);
                }
            }
            assert forall|id: primitive::Hash| has_trade(before, id) implies has_trade(after, id) by {
                let k = trade_pos(before, id);
                assert(after[k].id == id);
            }
            assert forall|i: int| 0 <= i < after.len() implies (#[trigger] after[i]).base_asset
                != after[i].counter_party by {
                if i < before.len() {
                    assert(before[i].base_asset != before[i].counter_party);
                }
            }
        }
        assert forall|id: primitive::Hash| #[trigger] self.held(id) == old(self).held(id) by {}
        ctx.emit_event(Event::AddTrade(trade));
        Ok(())
    }

    /// All admitted trades.
    pub fn get_trades(&self, ctx: &ServiceContext) -> (res: Result<GetTradesResponse, DexError>)
        ensures
            res matches Ok(r) && r.trades@ == self@.trades,
    {
        let mut trades: Vec<Trade> = Vec::new();
        let mut i: usize = 0;
        while i < self.trades.len()
            invariant
                0 <= i <= self.trades@.len(),
                trades@ == self.trades@.take(i as int),
            decreases self.trades@.len() - i,
        {
            trades.push(self.trades[i]);
            assert(self.trades@.take(i + 1) =~= self.trades@.take(i as int).push(self.trades@[i as int]));
            i = i + 1;
        }
        assert(self.trades@.take(self.trades@.len() as int) =~= self.trades@);
        Ok(GetTradesResponse { trades })
    }

    /// Finds an order by the hash of the transaction that placed it: in the
    /// buy book, then in the sell book, then among the orders that have left
    /// the books.
    pub fn get_order(&self, ctx: &ServiceContext, payload: GetOrderPayload) -> (res: Result<
        GetOrderResponse,
        DexError,
    >)
        requires
            self.wf(),
        ensures
            match res {
                Ok(r) => {
                    if book_has(self@.buys, payload.tx_hash) {
                        r.reports(book_get(self@.buys, payload.tx_hash)->0, DealStatus::Dealing)
                    } else if book_has(self@.sells, payload.tx_hash) {
                        r.reports(book_get(self@.sells, payload.tx_hash)->0, DealStatus::Dealing)
                    } else {
                        book_has(self@.history, payload.tx_hash) && r.reports(
                            book_get(self@.history, payload.tx_hash)->0,
                            DealStatus::Dealt,
                        )
                    }
                },
                Err(e) => {
                    &&& e == DexError::OrderNotExisted
                    &&& !book_has(self@.buys, payload.tx_hash)
                    &&& !book_has(self@.sells, payload.tx_hash)
                    &&& !book_has(self@.history, payload.tx_hash)
                },
            },
    {
        if let Some(i) = find_order(&self.buy_orders, &payload.tx_hash) {
            proof {
                assert(views(self.buy_orders@)[i as int] == self.buy_orders@[i as int]@);
                lemma_order_unique(self@.buys, i as int);
            }
            return Ok(GetOrderResponse::from_order(&self.buy_orders[i], DealStatus::Dealing));
        }
        if let Some(i) = find_order(&self.sell_orders, &payload.tx_hash) {
            proof {
                assert(views(self.sell_orders@)[i as int] == self.sell_orders@[i as int]@);
                lemma_order_unique(self@.sells, i as int);
            }
            return Ok(GetOrderResponse::from_order(&self.sell_orders[i], DealStatus::Dealing));
        }
        if let Some(i) = find_order(&self.history_orders, &payload.tx_hash) {
            proof {
                assert(views(self.history_orders@)[i as int] == self.history_orders@[i as int]@);
                lemma_order_unique(self@.history, i as int);
            }
            return Ok(GetOrderResponse::from_order(&self.history_orders[i], DealStatus::Dealt));
        }
        Err(DexError::OrderNotExisted)
    }
}


/// The context with which the exchange calls the ledger: no transaction, the
/// address of the empty hash as caller, and the admission token.
pub fn get_call_asset_ctx() -> (ctx: ServiceContext)
    ensures
        ctx.admitted(),
        ctx.tx_hash is None,
        ctx.height == 0,
        ctx.caller@ == digest_of(null_item())@.take(20),
        ctx.emitted() == Seq::<EventView>::empty(),
{
    let params = ServiceContextParams {
        tx_hash: None,
        caller: Address::from_hash(&primitive::Hash::from_empty()),
        height: 0,
        extra: Some(admission_token_bytes()),
        events: Vec::new(),
    };
    let ctx = ServiceContext::new(params);
    assert(ctx.emitted() =~= Seq::<EventView>::empty());
    ctx
}

impl<A: AssetFacade> DexService<A> {
    /// Asks the ledger to move `payload.value` into escrow.
    fn lock_asset(&mut self, payload: ModifyAssetPayload) -> (res: Result<(), AssetError>)
        requires
            old(self).wf(),
        ensures
            final(self).wf(),
            final(self)@ == old(self)@.with_ledger(final(self)@.ledger),
            follows(
                old(self)@.ledger,
                final(self)@.ledger,
                res,
                old(self)@.ledger.escrowed(balance_payload(payload)),
            ),
            forall|id: primitive::Hash| #[trigger] final(self).held(id) == old(self).held(id),
    {
        let lock_asset_payload = ModifyBalancePayload {
            asset_id: payload.asset_id,
            user: payload.user,
            value: payload.value,
        };
        self.asset.lock(get_call_asset_ctx(), lock_asset_payload)
    }

    /// Asks the ledger to move `payload.value` out of escrow.
    fn unlock_asset(&mut self, payload: ModifyAssetPayload) -> (res: Result<(), AssetError>)
        requires
            old(self).wf(),
        ensures
            final(self).wf(),
            final(self)@ == old(self)@.with_ledger(final(self)@.ledger),
            follows(
                old(self)@.ledger,
                final(self)@.ledger,
                res,
                old(self)@.ledger.released(balance_payload(payload)),
            ),
            forall|id: primitive::Hash| #[trigger] final(self).held(id) == old(self).held(id),
    {
        let unlock_asset_payload = ModifyBalancePayload {
            asset_id: payload.asset_id,
            user: payload.user,
            value: payload.value,
        };
        self.asset.unlock(get_call_asset_ctx(), unlock_asset_payload)
    }

    /// Asks the ledger to credit `payload.value`.
    fn add_value(&mut self, payload: ModifyAssetPayload) -> (res: Result<(), AssetError>)
        requires
            old(self).wf(),
        ensures
            final(self).wf(),
            final(self)@ == old(self)@.with_ledger(final(self)@.ledger),
            follows(
                old(self)@.ledger,
                final(self)@.ledger,
                res,
                old(self)@.ledger.credited(balance_payload(payload)),
            ),
            forall|id: primitive::Hash| #[trigger]
                final(self).held(id) == old(self).held(id) + if res is Ok && id == payload.asset_id {
                    payload.value as int
                } else {
                    0
                },
    {
        let add_asset_payload = ModifyBalancePayload {
            asset_id: payload.asset_id,
            user: payload.user,
            value: payload.value,
        };
        self.asset.add_value(get_call_asset_ctx(), add_asset_payload)
    }

    /// Asks the ledger to debit `payload.value`.
    fn sub_value(&mut self, payload: ModifyAssetPayload) -> (res: Result<(), AssetError>)
        requires
            old(self).wf(),
        ensures
            final(self).wf(),
            final(self)@ == old(self)@.with_ledger(final(self)@.ledger),
            follows(
                old(self)@.ledger,
                final(self)@.ledger,
                res,
                old(self)@.ledger.debited(balance_payload(payload)),
            ),
            forall|id: primitive::Hash| #[trigger]
                final(self).held(id) == old(self).held(id) - if res is Ok && id == payload.asset_id {
                    payload.value as int
                } else {
                    0
                },
    {
        let sub_asset_payload = ModifyBalancePayload {
            asset_id: payload.asset_id,
            user: payload.user,
            value: payload.value,
        };
        self.asset.sub_value(get_call_asset_ctx(), sub_asset_payload)
    }

    /// Places a limit order in the name of the caller: escrows what the order
    /// may cost (for a buy, amount times price of the trade's base asset; for
    /// a sell, the amount of its counter asset), puts the order into the book
    /// of its kind under the hash of the transaction, and publishes it as an
    /// event. An order is refused that names no admitted trade, that expires
    /// later than the validity allows, or whose escrow the ledger refuses.
    pub fn order(&mut self, ctx: &mut ServiceContext, payload: OrderPayload) -> (res: Result<(), DexError>)
        requires
            old(self).wf(),
            old(ctx).tx_hash is Some,
        ensures
            final(self).wf(),
            follows(
                old(self)@,
                final(self)@,
                res,
                old(self)@.with_order(old(ctx).caller, old(ctx).height, old(ctx).tx_hash->0, payload),
            ),
            res is Ok ==> payload.expiry <= old(ctx).height + old(self)@.validity,
            res is Ok ==> final(ctx).emitted() == old(ctx).emitted().push(
                EventView::Order(placed_order(old(ctx).caller, old(ctx).height, old(ctx).tx_hash->0, payload)),
            ),
            res is Err ==> final(ctx).emitted() == old(ctx).emitted(),
            final(ctx).caller == old(ctx).caller,
            final(ctx).tx_hash == old(ctx).tx_hash,
            final(ctx).height == old(ctx).height,
            final(ctx).extra == old(ctx).extra,
            forall|id: primitive::Hash| #[trigger] final(self).held(id) == old(self).held(id),
            old(self).conserved() ==> final(self).conserved(),
    {
        let trade_id = payload.trade_id;
        let trade = match self.get_trade(trade_id) {
            Ok(t) => t,
            Err(e) => {
                return Err(e);
            },
        };
        match ctx.get_current_height().checked_add(self.validity) {
            None => {
                return Err(DexError::OrderOverdue);
            },
            Some(limit) => {
                if payload.expiry > limit {
                    return Err(DexError::OrderOverdue);
                }
            },
        }
        let tx_hash = ctx.get_tx_hash().unwrap();
        let order = Order {
            trade_id,
            tx_hash,
            kind: payload.kind,
            price: payload.price,
            amount: payload.amount,
            height: ctx.get_current_height(),
            user: ctx.get_caller(),
            expiry: payload.expiry,
            status: OrderStatus::Fresh,
            deals: Vec::new(),
        };
        assert(order@ =~= placed_order(ctx.caller, ctx.height, tx_hash, payload)) by {
            assert(order@.deals =~= Seq::empty());
        }
        match order.kind {
            OrderKind::Buy => {
                let value = match order.amount.checked_mul(order.price) {
                    Some(v) => v,
                    None => {
                        return Err(DexError::Asset(AssetError::U64Overflow));
                    },
                };
                let lock_asset_payload = ModifyAssetPayload {
                    asset_id: trade.base_asset,
                    user: ctx.get_caller(),
                    value,
                };
                match self.lock_asset(lock_asset_payload) {
                    Ok(()) => {},
                    Err(e) => {
                        return Err(DexError::Asset(e));
                    },
                }
                let ghost locked = *self;
                proof {
                    lemma_put_wf(self@.buys, self@.trades, order@, OrderKind::Buy);
                }
                put_order(&mut self.buy_orders, order.clone());
                assert forall|id: primitive::Hash| #[trigger] self.held(id) == old(self).held(id) by {
                    assert(locked.held(id) == old(self).held(id));
                }
            },
            OrderKind::Sell => {
                let lock_asset_payload = ModifyAssetPayload {
                    asset_id: trade.counter_party,
                    user: ctx.get_caller(),
                    value: order.amount,
                };
                match self.lock_asset(lock_asset_payload) {
                    Ok(()) => {},
                    Err(e) => {
                        return Err(DexError::Asset(e));
                    },
                }
                let ghost locked = *self;
                proof {
                    lemma_put_wf(self@.sells, self@.trades, order@, OrderKind::Sell);
                }
                put_order(&mut self.sell_orders, order.clone());
                assert forall|id: primitive::Hash| #[trigger] self.held(id) == old(self).held(id) by {
                    assert(locked.held(id) == old(self).held(id));
                }
            },
        }
        ctx.emit_event(Event::Order(order));
        Ok(())
    }
}

/// Putting an order that may stand in a book keeps the book one of orders
/// that may stand there.
pub proof fn lemma_put_wf(book: Seq<OrderView>, trades: Seq<Trade>, o: OrderView, kind: OrderKind)
    requires
        forall|i: int| 0 <= i < book.len() ==> bookable(trades, #[trigger] book[i], kind),
        bookable(trades, o, kind),
    ensures
        forall|i: int|
            0 <= i < book_put(book, o).len() ==> bookable(trades, #[trigger] book_put(book, o)[i], kind),
{
    let next = book_put(book, o);
    assert forall|i: int| 0 <= i < next.len() implies bookable(trades, #[trigger] next[i], kind) by {
        if next[i] != o {
            assert(next[i] == book[i]);
        }
    }
}


/// The id of a trade does not depend on the order in which its two assets
/// are named.
pub proof fn law_trade_id_commutes(x: primitive::Hash, y: primitive::Hash)
    ensures
        trade_id_of(x, y) == trade_id_of(y, x),
{
    lemma_bytes_lt_total(x@, y@);
    if x@ == y@ {
        lemma_hash_by_bytes(x, y);
    }
}

/// A trade is admitted once: after the trade of `x` and `y` is admitted,
/// neither the trade of `x` and `y` nor the trade of `y` and `x` is
/// admitted again; and the trade of an asset with itself never is.
pub proof fn law_trade_admitted_once(dex: DexView, x: primitive::Hash, y: primitive::Hash)
    ensures
        dex.with_trade(AddTradePayload { base_asset: x, counter_party: x }) == Err::<DexView, DexError>(
            DexError::IllegalTrade,
        ),
        dex.with_trade(AddTradePayload { base_asset: x, counter_party: y }) matches Ok(next) ==> {
            &&& next.with_trade(AddTradePayload { base_asset: x, counter_party: y }) == Err::<DexView, DexError>(
                DexError::TradeExisted,
            )
            &&& next.with_trade(AddTradePayload { base_asset: y, counter_party: x }) == Err::<DexView, DexError>(
                DexError::TradeExisted,
            )
        },
{
    law_trade_id_commutes(x, y);
    if dex.with_trade(AddTradePayload { base_asset: x, counter_party: y }) is Ok {
        let next = dex.with_trade(AddTradePayload { base_asset: x, counter_party: y })->Ok_0;
        assert(next.trades[next.trades.len() - 1].id == trade_id_of(x, y));
    }
}


/// Copies a book.
fn copy_orders(book: &Vec<Order>) -> (copy: Vec<Order>)
    ensures
        views(copy@) == views(book@),
{
    let mut copy: Vec<Order> = Vec::new();
    let mut i: usize = 0;
    while i < book.len()
        invariant
            0 <= i <= book@.len(),
            views(copy@) == views(book@).take(i as int),
        decreases book@.len() - i,
    {
        let ghost before = views(copy@);
        let order = book[i].clone();
        let ghost o = order@;
        copy.push(order);
        assert(views(copy@) =~= before.push(o));
        assert(views(book@)[i as int] == o);
        assert(views(copy@) =~= views(book@).take(i + 1));
        i = i + 1;
    }
    assert(views(book@).take(book@.len() as int) =~= views(book@));
    copy
}

impl<A: AssetFacade> DexService<A> {
    /// For how many blocks after its submission an order may stay open.
    pub fn validity(&self) -> (validity: u64)
        ensures
            validity == self@.validity,
    {
        self.validity
    }

    /// The buy book, oldest entry first.
    pub fn buy_orders(&self) -> (orders: Vec<Order>)
        ensures
            views(orders@) == self@.buys,
    {
        copy_orders(&self.buy_orders)
    }

    /// The sell book, oldest entry first.
    pub fn sell_orders(&self) -> (orders: Vec<Order>)
        ensures
            views(orders@) == self@.sells,
    {
        copy_orders(&self.sell_orders)
    }

    /// The orders that have left the books, oldest entry first.
    pub fn history_orders(&self) -> (orders: Vec<Order>)
        ensures
            views(orders@) == self@.history,
    {
        copy_orders(&self.history_orders)
    }
}


} // verus!
