//! Settlement: the six balance changes of a deal, made all or none, and
//! what a deal makes of the two orders and their books.

use crate::asset::ledger::{follows, LedgerView};
use crate::asset::{AssetError, AssetFacade};
use crate::dex::book::{book_del, distinct_orders, lemma_del_distinct, settled};
use crate::dex::types::{Deal, ModifyAssetPayload, Order, OrderKind, OrderStatus, OrderView, Trade};
use crate::dex::{balance_payload, bookable, lemma_put_wf, put_order, remove_order, DexError, DexService};
use crate::primitive::{self, Address};
use vstd::prelude::*;

verus! {

/// By how much the first `done` of the six balance changes of a deal shift
/// what all users together hold of asset `id`.
pub open spec fn held_shift(done: int, trade: Trade, q: u64, cost: u64, id: primitive::Hash) -> int {
    (if done >= 2 && id == trade.counter_party {
        q as int
    } else {
        0
    }) - (if done >= 3 && id == trade.base_asset {
        cost as int
    } else {
        0
    }) + (if done >= 5 && id == trade.base_asset {
        cost as int
    } else {
        0
    }) - (if done >= 6 && id == trade.counter_party {
        q as int
    } else {
        0
    })
}

impl<A: AssetFacade> DexService<A> {
    /// Takes back a release of escrow that the ledger has just made.
    fn undo_unlock(&mut self, payload: ModifyAssetPayload, Ghost(before): Ghost<LedgerView>)
        requires
            old(self).wf(),
            before.total(),
            before.released(balance_payload(payload)) == Ok::<LedgerView, AssetError>(old(self)@.ledger),
        ensures
            final(self).wf(),
            final(self)@ == old(self)@.with_ledger(before),
            forall|id: primitive::Hash| #[trigger] final(self).held(id) == old(self).held(id),
    {
        let ghost p = balance_payload(payload);
        let ghost now = self@.ledger;
        proof {
            let b = before.balance(p.user, p.asset_id);
            let next = now.escrowed(p);
            assert(next is Ok);
            assert(next->Ok_0.balances =~= before.balances);
        }
        let _ = self.lock_asset(payload);
    }

    /// Takes back a credit that the ledger has just made.
    fn undo_add(&mut self, payload: ModifyAssetPayload, Ghost(before): Ghost<LedgerView>)
        requires
            old(self).wf(),
            before.total(),
            before.credited(balance_payload(payload)) == Ok::<LedgerView, AssetError>(old(self)@.ledger),
        ensures
            final(self).wf(),
            final(self)@ == old(self)@.with_ledger(before),
            forall|id: primitive::Hash| #[trigger]
                final(self).held(id) == old(self).held(id) - if id == payload.asset_id {
                    payload.value as int
                } else {
                    0
                },
    {
        let ghost p = balance_payload(payload);
        let ghost now = self@.ledger;
        proof {
            let next = now.debited(p);
            assert(next is Ok);
            assert(next->Ok_0.balances =~= before.balances);
        }
        let _ = self.sub_value(payload);
    }

    /// Takes back a debit that the ledger has just made.
    fn undo_sub(&mut self, payload: ModifyAssetPayload, Ghost(before): Ghost<LedgerView>)
        requires
            old(self).wf(),
            before.total(),
            before.debited(balance_payload(payload)) == Ok::<LedgerView, AssetError>(old(self)@.ledger),
        ensures
            final(self).wf(),
            final(self)@ == old(self)@.with_ledger(before),
            forall|id: primitive::Hash| #[trigger]
                final(self).held(id) == old(self).held(id) + if id == payload.asset_id {
                    payload.value as int
                } else {
                    0
                },
    {
        let ghost p = balance_payload(payload);
        let ghost now = self@.ledger;
        proof {
            let next = now.credited(p);
            assert(next is Ok);
            assert(next->Ok_0.balances =~= before.balances);
        }
        let _ = self.add_value(payload);
    }

    /// Makes the six balance changes of one deal, or none of them: when the
    /// ledger refuses one, those already made are taken back.
    fn transfer_deal(
        &mut self,
        trade: Trade,
        buyer: Address,
        seller: Address,
        q: u64,
        p: u64,
        pb: u64,
    ) -> (res: Result<(), AssetError>)
        requires
            old(self).wf(),
        ensures
            final(self).wf(),
            final(self)@ == old(self)@.with_ledger(final(self)@.ledger),
            follows(
                old(self)@.ledger,
                final(self)@.ledger,
                res,
                settled(old(self)@.ledger, trade, buyer, seller, q, p, pb),
            ),
            forall|id: primitive::Hash| #[trigger] final(self).held(id) == old(self).held(id),
    {
        let escrow = match q.checked_mul(pb) {
            Some(v) => v,
            None => {
                return Err(AssetError::U64Overflow);
            },
        };
        let cost = match q.checked_mul(p) {
            Some(v) => v,
            None => {
                return Err(AssetError::U64Overflow);
            },
        };
        let unlock_buyer = ModifyAssetPayload { asset_id: trade.base_asset, user: buyer, value: escrow };
        let add_buyer = ModifyAssetPayload { asset_id: trade.counter_party, user: buyer, value: q };
        let sub_buyer = ModifyAssetPayload { asset_id: trade.base_asset, user: buyer, value: cost };
        let unlock_seller = ModifyAssetPayload { asset_id: trade.counter_party, user: seller, value: q };
        let add_seller = ModifyAssetPayload { asset_id: trade.base_asset, user: seller, value: cost };
        let sub_seller = ModifyAssetPayload { asset_id: trade.counter_party, user: seller, value: q };
        let ghost l0 = self@.ledger;
        let ghost s0 = *self;
        if let Err(e) = self.unlock_asset(unlock_buyer) {
            return Err(e);
        }
        let ghost l1 = self@.ledger;
        let ghost s1 = *self;
        if let Err(e) = self.add_value(add_buyer) {
            self.undo_unlock(unlock_buyer, Ghost(l0));
            assert forall|id: primitive::Hash| #[trigger] self.held(id) == old(self).held(id) by {
                assert(s1.held(id) == s0.held(id));
            }
            return Err(e);
        }
        let ghost l2 = self@.ledger;
        let ghost s2 = *self;
        assert forall|id: primitive::Hash| s2.held(id) == s0.held(id) + held_shift(2, trade, q, cost, id) by {
            assert(s1.held(id) == s0.held(id));
        }
        if let Err(e) = self.sub_value(sub_buyer) {
            self.undo_add(add_buyer, Ghost(l1));
            let ghost t1 = *self;
            self.undo_unlock(unlock_buyer, Ghost(l0));
            assert forall|id: primitive::Hash| #[trigger] self.held(id) == old(self).held(id) by {
                assert(t1.held(id) == s2.held(id) - held_shift(2, trade, q, cost, id));
            }
            return Err(e);
        }
        let ghost l3 = self@.ledger;
        let ghost s3 = *self;
        assert forall|id: primitive::Hash| s3.held(id) == s0.held(id) + held_shift(3, trade, q, cost, id) by {
            assert(s2.held(id) == s0.held(id) + held_shift(2, trade, q, cost, id));
        }
        if let Err(e) = self.unlock_asset(unlock_seller) {
            self.undo_sub(sub_buyer, Ghost(l2));
            let ghost t2 = *self;
            self.undo_add(add_buyer, Ghost(l1));
            let ghost t1 = *self;
            self.undo_unlock(unlock_buyer, Ghost(l0));
            assert forall|id: primitive::Hash| #[trigger] self.held(id) == old(self).held(id) by {
                assert(t2.held(id) == s3.held(id) + held_shift(2, trade, q, cost, id) - held_shift(
                    3,
                    trade,
                    q,
                    cost,
                    id,
                ));
                assert(t1.held(id) == t2.held(id) - held_shift(2, trade, q, cost, id));
            }
            return Err(e);
        }
        let ghost l4 = self@.ledger;
        let ghost s4 = *self;
        assert forall|id: primitive::Hash| s4.held(id) == s0.held(id) + held_shift(3, trade, q, cost, id) by {
            assert(s3.held(id) == s0.held(id) + held_shift(3, trade, q, cost, id));
        }
        if let Err(e) = self.add_value(add_seller) {
            self.undo_unlock(unlock_seller, Ghost(l3));
            let ghost t3 = *self;
            self.undo_sub(sub_buyer, Ghost(l2));
            let ghost t2 = *self;
            self.undo_add(add_buyer, Ghost(l1));
            let ghost t1 = *self;
            self.undo_unlock(unlock_buyer, Ghost(l0));
            assert forall|id: primitive::Hash| #[trigger] self.held(id) == old(self).held(id) by {
                assert(t3.held(id) == s4.held(id));
                assert(t2.held(id) == t3.held(id) + held_shift(2, trade, q, cost, id) - held_shift(
                    3,
                    trade,
                    q,
                    cost,
                    id,
                ));
                assert(t1.held(id) == t2.held(id) - held_shift(2, trade, q, cost, id));
            }
            return Err(e);
        }
        let ghost l5 = self@.ledger;
        let ghost s5 = *self;
        assert forall|id: primitive::Hash| s5.held(id) == s0.held(id) + held_shift(5, trade, q, cost, id) by {
            assert(s4.held(id) == s0.held(id) + held_shift(3, trade, q, cost, id));
        }
        if let Err(e) = self.sub_value(sub_seller) {
            self.undo_add(add_seller, Ghost(l4));
            let ghost t4 = *self;
            self.undo_unlock(unlock_seller, Ghost(l3));
            let ghost t3 = *self;
            self.undo_sub(sub_buyer, Ghost(l2));
            let ghost t2 = *self;
            self.undo_add(add_buyer, Ghost(l1));
            let ghost t1 = *self;
            self.undo_unlock(unlock_buyer, Ghost(l0));
            assert forall|id: primitive::Hash| #[trigger] self.held(id) == old(self).held(id) by {
                assert(t4.held(id) == s5.held(id) + held_shift(3, trade, q, cost, id) - held_shift(
                    5,
                    trade,
                    q,
                    cost,
                    id,
                ));
                assert(t3.held(id) == t4.held(id));
                assert(t2.held(id) == t3.held(id) + held_shift(2, trade, q, cost, id) - held_shift(
                    3,
                    trade,
                    q,
                    cost,
                    id,
                ));
                assert(t1.held(id) == t2.held(id) - held_shift(2, trade, q, cost, id));
            }
            return Err(e);
        }
        assert forall|id: primitive::Hash| #[trigger] self.held(id) == old(self).held(id) by {
            assert(s5.held(id) == s0.held(id) + held_shift(5, trade, q, cost, id));
            assert(held_shift(6, trade, q, cost, id) == 0);
        }
        Ok(())
    }
}


/// How many units of an order are settled already.
pub fn dealt_amount(order: &Order) -> (dealt: u64)
    ensures
        dealt == order@.dealt(),
{
    match order.status {
        OrderStatus::Fresh => 0,
        OrderStatus::Partial(v) => v,
        OrderStatus::Full => order.amount,
    }
}

/// Deleting an order leaves a book of orders that may stand there.
pub proof fn lemma_del_wf(book: Seq<OrderView>, trades: Seq<Trade>, tx: primitive::Hash, kind: OrderKind)
    requires
        distinct_orders(book),
        forall|i: int| 0 <= i < book.len() ==> bookable(trades, #[trigger] book[i], kind),
    ensures
        forall|i: int|
            0 <= i < book_del(book, tx).len() ==> bookable(trades, #[trigger] book_del(book, tx)[i], kind),
{
    lemma_del_distinct(book, tx);
    let next = book_del(book, tx);
    assert forall|i: int| 0 <= i < next.len() implies bookable(trades, #[trigger] next[i], kind) by {
        assert(book.contains(next[i]));
        let j = choose|j: int| 0 <= j < book.len() && book[j] == next[i];
        assert(bookable(trades, book[j], kind));
    }
}

impl<A: AssetFacade> DexService<A> {
    /// Settles a deal that fills the buy order and a part of the sell order.
    /// Returns the sell order as it now stands in its book.
    pub(crate) fn settle_buyer(&mut self, deal_price: u64, deal_amount: u64, current_buy: Order, current_sell: Order) -> (res:
        Result<Order, DexError>)
        requires
            old(self).wf(),
            bookable(old(self)@.trades, current_sell@, OrderKind::Sell),
            deal_amount < current_sell@.left(),
        ensures
            final(self).wf(),
            follows(
                old(self)@,
                final(self)@,
                res,
                old(self)@.buyer_settled(deal_price, deal_amount, current_buy@, current_sell@),
            ),
            res matches Ok(next) ==> next@ == current_sell@.advanced(
                Deal { price: deal_price, amount: deal_amount },
            ),
            forall|id: primitive::Hash| #[trigger] final(self).held(id) == old(self).held(id),
    {
        let mut current_buy = current_buy;
        let mut current_sell = current_sell;
        let ghost b = current_buy@;
        let ghost s = current_sell@;
        let trade = match self.get_trade(current_buy.trade_id) {
            Ok(t) => t,
            Err(e) => {
                return Err(e);
            },
        };
        if let Err(e) = self.transfer_deal(
            trade,
            current_buy.user,
            current_sell.user,
            deal_amount,
            deal_price,
            current_buy.price,
        ) {
            return Err(DexError::Asset(e));
        }
        let ghost paid = *self;
        let settle_deal = Deal { price: deal_price, amount: deal_amount };
        current_buy.status = OrderStatus::Full;
        current_buy.deals.push(settle_deal);
        current_sell.deals.push(settle_deal);
        let dealt = dealt_amount(&current_sell);
        current_sell.status = OrderStatus::Partial(dealt + deal_amount);
        assert(current_buy@ == b.filled(settle_deal));
        assert(current_sell@ == s.advanced(settle_deal));
        proof {
            lemma_del_wf(self@.buys, self@.trades, b.tx_hash, OrderKind::Buy);
            lemma_put_wf(self@.sells, self@.trades, s.advanced(settle_deal), OrderKind::Sell);
        }
        remove_order(&mut self.buy_orders, &current_buy.tx_hash);
        put_order(&mut self.history_orders, current_buy);
        put_order(&mut self.sell_orders, current_sell.clone());
        assert forall|id: primitive::Hash| #[trigger] self.held(id) == old(self).held(id) by {
            assert(paid.held(id) == old(self).held(id));
        }
        Ok(current_sell)
    }

    /// Settles a deal that fills the sell order and a part of the buy order.
    /// Returns the buy order as it now stands in its book.
    pub(crate) fn settle_seller(&mut self, deal_price: u64, deal_amount: u64, current_buy: Order, current_sell: Order) -> (res:
        Result<Order, DexError>)
        requires
            old(self).wf(),
            bookable(old(self)@.trades, current_buy@, OrderKind::Buy),
            deal_amount < current_buy@.left(),
        ensures
            final(self).wf(),
            follows(
                old(self)@,
                final(self)@,
                res,
                old(self)@.seller_settled(deal_price, deal_amount, current_buy@, current_sell@),
            ),
            res matches Ok(next) ==> next@ == current_buy@.advanced(
                Deal { price: deal_price, amount: deal_amount },
            ),
            forall|id: primitive::Hash| #[trigger] final(self).held(id) == old(self).held(id),
    {
        let mut current_buy = current_buy;
        let mut current_sell = current_sell;
        let ghost b = current_buy@;
        let ghost s = current_sell@;
        let trade = match self.get_trade(current_buy.trade_id) {
            Ok(t) => t,
            Err(e) => {
                return Err(e);
            },
        };
        if let Err(e) = self.transfer_deal(
            trade,
            current_buy.user,
            current_sell.user,
            deal_amount,
            deal_price,
            current_buy.price,
        ) {
            return Err(DexError::Asset(e));
        }
        let ghost paid = *self;
        let settle_deal = Deal { price: deal_price, amount: deal_amount };
        current_sell.status = OrderStatus::Full;
        current_sell.deals.push(settle_deal);
        current_buy.deals.push(settle_deal);
        let dealt = dealt_amount(&current_buy);
        current_buy.status = OrderStatus::Partial(dealt + deal_amount);
        assert(current_sell@ == s.filled(settle_deal));
        assert(current_buy@ == b.advanced(settle_deal));
        proof {
            lemma_del_wf(self@.sells, self@.trades, s.tx_hash, OrderKind::Sell);
            lemma_put_wf(self@.buys, self@.trades, b.advanced(settle_deal), OrderKind::Buy);
        }
        remove_order(&mut self.sell_orders, &current_sell.tx_hash);
        put_order(&mut self.history_orders, current_sell);
        put_order(&mut self.buy_orders, current_buy.clone());
        assert forall|id: primitive::Hash| #[trigger] self.held(id) == old(self).held(id) by {
            assert(paid.held(id) == old(self).held(id));
        }
        Ok(current_buy)
    }

    /// Settles a deal that fills both orders.
    pub(crate) fn settle_both(&mut self, deal_price: u64, deal_amount: u64, current_buy: Order, current_sell: Order) -> (res:
        Result<(), DexError>)
        requires
            old(self).wf(),
        ensures
            final(self).wf(),
            follows(
                old(self)@,
                final(self)@,
                res,
                old(self)@.both_settled(deal_price, deal_amount, current_buy@, current_sell@),
            ),
            forall|id: primitive::Hash| #[trigger] final(self).held(id) == old(self).held(id),
    {
        let mut current_buy = current_buy;
        let mut current_sell = current_sell;
        let ghost b = current_buy@;
        let ghost s = current_sell@;
        let trade = match self.get_trade(current_buy.trade_id) {
            Ok(t) => t,
            Err(e) => {
                return Err(e);
            },
        };
        if let Err(e) = self.transfer_deal(
            trade,
            current_buy.user,
            current_sell.user,
            deal_amount,
            deal_price,
            current_buy.price,
        ) {
            return Err(DexError::Asset(e));
        }
        let ghost paid = *self;
        let settle_deal = Deal { price: deal_price, amount: deal_amount };
        current_sell.status = OrderStatus::Full;
        current_sell.deals.push(settle_deal);
        current_buy.status = OrderStatus::Full;
        current_buy.deals.push(settle_deal);
        assert(current_sell@ == s.filled(settle_deal));
        assert(current_buy@ == b.filled(settle_deal));
        proof {
            lemma_del_wf(self@.sells, self@.trades, s.tx_hash, OrderKind::Sell);
            lemma_del_wf(self@.buys, self@.trades, b.tx_hash, OrderKind::Buy);
        }
        remove_order(&mut self.sell_orders, &current_sell.tx_hash);
        put_order(&mut self.history_orders, current_sell);
        remove_order(&mut self.buy_orders, &current_buy.tx_hash);
        put_order(&mut self.history_orders, current_buy);
        assert forall|id: primitive::Hash| #[trigger] self.held(id) == old(self).held(id) by {
            assert(paid.held(id) == old(self).held(id));
        }
        Ok(())
    }
}

} // verus!
