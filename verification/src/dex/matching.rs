//! The hook that runs after each block: the expiry sweep, the priority
//! queues, and the rounds of matching.

use crate::asset::ledger::LedgerView;
use crate::asset::AssetFacade;
use crate::context::ExecutorParams;
use crate::dex::book::{
    distinct_orders, lemma_queue_of, lemma_sweep_keeps, queue_of, rank_pos, refund_of, sweep_upto,
};
use crate::dex::engine::{
    all_settled, in_priority_order, law_hook_keeps_assets, lemma_round, lemma_stop_uncrossed,
    lemma_sweep_assets, mid_price, uncrossed, Engine,
};
use crate::dex::settlement::dealt_amount;
use crate::dex::types::{MatchRecord, ModifyAssetPayload, Order, OrderKind, OrderView, Trade};
use crate::dex::{balance_payload, bookable, put_order, views, DexView, DexService};
use crate::primitive;
use vstd::prelude::*;

verus! {

impl<A: AssetFacade> DexService<A> {
    /// Sweeps the orders of a book that was taken out of the exchange:
    /// refunds and archives the expired ones, and returns the others.
    fn sweep_book(&mut self, book: &Vec<Order>, kind: OrderKind, current_height: u64) -> (kept: Vec<Order>)
        requires
            old(self).wf(),
            distinct_orders(views(book@)),
            forall|i: int| 0 <= i < book@.len() ==> bookable(old(self)@.trades, #[trigger] views(book@)[i], kind),
        ensures
            final(self).wf(),
            ({
                let s = sweep_upto(
                    views(book@),
                    old(self)@.trades,
                    current_height,
                    old(self)@.history,
                    old(self)@.ledger,
                    book@.len(),
                );
                &&& views(kept@) == s.kept
                &&& final(self)@ == (DexView { history: s.history, ledger: s.ledger, ..old(self)@ })
            }),
            distinct_orders(views(kept@)),
            forall|i: int| 0 <= i < kept@.len() ==> bookable(old(self)@.trades, #[trigger] views(kept@)[i], kind),
            forall|id: primitive::Hash| #[trigger] final(self).held(id) == old(self).held(id),
    {
        let mut kept: Vec<Order> = Vec::new();
        let ghost vb = views(book@);
        let ghost trades = self@.trades;
        let ghost history = self@.history;
        let ghost ledger = self@.ledger;
        let ghost start = *self;
        let mut i: usize = 0;
        assert(views(kept@) =~= Seq::<OrderView>::empty());
        while i < book.len()
            invariant
                0 <= i <= book@.len(),
                vb == views(book@),
                self.wf(),
                distinct_orders(vb),
                forall|j: int| 0 <= j < vb.len() ==> bookable(trades, #[trigger] vb[j], kind),
                views(kept@) == sweep_upto(vb, trades, current_height, history, ledger, i as nat).kept,
                self@ == (DexView {
                    history: sweep_upto(vb, trades, current_height, history, ledger, i as nat).history,
                    ledger: sweep_upto(vb, trades, current_height, history, ledger, i as nat).ledger,
                    ..start@
                }),
                start@.trades == trades,
                forall|id: primitive::Hash| #[trigger] self.held(id) == start.held(id),
            decreases book@.len() - i,
        {
            let order = book[i].clone();
            let ghost o = vb[i as int];
            assert(order@ == o);
            assert(bookable(trades, o, kind));
            let ghost prev = *self;
            if order.expiry < current_height {
                let left = order.amount - dealt_amount(&order);
                if left != 0 {
                    if let Ok(trade) = self.get_trade(order.trade_id) {
                        let payload = match order.kind {
                            OrderKind::Buy => {
                                assert(left * order.price <= order.amount * order.price) by (nonlinear_arith)
                                    requires
                                        left <= order.amount,
                                ;
                                ModifyAssetPayload {
                                    asset_id: trade.base_asset,
                                    user: order.user,
                                    value: left * order.price,
                                }
                            },
                            OrderKind::Sell => ModifyAssetPayload {
                                asset_id: trade.counter_party,
                                user: order.user,
                                value: left,
                            },
                        };
                        assert(balance_payload(payload) == refund_of(trades, o));
                        let _ = self.unlock_asset(payload);
                    }
                }
                let ghost refunded_self = *self;
                put_order(&mut self.history_orders, order);
                assert forall|id: primitive::Hash| #[trigger] self.held(id) == start.held(id) by {
                    assert(refunded_self.held(id) == prev.held(id));
                    assert(prev.held(id) == start.held(id));
                }
            } else {
                kept.push(order);
                assert(views(kept@) =~= sweep_upto(vb, trades, current_height, history, ledger, i as nat).kept.push(
                    o,
                ));
            }
            i = i + 1;
        }
        proof {
            lemma_sweep_keeps(vb, trades, current_height, history, ledger, book@.len());
            let vk = views(kept@);
            assert(vb.take(vb.len() as int) =~= vb);
            assert forall|a: int, b: int| 0 <= a < b < vk.len() implies vk[a].tx_hash != vk[b].tx_hash by {
                lemma_kept_in_order(vb, trades, current_height, history, ledger, book@.len(), a, b);
            }
            assert forall|k: int| 0 <= k < vk.len() implies bookable(trades, #[trigger] vk[k], kind) by {
                assert(vb.contains(vk[k]));
                let j = choose|j: int| 0 <= j < vb.len() && vb[j] == vk[k];
                assert(bookable(trades, vb[j], kind));
            }
        }
        kept
    }
}

/// Two orders that a sweep keeps stand in the book at two places, in the
/// same order.
pub proof fn lemma_kept_in_order(
    book: Seq<OrderView>,
    trades: Seq<Trade>,
    height: u64,
    history: Seq<OrderView>,
    ledger: LedgerView,
    n: nat,
    a: int,
    b: int,
)
    requires
        n <= book.len(),
        distinct_orders(book),
        0 <= a < b < sweep_upto(book, trades, height, history, ledger, n).kept.len(),
    ensures
        sweep_upto(book, trades, height, history, ledger, n).kept[a].tx_hash != sweep_upto(
            book,
            trades,
            height,
            history,
            ledger,
            n,
        ).kept[b].tx_hash,
    decreases n,
{
    if n > 0 {
        let prev = sweep_upto(book, trades, height, history, ledger, (n - 1) as nat);
        let cur = sweep_upto(book, trades, height, history, ledger, n);
        if b < prev.kept.len() {
            lemma_kept_in_order(book, trades, height, history, ledger, (n - 1) as nat, a, b);
        } else {
            lemma_sweep_keeps(book, trades, height, history, ledger, (n - 1) as nat);
            let head = book.take(n - 1);
            assert(head.contains(prev.kept[a]));
            let j = choose|j: int| 0 <= j < head.len() && head[j] == prev.kept[a];
            assert(book[j].tx_hash != book[n - 1].tx_hash);
        }
    }
}

impl<A: AssetFacade> DexService<A> {
    /// The expiry sweep at a block height: every order that expired before
    /// that height leaves its book, gets back out of escrow what is left of
    /// it, and goes to the history.
    pub fn remove_expiry_orders(&mut self, current_height: u64)
        requires
            old(self).wf(),
        ensures
            final(self).wf(),
            final(self)@ == old(self)@.swept(current_height),
            forall|id: primitive::Hash| #[trigger] final(self).held(id) == old(self).held(id),
            old(self).conserved() ==> final(self).conserved(),
    {
        let mut buys: Vec<Order> = Vec::new();
        std::mem::swap(&mut buys, &mut self.buy_orders);
        assert(views(self.buy_orders@) =~= Seq::<OrderView>::empty());
        let ghost s0 = *self;
        let kept_buys = self.sweep_book(&buys, OrderKind::Buy, current_height);
        let ghost s1 = *self;
        self.buy_orders = kept_buys;
        let mut sells: Vec<Order> = Vec::new();
        std::mem::swap(&mut sells, &mut self.sell_orders);
        assert(views(self.sell_orders@) =~= Seq::<OrderView>::empty());
        let ghost s2 = *self;
        let kept_sells = self.sweep_book(&sells, OrderKind::Sell, current_height);
        let ghost s3 = *self;
        self.sell_orders = kept_sells;
        assert forall|id: primitive::Hash| #[trigger] self.held(id) == old(self).held(id) by {
            assert(s1.held(id) == s0.held(id));
            assert(s3.held(id) == s2.held(id));
        }
        proof {
            let v = old(self)@;
            let b = sweep_upto(v.buys, v.trades, current_height, v.history, v.ledger, v.buys.len());
            lemma_sweep_assets(v.buys, v.trades, current_height, v.history, v.ledger, v.buys.len());
            lemma_sweep_assets(v.sells, v.trades, current_height, b.history, b.ledger, v.sells.len());
        }
    }
}


/// Whether `a` has strictly lower priority than `b`, an order of its kind.
pub fn ranks_below(a: &Order, b: &Order) -> (below: bool)
    ensures
        below == a@.ranks_below(b@),
{
    match a.kind {
        OrderKind::Buy => a.price < b.price || (a.price == b.price && a.height > b.height),
        OrderKind::Sell => a.price > b.price || (a.price == b.price && a.height > b.height),
    }
}

/// The orders of a book in ascending priority: the last one is served
/// first.
pub fn build_queue(book: &Vec<Order>) -> (queue: Vec<Order>)
    ensures
        views(queue@) == queue_of(views(book@)),
{
    let mut queue: Vec<Order> = Vec::new();
    let ghost vb = views(book@);
    let mut i: usize = 0;
    assert(vb.take(0) =~= Seq::<OrderView>::empty());
    assert(views(queue@) =~= Seq::<OrderView>::empty());
    while i < book.len()
        invariant
            0 <= i <= book@.len(),
            vb == views(book@),
            views(queue@) == queue_of(vb.take(i as int)),
        decreases book@.len() - i,
    {
        let order = book[i].clone();
        let ghost q = views(queue@);
        let mut pos: usize = queue.len();
        assert(q.take(pos as int) =~= q);
        while pos > 0 && ranks_below(&order, &queue[pos - 1])
            invariant
                0 <= pos <= queue@.len(),
                q == views(queue@),
                rank_pos(q, order@) == rank_pos(q.take(pos as int), order@),
            decreases pos,
        {
            assert(q.take(pos as int).last() == q[pos - 1]);
            assert(q.take(pos as int).drop_last() =~= q.take(pos - 1));
            pos = pos - 1;
        }
        proof {
            if pos > 0 {
                assert(q.take(pos as int).last() == q[pos - 1]);
            }
            assert(rank_pos(q, order@) == pos);
            assert(vb.take(i + 1).drop_last() =~= vb.take(i as int));
            assert(vb.take(i + 1).last() == order@);
        }
        let ghost o = order@;
        queue.insert(pos, order);
        assert(views(queue@) =~= q.insert(pos as int, o));
        i = i + 1;
    }
    assert(vb.take(book@.len() as int) =~= vb);
    queue
}


/// The integer mid-point of two prices, rounded towards the smaller one.
pub fn deal_price_of(buy_price: u64, sell_price: u64) -> (price: u64)
    ensures
        price == mid_price(buy_price, sell_price),
        buy_price >= sell_price ==> sell_price <= price <= buy_price,
{
    ((buy_price as u128 + sell_price as u128) / 2) as u64
}

impl<A: AssetFacade> DexService<A> {
    /// The hook that runs once after each block: sweeps the expired orders,
    /// queues the others by priority, and pairs the best buy with the best
    /// sell, round by round, until a queue is empty or the best buy bids
    /// less than the best sell asks. Returns the record of every round, in
    /// order of priority; there are at most as many rounds as orders in the
    /// books after the sweep. Unless the ledger refuses a deal, no buy order
    /// is left that bids as much as a sell order asks.
    pub fn match_and_deal(&mut self, params: &ExecutorParams) -> (report: Vec<MatchRecord>)
        requires
            old(self).wf(),
        ensures
            final(self).wf(),
            final(self)@ == Engine::start(old(self)@.swept(params.height)).run().dex,
            report@ == Engine::start(old(self)@.swept(params.height)).run().report,
            forall|id: primitive::Hash| #[trigger] final(self).held(id) == old(self).held(id),
            old(self).conserved() ==> final(self).conserved(),
            in_priority_order(report@),
            all_settled(report@) ==> uncrossed(final(self)@.buys, final(self)@.sells),
            report@.len() <= old(self)@.swept(params.height).buys.len() + old(self)@.swept(
                params.height,
            ).sells.len(),
    {
        self.remove_expiry_orders(params.height);
        let ghost swept = *self;
        let mut buy_queue = build_queue(&self.buy_orders);
        let mut sell_queue = build_queue(&self.sell_orders);
        let mut report: Vec<MatchRecord> = Vec::new();
        let ghost trades = self@.trades;
        let ghost first = Engine::start(self@);
        let ghost orders = self@.buys.len() + self@.sells.len();
        proof {
            assert(report@ =~= Seq::<MatchRecord>::empty());
            lemma_queue_of(self@.buys, OrderKind::Buy);
            lemma_queue_of(self@.sells, OrderKind::Sell);
            let bq = views(buy_queue@);
            let sq = views(sell_queue@);
            assert forall|j: int| 0 <= j < bq.len() implies bookable(trades, #[trigger] bq[j], OrderKind::Buy) by {
                assert(self@.buys.contains(bq[j]));
                let k = choose|k: int| 0 <= k < self@.buys.len() && self@.buys[k] == bq[j];
                assert(bookable(trades, self@.buys[k], OrderKind::Buy));
            }
            assert forall|j: int| 0 <= j < sq.len() implies bookable(trades, #[trigger] sq[j], OrderKind::Sell) by {
                assert(self@.sells.contains(sq[j]));
                let k = choose|k: int| 0 <= k < self@.sells.len() && self@.sells[k] == sq[j];
                assert(bookable(trades, self@.sells[k], OrderKind::Sell));
            }
        }
        loop
            invariant
                self.wf(),
                self@.trades == trades,
                (Engine {
                    dex: self@,
                    buy_queue: views(buy_queue@),
                    sell_queue: views(sell_queue@),
                    report: report@,
                }).inv(),
                (Engine {
                    dex: self@,
                    buy_queue: views(buy_queue@),
                    sell_queue: views(sell_queue@),
                    report: report@,
                }).run() == first.run(),
                forall|id: primitive::Hash| #[trigger] self.held(id) == swept.held(id),
                report@.len() + buy_queue@.len() + sell_queue@.len() <= orders,
            ensures
                (Engine {
                    dex: self@,
                    buy_queue: views(buy_queue@),
                    sell_queue: views(sell_queue@),
                    report: report@,
                }).stops(),
            decreases buy_queue@.len() + sell_queue@.len(),
        {
            let ghost e = Engine {
                dex: self@,
                buy_queue: views(buy_queue@),
                sell_queue: views(sell_queue@),
                report: report@,
            };
            let nb = buy_queue.len();
            let ns = sell_queue.len();
            if nb == 0 || ns == 0 {
                break;
            }
            if buy_queue[nb - 1].price < sell_queue[ns - 1].price {
                assert(e.buy_queue.last() == buy_queue@[nb - 1]@);
                assert(e.sell_queue.last() == sell_queue@[ns - 1]@);
                break;
            }
            let ghost before = *self;
            let current_buy = buy_queue.pop().unwrap();
            let current_sell = sell_queue.pop().unwrap();
            let ghost b = current_buy@;
            let ghost s = current_sell@;
            proof {
                assert(e.buy_queue.last() == b);
                assert(e.sell_queue.last() == s);
                assert(views(buy_queue@) =~= e.buy_queue.drop_last());
                assert(views(sell_queue@) =~= e.sell_queue.drop_last());
                assert(bookable(trades, e.buy_queue[nb - 1], OrderKind::Buy));
                assert(bookable(trades, e.sell_queue[ns - 1], OrderKind::Sell));
                lemma_round(e);
                assert(e.run() == e.step().run());
            }
            let deal_price = deal_price_of(current_buy.price, current_sell.price);
            let buy_left = current_buy.amount - dealt_amount(&current_buy);
            let sell_left = current_sell.amount - dealt_amount(&current_sell);
            let mut record = MatchRecord {
                buy: current_buy.tx_hash,
                buy_price: current_buy.price,
                buy_height: current_buy.height,
                sell: current_sell.tx_hash,
                sell_price: current_sell.price,
                sell_height: current_sell.height,
                price: deal_price,
                amount: buy_left,
                code: 0,
            };
            if buy_left < sell_left {
                match self.settle_buyer(deal_price, buy_left, current_buy, current_sell) {
                    Ok(next_sell) => {
                        let ghost pushed = next_sell@;
                        sell_queue.push(next_sell);
                        assert(views(sell_queue@) =~= e.sell_queue.drop_last().push(pushed));
                    },
                    Err(err) => {
                        record.code = err.code();
                    },
                }
            } else if buy_left > sell_left {
                record.amount = sell_left;
                match self.settle_seller(deal_price, sell_left, current_buy, current_sell) {
                    Ok(next_buy) => {
                        let ghost pushed = next_buy@;
                        buy_queue.push(next_buy);
                        assert(views(buy_queue@) =~= e.buy_queue.drop_last().push(pushed));
                    },
                    Err(err) => {
                        record.code = err.code();
                    },
                }
            } else {
                match self.settle_both(deal_price, buy_left, current_buy, current_sell) {
                    Ok(()) => {},
                    Err(err) => {
                        record.code = err.code();
                    },
                }
            }
            report.push(record);
            proof {
                let n = Engine {
                    dex: self@,
                    buy_queue: views(buy_queue@),
                    sell_queue: views(sell_queue@),
                    report: report@,
                };
                assert(n.report =~= e.step().report);
                assert(n == e.step());
            }
        }
        proof {
            let e = Engine {
                dex: self@,
                buy_queue: views(buy_queue@),
                sell_queue: views(sell_queue@),
                report: report@,
            };
            assert(e.run() == e);
            if all_settled(report@) {
                assert forall|j: int| 0 <= j < e.buy_queue.len() implies (#[trigger] e.buy_queue[j]).kind
                    == OrderKind::Buy by {
                    assert(bookable(trades, e.buy_queue[j], OrderKind::Buy));
                }
                assert forall|j: int| 0 <= j < e.sell_queue.len() implies (#[trigger] e.sell_queue[j]).kind
                    == OrderKind::Sell by {
                    assert(bookable(trades, e.sell_queue[j], OrderKind::Sell));
                }
                lemma_stop_uncrossed(e);
            }
            assert forall|id: primitive::Hash| #[trigger] self.held(id) == old(self).held(id) by {
                assert(swept.held(id) == old(self).held(id));
            }
            law_hook_keeps_assets(old(self)@, params.height);
        }
        report
    }
}

} // verus!
