//! The matching engine as a mathematical value: two priority queues over
//! the books, and the rounds that pair the best buy with the best sell.

use crate::asset::ledger::LedgerView;
use crate::dex::book::{
    all_of_kind, book_del, book_has, book_put, covers, distinct_orders, lemma_del_distinct, lemma_order_unique,
    lemma_sweep_idle, lemma_sweep_keeps, queue_of, ranked, sweep_upto,
};
use crate::dex::types::{Deal, MatchRecord, OrderKind, OrderView};
use crate::dex::{bookable, DexError, DexView};
use crate::dex::types::Trade;
use vstd::prelude::*;

verus! {

/// The price of a deal: the integer mid-point of the two prices, rounded
/// towards the smaller one.
pub open spec fn mid_price(buy_price: u64, sell_price: u64) -> u64 {
    ((buy_price + sell_price) / 2) as u64
}

/// The record of one round.
pub open spec fn record_of(b: OrderView, s: OrderView, price: u64, amount: u64, code: u64) -> MatchRecord {
    MatchRecord {
        buy: b.tx_hash,
        buy_price: b.price,
        buy_height: b.height,
        sell: s.tx_hash,
        sell_price: s.price,
        sell_height: s.height,
        price,
        amount,
        code,
    }
}

/// The matching engine between two rounds: the exchange, the two queues in
/// ascending priority, and the records of the rounds so far.
pub struct Engine {
    pub dex: DexView,
    pub buy_queue: Seq<OrderView>,
    pub sell_queue: Seq<OrderView>,
    pub report: Seq<MatchRecord>,
}

impl Engine {
    /// The engine before the first round.
    pub open spec fn start(dex: DexView) -> Engine {
        Engine {
            dex,
            buy_queue: queue_of(dex.buys),
            sell_queue: queue_of(dex.sells),
            report: Seq::empty(),
        }
    }

    /// Whether matching is over: a queue is empty, or the best buy bids less
    /// than the best sell asks.
    pub open spec fn stops(self) -> bool {
        self.buy_queue.len() == 0 || self.sell_queue.len() == 0 || self.buy_queue.last().price
            < self.sell_queue.last().price
    }

    /// What the round settles of the two best orders: the smaller of what
    /// is left of them.
    pub open spec fn amount(self) -> u64 {
        let b = self.buy_queue.last();
        let s = self.sell_queue.last();
        if b.left() < s.left() {
            b.left() as u64
        } else {
            s.left() as u64
        }
    }

    /// The exchange after the round's deal, or the refusal of the deal.
    pub open spec fn outcome(self) -> Result<DexView, DexError> {
        let b = self.buy_queue.last();
        let s = self.sell_queue.last();
        let p = mid_price(b.price, s.price);
        let q = self.amount();
        if b.left() < s.left() {
            self.dex.buyer_settled(p, q, b, s)
        } else if b.left() > s.left() {
            self.dex.seller_settled(p, q, b, s)
        } else {
            self.dex.both_settled(p, q, b, s)
        }
    }

    /// One round: the two best orders leave their queues and deal at the
    /// mid-price. The order that is only partly filled goes back to the
    /// head of its queue. A deal that is refused changes nothing in the
    /// exchange, and neither order goes back.
    pub open spec fn step(self) -> Engine {
        let b = self.buy_queue.last();
        let s = self.sell_queue.last();
        let p = mid_price(b.price, s.price);
        let q = self.amount();
        let deal = Deal { price: p, amount: q };
        let bq = self.buy_queue.drop_last();
        let sq = self.sell_queue.drop_last();
        match self.outcome() {
            Err(e) => Engine {
                dex: self.dex,
                buy_queue: bq,
                sell_queue: sq,
                report: self.report.push(record_of(b, s, p, q, e.code_of())),
            },
            Ok(dex) => Engine {
                dex,
                buy_queue: if b.left() > s.left() {
                    bq.push(b.advanced(deal))
                } else {
                    bq
                },
                sell_queue: if b.left() < s.left() {
                    sq.push(s.advanced(deal))
                } else {
                    sq
                },
                report: self.report.push(record_of(b, s, p, q, 0)),
            },
        }
    }

    /// The engine after the last round.
    pub open spec fn run(self) -> Engine
        decreases self.buy_queue.len() + self.sell_queue.len(),
    {
        if self.stops() {
            self
        } else {
            self.step().run()
        }
    }
}

/// Whether every round settled its deal.
pub open spec fn all_settled(report: Seq<MatchRecord>) -> bool {
    forall|k: int| 0 <= k < report.len() ==> (#[trigger] report[k]).code == 0
}

/// Whether no buy order bids as much as a sell order asks.
pub open spec fn uncrossed(buys: Seq<OrderView>, sells: Seq<OrderView>) -> bool {
    forall|i: int, j: int|
        #![trigger buys[i], sells[j]]
        0 <= i < buys.len() && 0 <= j < sells.len() ==> buys[i].price < sells[j].price
}

/// Whether the rounds came in order of priority: no round's buy order ranks
/// below the buy order of a later round, and likewise for the sell orders.
pub open spec fn in_priority_order(report: Seq<MatchRecord>) -> bool {
    forall|i: int, j: int|
        #![trigger report[i], report[j]]
        0 <= i < j < report.len() ==> !report[i].buy_ranks_below(report[j].buy_price, report[j].buy_height)
            && !report[i].sell_ranks_below(report[j].sell_price, report[j].sell_height)
}

/// Whether no recorded order ranks below an order that is still queued.
pub open spec fn ahead_of_queues(
    report: Seq<MatchRecord>,
    buy_queue: Seq<OrderView>,
    sell_queue: Seq<OrderView>,
) -> bool {
    &&& forall|k: int, j: int|
        #![trigger report[k], buy_queue[j]]
        0 <= k < report.len() && 0 <= j < buy_queue.len() ==> !report[k].buy_ranks_below(
            buy_queue[j].price,
            buy_queue[j].height,
        )
    &&& forall|k: int, j: int|
        #![trigger report[k], sell_queue[j]]
        0 <= k < report.len() && 0 <= j < sell_queue.len() ==> !report[k].sell_ranks_below(
            sell_queue[j].price,
            sell_queue[j].height,
        )
}

/// When the order at the head of a queue leaves its book, the rest of the
/// queue still holds every order of the book.
pub proof fn lemma_covers_del(queue: Seq<OrderView>, book: Seq<OrderView>)
    requires
        distinct_orders(book),
        covers(queue, book),
        queue.len() > 0,
    ensures
        covers(queue.drop_last(), book_del(book, queue.last().tx_hash)),
{
    let tx = queue.last().tx_hash;
    let next = book_del(book, tx);
    let rest = queue.drop_last();
    lemma_del_distinct(book, tx);
    assert forall|i: int| 0 <= i < next.len() implies rest.contains(#[trigger] next[i]) by {
        let e = next[i];
        assert(book.contains(e));
        let j = choose|j: int| 0 <= j < book.len() && book[j] == e;
        assert(queue.contains(book[j]));
        let k = choose|k: int| 0 <= k < queue.len() && queue[k] == e;
        assert(e.tx_hash != tx);
        assert(rest[k] == e);
    }
}

/// When the order at the head of a queue is replaced, in the book and at
/// the head of the queue, by an order of the same hash, the queue still
/// holds every order of the book.
pub proof fn lemma_covers_put(queue: Seq<OrderView>, book: Seq<OrderView>, o: OrderView)
    requires
        distinct_orders(book),
        covers(queue, book),
        queue.len() > 0,
        queue.last().tx_hash == o.tx_hash,
    ensures
        covers(queue.drop_last().push(o), book_put(book, o)),
{
    let next = book_put(book, o);
    let rest = queue.drop_last().push(o);
    assert forall|i: int| 0 <= i < next.len() implies rest.contains(#[trigger] next[i]) by {
        let e = next[i];
        if e == o {
            assert(rest[rest.len() - 1] == o);
        } else {
            assert(e == book[i]);
            if book_has(book, o.tx_hash) {
                lemma_order_unique(book, i);
            }
            assert(e.tx_hash != o.tx_hash);
            assert(queue.contains(book[i]));
            let k = choose|k: int| 0 <= k < queue.len() && queue[k] == e;
            assert(rest[k] == e);
        }
    }
}

/// A queue without its head is still in ascending priority, and so is the
/// queue with its head replaced by an order of the same price and block.
pub proof fn lemma_ranked_head(q: Seq<OrderView>, o: OrderView)
    requires
        ranked(q),
        q.len() > 0,
        o.kind == q.last().kind,
        o.price == q.last().price,
        o.height == q.last().height,
    ensures
        ranked(q.drop_last()),
        ranked(q.drop_last().push(o)),
{
    let rest = q.drop_last();
    assert forall|i: int, j: int| 0 <= i < j < rest.len() implies !rest[j].ranks_below(rest[i]) by {
        assert(!q[j].ranks_below(q[i]));
    }
    let back = rest.push(o);
    assert forall|i: int, j: int| 0 <= i < j < back.len() implies !back[j].ranks_below(back[i]) by {
        assert(!q[j].ranks_below(q[i]));
    }
}

/// With queues in ascending priority that hold every order of the books,
/// the books are uncrossed as soon as matching is over.
pub proof fn lemma_stop_uncrossed(e: Engine)
    requires
        e.stops(),
        ranked(e.buy_queue),
        ranked(e.sell_queue),
        all_of_kind(e.buy_queue, OrderKind::Buy),
        all_of_kind(e.sell_queue, OrderKind::Sell),
        covers(e.buy_queue, e.dex.buys),
        covers(e.sell_queue, e.dex.sells),
    ensures
        uncrossed(e.dex.buys, e.dex.sells),
{
    let bq = e.buy_queue;
    let sq = e.sell_queue;
    assert forall|i: int, j: int| 0 <= i < e.dex.buys.len() && 0 <= j < e.dex.sells.len() implies e.dex.buys[i].price
        < e.dex.sells[j].price by {
        assert(bq.contains(e.dex.buys[i]));
        assert(sq.contains(e.dex.sells[j]));
        let a = choose|a: int| 0 <= a < bq.len() && bq[a] == e.dex.buys[i];
        let b = choose|b: int| 0 <= b < sq.len() && sq[b] == e.dex.sells[j];
        if a < bq.len() - 1 {
            assert(!bq[bq.len() - 1].ranks_below(bq[a]));
        }
        if b < sq.len() - 1 {
            assert(!sq[sq.len() - 1].ranks_below(sq[b]));
        }
        assert(bq[a].kind == OrderKind::Buy && bq[bq.len() - 1].kind == OrderKind::Buy);
        assert(sq[b].kind == OrderKind::Sell && sq[sq.len() - 1].kind == OrderKind::Sell);
    }
}


/// Whether every order of a queue may stand in the book of its kind.
pub open spec fn all_bookable(trades: Seq<Trade>, q: Seq<OrderView>, kind: OrderKind) -> bool {
    forall|j: int| 0 <= j < q.len() ==> bookable(trades, #[trigger] q[j], kind)
}

impl Engine {
    /// What holds of the engine between any two rounds: the queues are in
    /// ascending priority and hold orders that may stand in the books; as
    /// long as no deal was refused they hold every order of the books; and
    /// the rounds came in order of priority, ahead of all that is queued.
    pub open spec fn inv(self) -> bool {
        &&& self.dex.wf()
        &&& ranked(self.buy_queue)
        &&& ranked(self.sell_queue)
        &&& all_bookable(self.dex.trades, self.buy_queue, OrderKind::Buy)
        &&& all_bookable(self.dex.trades, self.sell_queue, OrderKind::Sell)
        &&& all_settled(self.report) ==> covers(self.buy_queue, self.dex.buys) && covers(
            self.sell_queue,
            self.dex.sells,
        )
        &&& in_priority_order(self.report)
        &&& ahead_of_queues(self.report, self.buy_queue, self.sell_queue)
    }
}

/// A round keeps what holds of the engine between rounds.
pub proof fn lemma_round(e: Engine)
    requires
        e.inv(),
        !e.stops(),
    ensures
        e.step().dex.trades == e.dex.trades,
        ranked(e.step().buy_queue),
        ranked(e.step().sell_queue),
        all_bookable(e.dex.trades, e.step().buy_queue, OrderKind::Buy),
        all_bookable(e.dex.trades, e.step().sell_queue, OrderKind::Sell),
        all_settled(e.step().report) ==> covers(e.step().buy_queue, e.step().dex.buys) && covers(
            e.step().sell_queue,
            e.step().dex.sells,
        ),
        in_priority_order(e.step().report),
        ahead_of_queues(e.step().report, e.step().buy_queue, e.step().sell_queue),
{
    let b = e.buy_queue.last();
    let s = e.sell_queue.last();
    let p = mid_price(b.price, s.price);
    let q = e.amount();
    let deal = Deal { price: p, amount: q };
    let bq = e.buy_queue.drop_last();
    let sq = e.sell_queue.drop_last();
    let n = e.step();
    let trades = e.dex.trades;
    assert(bookable(trades, b, OrderKind::Buy));
    assert(bookable(trades, s, OrderKind::Sell));
    lemma_ranked_head(e.buy_queue, b.advanced(deal));
    lemma_ranked_head(e.sell_queue, s.advanced(deal));
    assert(all_bookable(trades, n.buy_queue, OrderKind::Buy)) by {
        assert forall|j: int| 0 <= j < n.buy_queue.len() implies bookable(
            trades,
            #[trigger] n.buy_queue[j],
            OrderKind::Buy,
        ) by {
            if j < bq.len() {
                assert(n.buy_queue[j] == e.buy_queue[j]);
            }
        }
    }
    assert(all_bookable(trades, n.sell_queue, OrderKind::Sell)) by {
        assert forall|j: int| 0 <= j < n.sell_queue.len() implies bookable(
            trades,
            #[trigger] n.sell_queue[j],
            OrderKind::Sell,
        ) by {
            if j < sq.len() {
                assert(n.sell_queue[j] == e.sell_queue[j]);
            }
        }
    }
    let r = n.report.last();
    assert(n.report.drop_last() =~= e.report);
    assert(in_priority_order(n.report)) by {
        assert forall|i: int, j: int| 0 <= i < j < n.report.len() implies !n.report[i].buy_ranks_below(
            n.report[j].buy_price,
            n.report[j].buy_height,
        ) && !n.report[i].sell_ranks_below(n.report[j].sell_price, n.report[j].sell_height) by {
            if j < e.report.len() {
                assert(n.report[i] == e.report[i] && n.report[j] == e.report[j]);
            } else {
                assert(n.report[i] == e.report[i]);
                assert(e.buy_queue[e.buy_queue.len() - 1] == b);
                assert(e.sell_queue[e.sell_queue.len() - 1] == s);
            }
        }
    }
    assert(ahead_of_queues(n.report, n.buy_queue, n.sell_queue)) by {
        assert forall|k: int, j: int|
            0 <= k < n.report.len() && 0 <= j < n.buy_queue.len() implies !n.report[k].buy_ranks_below(
            n.buy_queue[j].price,
            n.buy_queue[j].height,
        ) by {
            let y = n.buy_queue[j];
            let last = e.buy_queue.len() - 1;
            let from = if j < bq.len() {
                j
            } else {
                last
            };
            assert(y.price == e.buy_queue[from].price && y.height == e.buy_queue[from].height);
            if k < e.report.len() {
                assert(n.report[k] == e.report[k]);
            } else {
                assert(e.buy_queue[from].kind == OrderKind::Buy && b.kind == OrderKind::Buy);
                if from < last {
                    assert(!e.buy_queue[last].ranks_below(e.buy_queue[from]));
                }
            }
        }
        assert forall|k: int, j: int|
            0 <= k < n.report.len() && 0 <= j < n.sell_queue.len() implies !n.report[k].sell_ranks_below(
            n.sell_queue[j].price,
            n.sell_queue[j].height,
        ) by {
            let y = n.sell_queue[j];
            let last = e.sell_queue.len() - 1;
            let from = if j < sq.len() {
                j
            } else {
                last
            };
            assert(y.price == e.sell_queue[from].price && y.height == e.sell_queue[from].height);
            if k < e.report.len() {
                assert(n.report[k] == e.report[k]);
            } else {
                assert(e.sell_queue[from].kind == OrderKind::Sell && s.kind == OrderKind::Sell);
                if from < last {
                    assert(!e.sell_queue[last].ranks_below(e.sell_queue[from]));
                }
            }
        }
    }
    if all_settled(n.report) {
        assert(r.code == 0);
        assert(all_settled(e.report)) by {
            assert forall|k: int| 0 <= k < e.report.len() implies (#[trigger] e.report[k]).code == 0 by {
                assert(n.report[k] == e.report[k]);
            }
        }
        match e.outcome() {
            Err(err) => {
                assert(err.code_of() != 0);
            },
            Ok(dex) => {
                if b.left() < s.left() {
                    lemma_covers_del(e.buy_queue, e.dex.buys);
                    lemma_covers_put(e.sell_queue, e.dex.sells, s.advanced(deal));
                } else if b.left() > s.left() {
                    lemma_covers_del(e.sell_queue, e.dex.sells);
                    lemma_covers_put(e.buy_queue, e.dex.buys, b.advanced(deal));
                } else {
                    lemma_covers_del(e.buy_queue, e.dex.buys);
                    lemma_covers_del(e.sell_queue, e.dex.sells);
                }
            },
        }
    }
}


/// A sweep records no asset and forgets none.
pub proof fn lemma_sweep_assets(
    book: Seq<OrderView>,
    trades: Seq<Trade>,
    height: u64,
    history: Seq<OrderView>,
    ledger: LedgerView,
    n: nat,
)
    ensures
        sweep_upto(book, trades, height, history, ledger, n).ledger.assets == ledger.assets,
    decreases n,
{
    if n > 0 {
        lemma_sweep_assets(book, trades, height, history, ledger, (n - 1) as nat);
    }
}

/// The rounds of the engine record no asset and forget none, and admit no
/// trade.
pub proof fn lemma_run_assets(e: Engine)
    ensures
        e.run().dex.ledger.assets == e.dex.ledger.assets,
        e.run().dex.trades == e.dex.trades,
        e.run().dex.validity == e.dex.validity,
    decreases e.buy_queue.len() + e.sell_queue.len(),
{
    if !e.stops() {
        lemma_run_assets(e.step());
    }
}

/// The hook that runs after a block leaves the recorded assets, the
/// admitted trades and the validity as they are.
pub proof fn law_hook_keeps_assets(dex: DexView, height: u64)
    ensures
        Engine::start(dex.swept(height)).run().dex.ledger.assets == dex.ledger.assets,
        Engine::start(dex.swept(height)).run().dex.trades == dex.trades,
        Engine::start(dex.swept(height)).run().dex.validity == dex.validity,
{
    let b = sweep_upto(dex.buys, dex.trades, height, dex.history, dex.ledger, dex.buys.len());
    lemma_sweep_assets(dex.buys, dex.trades, height, dex.history, dex.ledger, dex.buys.len());
    lemma_sweep_assets(dex.sells, dex.trades, height, b.history, b.ledger, dex.sells.len());
    lemma_run_assets(Engine::start(dex.swept(height)));
}

/// The expiry sweep is idempotent: a second sweep at the same height
/// changes nothing.
pub proof fn law_sweep_idempotent(dex: DexView, height: u64)
    ensures
        dex.swept(height).swept(height) == dex.swept(height),
{
    let once = dex.swept(height);
    let b = sweep_upto(dex.buys, dex.trades, height, dex.history, dex.ledger, dex.buys.len());
    lemma_sweep_keeps(dex.buys, dex.trades, height, dex.history, dex.ledger, dex.buys.len());
    lemma_sweep_keeps(dex.sells, dex.trades, height, b.history, b.ledger, dex.sells.len());
    lemma_sweep_idle(once.buys, once.trades, height, once.history, once.ledger, once.buys.len());
    let b2 = sweep_upto(once.buys, once.trades, height, once.history, once.ledger, once.buys.len());
    lemma_sweep_idle(once.sells, once.trades, height, b2.history, b2.ledger, once.sells.len());
    assert(once.buys.take(once.buys.len() as int) =~= once.buys);
    assert(once.sells.take(once.sells.len() as int) =~= once.sells);
}

/// After a sweep no order in a book has expired.
pub proof fn law_sweep_leaves_no_expired(dex: DexView, height: u64)
    ensures
        forall|i: int| 0 <= i < dex.swept(height).buys.len() ==> (#[trigger] dex.swept(height).buys[i]).expiry >= height,
        forall|i: int|
            0 <= i < dex.swept(height).sells.len() ==> (#[trigger] dex.swept(height).sells[i]).expiry >= height,
{
    let b = sweep_upto(dex.buys, dex.trades, height, dex.history, dex.ledger, dex.buys.len());
    lemma_sweep_keeps(dex.buys, dex.trades, height, dex.history, dex.ledger, dex.buys.len());
    lemma_sweep_keeps(dex.sells, dex.trades, height, b.history, b.ledger, dex.sells.len());
}

} // verus!
