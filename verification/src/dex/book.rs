//! The order books as mathematical values: lookup by transaction hash,
//! priority, fills, and the refund that an expired order is owed.

use crate::asset::ledger::LedgerView;
use crate::asset::types::ModifyBalancePayload;
use crate::asset::AssetError;
use crate::dex::types::{Deal, OrderKind, OrderStatus, OrderView, Trade};
use crate::primitive::{self, Address};
use vstd::prelude::*;

verus! {

impl OrderView {
    /// How many units of the order are settled already.
    pub open spec fn dealt(self) -> int {
        match self.status {
            OrderStatus::Fresh => 0,
            OrderStatus::Partial(v) => v as int,
            OrderStatus::Full => self.amount as int,
        }
    }

    /// How many units of the order are still to be settled.
    pub open spec fn left(self) -> int {
        self.amount - self.dealt()
    }

    /// Whether the order may stand in a book: it is not full, and what is
    /// settled of it is less than its amount.
    pub open spec fn open(self) -> bool {
        match self.status {
            OrderStatus::Fresh => true,
            OrderStatus::Partial(v) => v < self.amount,
            OrderStatus::Full => false,
        }
    }

    /// The order after a deal that settles all that was left of it.
    pub open spec fn filled(self, deal: Deal) -> OrderView {
        OrderView { status: OrderStatus::Full, deals: self.deals.push(deal), ..self }
    }

    /// The order after a deal that settles a part of what was left of it.
    pub open spec fn advanced(self, deal: Deal) -> OrderView {
        OrderView {
            status: OrderStatus::Partial((self.dealt() + deal.amount) as u64),
            deals: self.deals.push(deal),
            ..self
        }
    }

    /// Whether this order has strictly lower priority than `other`, an order
    /// of the same kind: a worse price (lower for a buy, higher for a sell),
    /// or the same price and a later block.
    pub open spec fn ranks_below(self, other: OrderView) -> bool {
        match self.kind {
            OrderKind::Buy => self.price < other.price || (self.price == other.price && self.height
                > other.height),
            OrderKind::Sell => self.price > other.price || (self.price == other.price && self.height
                > other.height),
        }
    }
}

/// Whether a status is at least as far as another on the way from fresh
/// over partial fills to full, for an order of `amount` units.
pub open spec fn status_reaches(before: OrderStatus, after: OrderStatus, amount: u64) -> bool {
    match (before, after) {
        (OrderStatus::Fresh, OrderStatus::Fresh) => true,
        (OrderStatus::Fresh, OrderStatus::Partial(k)) => k <= amount,
        (OrderStatus::Partial(k), OrderStatus::Partial(l)) => k <= l <= amount,
        (OrderStatus::Fresh, OrderStatus::Full) => true,
        (OrderStatus::Partial(_), OrderStatus::Full) => true,
        (OrderStatus::Full, OrderStatus::Full) => true,
        _ => false,
    }
}

/// A deal moves the status of an open order forward and never back to
/// fresh: a deal of all that is left makes the order full; a deal of a part
/// of it, of at least one unit, makes it partial with strictly more settled
/// than before, and less than its amount.
pub proof fn law_status_moves_forward(o: OrderView, deal: Deal)
    requires
        o.open(),
        0 < deal.amount <= o.left(),
    ensures
        o.filled(deal).status == OrderStatus::Full,
        status_reaches(o.status, o.filled(deal).status, o.amount),
        deal.amount < o.left() ==> {
            &&& o.advanced(deal).status matches OrderStatus::Partial(k)
            &&& o.dealt() < k < o.amount
            &&& k == o.dealt() + deal.amount
            &&& status_reaches(o.status, o.advanced(deal).status, o.amount)
            &&& o.advanced(deal).open()
        },
{
}

/// Status is a one-way road: what a status reaches, reaches nothing earlier.
pub proof fn law_status_order(a: OrderStatus, b: OrderStatus, c: OrderStatus, amount: u64)
    requires
        status_reaches(a, b, amount),
        status_reaches(b, c, amount),
    ensures
        status_reaches(a, c, amount),
        b != OrderStatus::Fresh ==> c != OrderStatus::Fresh,
        status_reaches(b, a, amount) ==> a == b,
{
}

/// Whether a book holds an order under the transaction hash.
pub open spec fn book_has(book: Seq<OrderView>, tx: primitive::Hash) -> bool {
    exists|i: int| 0 <= i < book.len() && (#[trigger] book[i]).tx_hash == tx
}

/// Where the order of the transaction hash stands in a book.
pub open spec fn book_pos(book: Seq<OrderView>, tx: primitive::Hash) -> int {
    choose|i: int| 0 <= i < book.len() && (#[trigger] book[i]).tx_hash == tx
}

/// The order that a book holds under a transaction hash.
pub open spec fn book_get(book: Seq<OrderView>, tx: primitive::Hash) -> Option<OrderView> {
    if book_has(book, tx) {
        Some(book[book_pos(book, tx)])
    } else {
        None
    }
}

/// The book with `o` in the place of the order of the same transaction hash,
/// or at the end if there is none.
pub open spec fn book_put(book: Seq<OrderView>, o: OrderView) -> Seq<OrderView> {
    if book_has(book, o.tx_hash) {
        book.update(book_pos(book, o.tx_hash), o)
    } else {
        book.push(o)
    }
}

/// The book without the order of a transaction hash.
pub open spec fn book_del(book: Seq<OrderView>, tx: primitive::Hash) -> Seq<OrderView> {
    if book_has(book, tx) {
        book.remove(book_pos(book, tx))
    } else {
        book
    }
}

/// No transaction hash stands twice in the book.
pub open spec fn distinct_orders(book: Seq<OrderView>) -> bool {
    forall|i: int, j: int|
        #![trigger book[i], book[j]]
        0 <= i < j < book.len() ==> book[i].tx_hash != book[j].tx_hash
}

/// Whether a trade is admitted under the id.
pub open spec fn has_trade(trades: Seq<Trade>, id: primitive::Hash) -> bool {
    exists|i: int| 0 <= i < trades.len() && (#[trigger] trades[i]).id == id
}

/// Where the trade of the id stands.
pub open spec fn trade_pos(trades: Seq<Trade>, id: primitive::Hash) -> int {
    choose|i: int| 0 <= i < trades.len() && (#[trigger] trades[i]).id == id
}

/// The trade admitted under an id.
pub open spec fn trade_of(trades: Seq<Trade>, id: primitive::Hash) -> Trade {
    trades[trade_pos(trades, id)]
}

/// No trade id is admitted twice.
pub open spec fn distinct_trades(trades: Seq<Trade>) -> bool {
    forall|i: int, j: int|
        #![trigger trades[i], trades[j]]
        0 <= i < j < trades.len() ==> trades[i].id != trades[j].id
}

/// In a book of distinct hashes the order of a hash is the one found.
pub proof fn lemma_order_unique(book: Seq<OrderView>, i: int)
    requires
        distinct_orders(book),
        0 <= i < book.len(),
    ensures
        book_has(book, book[i].tx_hash),
        book_pos(book, book[i].tx_hash) == i,
        book_get(book, book[i].tx_hash) == Some(book[i]),
{
    let p = book_pos(book, book[i].tx_hash);
    if p < i {
        assert(book[p].tx_hash != book[i].tx_hash);
    } else if i < p {
        assert(book[i].tx_hash != book[p].tx_hash);
    }
}

/// Among distinct trades the trade of an id is the one found.
pub proof fn lemma_trade_unique(trades: Seq<Trade>, i: int)
    requires
        distinct_trades(trades),
        0 <= i < trades.len(),
    ensures
        has_trade(trades, trades[i].id),
        trade_pos(trades, trades[i].id) == i,
        trade_of(trades, trades[i].id) == trades[i],
{
    let p = trade_pos(trades, trades[i].id);
    if p < i {
        assert(trades[p].id != trades[i].id);
    } else if i < p {
        assert(trades[i].id != trades[p].id);
    }
}

/// Putting an order keeps the hashes of a book distinct.
pub proof fn lemma_put_distinct(book: Seq<OrderView>, o: OrderView)
    requires
        distinct_orders(book),
    ensures
        distinct_orders(book_put(book, o)),
        book_has(book_put(book, o), o.tx_hash),
        book_get(book_put(book, o), o.tx_hash) == Some(o),
        forall|tx: primitive::Hash| tx != o.tx_hash ==> book_get(book_put(book, o), tx) == book_get(book, tx),
        forall|tx: primitive::Hash|
            tx != o.tx_hash ==> book_has(book_put(book, o), tx) == book_has(book, tx),
{
    let next = book_put(book, o);
    if book_has(book, o.tx_hash) {
        let p = book_pos(book, o.tx_hash);
        assert forall|i: int, j: int| 0 <= i < j < next.len() implies next[i].tx_hash
            != next[j].tx_hash by {
            assert(book[i].tx_hash != book[j].tx_hash);
        }
        lemma_order_unique(next, p);
        assert forall|tx: primitive::Hash| tx != o.tx_hash implies book_get(next, tx) == book_get(book, tx)
            && book_has(next, tx) == book_has(book, tx) by {
            if book_has(book, tx) {
                let k = book_pos(book, tx);
                assert(next[k].tx_hash == tx);
                lemma_order_unique(book, k);
                lemma_order_unique(next, k);
            } else if book_has(next, tx) {
                let k = book_pos(next, tx);
                assert(book[k].tx_hash == tx);
            }
        }
    } else {
        assert forall|i: int, j: int| 0 <= i < j < next.len() implies next[i].tx_hash
            != next[j].tx_hash by {
            if j < book.len() {
                assert(book[i].tx_hash != book[j].tx_hash);
            } else {
                assert(book[i].tx_hash != o.tx_hash);
            }
        }
        lemma_order_unique(next, book.len() as int);
        assert forall|tx: primitive::Hash| tx != o.tx_hash implies book_get(next, tx) == book_get(book, tx)
            && book_has(next, tx) == book_has(book, tx) by {
            if book_has(book, tx) {
                let k = book_pos(book, tx);
                assert(next[k].tx_hash == tx);
                lemma_order_unique(book, k);
                lemma_order_unique(next, k);
            } else if book_has(next, tx) {
                let k = book_pos(next, tx);
                assert(book[k].tx_hash == tx);
            }
        }
    }
}

/// Deleting an order keeps the hashes of a book distinct, and removes the
/// hash from it.
pub proof fn lemma_del_distinct(book: Seq<OrderView>, tx: primitive::Hash)
    requires
        distinct_orders(book),
    ensures
        distinct_orders(book_del(book, tx)),
        !book_has(book_del(book, tx), tx),
        forall|other: primitive::Hash|
            other != tx ==> book_get(book_del(book, tx), other) == book_get(book, other),
        forall|i: int| 0 <= i < book_del(book, tx).len() ==> book.contains(#[trigger] book_del(book, tx)[i]),
{
    let next = book_del(book, tx);
    if book_has(book, tx) {
        let p = book_pos(book, tx);
        assert forall|i: int| 0 <= i < next.len() implies next[i] == book[if i < p {
            i
        } else {
            i + 1
        }] by {}
        assert forall|i: int, j: int| 0 <= i < j < next.len() implies next[i].tx_hash
            != next[j].tx_hash by {
            let a = if i < p {
                i
            } else {
                i + 1
            };
            let b = if j < p {
                j
            } else {
                j + 1
            };
            assert(book[a].tx_hash != book[b].tx_hash);
        }
        if book_has(next, tx) {
            let k = book_pos(next, tx);
            let b = if k < p {
                k
            } else {
                k + 1
            };
            assert(next[k] == book[b]);
            lemma_order_unique(book, b);
        }
        assert forall|other: primitive::Hash| other != tx implies book_get(next, other) == book_get(
            book,
            other,
        ) by {
            if book_has(book, other) {
                let k = book_pos(book, other);
                let a = if k < p {
                    k
                } else {
                    k - 1
                };
                assert(next[a] == book[k]);
                lemma_order_unique(book, k);
                lemma_order_unique(next, a);
            } else if book_has(next, other) {
                let k = book_pos(next, other);
                let b = if k < p {
                    k
                } else {
                    k + 1
                };
                assert(book[b].tx_hash == other);
            }
        }
        assert forall|i: int| 0 <= i < next.len() implies book.contains(#[trigger] next[i]) by {
            let b = if i < p {
                i
            } else {
                i + 1
            };
            assert(book[b] == next[i]);
        }
    } else {
        assert forall|i: int| 0 <= i < next.len() implies book.contains(#[trigger] next[i]) by {
            assert(book[i] == next[i]);
        }
    }
}

/// What an expired order gets back out of escrow: for a buy the price of
/// what is left of it, in the base asset; for a sell what is left of it, in
/// the counter asset.
pub open spec fn refund_of(trades: Seq<Trade>, o: OrderView) -> ModifyBalancePayload {
    let trade = trade_of(trades, o.trade_id);
    match o.kind {
        OrderKind::Buy => ModifyBalancePayload {
            asset_id: trade.base_asset,
            user: o.user,
            value: (o.left() * o.price) as u64,
        },
        OrderKind::Sell => ModifyBalancePayload {
            asset_id: trade.counter_party,
            user: o.user,
            value: o.left() as u64,
        },
    }
}

/// The ledger after the refund of an expired order: nothing is released for
/// an order with nothing left, and a release that the ledger refuses changes
/// nothing.
pub open spec fn refunded(ledger: LedgerView, trades: Seq<Trade>, o: OrderView) -> LedgerView {
    if o.left() == 0 {
        ledger
    } else {
        match ledger.released(refund_of(trades, o)) {
            Ok(l) => l,
            Err(_) => ledger,
        }
    }
}

/// The six balance changes of one deal of `q` units at price `p` between a
/// buyer who had escrowed at price `pb` and a seller, in this order: release
/// the buyer's escrow, credit the buyer the goods, debit the buyer the cost;
/// release the seller's escrow, credit the seller the cost, debit the seller
/// the goods. The first one that the ledger refuses fails the whole deal.
pub open spec fn settled(
    ledger: LedgerView,
    trade: Trade,
    buyer: Address,
    seller: Address,
    q: u64,
    p: u64,
    pb: u64,
) -> Result<LedgerView, AssetError> {
    if q * pb > u64::MAX || q * p > u64::MAX {
        Err(AssetError::U64Overflow)
    } else {
        let escrow = (q * pb) as u64;
        let cost = (q * p) as u64;
        match ledger.released(ModifyBalancePayload { asset_id: trade.base_asset, user: buyer, value: escrow }) {
            Err(e) => Err(e),
            Ok(l1) => match l1.credited(
                ModifyBalancePayload { asset_id: trade.counter_party, user: buyer, value: q },
            ) {
                Err(e) => Err(e),
                Ok(l2) => match l2.debited(
                    ModifyBalancePayload { asset_id: trade.base_asset, user: buyer, value: cost },
                ) {
                    Err(e) => Err(e),
                    Ok(l3) => match l3.released(
                        ModifyBalancePayload { asset_id: trade.counter_party, user: seller, value: q },
                    ) {
                        Err(e) => Err(e),
                        Ok(l4) => match l4.credited(
                            ModifyBalancePayload { asset_id: trade.base_asset, user: seller, value: cost },
                        ) {
                            Err(e) => Err(e),
                            Ok(l5) => l5.debited(
                                ModifyBalancePayload { asset_id: trade.counter_party, user: seller, value: q },
                            ),
                        },
                    },
                },
            },
        }
    }
}


/// What a sweep has made of a book so far: the orders that stay, the
/// history, and the ledger.
pub struct Sweep {
    pub kept: Seq<OrderView>,
    pub history: Seq<OrderView>,
    pub ledger: LedgerView,
}

/// The sweep of the first `n` orders of a book at a block height: each
/// order that expired before that height, in book order, leaves the book,
/// is refunded and goes to the history as it is; the others stay.
pub open spec fn sweep_upto(
    book: Seq<OrderView>,
    trades: Seq<Trade>,
    height: u64,
    history: Seq<OrderView>,
    ledger: LedgerView,
    n: nat,
) -> Sweep
    decreases n,
{
    if n == 0 {
        Sweep { kept: Seq::empty(), history, ledger }
    } else {
        let s = sweep_upto(book, trades, height, history, ledger, (n - 1) as nat);
        let o = book[n - 1];
        if o.expiry < height {
            Sweep { kept: s.kept, history: book_put(s.history, o), ledger: refunded(s.ledger, trades, o) }
        } else {
            Sweep { kept: s.kept.push(o), history: s.history, ledger: s.ledger }
        }
    }
}

/// A sweep keeps only orders that have not expired, each of them an order
/// of the book.
pub proof fn lemma_sweep_keeps(
    book: Seq<OrderView>,
    trades: Seq<Trade>,
    height: u64,
    history: Seq<OrderView>,
    ledger: LedgerView,
    n: nat,
)
    requires
        n <= book.len(),
    ensures
        forall|k: int|
            #![trigger sweep_upto(book, trades, height, history, ledger, n).kept[k]]
            0 <= k < sweep_upto(book, trades, height, history, ledger, n).kept.len() ==> {
                &&& sweep_upto(book, trades, height, history, ledger, n).kept[k].expiry >= height
                &&& book.take(n as int).contains(sweep_upto(book, trades, height, history, ledger, n).kept[k])
            },
    decreases n,
{
    if n > 0 {
        let prev = sweep_upto(book, trades, height, history, ledger, (n - 1) as nat);
        let cur = sweep_upto(book, trades, height, history, ledger, n);
        lemma_sweep_keeps(book, trades, height, history, ledger, (n - 1) as nat);
        assert forall|k: int| 0 <= k < cur.kept.len() implies cur.kept[k].expiry >= height && book.take(
            n as int,
        ).contains(#[trigger] cur.kept[k]) by {
            if k < prev.kept.len() {
                assert(cur.kept[k] == prev.kept[k]);
                let head = book.take(n - 1);
                assert(head.contains(prev.kept[k]));
                let j = choose|j: int| 0 <= j < head.len() && head[j] == prev.kept[k];
                assert(book.take(n as int)[j] == cur.kept[k]);
            } else {
                assert(book.take(n as int)[n - 1] == cur.kept[k]);
            }
        }
    }
}

/// A sweep changes nothing in a book without expired orders.
pub proof fn lemma_sweep_idle(
    book: Seq<OrderView>,
    trades: Seq<Trade>,
    height: u64,
    history: Seq<OrderView>,
    ledger: LedgerView,
    n: nat,
)
    requires
        n <= book.len(),
        forall|i: int| 0 <= i < book.len() ==> (#[trigger] book[i]).expiry >= height,
    ensures
        sweep_upto(book, trades, height, history, ledger, n) == (Sweep {
            kept: book.take(n as int),
            history,
            ledger,
        }),
    decreases n,
{
    if n > 0 {
        lemma_sweep_idle(book, trades, height, history, ledger, (n - 1) as nat);
        assert(book.take(n as int) =~= book.take(n - 1).push(book[n - 1]));
    } else {
        assert(book.take(0) =~= Seq::<OrderView>::empty());
    }
}


/// Where an order goes into a queue in ascending priority: below every
/// order of strictly higher priority and above all others, so that of two
/// orders of one priority the one that came later is served first.
pub open spec fn rank_pos(q: Seq<OrderView>, o: OrderView) -> int
    decreases q.len(),
{
    if q.len() > 0 && o.ranks_below(q.last()) {
        rank_pos(q.drop_last(), o)
    } else {
        q.len() as int
    }
}

/// The queue of a book: its orders in ascending priority, each put in turn
/// at its place.
pub open spec fn queue_of(book: Seq<OrderView>) -> Seq<OrderView>
    decreases book.len(),
{
    if book.len() == 0 {
        Seq::empty()
    } else {
        let q = queue_of(book.drop_last());
        q.insert(rank_pos(q, book.last()), book.last())
    }
}

/// Whether a queue is in ascending priority: no order ranks below one
/// before it.
pub open spec fn ranked(q: Seq<OrderView>) -> bool {
    forall|i: int, j: int| #![trigger q[i], q[j]] 0 <= i < j < q.len() ==> !q[j].ranks_below(q[i])
}

/// Whether all orders are of one kind.
pub open spec fn all_of_kind(q: Seq<OrderView>, kind: OrderKind) -> bool {
    forall|i: int| 0 <= i < q.len() ==> (#[trigger] q[i]).kind == kind
}

/// Whether a queue holds every order of a book.
pub open spec fn covers(queue: Seq<OrderView>, book: Seq<OrderView>) -> bool {
    forall|i: int| 0 <= i < book.len() ==> queue.contains(#[trigger] book[i])
}

/// The place of an order in a queue lies above all that the order does
/// not rank below, and below all others.
pub proof fn lemma_rank_pos(q: Seq<OrderView>, o: OrderView)
    ensures
        0 <= rank_pos(q, o) <= q.len(),
        forall|k: int| rank_pos(q, o) <= k < q.len() ==> o.ranks_below(#[trigger] q[k]),
        rank_pos(q, o) > 0 ==> !o.ranks_below(q[rank_pos(q, o) - 1]),
    decreases q.len(),
{
    if q.len() > 0 && o.ranks_below(q.last()) {
        lemma_rank_pos(q.drop_last(), o);
        assert forall|k: int| rank_pos(q, o) <= k < q.len() implies o.ranks_below(#[trigger] q[k]) by {
            if k < q.len() - 1 {
                assert(q.drop_last()[k] == q[k]);
            }
        }
        if rank_pos(q, o) > 0 {
            assert(q.drop_last()[rank_pos(q, o) - 1] == q[rank_pos(q, o) - 1]);
        }
    }
}

/// The queue of a book of orders of one kind is in ascending priority and
/// holds exactly the orders of the book.
pub proof fn lemma_queue_of(book: Seq<OrderView>, kind: OrderKind)
    requires
        all_of_kind(book, kind),
    ensures
        ranked(queue_of(book)),
        all_of_kind(queue_of(book), kind),
        queue_of(book).len() == book.len(),
        covers(queue_of(book), book),
        covers(book, queue_of(book)),
    decreases book.len(),
{
    if book.len() > 0 {
        let head = book.drop_last();
        let o = book.last();
        lemma_queue_of(head, kind);
        let q = queue_of(head);
        let p = rank_pos(q, o);
        lemma_rank_pos(q, o);
        let next = q.insert(p, o);
        assert forall|i: int| 0 <= i < next.len() implies (#[trigger] next[i]).kind == kind by {
            if i < p {
                assert(next[i] == q[i]);
            } else if i > p {
                assert(next[i] == q[i - 1]);
            }
        }
        assert forall|i: int, j: int| 0 <= i < j < next.len() implies !next[j].ranks_below(next[i]) by {
            let a = if i < p {
                i
            } else {
                i - 1
            };
            let b = if j < p {
                j
            } else {
                j - 1
            };
            if i != p && j != p {
                assert(next[i] == q[a] && next[j] == q[b]);
                assert(!q[b].ranks_below(q[a]));
            } else if i == p {
                assert(next[j] == q[b]);
                assert(o.ranks_below(q[b]));
                assert(q[b].kind == kind && o.kind == kind);
            } else {
                assert(next[i] == q[a]);
                assert(q[a].kind == kind && o.kind == kind && q[p - 1].kind == kind);
                if a < p - 1 {
                    assert(!q[p - 1].ranks_below(q[a]));
                }
            }
        }
        assert forall|i: int| 0 <= i < book.len() implies next.contains(#[trigger] book[i]) by {
            if i < head.len() {
                assert(head[i] == book[i]);
                assert(q.contains(head[i]));
                let k = choose|k: int| 0 <= k < q.len() && q[k] == head[i];
                if k < p {
                    assert(next[k] == q[k]);
                } else {
                    assert(next[k + 1] == q[k]);
                }
            } else {
                assert(next[p] == o);
            }
        }
        assert forall|i: int| 0 <= i < next.len() implies book.contains(#[trigger] next[i]) by {
            if i == p {
                assert(book[book.len() - 1] == o);
            } else {
                let a = if i < p {
                    i
                } else {
                    i - 1
                };
                assert(next[i] == q[a]);
                assert(head.contains(q[a]));
                let k = choose|k: int| 0 <= k < head.len() && head[k] == q[a];
                assert(book[k] == head[k]);
            }
        }
    }
}


/// Settlement conservation. A deal of `q` units at price `p` between two
/// different users, the buyer having escrowed at price `pb`, in a trade of
/// two different assets: the buyer's escrow of the base asset shrinks by
/// `q * pb` and the buyer's spendable balance of it changes by
/// `q * pb - q * p`, so that the buyer holds `q * p` less of the base asset
/// and the seller `q * p` more; the buyer's spendable counter asset grows by `q`;
/// the seller's escrow of the counter asset shrinks by `q` and the seller's
/// spendable counter asset stays; no other balance changes.
pub proof fn law_settlement_conservation(
    ledger: LedgerView,
    trade: Trade,
    buyer: Address,
    seller: Address,
    q: u64,
    p: u64,
    pb: u64,
)
    requires
        ledger.total(),
        buyer != seller,
        trade.base_asset != trade.counter_party,
        settled(ledger, trade, buyer, seller, q, p, pb) is Ok,
    ensures
        ({
            let after = settled(ledger, trade, buyer, seller, q, p, pb)->Ok_0;
            let base = trade.base_asset;
            let counter = trade.counter_party;
            &&& after.assets == ledger.assets
            &&& after.balance(buyer, base).locked == ledger.balance(buyer, base).locked - q * pb
            &&& after.balance(buyer, base).current == ledger.balance(buyer, base).current + q * pb - q * p
            &&& after.balance(buyer, base).total() == ledger.balance(buyer, base).total() - q * p
            &&& after.balance(buyer, counter).current == ledger.balance(buyer, counter).current + q
            &&& after.balance(buyer, counter).locked == ledger.balance(buyer, counter).locked
            &&& after.balance(seller, base).current == ledger.balance(seller, base).current + q * p
            &&& after.balance(seller, base).locked == ledger.balance(seller, base).locked
            &&& after.balance(seller, counter).locked == ledger.balance(seller, counter).locked - q
            &&& after.balance(seller, counter).current == ledger.balance(seller, counter).current
            &&& forall|user: Address, id: primitive::Hash|
                !((user == buyer || user == seller) && (id == base || id == counter)) ==> after.balance(user, id)
                    == ledger.balance(user, id)
        }),
{
    let base = trade.base_asset;
    let counter = trade.counter_party;
    let escrow = (q * pb) as u64;
    let cost = (q * p) as u64;
    let l1 = ledger.released(ModifyBalancePayload { asset_id: base, user: buyer, value: escrow })->Ok_0;
    let l2 = l1.credited(ModifyBalancePayload { asset_id: counter, user: buyer, value: q })->Ok_0;
    let l3 = l2.debited(ModifyBalancePayload { asset_id: base, user: buyer, value: cost })->Ok_0;
    let l4 = l3.released(ModifyBalancePayload { asset_id: counter, user: seller, value: q })->Ok_0;
    let l5 = l4.credited(ModifyBalancePayload { asset_id: base, user: seller, value: cost })->Ok_0;
    let l6 = l5.debited(ModifyBalancePayload { asset_id: counter, user: seller, value: q })->Ok_0;
    assert(l6 == settled(ledger, trade, buyer, seller, q, p, pb)->Ok_0);
}


/// From escrow to settlement. When a buyer escrows `q * pb` of the base
/// asset, a seller escrows `q` of the counter asset, and the two then deal
/// `q` units at price `p`, all eight balance changes together take `q * p`
/// of the base asset from the buyer's spendable balance and give it to the
/// seller's, take `q` of the counter asset from the seller's spendable
/// balance and give it to the buyer's, and leave every escrow as it was.
pub proof fn law_escrow_and_settlement(
    ledger: LedgerView,
    trade: Trade,
    buyer: Address,
    seller: Address,
    q: u64,
    p: u64,
    pb: u64,
)
    requires
        ledger.total(),
        buyer != seller,
        trade.base_asset != trade.counter_party,
        q * pb <= u64::MAX,
        ledger.escrowed(
            ModifyBalancePayload { asset_id: trade.base_asset, user: buyer, value: (q * pb) as u64 },
        ) matches Ok(l1) && l1.escrowed(
            ModifyBalancePayload { asset_id: trade.counter_party, user: seller, value: q },
        ) matches Ok(l2) && settled(l2, trade, buyer, seller, q, p, pb) is Ok,
    ensures
        ({
            let l1 = ledger.escrowed(
                ModifyBalancePayload { asset_id: trade.base_asset, user: buyer, value: (q * pb) as u64 },
            )->Ok_0;
            let l2 = l1.escrowed(
                ModifyBalancePayload { asset_id: trade.counter_party, user: seller, value: q },
            )->Ok_0;
            let after = settled(l2, trade, buyer, seller, q, p, pb)->Ok_0;
            let base = trade.base_asset;
            let counter = trade.counter_party;
            &&& after.assets == ledger.assets
            &&& after.balance(buyer, base).current == ledger.balance(buyer, base).current - q * p
            &&& after.balance(buyer, counter).current == ledger.balance(buyer, counter).current + q
            &&& after.balance(seller, base).current == ledger.balance(seller, base).current + q * p
            &&& after.balance(seller, counter).current == ledger.balance(seller, counter).current - q
            &&& forall|user: Address, id: primitive::Hash|
                after.balance(user, id).locked == ledger.balance(user, id).locked
            &&& forall|user: Address, id: primitive::Hash|
                !((user == buyer || user == seller) && (id == base || id == counter)) ==> after.balance(user, id)
                    == ledger.balance(user, id)
        }),
{
    let base = trade.base_asset;
    let counter = trade.counter_party;
    let l1 = ledger.escrowed(ModifyBalancePayload { asset_id: base, user: buyer, value: (q * pb) as u64 })->Ok_0;
    let l2 = l1.escrowed(ModifyBalancePayload { asset_id: counter, user: seller, value: q })->Ok_0;
    law_settlement_conservation(l2, trade, buyer, seller, q, p, pb);
    let after = settled(l2, trade, buyer, seller, q, p, pb)->Ok_0;
    assert forall|user: Address, id: primitive::Hash| after.balance(user, id).locked == ledger.balance(
        user,
        id,
    ).locked by {
        if (user == buyer || user == seller) && (id == base || id == counter) {
        } else {
            assert(after.balance(user, id) == l2.balance(user, id));
        }
    }
}

} // verus!
