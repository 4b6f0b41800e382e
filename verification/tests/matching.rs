use dex::asset::types::{Balance, GetBalancePayload, InitGenesisPayload};
use dex::asset::AssetService;
use dex::context::{Event, ExecutorParams, ServiceContext, ServiceContextParams};
use dex::dex::types::{
    AddTradePayload, Deal, DealStatus, GenesisPayload, GetOrderPayload, GetOrderResponse, Order, OrderKind,
    OrderPayload, OrderStatus,
};
use dex::dex::matching::{build_queue, deal_price_of, ranks_below};
use dex::dex::settlement::dealt_amount;
use dex::dex::{DexError, DexService};
use dex::primitive::Address;
use std::cmp::Ordering;

fn tag(t: u8) -> dex::primitive::Hash {
    dex::primitive::Hash::digest(&vec![t])
}

fn person(t: u8) -> Address {
    Address::from_hash(&tag(t))
}

fn ctx(caller: Address, height: u64, tx: Option<u8>) -> ServiceContext {
    ServiceContext::new(ServiceContextParams {
        tx_hash: tx.map(tag),
        caller,
        height,
        extra: None,
        events: Vec::new(),
    })
}

fn held(service: &DexService<AssetService>, who: Address, asset: dex::primitive::Hash) -> Balance {
    service
        .asset()
        .get_balance(&ctx(who, 0, None), GetBalancePayload { asset_id: asset, user: who })
        .unwrap()
        .balance
}

fn issue(ledger: &mut AssetService, id: dex::primitive::Hash, supply: u64, issuer: Address) {
    ledger.init_genesis(InitGenesisPayload {
        id,
        name: "asset".to_owned(),
        symbol: "AST".to_owned(),
        supply,
        issuer,
    });
}

const BASE: u8 = 101;
const COUNTER: u8 = 102;
const OTHER: u8 = 103;

// Users 1 and 3 hold the base asset, users 2 and 4 the counter asset.
fn exchange(validity: u64) -> (DexService<AssetService>, dex::primitive::Hash) {
    let mut ledger = AssetService::new();
    issue(&mut ledger, tag(BASE), 2_000, person(1));
    issue(&mut ledger, tag(COUNTER), 2_000, person(2));
    let mut c = ctx(person(1), 0, Some(250));
    ledger
        .transfer(&mut c, dex::asset::types::TransferPayload { asset_id: tag(BASE), to: person(3), value: 1_000 })
        .unwrap();
    let mut c = ctx(person(2), 0, Some(251));
    ledger
        .transfer(&mut c, dex::asset::types::TransferPayload { asset_id: tag(COUNTER), to: person(4), value: 1_000 })
        .unwrap();
    let mut service = DexService::new(ledger);
    service.init_genesis(GenesisPayload { order_validity: validity });
    let mut c = ctx(person(1), 1, Some(200));
    service
        .add_trade(&mut c, AddTradePayload { base_asset: tag(BASE), counter_party: tag(COUNTER) })
        .unwrap();
    let trade_id = service.get_trades(&c).unwrap().trades[0].id;
    (service, trade_id)
}

fn buy(trade_id: dex::primitive::Hash, price: u64, amount: u64, expiry: u64) -> OrderPayload {
    OrderPayload { trade_id, kind: OrderKind::Buy, price, amount, expiry }
}

fn sell(trade_id: dex::primitive::Hash, price: u64, amount: u64, expiry: u64) -> OrderPayload {
    OrderPayload { trade_id, kind: OrderKind::Sell, price, amount, expiry }
}

fn place(
    service: &mut DexService<AssetService>,
    who: u8,
    height: u64,
    tx: u8,
    payload: OrderPayload,
) -> Result<(), DexError> {
    let mut c = ctx(person(who), height, Some(tx));
    service.order(&mut c, payload)
}

fn look(service: &DexService<AssetService>, tx: u8) -> GetOrderResponse {
    service
        .get_order(&ctx(person(1), 0, None), GetOrderPayload { tx_hash: tag(tx) })
        .unwrap()
}

fn total(service: &DexService<AssetService>, asset: u8) -> u64 {
    (1..=4u8)
        .map(|u| {
            let b = held(service, person(u), tag(asset));
            b.current + b.locked
        })
        .sum()
}

#[test]
fn trade_id_is_canonical_and_commutative() {
    let (x, y) = (tag(1), tag(2));
    let (lo, hi) = if x.precedes(&y) { (x, y) } else { (y, x) };
    let mut text = lo.as_hex();
    text.extend_from_slice(&hi.as_hex());
    let expected = dex::primitive::Hash::digest(&text);

    let mut first = DexService::new(AssetService::new());
    let mut c = ctx(person(1), 1, Some(1));
    first.add_trade(&mut c, AddTradePayload { base_asset: x, counter_party: y }).unwrap();
    let trades = first.get_trades(&c).unwrap().trades;
    assert_eq!(trades.len(), 1);
    assert_eq!(trades[0].id, expected);
    assert_eq!((trades[0].base_asset, trades[0].counter_party), (x, y));
    assert_eq!(c.events.len(), 1);
    assert!(matches!(&c.events[0], Event::AddTrade(t) if *t == trades[0]));

    let again = first.add_trade(&mut c, AddTradePayload { base_asset: y, counter_party: x });
    assert!(matches!(again, Err(DexError::TradeExisted)));
    assert_eq!(again.unwrap_err().code(), 203);
    let same = first.add_trade(&mut c, AddTradePayload { base_asset: x, counter_party: y });
    assert!(matches!(same, Err(DexError::TradeExisted)));
    assert_eq!(first.get_trades(&c).unwrap().trades.len(), 1);
    assert_eq!(c.events.len(), 1);

    let mut second = DexService::new(AssetService::new());
    second.add_trade(&mut c, AddTradePayload { base_asset: y, counter_party: x }).unwrap();
    assert_eq!(second.get_trades(&c).unwrap().trades[0].id, expected);

    let illegal = second.add_trade(&mut c, AddTradePayload { base_asset: x, counter_party: x });
    assert!(matches!(illegal, Err(DexError::IllegalTrade)));
    assert_eq!(illegal.unwrap_err().code(), 202);
}

#[test]
fn an_order_names_an_admitted_trade() {
    let (mut service, _) = exchange(10);
    let res = place(&mut service, 1, 5, 1, buy(tag(77), 1, 1, 6));
    assert!(matches!(res, Err(DexError::TradeNotExisted)));
    assert_eq!(res.unwrap_err().code(), 204);
    let missing = service.get_order(&ctx(person(1), 0, None), GetOrderPayload { tx_hash: tag(1) });
    assert!(matches!(missing, Err(DexError::OrderNotExisted)));
    assert_eq!(missing.unwrap_err().code(), 206);
}

#[test]
fn expiry_guard() {
    let (mut service, t) = exchange(10);
    let late = place(&mut service, 1, 5, 1, buy(t, 1, 1, 16));
    assert!(matches!(late, Err(DexError::OrderOverdue)));
    assert_eq!(late.unwrap_err().code(), 205);
    assert_eq!(held(&service, person(1), tag(BASE)), Balance { current: 1_000, locked: 0 });
    place(&mut service, 1, 5, 2, buy(t, 1, 1, 15)).unwrap();
    assert_eq!(look(&service, 2).expiry, 15);
    assert_eq!(look(&service, 2).height, 5);
    // An expiry in the past is within the validity.
    place(&mut service, 1, 5, 3, buy(t, 1, 1, 0)).unwrap();
}

#[test]
fn a_validity_beyond_the_last_block_admits_no_order() {
    let (mut service, t) = exchange(u64::MAX);
    let res = place(&mut service, 1, 1, 1, buy(t, 1, 1, 2));
    assert!(matches!(res, Err(DexError::OrderOverdue)));
    place(&mut service, 1, 0, 2, buy(t, 1, 1, u64::MAX)).unwrap();
}

#[test]
fn an_order_escrows_its_cost() {
    let (mut service, t) = exchange(10);
    let mut c = ctx(person(1), 5, Some(1));
    service.order(&mut c, buy(t, 7, 6, 9)).unwrap();
    assert_eq!(held(&service, person(1), tag(BASE)), Balance { current: 958, locked: 42 });
    assert_eq!(c.events.len(), 1);
    assert_eq!(c.events[0].topic(), "Order");
    match &c.events[0] {
        Event::Order(o) => {
            assert_eq!(o.tx_hash, tag(1));
            assert_eq!(o.trade_id, t);
            assert_eq!(o.user, person(1));
            assert_eq!((o.kind, o.price, o.amount, o.height, o.expiry), (OrderKind::Buy, 7, 6, 5, 9));
            assert_eq!(o.status, OrderStatus::Fresh);
            assert!(o.deals.is_empty());
        }
        _ => panic!("an order emits an order event"),
    }
    place(&mut service, 2, 5, 2, sell(t, 7, 6, 9)).unwrap();
    assert_eq!(held(&service, person(2), tag(COUNTER)), Balance { current: 994, locked: 6 });
    let placed = look(&service, 2);
    assert_eq!(placed.deal_status, DealStatus::Dealing);
    assert_eq!(placed.order_status, OrderStatus::Fresh);
    assert_eq!(placed.kind, OrderKind::Sell);
}

#[test]
fn an_order_that_cannot_be_escrowed_is_refused() {
    let (mut service, t) = exchange(10);
    let overflow = place(&mut service, 1, 5, 1, buy(t, u64::MAX, 2, 9));
    assert!(matches!(&overflow, Err(DexError::Asset(dex::asset::AssetError::U64Overflow))));
    assert_eq!(overflow.unwrap_err().code(), 105);
    let poor = place(&mut service, 1, 5, 2, buy(t, 1_001, 1, 9));
    assert!(matches!(
        &poor,
        Err(DexError::Asset(dex::asset::AssetError::InsufficientBalance { wanted: 1_001, had: 1_000 }))
    ));
    assert_eq!(poor.unwrap_err().code(), 104);
    // User 1 holds nothing of the counter asset.
    let empty = place(&mut service, 1, 5, 3, sell(t, 1, 1, 9));
    assert!(matches!(
        &empty,
        Err(DexError::Asset(dex::asset::AssetError::InsufficientBalance { wanted: 1, had: 0 }))
    ));
    for tx in 1..=3 {
        assert!(service
            .get_order(&ctx(person(1), 0, None), GetOrderPayload { tx_hash: tag(tx) })
            .is_err());
    }
    assert_eq!(held(&service, person(1), tag(BASE)), Balance { current: 1_000, locked: 0 });
}

#[test]
fn price_time_priority_among_buys() {
    let (mut service, t) = exchange(100);
    place(&mut service, 1, 6, 1, buy(t, 10, 5, 50)).unwrap();
    place(&mut service, 3, 5, 2, buy(t, 10, 5, 50)).unwrap();
    place(&mut service, 1, 4, 3, buy(t, 9, 5, 50)).unwrap();
    place(&mut service, 2, 7, 4, sell(t, 10, 5, 50)).unwrap();
    let report = service.match_and_deal(&ExecutorParams { height: 7 });
    assert_eq!(report.len(), 1);
    assert_eq!(report[0].buy, tag(2));
    assert_eq!((report[0].buy_price, report[0].buy_height), (10, 5));
    assert_eq!(look(&service, 2).order_status, OrderStatus::Full);
    assert_eq!(look(&service, 1).order_status, OrderStatus::Fresh);
    assert_eq!(look(&service, 3).order_status, OrderStatus::Fresh);
    assert_eq!(look(&service, 1).deal_status, DealStatus::Dealing);
}

#[test]
fn price_time_priority_among_sells() {
    let (mut service, t) = exchange(100);
    place(&mut service, 2, 6, 1, sell(t, 10, 5, 50)).unwrap();
    place(&mut service, 4, 5, 2, sell(t, 10, 5, 50)).unwrap();
    place(&mut service, 2, 4, 3, sell(t, 11, 5, 50)).unwrap();
    place(&mut service, 1, 7, 4, buy(t, 10, 5, 50)).unwrap();
    let report = service.match_and_deal(&ExecutorParams { height: 7 });
    assert_eq!(report.len(), 1);
    assert_eq!(report[0].sell, tag(2));
    assert_eq!(look(&service, 2).order_status, OrderStatus::Full);
    assert_eq!(look(&service, 1).order_status, OrderStatus::Fresh);
    assert_eq!(look(&service, 3).order_status, OrderStatus::Fresh);
}

#[test]
fn the_better_price_goes_before_the_older_order() {
    let (mut service, t) = exchange(100);
    place(&mut service, 1, 1, 1, buy(t, 10, 5, 50)).unwrap();
    place(&mut service, 3, 9, 2, buy(t, 11, 5, 50)).unwrap();
    place(&mut service, 2, 1, 3, sell(t, 9, 5, 50)).unwrap();
    place(&mut service, 4, 9, 4, sell(t, 8, 5, 50)).unwrap();
    let report = service.match_and_deal(&ExecutorParams { height: 9 });
    assert_eq!(report.len(), 2);
    assert_eq!((report[0].buy, report[0].sell, report[0].price), (tag(2), tag(4), 9));
    assert_eq!((report[1].buy, report[1].sell, report[1].price), (tag(1), tag(3), 9));
    assert!(report.iter().all(|r| r.code == 0));
}

#[test]
fn a_large_order_is_filled_round_by_round() {
    let (mut service, t) = exchange(100);
    place(&mut service, 1, 5, 1, buy(t, 10, 10, 50)).unwrap();
    place(&mut service, 2, 5, 2, sell(t, 8, 3, 50)).unwrap();
    place(&mut service, 4, 5, 3, sell(t, 9, 4, 50)).unwrap();
    let report = service.match_and_deal(&ExecutorParams { height: 5 });
    assert_eq!(report.len(), 2);
    assert_eq!((report[0].sell, report[0].price, report[0].amount), (tag(2), 9, 3));
    assert_eq!((report[1].sell, report[1].price, report[1].amount), (tag(3), 9, 4));
    let big = look(&service, 1);
    assert_eq!(big.order_status, OrderStatus::Partial(7));
    assert_eq!(big.deal_status, DealStatus::Dealing);
    assert_eq!(big.deals, vec![Deal { price: 9, amount: 3 }, Deal { price: 9, amount: 4 }]);
    assert_eq!(look(&service, 2).order_status, OrderStatus::Full);
    assert_eq!(look(&service, 3).order_status, OrderStatus::Full);
    // 100 escrowed; 70 of it released, 63 paid; 30 still escrowed.
    assert_eq!(held(&service, person(1), tag(BASE)), Balance { current: 1_000 - 100 + 70 - 63, locked: 30 });
    assert_eq!(held(&service, person(1), tag(COUNTER)), Balance { current: 7, locked: 0 });
    assert_eq!(held(&service, person(2), tag(BASE)), Balance { current: 27, locked: 0 });
    assert_eq!(held(&service, person(4), tag(BASE)), Balance { current: 36, locked: 0 });

    // A later block fills the rest, and the order leaves the book.
    place(&mut service, 2, 6, 4, sell(t, 10, 3, 50)).unwrap();
    let report = service.match_and_deal(&ExecutorParams { height: 6 });
    assert_eq!(report.len(), 1);
    assert_eq!((report[0].price, report[0].amount), (10, 3));
    let big = look(&service, 1);
    assert_eq!(big.order_status, OrderStatus::Full);
    assert_eq!(big.deal_status, DealStatus::Dealt);
    assert_eq!(big.deals.len(), 3);
    assert_eq!(held(&service, person(1), tag(BASE)), Balance { current: 1_000 - 63 - 30, locked: 0 });
}

#[test]
fn no_crossed_book_is_left() {
    let (mut service, t) = exchange(100);
    let buys = [(12, 3), (11, 4), (9, 5), (7, 2)];
    let sells = [(8, 2), (10, 6), (13, 1)];
    let mut tx = 1;
    for (price, amount) in buys {
        place(&mut service, 1, 5, tx, buy(t, price, amount, 50)).unwrap();
        tx += 1;
    }
    for (price, amount) in sells {
        place(&mut service, 2, 5, tx, sell(t, price, amount, 50)).unwrap();
        tx += 1;
    }
    let report = service.match_and_deal(&ExecutorParams { height: 5 });
    assert!(report.iter().all(|r| r.code == 0));
    // 12 meets 8 (2 units), 12 meets 10 (1 unit), 11 meets 10 (4 units); then 9 bids less than 10 asks.
    assert_eq!(
        report.iter().map(|r| (r.buy_price, r.sell_price, r.price, r.amount)).collect::<Vec<_>>(),
        vec![(12, 8, 10, 2), (12, 10, 11, 1), (11, 10, 10, 4)]
    );
    for pair in report.windows(2) {
        assert!(pair[0].buy_price >= pair[1].buy_price);
        assert!(pair[0].sell_price <= pair[1].sell_price);
    }
    let open: Vec<GetOrderResponse> =
        (1..tx).map(|x| look(&service, x)).filter(|o| o.deal_status == DealStatus::Dealing).collect();
    let best_bid = open.iter().filter(|o| o.kind == OrderKind::Buy).map(|o| o.price).max().unwrap();
    let best_ask = open.iter().filter(|o| o.kind == OrderKind::Sell).map(|o| o.price).min().unwrap();
    assert_eq!((best_bid, best_ask), (9, 10));
    assert_eq!(total(&service, BASE), 2_000);
    assert_eq!(total(&service, COUNTER), 2_000);
}

#[test]
fn a_refused_deal_changes_nothing_and_is_recorded() {
    let mut ledger = AssetService::new();
    issue(&mut ledger, tag(BASE), 1_000, person(1));
    issue(&mut ledger, tag(COUNTER), 1_000, person(3));
    issue(&mut ledger, tag(OTHER), 1_000, person(2));
    let mut service = DexService::new(ledger);
    service.init_genesis(GenesisPayload { order_validity: 100 });
    let mut c = ctx(person(1), 1, Some(200));
    service
        .add_trade(&mut c, AddTradePayload { base_asset: tag(BASE), counter_party: tag(COUNTER) })
        .unwrap();
    service
        .add_trade(&mut c, AddTradePayload { base_asset: tag(BASE), counter_party: tag(OTHER) })
        .unwrap();
    let trades = service.get_trades(&c).unwrap().trades;
    // The buyer bids in the first trade, the seller asks in the second: the
    // seller has nothing of the first trade's counter asset in escrow.
    place(&mut service, 1, 5, 1, buy(trades[0].id, 10, 5, 50)).unwrap();
    place(&mut service, 2, 5, 2, sell(trades[1].id, 5, 5, 50)).unwrap();
    let report = service.match_and_deal(&ExecutorParams { height: 5 });
    assert_eq!(report.len(), 1);
    assert_eq!(report[0].code, 104);
    assert_eq!((report[0].buy, report[0].sell, report[0].price, report[0].amount), (tag(1), tag(2), 7, 5));
    assert_eq!(look(&service, 1).order_status, OrderStatus::Fresh);
    assert_eq!(look(&service, 1).deal_status, DealStatus::Dealing);
    assert_eq!(look(&service, 2).order_status, OrderStatus::Fresh);
    assert_eq!(look(&service, 2).deal_status, DealStatus::Dealing);
    assert_eq!(held(&service, person(1), tag(BASE)), Balance { current: 950, locked: 50 });
    assert_eq!(held(&service, person(1), tag(COUNTER)), Balance { current: 0, locked: 0 });
    assert_eq!(held(&service, person(2), tag(OTHER)), Balance { current: 995, locked: 5 });
    assert_eq!(held(&service, person(2), tag(BASE)), Balance { current: 0, locked: 0 });
    assert_eq!(held(&service, person(2), tag(COUNTER)), Balance { current: 0, locked: 0 });
}

#[test]
fn an_order_of_nothing_is_full_at_once() {
    let (mut service, t) = exchange(100);
    place(&mut service, 1, 5, 1, buy(t, 10, 0, 50)).unwrap();
    place(&mut service, 2, 5, 2, sell(t, 10, 5, 50)).unwrap();
    let report = service.match_and_deal(&ExecutorParams { height: 5 });
    assert_eq!(report.len(), 1);
    assert_eq!((report[0].amount, report[0].code), (0, 0));
    assert_eq!(look(&service, 1).order_status, OrderStatus::Full);
    assert_eq!(look(&service, 2).order_status, OrderStatus::Partial(0));
    assert_eq!(held(&service, person(2), tag(COUNTER)), Balance { current: 995, locked: 5 });
}

#[test]
fn the_sweep_is_idempotent() {
    let (mut service, t) = exchange(100);
    place(&mut service, 1, 5, 1, buy(t, 4, 10, 7)).unwrap();
    place(&mut service, 1, 5, 2, buy(t, 3, 10, 20)).unwrap();
    place(&mut service, 2, 5, 3, sell(t, 9, 7, 6)).unwrap();
    place(&mut service, 2, 5, 4, sell(t, 9, 7, 8)).unwrap();
    let snapshot = |s: &DexService<AssetService>| {
        (
            (1..=4u8).map(|x| look(s, x)).collect::<Vec<_>>(),
            (1..=4u8).map(|u| (held(s, person(u), tag(BASE)), held(s, person(u), tag(COUNTER)))).collect::<Vec<_>>(),
        )
    };
    service.remove_expiry_orders(8);
    let once = snapshot(&service);
    assert_eq!(once.0[0].deal_status, DealStatus::Dealt);
    assert_eq!(once.0[1].deal_status, DealStatus::Dealing);
    assert_eq!(once.0[2].deal_status, DealStatus::Dealt);
    assert_eq!(once.0[3].deal_status, DealStatus::Dealing);
    assert_eq!(held(&service, person(1), tag(BASE)), Balance { current: 970, locked: 30 });
    assert_eq!(held(&service, person(2), tag(COUNTER)), Balance { current: 993, locked: 7 });
    service.remove_expiry_orders(8);
    assert_eq!(snapshot(&service), once);
}

#[test]
fn a_partly_filled_sell_gets_the_rest_back() {
    let (mut service, t) = exchange(100);
    place(&mut service, 2, 5, 1, sell(t, 5, 7, 6)).unwrap();
    place(&mut service, 1, 5, 2, buy(t, 5, 3, 6)).unwrap();
    assert_eq!(service.match_and_deal(&ExecutorParams { height: 5 }).len(), 1);
    assert_eq!(look(&service, 1).order_status, OrderStatus::Partial(3));
    assert_eq!(held(&service, person(2), tag(COUNTER)), Balance { current: 993, locked: 4 });
    assert!(service.match_and_deal(&ExecutorParams { height: 7 }).is_empty());
    let gone = look(&service, 1);
    assert_eq!(gone.deal_status, DealStatus::Dealt);
    assert_eq!(gone.order_status, OrderStatus::Partial(3));
    assert_eq!(held(&service, person(2), tag(COUNTER)), Balance { current: 997, locked: 0 });
    assert_eq!(held(&service, person(2), tag(BASE)), Balance { current: 15, locked: 0 });
    assert_eq!(total(&service, BASE), 2_000);
    assert_eq!(total(&service, COUNTER), 2_000);
}

#[test]
fn an_order_is_sought_in_the_buy_book_first() {
    let (mut service, t) = exchange(100);
    // The same transaction hash in both books.
    place(&mut service, 2, 5, 1, sell(t, 20, 7, 60)).unwrap();
    assert_eq!(look(&service, 1).kind, OrderKind::Sell);
    place(&mut service, 1, 5, 1, buy(t, 5, 3, 60)).unwrap();
    assert_eq!(look(&service, 1).kind, OrderKind::Buy);
}

#[test]
fn the_mid_price_rounds_down() {
    assert_eq!(deal_price_of(12, 10), 11);
    assert_eq!(deal_price_of(9, 4), 6);
    assert_eq!(deal_price_of(10, 10), 10);
    assert_eq!(deal_price_of(1, 0), 0);
    assert_eq!(deal_price_of(u64::MAX, u64::MAX), u64::MAX);
    assert_eq!(deal_price_of(u64::MAX, u64::MAX - 1), u64::MAX - 1);
}

fn order(kind: OrderKind, price: u64, height: u64, t: u8) -> Order {
    Order {
        trade_id: tag(0),
        tx_hash: tag(t),
        kind,
        price,
        amount: 10,
        height,
        user: person(1),
        expiry: 100,
        status: OrderStatus::Fresh,
        deals: Vec::new(),
    }
}

#[test]
fn orders_compare_by_price_then_age() {
    let b = |p, h| order(OrderKind::Buy, p, h, 1);
    let s = |p, h| order(OrderKind::Sell, p, h, 1);
    assert_eq!(b(10, 5).partial_cmp(&b(9, 1)), Some(Ordering::Greater));
    assert_eq!(b(9, 1).partial_cmp(&b(10, 5)), Some(Ordering::Less));
    assert_eq!(b(10, 5).partial_cmp(&b(10, 6)), Some(Ordering::Greater));
    assert_eq!(b(10, 6).partial_cmp(&b(10, 5)), Some(Ordering::Less));
    assert_eq!(b(10, 5).partial_cmp(&b(10, 5)), Some(Ordering::Equal));
    assert_eq!(s(9, 5).partial_cmp(&s(10, 1)), Some(Ordering::Greater));
    assert_eq!(s(10, 1).partial_cmp(&s(9, 5)), Some(Ordering::Less));
    assert_eq!(s(10, 5).partial_cmp(&s(10, 6)), Some(Ordering::Greater));
    assert_eq!(s(10, 6).partial_cmp(&s(10, 5)), Some(Ordering::Less));
    assert_eq!(s(10, 5).partial_cmp(&s(10, 5)), Some(Ordering::Equal));
    assert_eq!(b(10, 5).partial_cmp(&s(10, 5)), None);
    assert_eq!(s(10, 5).partial_cmp(&b(10, 5)), None);
    assert!(b(10, 5) > b(10, 6));
    assert!(ranks_below(&b(9, 1), &b(10, 5)));
    assert!(!ranks_below(&b(10, 5), &b(10, 5)));
    assert!(ranks_below(&s(10, 6), &s(10, 5)));
}

#[test]
fn a_queue_serves_its_last_order_first() {
    let book = vec![
        order(OrderKind::Buy, 9, 1, 1),
        order(OrderKind::Buy, 11, 7, 2),
        order(OrderKind::Buy, 11, 3, 3),
        order(OrderKind::Buy, 10, 2, 4),
        order(OrderKind::Buy, 11, 3, 5),
    ];
    let queue = build_queue(&book);
    assert_eq!(
        queue.iter().map(|o| o.tx_hash).collect::<Vec<_>>(),
        vec![tag(1), tag(4), tag(2), tag(3), tag(5)]
    );
    assert!(build_queue(&Vec::new()).is_empty());
}

#[test]
fn what_is_settled_of_an_order() {
    let mut o = order(OrderKind::Buy, 9, 1, 1);
    assert_eq!(dealt_amount(&o), 0);
    o.status = OrderStatus::Partial(4);
    assert_eq!(dealt_amount(&o), 4);
    o.status = OrderStatus::Full;
    assert_eq!(dealt_amount(&o), 10);
}
