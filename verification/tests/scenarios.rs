use dex::asset::types::{
    Balance, CreateAssetPayload, GetBalancePayload, InitGenesisPayload, ModifyBalancePayload, TransferEvent,
    TransferPayload,
};
use dex::asset::{AssetError, AssetFacade, AssetService};
use dex::context::{admission_token_bytes, Event, ExecutorParams, ServiceContext, ServiceContextParams};
use dex::dex::types::{
    AddTradePayload, Deal, DealStatus, GenesisPayload, GetOrderPayload, OrderKind, OrderPayload, OrderStatus,
};
use dex::dex::{DexError, DexService};
use dex::primitive::Address;

fn hash(tag: u8) -> dex::primitive::Hash {
    dex::primitive::Hash::digest(&vec![tag])
}

fn user(tag: u8) -> Address {
    Address::from_hash(&hash(tag))
}

fn context(caller: Address, height: u64, tx: Option<u8>) -> ServiceContext {
    ServiceContext::new(ServiceContextParams {
        tx_hash: tx.map(|t| hash(t)),
        caller,
        height,
        extra: None,
        events: Vec::new(),
    })
}

fn balance(service: &AssetService, who: Address, asset: dex::primitive::Hash) -> Balance {
    let ctx = context(who, 0, None);
    service
        .get_balance(&ctx, GetBalancePayload { asset_id: asset, user: who })
        .unwrap()
        .balance
}

fn genesis(service: &mut AssetService, id: dex::primitive::Hash, supply: u64, issuer: Address) {
    service.init_genesis(InitGenesisPayload {
        id,
        name: "asset".to_owned(),
        symbol: "AST".to_owned(),
        supply,
        issuer,
    });
}

// Base asset B issued to U1, counter asset C issued to U2, one trade of the
// two, validity 10.
fn market() -> (DexService<AssetService>, dex::primitive::Hash, dex::primitive::Hash, dex::primitive::Hash) {
    let base = hash(101);
    let counter = hash(102);
    let mut ledger = AssetService::new();
    genesis(&mut ledger, base, 1_000, user(1));
    genesis(&mut ledger, counter, 1_000, user(2));
    let mut service = DexService::new(ledger);
    service.init_genesis(GenesisPayload { order_validity: 10 });
    let mut ctx = context(user(1), 1, Some(200));
    service
        .add_trade(&mut ctx, AddTradePayload { base_asset: base, counter_party: counter })
        .unwrap();
    let trade_id = service.get_trades(&ctx).unwrap().trades[0].id;
    (service, base, counter, trade_id)
}

fn place(
    service: &mut DexService<AssetService>,
    who: Address,
    height: u64,
    tx: u8,
    payload: OrderPayload,
) -> Result<(), DexError> {
    let mut ctx = context(who, height, Some(tx));
    service.order(&mut ctx, payload)
}

#[test]
fn create_and_transfer() {
    let a = hash(7);
    let mut service = AssetService::new();
    genesis(&mut service, a, 1_000_000, user(1));
    let mut ctx = context(user(1), 1, Some(1));
    service
        .transfer(&mut ctx, TransferPayload { asset_id: a, to: user(2), value: 250_000 })
        .unwrap();
    assert_eq!(balance(&service, user(1), a), Balance { current: 750_000, locked: 0 });
    assert_eq!(balance(&service, user(2), a), Balance { current: 250_000, locked: 0 });
    assert_eq!(ctx.events.len(), 1);
    assert_eq!(ctx.events[0].topic(), "TransferAsset");
    match &ctx.events[0] {
        Event::TransferAsset(e) => {
            assert_eq!(*e, TransferEvent { asset_id: a, from: user(1), to: user(2), value: 250_000 })
        }
        _ => panic!("a transfer emits a transfer event"),
    }
}

#[test]
fn transfer_of_more_than_is_held_changes_nothing() {
    let a = hash(7);
    let mut service = AssetService::new();
    genesis(&mut service, a, 100, user(1));
    let mut ctx = context(user(1), 1, Some(1));
    let res = service.transfer(&mut ctx, TransferPayload { asset_id: a, to: user(2), value: 101 });
    assert!(matches!(res, Err(AssetError::InsufficientBalance { wanted: 101, had: 100 })));
    assert_eq!(res.unwrap_err().code(), 104);
    assert_eq!(balance(&service, user(1), a), Balance { current: 100, locked: 0 });
    assert_eq!(balance(&service, user(2), a), Balance { current: 0, locked: 0 });
    assert!(ctx.events.is_empty());
}

#[test]
fn transfer_of_an_unknown_asset_fails() {
    let mut service = AssetService::new();
    let mut ctx = context(user(1), 1, Some(1));
    let res = service.transfer(&mut ctx, TransferPayload { asset_id: hash(9), to: user(2), value: 1 });
    assert!(matches!(res, Err(AssetError::AssetNotExist { id }) if id == hash(9)));
    assert_eq!(res.unwrap_err().code(), 103);
}

#[test]
fn transfer_that_overflows_the_receiver_changes_nothing() {
    let a = hash(7);
    let mut service = AssetService::new();
    genesis(&mut service, a, u64::MAX, user(2));
    // The genesis call replaces the asset and sets the issuer's balance.
    genesis(&mut service, a, 10, user(1));
    let mut ctx = context(user(1), 1, Some(1));
    let res = service.transfer(&mut ctx, TransferPayload { asset_id: a, to: user(2), value: 1 });
    assert!(matches!(res, Err(AssetError::U64Overflow)));
    assert_eq!(res.unwrap_err().code(), 105);
    assert_eq!(balance(&service, user(1), a), Balance { current: 10, locked: 0 });
    assert_eq!(balance(&service, user(2), a), Balance { current: u64::MAX, locked: 0 });
}

#[test]
fn create_asset_determinism() {
    let mut service = AssetService::new();
    let payload = CreateAssetPayload { name: "Token".to_owned(), symbol: "TKN".to_owned(), supply: 500 };
    let mut ctx = context(user(1), 1, Some(1));
    let first = service.create_asset(&mut ctx, payload.clone()).unwrap();
    assert_eq!(first.issuer, user(1));
    assert_eq!(first.supply, 500);
    assert_eq!(balance(&service, user(1), first.id), Balance { current: 500, locked: 0 });
    assert_eq!(ctx.events.len(), 1);
    assert_eq!(ctx.events[0].topic(), "CreateAsset");

    let second = service.create_asset(&mut ctx, payload.clone());
    assert!(matches!(&second, Err(AssetError::AssetExisted { id }) if *id == first.id));
    assert_eq!(second.unwrap_err().code(), 102);
    assert_eq!(ctx.events.len(), 1);

    let mut other = context(user(2), 1, Some(2));
    let third = service.create_asset(&mut other, payload).unwrap();
    assert_ne!(third.id, first.id);
    assert_eq!(balance(&service, user(2), third.id), Balance { current: 500, locked: 0 });
}

#[test]
fn asset_id_is_the_digest_of_payload_json_and_caller_hex() {
    let mut service = AssetService::new();
    let payload = CreateAssetPayload { name: "a\"b".to_owned(), symbol: "T".to_owned(), supply: 1_204 };
    let mut ctx = context(user(1), 1, Some(1));
    let asset = service.create_asset(&mut ctx, payload).unwrap();
    let mut text = b"{\"name\":\"a\\\"b\",\"symbol\":\"T\",\"supply\":1204}".to_vec();
    text.extend_from_slice(&user(1).as_hex());
    assert_eq!(asset.id, dex::primitive::Hash::digest(&text));
}

#[test]
fn lock_without_capability() {
    let a = hash(7);
    let mut service = AssetService::new();
    genesis(&mut service, a, 100, user(1));
    let payload = ModifyBalancePayload { asset_id: a, user: user(1), value: 10 };
    let res = service.lock(context(user(1), 1, Some(1)), payload);
    assert!(matches!(res, Err(AssetError::PermissionDenial)));
    assert_eq!(res.unwrap_err().code(), 106);
    let mut wrong = context(user(1), 1, Some(1));
    wrong.extra = Some(b"dex_tokem".to_vec());
    assert_eq!(service.unlock(wrong, payload).unwrap_err().code(), 106);
    assert_eq!(service.add_value(context(user(1), 1, None), payload).unwrap_err().code(), 106);
    assert_eq!(service.sub_value(context(user(1), 1, None), payload).unwrap_err().code(), 106);
    assert_eq!(balance(&service, user(1), a), Balance { current: 100, locked: 0 });
}

#[test]
fn lock_and_unlock_with_capability() {
    let a = hash(7);
    let mut service = AssetService::new();
    genesis(&mut service, a, 100, user(1));
    assert_eq!(admission_token_bytes(), b"dex_token".to_vec());
    let admitted = || {
        let mut ctx = context(user(9), 0, None);
        ctx.extra = Some(admission_token_bytes());
        ctx
    };
    let payload = ModifyBalancePayload { asset_id: a, user: user(1), value: 30 };
    service.lock(admitted(), payload).unwrap();
    assert_eq!(balance(&service, user(1), a), Balance { current: 70, locked: 30 });
    let too_much = ModifyBalancePayload { asset_id: a, user: user(1), value: 71 };
    assert!(matches!(
        service.lock(admitted(), too_much),
        Err(AssetError::InsufficientBalance { wanted: 71, had: 70 })
    ));
    assert!(matches!(
        service.unlock(admitted(), too_much),
        Err(AssetError::InsufficientBalance { wanted: 71, had: 30 })
    ));
    service.unlock(admitted(), payload).unwrap();
    assert_eq!(balance(&service, user(1), a), Balance { current: 100, locked: 0 });
    service.add_value(admitted(), payload).unwrap();
    assert_eq!(balance(&service, user(1), a), Balance { current: 130, locked: 0 });
    service.sub_value(admitted(), payload).unwrap();
    assert_eq!(balance(&service, user(1), a), Balance { current: 100, locked: 0 });
    let unknown = ModifyBalancePayload { asset_id: hash(8), user: user(1), value: 1 };
    assert_eq!(service.lock(admitted(), unknown).unwrap_err().code(), 103);
}

#[test]
fn exact_match_equal_size() {
    let (mut service, base, counter, trade_id) = market();
    let h = 5;
    let buy = OrderPayload { trade_id, kind: OrderKind::Buy, price: 10, amount: 5, expiry: h + 5 };
    let sell = OrderPayload { trade_id, kind: OrderKind::Sell, price: 10, amount: 5, expiry: h + 5 };
    place(&mut service, user(1), h, 1, buy).unwrap();
    place(&mut service, user(2), h, 2, sell).unwrap();
    assert_eq!(balance(service.asset(), user(1), base), Balance { current: 950, locked: 50 });
    assert_eq!(balance(service.asset(), user(2), counter), Balance { current: 995, locked: 5 });

    let report = service.match_and_deal(&ExecutorParams { height: h });
    assert_eq!(report.len(), 1);
    assert_eq!(report[0].code, 0);
    assert_eq!(report[0].price, 10);
    assert_eq!(report[0].amount, 5);
    assert_eq!(report[0].buy, hash(1));
    assert_eq!(report[0].sell, hash(2));

    let ctx = context(user(1), h, None);
    let bought = service.get_order(&ctx, GetOrderPayload { tx_hash: hash(1) }).unwrap();
    let sold = service.get_order(&ctx, GetOrderPayload { tx_hash: hash(2) }).unwrap();
    assert_eq!(bought.order_status, OrderStatus::Full);
    assert_eq!(bought.deal_status, DealStatus::Dealt);
    assert_eq!(bought.deals, vec![Deal { price: 10, amount: 5 }]);
    assert_eq!(sold.order_status, OrderStatus::Full);
    assert_eq!(sold.deal_status, DealStatus::Dealt);
    assert_eq!(sold.deals, vec![Deal { price: 10, amount: 5 }]);

    assert_eq!(balance(service.asset(), user(1), base), Balance { current: 950, locked: 0 });
    assert_eq!(balance(service.asset(), user(1), counter), Balance { current: 5, locked: 0 });
    assert_eq!(balance(service.asset(), user(2), counter), Balance { current: 995, locked: 0 });
    assert_eq!(balance(service.asset(), user(2), base), Balance { current: 50, locked: 0 });
}

#[test]
fn partial_fill_buyer_smaller() {
    let (mut service, base, counter, trade_id) = market();
    let buy = OrderPayload { trade_id, kind: OrderKind::Buy, price: 12, amount: 3, expiry: 9 };
    let sell = OrderPayload { trade_id, kind: OrderKind::Sell, price: 10, amount: 5, expiry: 9 };
    place(&mut service, user(1), 5, 1, buy).unwrap();
    place(&mut service, user(2), 5, 2, sell).unwrap();
    let report = service.match_and_deal(&ExecutorParams { height: 5 });
    assert_eq!(report.len(), 1);
    assert_eq!((report[0].price, report[0].amount, report[0].code), (11, 3, 0));

    let ctx = context(user(1), 5, None);
    let bought = service.get_order(&ctx, GetOrderPayload { tx_hash: hash(1) }).unwrap();
    let sold = service.get_order(&ctx, GetOrderPayload { tx_hash: hash(2) }).unwrap();
    assert_eq!(bought.order_status, OrderStatus::Full);
    assert_eq!(bought.deal_status, DealStatus::Dealt);
    assert_eq!(sold.order_status, OrderStatus::Partial(3));
    assert_eq!(sold.deal_status, DealStatus::Dealing);
    assert_eq!(sold.deals, vec![Deal { price: 11, amount: 3 }]);

    assert_eq!(balance(service.asset(), user(1), base), Balance { current: 1_000 - 33, locked: 0 });
    assert_eq!(balance(service.asset(), user(1), counter), Balance { current: 3, locked: 0 });
    assert_eq!(balance(service.asset(), user(2), counter), Balance { current: 995, locked: 2 });
    assert_eq!(balance(service.asset(), user(2), base), Balance { current: 33, locked: 0 });
}

#[test]
fn partial_fill_seller_smaller() {
    let (mut service, base, counter, trade_id) = market();
    let buy = OrderPayload { trade_id, kind: OrderKind::Buy, price: 9, amount: 7, expiry: 9 };
    let sell = OrderPayload { trade_id, kind: OrderKind::Sell, price: 4, amount: 2, expiry: 9 };
    place(&mut service, user(1), 5, 1, buy).unwrap();
    place(&mut service, user(2), 5, 2, sell).unwrap();
    let report = service.match_and_deal(&ExecutorParams { height: 5 });
    assert_eq!(report.len(), 1);
    // (9 + 4) / 2 rounds towards the smaller price.
    assert_eq!((report[0].price, report[0].amount, report[0].code), (6, 2, 0));
    let ctx = context(user(1), 5, None);
    let bought = service.get_order(&ctx, GetOrderPayload { tx_hash: hash(1) }).unwrap();
    let sold = service.get_order(&ctx, GetOrderPayload { tx_hash: hash(2) }).unwrap();
    assert_eq!(bought.order_status, OrderStatus::Partial(2));
    assert_eq!(bought.deal_status, DealStatus::Dealing);
    assert_eq!(sold.order_status, OrderStatus::Full);
    assert_eq!(sold.deal_status, DealStatus::Dealt);
    // 63 escrowed, 18 of it released, 12 of that paid.
    assert_eq!(balance(service.asset(), user(1), base), Balance { current: 1_000 - 63 + 18 - 12, locked: 45 });
    assert_eq!(balance(service.asset(), user(1), counter), Balance { current: 2, locked: 0 });
    assert_eq!(balance(service.asset(), user(2), base), Balance { current: 12, locked: 0 });
    assert_eq!(balance(service.asset(), user(2), counter), Balance { current: 998, locked: 0 });
}

#[test]
fn crossed_book_bound() {
    let (mut service, base, counter, trade_id) = market();
    let buy = OrderPayload { trade_id, kind: OrderKind::Buy, price: 8, amount: 5, expiry: 9 };
    let sell = OrderPayload { trade_id, kind: OrderKind::Sell, price: 9, amount: 5, expiry: 9 };
    place(&mut service, user(1), 5, 1, buy).unwrap();
    place(&mut service, user(2), 5, 2, sell).unwrap();
    let report = service.match_and_deal(&ExecutorParams { height: 5 });
    assert!(report.is_empty());
    let ctx = context(user(1), 5, None);
    let bought = service.get_order(&ctx, GetOrderPayload { tx_hash: hash(1) }).unwrap();
    let sold = service.get_order(&ctx, GetOrderPayload { tx_hash: hash(2) }).unwrap();
    assert_eq!(bought.order_status, OrderStatus::Fresh);
    assert_eq!(bought.deal_status, DealStatus::Dealing);
    assert!(bought.deals.is_empty());
    assert_eq!(sold.order_status, OrderStatus::Fresh);
    assert_eq!(sold.deal_status, DealStatus::Dealing);
    assert_eq!(balance(service.asset(), user(1), base), Balance { current: 960, locked: 40 });
    assert_eq!(balance(service.asset(), user(2), counter), Balance { current: 995, locked: 5 });
}

#[test]
fn expiry_refund() {
    let (mut service, base, _counter, trade_id) = market();
    let buy = OrderPayload { trade_id, kind: OrderKind::Buy, price: 4, amount: 10, expiry: 101 };
    place(&mut service, user(1), 100, 1, buy).unwrap();
    assert_eq!(balance(service.asset(), user(1), base), Balance { current: 960, locked: 40 });
    // At its expiry height the order still stands.
    assert!(service.match_and_deal(&ExecutorParams { height: 101 }).is_empty());
    let ctx = context(user(1), 101, None);
    assert_eq!(
        service.get_order(&ctx, GetOrderPayload { tx_hash: hash(1) }).unwrap().deal_status,
        DealStatus::Dealing
    );
    assert!(service.match_and_deal(&ExecutorParams { height: 102 }).is_empty());
    let order = service.get_order(&ctx, GetOrderPayload { tx_hash: hash(1) }).unwrap();
    assert_eq!(order.deal_status, DealStatus::Dealt);
    assert_eq!(order.order_status, OrderStatus::Fresh);
    assert_eq!(balance(service.asset(), user(1), base), Balance { current: 1_000, locked: 0 });
}

#[test]
fn what_is_held_adds_up_to_the_supply() {
    let a = hash(7);
    let mut service = AssetService::new();
    assert!(service.assets().is_empty());
    assert!(service.accounts().is_empty());
    genesis(&mut service, a, 1_000, user(1));
    let mut ctx = context(user(1), 1, Some(1));
    service.transfer(&mut ctx, TransferPayload { asset_id: a, to: user(2), value: 400 }).unwrap();
    service.transfer(&mut ctx, TransferPayload { asset_id: a, to: user(3), value: 1 }).unwrap();
    service.transfer(&mut ctx, TransferPayload { asset_id: a, to: user(1), value: 5 }).unwrap();
    let mut admitted = context(user(9), 0, None);
    admitted.extra = Some(admission_token_bytes());
    service.lock(admitted, ModifyBalancePayload { asset_id: a, user: user(2), value: 150 }).unwrap();
    let created = service
        .create_asset(&mut ctx, CreateAssetPayload { name: "B".to_owned(), symbol: "B".to_owned(), supply: 77 })
        .unwrap();
    let assets = service.assets();
    assert_eq!(assets.len(), 2);
    assert_eq!(assets[0].id, a);
    assert_eq!(assets[1], created);
    for asset in assets {
        let held: u64 = service
            .accounts()
            .iter()
            .filter(|e| e.asset_id == asset.id)
            .map(|e| e.balance.current + e.balance.locked)
            .sum();
        assert_eq!(held, asset.supply);
    }
    let accounts = service.accounts();
    assert_eq!(accounts.len(), 4);
    assert_eq!(accounts[1].user, user(2));
    assert_eq!(accounts[1].balance, Balance { current: 250, locked: 150 });
}

#[test]
fn the_exchange_hands_out_its_books_and_its_ledger() {
    let (mut service, base, _counter, trade_id) = market();
    assert_eq!(service.validity(), 10);
    let buy = OrderPayload { trade_id, kind: OrderKind::Buy, price: 3, amount: 5, expiry: 6 };
    let sell = OrderPayload { trade_id, kind: OrderKind::Sell, price: 4, amount: 5, expiry: 9 };
    place(&mut service, user(1), 5, 1, buy).unwrap();
    place(&mut service, user(2), 5, 2, sell).unwrap();
    assert_eq!(service.buy_orders().iter().map(|o| o.tx_hash).collect::<Vec<_>>(), vec![hash(1)]);
    assert_eq!(service.sell_orders().iter().map(|o| o.tx_hash).collect::<Vec<_>>(), vec![hash(2)]);
    assert!(service.history_orders().is_empty());
    service.remove_expiry_orders(7);
    assert!(service.buy_orders().is_empty());
    assert_eq!(service.sell_orders().len(), 1);
    assert_eq!(service.history_orders().iter().map(|o| o.tx_hash).collect::<Vec<_>>(), vec![hash(1)]);
    // A transfer on the ledger inside the exchange.
    let mut ctx = context(user(1), 8, Some(3));
    service
        .asset_mut()
        .transfer(&mut ctx, TransferPayload { asset_id: base, to: user(2), value: 10 })
        .unwrap();
    assert_eq!(balance(service.asset(), user(1), base), Balance { current: 990, locked: 0 });
    assert_eq!(balance(service.asset(), user(2), base), Balance { current: 10, locked: 0 });
    // The same hash put again replaces the order in its book.
    let dearer = OrderPayload { trade_id, kind: OrderKind::Sell, price: 6, amount: 1, expiry: 9 };
    place(&mut service, user(2), 8, 2, dearer).unwrap();
    assert_eq!(service.sell_orders().len(), 1);
    assert_eq!(service.sell_orders()[0].price, 6);
    assert!(user(1).precedes(&user(2)) != user(2).precedes(&user(1)));
}
