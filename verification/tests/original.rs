use dex::asset::AssetService;
use dex::context::{ServiceContext, ServiceContextParams};
use dex::dex::types::{AddTradePayload, OrderKind, OrderPayload};
use dex::dex::{DexError, DexService};
use dex::primitive::Address;

fn mock_context(caller: Address) -> ServiceContext {
    ServiceContext::new(ServiceContextParams {
        tx_hash: None,
        caller,
        height: 1,
        extra: None,
        events: Vec::new(),
    })
}

fn new_dex_service() -> DexService<AssetService> {
    DexService::new(AssetService::new())
}

#[test]
fn test_json() {
    let o = OrderPayload {
        trade_id: dex::primitive::Hash::from_empty(),
        kind: OrderKind::Sell,
        price: 2,
        amount: 100,
        expiry: 99999,
    };
    println!("buy, {:?}", o);

    println!("hash, {:?}", &dex::primitive::Hash::from_empty());
    assert_eq!(o.kind, OrderKind::Sell);
    assert_eq!((o.price, o.amount, o.expiry), (2, 100, 99999));
}

#[test]
fn test_add_trade() {
    let caller = Address::from_hex("0x755cdba6ae4f479f7164792b318b2a06c759833b").unwrap();
    let mut context = mock_context(caller);

    let mut service = new_dex_service();

    // A trade of an asset with itself is refused.
    let trade = service.add_trade(
        &mut context,
        AddTradePayload {
            base_asset: dex::primitive::Hash::from_empty(),
            counter_party: dex::primitive::Hash::from_empty(),
        },
    );

    println!("add trade:{:?}", trade);
    assert!(matches!(trade, Err(DexError::IllegalTrade)));

    let trades = service.get_trades(&context).unwrap();

    println!("get trades:{:?}", trades);
    assert!(trades.trades.is_empty());
    assert!(context.events.is_empty());
}
