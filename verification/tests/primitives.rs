use dex::context::{Event, ServiceContext, ServiceContextParams};
use dex::dex::get_call_asset_ctx;
use dex::json::decimal;
use dex::mapping::{get_service, list_service_name, MappingError, ServiceName};
use dex::primitive::{bytes_equal, bytes_less, hex_decode, hex_encode, Address};

fn from_hex(text: &str) -> Vec<u8> {
    hex_decode(text.as_bytes(), text.len() / 2).unwrap()
}

#[test]
fn digest_is_keccak_256() {
    let empty = dex::primitive::Hash::digest(&Vec::new());
    assert_eq!(
        empty.as_bytes(),
        from_hex("c5d2460186f7233c927e7db2dcc703c0e500b653ca82273b7bfad8045d85a470")
    );
    let abc = dex::primitive::Hash::digest(&b"abc".to_vec());
    assert_eq!(
        abc.as_hex(),
        b"4e03657aea45a94fc7d47ba826c8d667c0d1e6e33a64a036ec44f58fa12d6c45".to_vec()
    );
}

#[test]
fn the_empty_hash_is_the_digest_of_the_empty_item() {
    let h = dex::primitive::Hash::from_empty();
    assert_eq!(h, dex::primitive::Hash::digest(&vec![0x80]));
    assert_eq!(
        h.as_hex(),
        b"56e81f171bcc55a6ff8345e692c0f86e5b48e01b996cadc001622fb5e363b421".to_vec()
    );
}

#[test]
fn an_address_is_the_head_of_a_hash() {
    let h = dex::primitive::Hash::from_empty();
    let a = Address::from_hash(&h);
    assert_eq!(a.as_bytes(), h.as_bytes()[..20].to_vec());
    assert_eq!(a.as_hex(), b"56e81f171bcc55a6ff8345e692c0f86e5b48e01b".to_vec());
}

#[test]
fn hex_text_has_two_lower_case_digits_per_byte() {
    assert_eq!(hex_encode(&[]), Vec::<u8>::new());
    assert_eq!(hex_encode(&[0x00, 0x0f, 0xa0, 0xff, 0x9c]), b"000fa0ff9c".to_vec());
}

#[test]
fn hex_text_is_read_in_either_case_with_or_without_prefix() {
    assert_eq!(hex_decode(b"0x00Ff1a", 3), Some(vec![0x00, 0xff, 0x1a]));
    assert_eq!(hex_decode(b"00fF1A", 3), Some(vec![0x00, 0xff, 0x1a]));
    assert_eq!(hex_decode(b"", 0), Some(vec![]));
    assert_eq!(hex_decode(b"0x", 0), Some(vec![]));
    assert_eq!(hex_decode(b"00ff1", 3), None);
    assert_eq!(hex_decode(b"00ff1a", 2), None);
    assert_eq!(hex_decode(b"00fg1a", 3), None);
    assert_eq!(hex_decode(b"0X00ff", 2), None);
}

#[test]
fn address_from_hex() {
    let a = Address::from_hex("0x755cdba6ae4f479f7164792b318b2a06c759833b").unwrap();
    assert_eq!(a.as_hex(), b"755cdba6ae4f479f7164792b318b2a06c759833b".to_vec());
    assert_eq!(a.bytes[0], 0x75);
    assert_eq!(a.bytes[19], 0x3b);
    assert_eq!(Address::from_hex("755cdba6ae4f479f7164792b318b2a06c759833b"), Some(a));
    assert_eq!(Address::from_hex("0x755cdba6ae4f479f7164792b318b2a06c75983"), None);
    assert_eq!(Address::from_bytes(&[1u8; 19]), None);
    assert_eq!(Address::from_bytes(&[1u8; 20]).unwrap().bytes, [1u8; 20]);
}

#[test]
fn hash_from_hex_and_bytes() {
    let text = "56e81f171bcc55a6ff8345e692c0f86e5b48e01b996cadc001622fb5e363b421";
    let h = dex::primitive::Hash::from_hex(text).unwrap();
    assert_eq!(h, dex::primitive::Hash::from_empty());
    assert_eq!(dex::primitive::Hash::from_hex(&text[2..]), None);
    assert_eq!(dex::primitive::Hash::from_bytes(&[7u8; 31]), None);
    assert_eq!(dex::primitive::Hash::from_bytes(&[7u8; 33]), None);
    assert_eq!(dex::primitive::Hash::from_bytes(&[7u8; 32]).unwrap().bytes, [7u8; 32]);
}

#[test]
fn hashes_are_ordered_byte_by_byte() {
    let mut low = [0u8; 32];
    let mut high = [0u8; 32];
    low[31] = 1;
    high[0] = 1;
    let low = dex::primitive::Hash { bytes: low };
    let high = dex::primitive::Hash { bytes: high };
    assert!(low.precedes(&high));
    assert!(!high.precedes(&low));
    assert!(!low.precedes(&low));
    assert!(low.equals(&low));
    assert!(!low.equals(&high));
    assert!(bytes_less(&[1, 2, 3], &[1, 3, 0]));
    assert!(!bytes_less(&[1, 3, 0], &[1, 2, 3]));
    assert!(!bytes_less(&[], &[]));
    assert!(bytes_equal(&[1, 2], &[1, 2]));
    assert!(!bytes_equal(&[1, 2], &[1, 2, 3]));
    assert!(!bytes_equal(&[1, 2], &[2, 2]));
}

#[test]
fn decimal_digits() {
    assert_eq!(decimal(0), b"0".to_vec());
    assert_eq!(decimal(9), b"9".to_vec());
    assert_eq!(decimal(10), b"10".to_vec());
    assert_eq!(decimal(1_204), b"1204".to_vec());
    assert_eq!(decimal(u64::MAX), b"18446744073709551615".to_vec());
}

#[test]
fn services_by_name() {
    assert_eq!(get_service("asset"), Ok(ServiceName::Asset));
    assert_eq!(get_service("metadata"), Ok(ServiceName::Metadata));
    assert_eq!(get_service("dex"), Ok(ServiceName::Dex));
    assert_eq!(
        get_service("bank"),
        Err(MappingError::NotFoundService { service: "bank".to_owned() })
    );
    assert_eq!(get_service(""), Err(MappingError::NotFoundService { service: String::new() }));
    assert_eq!(
        list_service_name(),
        vec!["asset".to_owned(), "metadata".to_owned(), "dex".to_owned()]
    );
}

#[test]
fn a_context_hands_out_what_it_was_made_of() {
    let caller = Address::from_hash(&dex::primitive::Hash::digest(&vec![1]));
    let tx = dex::primitive::Hash::digest(&vec![2]);
    let mut ctx = ServiceContext::new(ServiceContextParams {
        tx_hash: Some(tx),
        caller,
        height: 42,
        extra: Some(b"dex_token".to_vec()),
        events: Vec::new(),
    });
    assert_eq!(ctx.get_caller(), caller);
    assert_eq!(ctx.get_tx_hash(), Some(tx));
    assert_eq!(ctx.get_current_height(), 42);
    assert!(ctx.is_admitted());
    ctx.extra = Some(b"dex_token ".to_vec());
    assert!(!ctx.is_admitted());
    ctx.extra = Some(Vec::new());
    assert!(!ctx.is_admitted());
    ctx.extra = None;
    assert!(!ctx.is_admitted());
    let trade = dex::dex::types::Trade { id: tx, base_asset: tx, counter_party: tx };
    ctx.emit_event(Event::AddTrade(trade));
    assert_eq!(ctx.events.len(), 1);
    assert_eq!(ctx.events[0].topic(), "AddTrade");
}

#[test]
fn the_exchange_calls_the_ledger_with_the_token() {
    let ctx = get_call_asset_ctx();
    assert!(ctx.is_admitted());
    assert_eq!(ctx.get_tx_hash(), None);
    assert_eq!(ctx.get_current_height(), 0);
    assert_eq!(ctx.get_caller(), Address::from_hash(&dex::primitive::Hash::from_empty()));
    assert!(ctx.events.is_empty());
}
