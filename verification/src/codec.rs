//! The persisted layout of the records: length-prefixed lists of byte
//! strings and numbers, written and read with the `rlp` crate.

use crate::asset::types::{Asset, Balance};
use crate::dex::types::{Deal, Order, OrderKind, OrderStatus, OrderView, Trade};
use crate::json::append_bytes;
use crate::primitive::{self, lemma_address_by_bytes, lemma_hash_by_bytes, Address};
use vstd::prelude::*;
use vstd::string::StrSliceExecFns;
use vstd::utf8::encode_utf8;

verus! {

/// The error of the `rlp` decoder, carried through as it is.
#[verifier::external_type_specification]
#[verifier::external_body]
pub struct ExDecoderError(rlp::DecoderError);

/// The encoding of a byte string.
pub uninterp spec fn rlp_text(data: Seq<u8>) -> Seq<u8>;

/// The encoding of a number.
pub uninterp spec fn rlp_number(v: u64) -> Seq<u8>;

/// The encoding of a list of `count` items whose encodings, one after the
/// other, are `payload`.
pub uninterp spec fn rlp_list(payload: Seq<u8>, count: usize) -> Seq<u8>;

/// The encoding of the item at `index` of an encoded list; `None` where the
/// decoder reports an error.
pub uninterp spec fn rlp_item(bytes: Seq<u8>, index: usize) -> Option<Seq<u8>>;

/// The number that an encoding stands for; `None` where the decoder
/// reports an error.
pub uninterp spec fn rlp_number_of(bytes: Seq<u8>) -> Option<u64>;

/// The byte string that an encoding stands for; `None` where the decoder
/// reports an error.
pub uninterp spec fn rlp_data_of(bytes: Seq<u8>) -> Option<Seq<u8>>;

/// The text that an encoding stands for; `None` where the decoder reports
/// an error.
pub uninterp spec fn rlp_string_of(bytes: Seq<u8>) -> Option<Seq<char>>;

/// The number of items of an encoded list; `None` where the decoder
/// reports an error.
pub uninterp spec fn rlp_count_of(bytes: Seq<u8>) -> Option<usize>;

/// Calls `rlp::encode` on a byte string, which writes it with the crate's
/// `Encodable` of `&[u8]`. The encoding depends on the bytes alone.
#[verifier::external_body]
fn encode_text(data: &[u8]) -> (out: Vec<u8>)
    ensures
        out@ == rlp_text(data@),
{
    rlp::encode(&data)
}

/// Calls `rlp::encode` on a `u64`, which writes it with the crate's
/// `Encodable` of `u64`. The encoding depends on the number alone.
#[verifier::external_body]
fn encode_number(v: u64) -> (out: Vec<u8>)
    ensures
        out@ == rlp_number(v),
{
    rlp::encode(&v)
}

/// Opens a list of `count` items with `rlp::RlpStream::new_list`, appends
/// `payload` as those items with `append_raw`, and takes the bytes with
/// `out`. The stream is finished by then, so `out` does not panic; the
/// bytes depend on the payload and the count alone.
#[verifier::external_body]
fn encode_list(payload: &[u8], count: usize) -> (out: Vec<u8>)
    ensures
        out@ == rlp_list(payload@, count),
{
    let mut stream = rlp::RlpStream::new_list(count);
    stream.append_raw(payload, count);
    stream.out()
}

/// Calls `rlp::Rlp::at` and copies the bytes of the item that it finds.
/// What it returns, the item or that there is an error, depends on the
/// bytes and the index alone.
#[verifier::external_body]
fn item_at(bytes: &[u8], index: usize) -> (out: Result<Vec<u8>, rlp::DecoderError>)
    ensures
        match out {
            Ok(v) => rlp_item(bytes@, index) == Some(v@),
            Err(_) => rlp_item(bytes@, index) is None,
        },
{
    match rlp::Rlp::new(bytes).at(index) {
        Ok(item) => Ok(item.as_raw().to_vec()),
        Err(e) => Err(e),
    }
}

/// Calls `rlp::Rlp::as_val` for a `u64`, which reads the number with the
/// crate's `Decodable` of `u64`. What it returns depends on the bytes alone.
#[verifier::external_body]
fn number_of(bytes: &[u8]) -> (out: Result<u64, rlp::DecoderError>)
    ensures
        match out {
            Ok(v) => rlp_number_of(bytes@) == Some(v),
            Err(_) => rlp_number_of(bytes@) is None,
        },
{
    rlp::Rlp::new(bytes).as_val::<u64>()
}

/// Calls `rlp::Rlp::data` and copies the bytes. What it returns depends on
/// the bytes alone.
#[verifier::external_body]
fn data_of(bytes: &[u8]) -> (out: Result<Vec<u8>, rlp::DecoderError>)
    ensures
        match out {
            Ok(v) => rlp_data_of(bytes@) == Some(v@),
            Err(_) => rlp_data_of(bytes@) is None,
        },
{
    match rlp::Rlp::new(bytes).data() {
        Ok(d) => Ok(d.to_vec()),
        Err(e) => Err(e),
    }
}

/// Calls `rlp::Rlp::as_val` for a `String`, which reads the text with the
/// crate's `Decodable` of `String`. What it returns depends on the bytes
/// alone.
#[verifier::external_body]
fn string_of(bytes: &[u8]) -> (out: Result<String, rlp::DecoderError>)
    ensures
        match out {
            Ok(v) => rlp_string_of(bytes@) == Some(v@),
            Err(_) => rlp_string_of(bytes@) is None,
        },
{
    rlp::Rlp::new(bytes).as_val::<String>()
}

/// Calls `rlp::Rlp::item_count`. What it returns depends on the bytes
/// alone.
#[verifier::external_body]
fn count_of(bytes: &[u8]) -> (out: Result<usize, rlp::DecoderError>)
    ensures
        match out {
            Ok(n) => rlp_count_of(bytes@) == Some(n),
            Err(_) => rlp_count_of(bytes@) is None,
        },
{
    rlp::Rlp::new(bytes).item_count()
}

/// Why bytes were refused as the encoding of a record.
#[derive(Debug)]
pub enum CodecError {
    /// The decoder found no item, number, byte string or text where one
    /// was due.
    Decoder(rlp::DecoderError),
    /// A hash that is not 32 bytes long, or an address that is not 20.
    InvalidLength,
    /// The tag of an order's kind is neither 1 nor 2.
    UnknownKind(u64),
    /// The tag of an order's status is none of 0, 1 and 2.
    UnknownStatus(u64),
}

/// The reasons of refusal as mathematical values.
pub enum CodecFault {
    Malformed,
    InvalidLength,
    UnknownKind(u64),
    UnknownStatus(u64),
}

impl CodecError {
    /// The reason as a mathematical value.
    pub open spec fn fault(self) -> CodecFault {
        match self {
            CodecError::Decoder(_) => CodecFault::Malformed,
            CodecError::InvalidLength => CodecFault::InvalidLength,
            CodecError::UnknownKind(t) => CodecFault::UnknownKind(t),
            CodecError::UnknownStatus(t) => CodecFault::UnknownStatus(t),
        }
    }
}

/// Whether a reader that returned `res` read what `expected` says.
pub open spec fn reads<T>(res: Result<T, CodecError>, expected: Result<T, CodecFault>) -> bool {
    match res {
        Ok(v) => expected == Ok::<T, CodecFault>(v),
        Err(e) => expected == Err::<T, CodecFault>(e.fault()),
    }
}

/// The hash of the given bytes.
pub open spec fn hash_from(d: Seq<u8>) -> primitive::Hash {
    choose|h: primitive::Hash| h@ == d
}

/// The address of the given bytes.
pub open spec fn address_from(d: Seq<u8>) -> Address {
    choose|a: Address| a@ == d
}

/// The encoding of the item at `index` of an encoded list.
pub open spec fn item_in(bytes: Seq<u8>, index: usize) -> Result<Seq<u8>, CodecFault> {
    match rlp_item(bytes, index) {
        Some(raw) => Ok(raw),
        None => Err(CodecFault::Malformed),
    }
}

/// The number at `index` of an encoded list.
pub open spec fn number_in(bytes: Seq<u8>, index: usize) -> Result<u64, CodecFault> {
    match rlp_item(bytes, index) {
        Some(raw) => match rlp_number_of(raw) {
            Some(v) => Ok(v),
            None => Err(CodecFault::Malformed),
        },
        None => Err(CodecFault::Malformed),
    }
}

/// The text at `index` of an encoded list.
pub open spec fn string_in(bytes: Seq<u8>, index: usize) -> Result<Seq<char>, CodecFault> {
    match rlp_item(bytes, index) {
        Some(raw) => match rlp_string_of(raw) {
            Some(v) => Ok(v),
            None => Err(CodecFault::Malformed),
        },
        None => Err(CodecFault::Malformed),
    }
}

/// The byte string that is the only item of the list at `index`.
pub open spec fn wrapped_in(bytes: Seq<u8>, index: usize) -> Result<Seq<u8>, CodecFault> {
    match rlp_item(bytes, index) {
        Some(raw) => match rlp_item(raw, 0) {
            Some(inner) => match rlp_data_of(inner) {
                Some(d) => Ok(d),
                None => Err(CodecFault::Malformed),
            },
            None => Err(CodecFault::Malformed),
        },
        None => Err(CodecFault::Malformed),
    }
}

/// The hash at `index` of an encoded list.
pub open spec fn hash_in(bytes: Seq<u8>, index: usize) -> Result<primitive::Hash, CodecFault> {
    match wrapped_in(bytes, index) {
        Ok(d) => if d.len() == 32 {
            Ok(hash_from(d))
        } else {
            Err(CodecFault::InvalidLength)
        },
        Err(f) => Err(f),
    }
}

/// The address at `index` of an encoded list.
pub open spec fn address_in(bytes: Seq<u8>, index: usize) -> Result<Address, CodecFault> {
    match wrapped_in(bytes, index) {
        Ok(d) => if d.len() == 20 {
            Ok(address_from(d))
        } else {
            Err(CodecFault::InvalidLength)
        },
        Err(f) => Err(f),
    }
}

/// Reads the encoding of the item at `index`.
fn take_item(bytes: &[u8], index: usize) -> (res: Result<Vec<u8>, CodecError>)
    ensures
        match res {
            Ok(v) => item_in(bytes@, index) == Ok::<Seq<u8>, CodecFault>(v@),
            Err(e) => item_in(bytes@, index) == Err::<Seq<u8>, CodecFault>(e.fault()),
        },
{
    match item_at(bytes, index) {
        Ok(v) => Ok(v),
        Err(e) => Err(CodecError::Decoder(e)),
    }
}

/// Reads the number at `index`.
fn take_number(bytes: &[u8], index: usize) -> (res: Result<u64, CodecError>)
    ensures
        reads(res, number_in(bytes@, index)),
{
    let raw = take_item(bytes, index)?;
    match number_of(raw.as_slice()) {
        Ok(v) => Ok(v),
        Err(e) => Err(CodecError::Decoder(e)),
    }
}

/// Reads the text at `index`.
fn take_string(bytes: &[u8], index: usize) -> (res: Result<String, CodecError>)
    ensures
        match res {
            Ok(v) => string_in(bytes@, index) == Ok::<Seq<char>, CodecFault>(v@),
            Err(e) => string_in(bytes@, index) == Err::<Seq<char>, CodecFault>(e.fault()),
        },
{
    let raw = take_item(bytes, index)?;
    match string_of(raw.as_slice()) {
        Ok(v) => Ok(v),
        Err(e) => Err(CodecError::Decoder(e)),
    }
}

/// Reads the byte string that is the only item of the list at `index`.
fn take_wrapped(bytes: &[u8], index: usize) -> (res: Result<Vec<u8>, CodecError>)
    ensures
        match res {
            Ok(v) => wrapped_in(bytes@, index) == Ok::<Seq<u8>, CodecFault>(v@),
            Err(e) => wrapped_in(bytes@, index) == Err::<Seq<u8>, CodecFault>(e.fault()),
        },
{
    let raw = take_item(bytes, index)?;
    let inner = take_item(raw.as_slice(), 0)?;
    match data_of(inner.as_slice()) {
        Ok(v) => Ok(v),
        Err(e) => Err(CodecError::Decoder(e)),
    }
}

/// Reads the hash at `index`.
fn take_hash(bytes: &[u8], index: usize) -> (res: Result<primitive::Hash, CodecError>)
    ensures
        reads(res, hash_in(bytes@, index)),
{
    let d = take_wrapped(bytes, index)?;
    match primitive::Hash::from_bytes(d.as_slice()) {
        Some(h) => {
            proof {
                lemma_hash_by_bytes(h, hash_from(d@));
            }
            Ok(h)
        },
        None => Err(CodecError::InvalidLength),
    }
}

/// Reads the address at `index`.
fn take_address(bytes: &[u8], index: usize) -> (res: Result<Address, CodecError>)
    ensures
        reads(res, address_in(bytes@, index)),
{
    let d = take_wrapped(bytes, index)?;
    match Address::from_bytes(d.as_slice()) {
        Some(a) => {
            proof {
                lemma_address_by_bytes(a, address_from(d@));
            }
            Ok(a)
        },
        None => Err(CodecError::InvalidLength),
    }
}

/// The encoding of a hash or an address: a list of one byte string.
pub open spec fn wrapped_rlp(bytes: Seq<u8>) -> Seq<u8> {
    rlp_list(rlp_text(bytes), 1)
}

/// Appends the encoding of a hash or an address.
fn put_wrapped(out: &mut Vec<u8>, bytes: &[u8])
    ensures
        final(out)@ == old(out)@ + wrapped_rlp(bytes@),
{
    let text = encode_text(bytes);
    let list = encode_list(text.as_slice(), 1);
    append_bytes(out, &list);
}

/// Appends the encoding of a number.
fn put_number(out: &mut Vec<u8>, v: u64)
    ensures
        final(out)@ == old(out)@ + rlp_number(v),
{
    let item = encode_number(v);
    append_bytes(out, &item);
}

/// Appends the encoding of a byte string.
fn put_text(out: &mut Vec<u8>, bytes: &[u8])
    ensures
        final(out)@ == old(out)@ + rlp_text(bytes@),
{
    let item = encode_text(bytes);
    append_bytes(out, &item);
}


/// The encoding of a balance: the list of its spendable and its escrowed
/// part.
pub open spec fn balance_rlp(b: Balance) -> Seq<u8> {
    rlp_list(rlp_number(b.current) + rlp_number(b.locked), 2)
}

/// The balance that an encoding stands for.
pub open spec fn balance_in(bytes: Seq<u8>) -> Result<Balance, CodecFault> {
    match number_in(bytes, 0) {
        Err(f) => Err(f),
        Ok(current) => match number_in(bytes, 1) {
            Err(f) => Err(f),
            Ok(locked) => Ok(Balance { current, locked }),
        },
    }
}

impl Balance {
    /// Appends the encoding of the balance.
    pub fn rlp_append(&self, out: &mut Vec<u8>)
        ensures
            final(out)@ == old(out)@ + balance_rlp(*self),
    {
        let mut payload: Vec<u8> = Vec::new();
        put_number(&mut payload, self.current);
        put_number(&mut payload, self.locked);
        let list = encode_list(payload.as_slice(), 2);
        assert(payload@ =~= rlp_number(self.current) + rlp_number(self.locked));
        append_bytes(out, &list);
    }

    /// Reads a balance from its encoding.
    pub fn decode(bytes: &[u8]) -> (res: Result<Balance, CodecError>)
        ensures
            reads(res, balance_in(bytes@)),
    {
        let current = take_number(bytes, 0)?;
        let locked = take_number(bytes, 1)?;
        Ok(Balance { current, locked })
    }

    /// The encoding of the balance.
    pub fn encode_fixed(&self) -> (out: Vec<u8>)
        ensures
            out@ == balance_rlp(*self),
    {
        let mut out: Vec<u8> = Vec::new();
        self.rlp_append(&mut out);
        assert(out@ =~= balance_rlp(*self));
        out
    }

    /// Reads a balance from its encoding.
    pub fn decode_fixed(bytes: &[u8]) -> (res: Result<Balance, CodecError>)
        ensures
            reads(res, balance_in(bytes@)),
    {
        Balance::decode(bytes)
    }
}

/// The encoding of a deal: the list of its price and its amount.
pub open spec fn deal_rlp(d: Deal) -> Seq<u8> {
    rlp_list(rlp_number(d.price) + rlp_number(d.amount), 2)
}

/// The deal that an encoding stands for.
pub open spec fn deal_in(bytes: Seq<u8>) -> Result<Deal, CodecFault> {
    match number_in(bytes, 0) {
        Err(f) => Err(f),
        Ok(price) => match number_in(bytes, 1) {
            Err(f) => Err(f),
            Ok(amount) => Ok(Deal { price, amount }),
        },
    }
}

impl Deal {
    /// Appends the encoding of the deal.
    pub fn rlp_append(&self, out: &mut Vec<u8>)
        ensures
            final(out)@ == old(out)@ + deal_rlp(*self),
    {
        let mut payload: Vec<u8> = Vec::new();
        put_number(&mut payload, self.price);
        put_number(&mut payload, self.amount);
        let list = encode_list(payload.as_slice(), 2);
        assert(payload@ =~= rlp_number(self.price) + rlp_number(self.amount));
        append_bytes(out, &list);
    }

    /// Reads a deal from its encoding.
    pub fn decode(bytes: &[u8]) -> (res: Result<Deal, CodecError>)
        ensures
            reads(res, deal_in(bytes@)),
    {
        let price = take_number(bytes, 0)?;
        let amount = take_number(bytes, 1)?;
        Ok(Deal { price, amount })
    }

    /// The encoding of the deal.
    pub fn encode_fixed(&self) -> (out: Vec<u8>)
        ensures
            out@ == deal_rlp(*self),
    {
        let mut out: Vec<u8> = Vec::new();
        self.rlp_append(&mut out);
        assert(out@ =~= deal_rlp(*self));
        out
    }

    /// Reads a deal from its encoding.
    pub fn decode_fixed(bytes: &[u8]) -> (res: Result<Deal, CodecError>)
        ensures
            reads(res, deal_in(bytes@)),
    {
        Deal::decode(bytes)
    }
}

/// The encoding of a trade: the list of its id, its base asset and its
/// counter asset.
pub open spec fn trade_rlp(t: Trade) -> Seq<u8> {
    rlp_list(wrapped_rlp(t.id@) + wrapped_rlp(t.base_asset@) + wrapped_rlp(t.counter_party@), 3)
}

/// The trade that an encoding stands for.
pub open spec fn trade_in(bytes: Seq<u8>) -> Result<Trade, CodecFault> {
    match hash_in(bytes, 0) {
        Err(f) => Err(f),
        Ok(id) => match hash_in(bytes, 1) {
            Err(f) => Err(f),
            Ok(base_asset) => match hash_in(bytes, 2) {
                Err(f) => Err(f),
                Ok(counter_party) => Ok(Trade { id, base_asset, counter_party }),
            },
        },
    }
}

impl Trade {
    /// Appends the encoding of the trade.
    pub fn rlp_append(&self, out: &mut Vec<u8>)
        ensures
            final(out)@ == old(out)@ + trade_rlp(*self),
    {
        let mut payload: Vec<u8> = Vec::new();
        put_wrapped(&mut payload, self.id.bytes.as_slice());
        put_wrapped(&mut payload, self.base_asset.bytes.as_slice());
        put_wrapped(&mut payload, self.counter_party.bytes.as_slice());
        let list = encode_list(payload.as_slice(), 3);
        assert(payload@ =~= wrapped_rlp(self.id@) + wrapped_rlp(self.base_asset@) + wrapped_rlp(
            self.counter_party@,
        ));
        append_bytes(out, &list);
    }

    /// Reads a trade from its encoding.
    pub fn decode(bytes: &[u8]) -> (res: Result<Trade, CodecError>)
        ensures
            reads(res, trade_in(bytes@)),
    {
        let id = take_hash(bytes, 0)?;
        let base_asset = take_hash(bytes, 1)?;
        let counter_party = take_hash(bytes, 2)?;
        Ok(Trade { id, base_asset, counter_party })
    }

    /// The encoding of the trade.
    pub fn encode_fixed(&self) -> (out: Vec<u8>)
        ensures
            out@ == trade_rlp(*self),
    {
        let mut out: Vec<u8> = Vec::new();
        self.rlp_append(&mut out);
        assert(out@ =~= trade_rlp(*self));
        out
    }

    /// Reads a trade from its encoding.
    pub fn decode_fixed(bytes: &[u8]) -> (res: Result<Trade, CodecError>)
        ensures
            reads(res, trade_in(bytes@)),
    {
        Trade::decode(bytes)
    }
}

/// The encoding of an asset: the list of its id, name, symbol, supply and
/// issuer, the two texts in UTF-8.
pub open spec fn asset_rlp(a: Asset) -> Seq<u8> {
    rlp_list(
        wrapped_rlp(a.id@) + rlp_text(encode_utf8(a.name@)) + rlp_text(encode_utf8(a.symbol@)) + rlp_number(
            a.supply,
        ) + wrapped_rlp(a.issuer@),
        5,
    )
}

/// The fields of the asset that an encoding stands for.
pub open spec fn asset_in(bytes: Seq<u8>) -> Result<
    (primitive::Hash, Seq<char>, Seq<char>, u64, Address),
    CodecFault,
> {
    match hash_in(bytes, 0) {
        Err(f) => Err(f),
        Ok(id) => match string_in(bytes, 1) {
            Err(f) => Err(f),
            Ok(name) => match string_in(bytes, 2) {
                Err(f) => Err(f),
                Ok(symbol) => match number_in(bytes, 3) {
                    Err(f) => Err(f),
                    Ok(supply) => match address_in(bytes, 4) {
                        Err(f) => Err(f),
                        Ok(issuer) => Ok((id, name, symbol, supply, issuer)),
                    },
                },
            },
        },
    }
}

impl Asset {
    /// Appends the encoding of the asset.
    pub fn rlp_append(&self, out: &mut Vec<u8>)
        ensures
            final(out)@ == old(out)@ + asset_rlp(*self),
    {
        let mut payload: Vec<u8> = Vec::new();
        put_wrapped(&mut payload, self.id.bytes.as_slice());
        let name = self.name.as_str().as_bytes_vec();
        put_text(&mut payload, name.as_slice());
        let symbol = self.symbol.as_str().as_bytes_vec();
        put_text(&mut payload, symbol.as_slice());
        put_number(&mut payload, self.supply);
        put_wrapped(&mut payload, self.issuer.bytes.as_slice());
        let list = encode_list(payload.as_slice(), 5);
        assert(payload@ =~= wrapped_rlp(self.id@) + rlp_text(encode_utf8(self.name@)) + rlp_text(
            encode_utf8(self.symbol@),
        ) + rlp_number(self.supply) + wrapped_rlp(self.issuer@));
        append_bytes(out, &list);
    }

    /// Reads an asset from its encoding.
    pub fn decode(bytes: &[u8]) -> (res: Result<Asset, CodecError>)
        ensures
            match res {
                Ok(a) => asset_in(bytes@) == Ok::<
                    (primitive::Hash, Seq<char>, Seq<char>, u64, Address),
                    CodecFault,
                >((a.id, a.name@, a.symbol@, a.supply, a.issuer)),
                Err(e) => asset_in(bytes@) == Err::<
                    (primitive::Hash, Seq<char>, Seq<char>, u64, Address),
                    CodecFault,
                >(e.fault()),
            },
    {
        let id = take_hash(bytes, 0)?;
        let name = take_string(bytes, 1)?;
        let symbol = take_string(bytes, 2)?;
        let supply = take_number(bytes, 3)?;
        let issuer = take_address(bytes, 4)?;
        Ok(Asset { id, name, symbol, supply, issuer })
    }

    /// The encoding of the asset.
    pub fn encode_fixed(&self) -> (out: Vec<u8>)
        ensures
            out@ == asset_rlp(*self),
    {
        let mut out: Vec<u8> = Vec::new();
        self.rlp_append(&mut out);
        assert(out@ =~= asset_rlp(*self));
        out
    }

    /// Reads an asset from its encoding.
    pub fn decode_fixed(bytes: &[u8]) -> (res: Result<Asset, CodecError>)
        ensures
            match res {
                Ok(a) => asset_in(bytes@) == Ok::<
                    (primitive::Hash, Seq<char>, Seq<char>, u64, Address),
                    CodecFault,
                >((a.id, a.name@, a.symbol@, a.supply, a.issuer)),
                Err(e) => asset_in(bytes@) == Err::<
                    (primitive::Hash, Seq<char>, Seq<char>, u64, Address),
                    CodecFault,
                >(e.fault()),
            },
    {
        Asset::decode(bytes)
    }
}


/// The tag of an order's kind: 1 for a buy, 2 for a sell.
pub open spec fn kind_tag(kind: OrderKind) -> u64 {
    match kind {
        OrderKind::Buy => 1,
        OrderKind::Sell => 2,
    }
}

/// The tag of an order's status: 0 for fresh, 1 for partial, 2 for full.
pub open spec fn status_tag(status: OrderStatus) -> u64 {
    match status {
        OrderStatus::Fresh => 0,
        OrderStatus::Partial(_) => 1,
        OrderStatus::Full => 2,
    }
}

/// What goes with the tag of an order's status: the settled amount of a
/// partial order, zero otherwise.
pub open spec fn status_payload(status: OrderStatus) -> u64 {
    match status {
        OrderStatus::Partial(v) => v,
        _ => 0,
    }
}

/// The encodings of deals, one after the other.
pub open spec fn deals_payload(deals: Seq<Deal>) -> Seq<u8>
    decreases deals.len(),
{
    if deals.len() == 0 {
        Seq::empty()
    } else {
        deals_payload(deals.drop_last()) + deal_rlp(deals.last())
    }
}

/// The encoding of an order: the list of its trade, its transaction hash,
/// the tag of its kind, its price, amount and block, its user, its expiry,
/// the tag of its status and what goes with it, and the list of its deals.
pub open spec fn order_rlp(o: OrderView) -> Seq<u8> {
    rlp_list(
        wrapped_rlp(o.trade_id@) + wrapped_rlp(o.tx_hash@) + rlp_number(kind_tag(o.kind)) + rlp_number(o.price)
            + rlp_number(o.amount) + rlp_number(o.height) + wrapped_rlp(o.user@) + rlp_number(o.expiry)
            + rlp_number(status_tag(o.status)) + rlp_number(status_payload(o.status)) + rlp_list(
            deals_payload(o.deals),
            o.deals.len() as usize,
        ),
        11,
    )
}

/// The first `n` deals of an encoded list of deals.
pub open spec fn deals_upto(raw: Seq<u8>, n: usize) -> Result<Seq<Deal>, CodecFault>
    decreases n,
{
    if n == 0 {
        Ok(Seq::empty())
    } else {
        match deals_upto(raw, (n - 1) as usize) {
            Err(f) => Err(f),
            Ok(deals) => match item_in(raw, (n - 1) as usize) {
                Err(f) => Err(f),
                Ok(item) => match deal_in(item) {
                    Err(f) => Err(f),
                    Ok(d) => Ok(deals.push(d)),
                },
            },
        }
    }
}

/// The deals of the encoded list at `index`.
pub open spec fn deals_in(bytes: Seq<u8>, index: usize) -> Result<Seq<Deal>, CodecFault> {
    match item_in(bytes, index) {
        Err(f) => Err(f),
        Ok(raw) => match rlp_count_of(raw) {
            None => Err(CodecFault::Malformed),
            Some(n) => deals_upto(raw, n),
        },
    }
}

/// The kind whose tag stands at `index` of an encoded list.
pub open spec fn kind_in(bytes: Seq<u8>, index: usize) -> Result<OrderKind, CodecFault> {
    match number_in(bytes, index) {
        Err(f) => Err(f),
        Ok(tag) => if tag == 1 {
            Ok(OrderKind::Buy)
        } else if tag == 2 {
            Ok(OrderKind::Sell)
        } else {
            Err(CodecFault::UnknownKind(tag))
        },
    }
}

/// The status whose tag stands at `index` and whose settled amount, read
/// only for a partial order, stands behind it.
pub open spec fn status_in(bytes: Seq<u8>, index: usize) -> Result<OrderStatus, CodecFault> {
    match number_in(bytes, index) {
        Err(f) => Err(f),
        Ok(tag) => if tag == 0 {
            Ok(OrderStatus::Fresh)
        } else if tag == 1 {
            match number_in(bytes, (index + 1) as usize) {
                Err(f) => Err(f),
                Ok(v) => Ok(OrderStatus::Partial(v)),
            }
        } else if tag == 2 {
            Ok(OrderStatus::Full)
        } else {
            Err(CodecFault::UnknownStatus(tag))
        },
    }
}

/// The order that an encoding stands for, its slots read in their order.
pub open spec fn order_in(bytes: Seq<u8>) -> Result<OrderView, CodecFault> {
    match hash_in(bytes, 0) {
        Err(f) => Err(f),
        Ok(trade_id) => match hash_in(bytes, 1) {
            Err(f) => Err(f),
            Ok(tx_hash) => match kind_in(bytes, 2) {
                Err(f) => Err(f),
                Ok(kind) => match number_in(bytes, 3) {
                    Err(f) => Err(f),
                    Ok(price) => match number_in(bytes, 4) {
                        Err(f) => Err(f),
                        Ok(amount) => match number_in(bytes, 5) {
                            Err(f) => Err(f),
                            Ok(height) => match address_in(bytes, 6) {
                                Err(f) => Err(f),
                                Ok(user) => match number_in(bytes, 7) {
                                    Err(f) => Err(f),
                                    Ok(expiry) => match status_in(bytes, 8) {
                                        Err(f) => Err(f),
                                        Ok(status) => match deals_in(bytes, 10) {
                                            Err(f) => Err(f),
                                            Ok(deals) => Ok(
                                                OrderView {
                                                    trade_id,
                                                    tx_hash,
                                                    kind,
                                                    price,
                                                    amount,
                                                    height,
                                                    user,
                                                    expiry,
                                                    status,
                                                    deals,
                                                },
                                            ),
                                        },
                                    },
                                },
                            },
                        },
                    },
                },
            },
        },
    }
}

/// Once a deal cannot be read, no longer list of deals can.
proof fn lemma_deals_fail(raw: Seq<u8>, i: usize, n: usize)
    requires
        i <= n,
        deals_upto(raw, i) is Err,
    ensures
        deals_upto(raw, n) == deals_upto(raw, i),
    decreases n - i,
{
    if i < n {
        lemma_deals_fail(raw, i, (n - 1) as usize);
    }
}

/// Reads the kind whose tag stands at `index`.
fn take_kind(bytes: &[u8], index: usize) -> (res: Result<OrderKind, CodecError>)
    ensures
        reads(res, kind_in(bytes@, index)),
{
    let tag = take_number(bytes, index)?;
    if tag == 1 {
        Ok(OrderKind::Buy)
    } else if tag == 2 {
        Ok(OrderKind::Sell)
    } else {
        Err(CodecError::UnknownKind(tag))
    }
}

/// Reads the status whose tag stands at `index`.
fn take_status(bytes: &[u8], index: usize) -> (res: Result<OrderStatus, CodecError>)
    requires
        index < usize::MAX,
    ensures
        reads(res, status_in(bytes@, index)),
{
    let tag = take_number(bytes, index)?;
    if tag == 0 {
        Ok(OrderStatus::Fresh)
    } else if tag == 1 {
        let v = take_number(bytes, index + 1)?;
        Ok(OrderStatus::Partial(v))
    } else if tag == 2 {
        Ok(OrderStatus::Full)
    } else {
        Err(CodecError::UnknownStatus(tag))
    }
}

/// Reads the deals of the list at `index`.
fn take_deals(bytes: &[u8], index: usize) -> (res: Result<Vec<Deal>, CodecError>)
    ensures
        match res {
            Ok(v) => deals_in(bytes@, index) == Ok::<Seq<Deal>, CodecFault>(v@),
            Err(e) => deals_in(bytes@, index) == Err::<Seq<Deal>, CodecFault>(e.fault()),
        },
{
    let raw = take_item(bytes, index)?;
    let n = match count_of(raw.as_slice()) {
        Ok(n) => n,
        Err(e) => {
            return Err(CodecError::Decoder(e));
        },
    };
    let mut deals: Vec<Deal> = Vec::new();
    let mut i: usize = 0;
    while i < n
        invariant
            0 <= i <= n,
            item_in(bytes@, index) == Ok::<Seq<u8>, CodecFault>(raw@),
            rlp_count_of(raw@) == Some(n),
            deals_upto(raw@, i) == Ok::<Seq<Deal>, CodecFault>(deals@),
        decreases n - i,
    {
        let item = match take_item(raw.as_slice(), i) {
            Ok(v) => v,
            Err(e) => {
                proof {
                    assert(deals_upto(raw@, (i + 1) as usize) == Err::<Seq<Deal>, CodecFault>(e.fault()));
                    lemma_deals_fail(raw@, (i + 1) as usize, n);
                }
                return Err(e);
            },
        };
        let deal = match Deal::decode(item.as_slice()) {
            Ok(d) => d,
            Err(e) => {
                proof {
                    assert(deals_upto(raw@, (i + 1) as usize) == Err::<Seq<Deal>, CodecFault>(e.fault()));
                    lemma_deals_fail(raw@, (i + 1) as usize, n);
                }
                return Err(e);
            },
        };
        deals.push(deal);
        i = i + 1;
    }
    Ok(deals)
}

impl Order {
    /// Appends the encoding of the order.
    pub fn rlp_append(&self, out: &mut Vec<u8>)
        ensures
            final(out)@ == old(out)@ + order_rlp(self@),
    {
        let mut payload: Vec<u8> = Vec::new();
        put_wrapped(&mut payload, self.trade_id.bytes.as_slice());
        put_wrapped(&mut payload, self.tx_hash.bytes.as_slice());
        match self.kind {
            OrderKind::Buy => put_number(&mut payload, 1),
            OrderKind::Sell => put_number(&mut payload, 2),
        }
        put_number(&mut payload, self.price);
        put_number(&mut payload, self.amount);
        put_number(&mut payload, self.height);
        put_wrapped(&mut payload, self.user.bytes.as_slice());
        put_number(&mut payload, self.expiry);
        match self.status {
            OrderStatus::Fresh => {
                put_number(&mut payload, 0);
                put_number(&mut payload, 0);
            },
            OrderStatus::Partial(v) => {
                put_number(&mut payload, 1);
                put_number(&mut payload, v);
            },
            OrderStatus::Full => {
                put_number(&mut payload, 2);
                put_number(&mut payload, 0);
            },
        }
        let mut items: Vec<u8> = Vec::new();
        let mut i: usize = 0;
        assert(self.deals@.take(0) =~= Seq::<Deal>::empty());
        while i < self.deals.len()
            invariant
                0 <= i <= self.deals@.len(),
                items@ == deals_payload(self.deals@.take(i as int)),
            decreases self.deals@.len() - i,
        {
            let ghost before = items@;
            self.deals[i].rlp_append(&mut items);
            assert(self.deals@.take(i + 1).drop_last() =~= self.deals@.take(i as int));
            assert(self.deals@.take(i + 1).last() == self.deals@[i as int]);
            i = i + 1;
        }
        assert(self.deals@.take(self.deals@.len() as int) =~= self.deals@);
        let deals = encode_list(items.as_slice(), self.deals.len());
        append_bytes(&mut payload, &deals);
        let ghost o = self@;
        assert(payload@ =~= wrapped_rlp(o.trade_id@) + wrapped_rlp(o.tx_hash@) + rlp_number(kind_tag(o.kind))
            + rlp_number(o.price) + rlp_number(o.amount) + rlp_number(o.height) + wrapped_rlp(o.user@)
            + rlp_number(o.expiry) + rlp_number(status_tag(o.status)) + rlp_number(status_payload(o.status))
            + rlp_list(deals_payload(o.deals), o.deals.len() as usize));
        let list = encode_list(payload.as_slice(), 11);
        append_bytes(out, &list);
    }

    /// Reads an order from its encoding. The settled amount is read only
    /// where the status is partial, and items beyond the eleventh are not
    /// read at all.
    pub fn decode(bytes: &[u8]) -> (res: Result<Order, CodecError>)
        ensures
            match res {
                Ok(o) => order_in(bytes@) == Ok::<OrderView, CodecFault>(o@),
                Err(e) => order_in(bytes@) == Err::<OrderView, CodecFault>(e.fault()),
            },
    {
        let trade_id = take_hash(bytes, 0)?;
        let tx_hash = take_hash(bytes, 1)?;
        let kind = take_kind(bytes, 2)?;
        let price = take_number(bytes, 3)?;
        let amount = take_number(bytes, 4)?;
        let height = take_number(bytes, 5)?;
        let user = take_address(bytes, 6)?;
        let expiry = take_number(bytes, 7)?;
        let status = take_status(bytes, 8)?;
        let deals = take_deals(bytes, 10)?;
        Ok(Order { trade_id, tx_hash, kind, price, amount, height, user, expiry, status, deals })
    }

    /// The encoding of the order.
    pub fn encode_fixed(&self) -> (out: Vec<u8>)
        ensures
            out@ == order_rlp(self@),
    {
        let mut out: Vec<u8> = Vec::new();
        self.rlp_append(&mut out);
        assert(out@ =~= order_rlp(self@));
        out
    }

    /// Reads an order from its encoding.
    pub fn decode_fixed(bytes: &[u8]) -> (res: Result<Order, CodecError>)
        ensures
            match res {
                Ok(o) => order_in(bytes@) == Ok::<OrderView, CodecFault>(o@),
                Err(e) => order_in(bytes@) == Err::<OrderView, CodecFault>(e.fault()),
            },
    {
        Order::decode(bytes)
    }
}

} // verus!
