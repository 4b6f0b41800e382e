//! A deterministic exchange core: a fungible-asset ledger with spendable and
//! escrowed balances, and a limit-order matching engine that settles through it.

pub mod asset;
pub mod codec;
pub mod context;
pub mod dex;
pub mod json;
pub mod mapping;
pub mod primitive;
pub mod response;
