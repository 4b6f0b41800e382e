//! Records of the asset ledger: assets, balances and the payloads of its calls.

use crate::primitive::{self, Address};
use vstd::prelude::*;

verus! {

/// The asset that the chain starts with.
#[derive(Debug, PartialEq, Eq)]
pub struct InitGenesisPayload {
    pub id: primitive::Hash,
    pub name: String,
    pub symbol: String,
    pub supply: u64,
    pub issuer: Address,
}

/// The identity of a fungible token. Once recorded it never changes.
#[derive(Debug, PartialEq, Eq)]
pub struct Asset {
    pub id: primitive::Hash,
    pub name: String,
    pub symbol: String,
    pub supply: u64,
    pub issuer: Address,
}

impl Clone for Asset {
    fn clone(&self) -> (copy: Self)
        ensures
            copy == *self,
    {
        Asset {
            id: self.id,
            name: self.name.clone(),
            symbol: self.symbol.clone(),
            supply: self.supply,
            issuer: self.issuer,
        }
    }
}

/// What one user holds of one asset: a spendable part and an escrowed part.
#[derive(Clone, Copy, Debug, PartialEq, Eq, Structural)]
pub struct Balance {
    pub current: u64,
    pub locked: u64,
}

impl Balance {
    /// The balance of a holder that was never credited.
    pub open spec fn zero() -> Balance {
        Balance { current: 0, locked: 0 }
    }

    /// Everything held, spendable or escrowed.
    pub open spec fn total(self) -> int {
        self.current + self.locked
    }
}

impl Default for Balance {
    fn default() -> (b: Self)
        ensures
            b == Balance::zero(),
    {
        Balance { current: 0, locked: 0 }
    }
}

/// A request to issue a new asset to the caller.
#[derive(Debug, PartialEq, Eq)]
pub struct CreateAssetPayload {
    pub name: String,
    pub symbol: String,
    pub supply: u64,
}

impl Clone for CreateAssetPayload {
    fn clone(&self) -> (copy: Self)
        ensures
            copy == *self,
    {
        CreateAssetPayload { name: self.name.clone(), symbol: self.symbol.clone(), supply: self.supply }
    }
}

/// A request for the asset of an id.
#[derive(Clone, Copy, Debug, PartialEq, Eq)]
pub struct GetAssetPayload {
    pub id: primitive::Hash,
}

/// A request for what a user holds of an asset.
#[derive(Clone, Copy, Debug, PartialEq, Eq)]
pub struct GetBalancePayload {
    pub asset_id: primitive::Hash,
    pub user: Address,
}

/// What a user holds of an asset.
#[derive(Clone, Copy, Debug, PartialEq, Eq)]
pub struct GetBalanceResponse {
    pub asset_id: primitive::Hash,
    pub balance: Balance,
}

/// A change of `value` units to what `user` holds of `asset_id`.
#[derive(Clone, Copy, Debug, PartialEq, Eq)]
pub struct ModifyBalancePayload {
    pub asset_id: primitive::Hash,
    pub user: Address,
    pub value: u64,
}

/// A request to move `value` units of an asset from the caller to `to`.
#[derive(Clone, Copy, Debug, PartialEq, Eq)]
pub struct TransferPayload {
    pub asset_id: primitive::Hash,
    pub to: Address,
    pub value: u64,
}

/// The record of a completed transfer.
#[derive(Clone, Copy, Debug, PartialEq, Eq)]
pub struct TransferEvent {
    pub asset_id: primitive::Hash,
    pub from: Address,
    pub to: Address,
    pub value: u64,
}

} // verus!
