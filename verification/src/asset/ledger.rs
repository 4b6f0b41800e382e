//! The ledger as a mathematical value, and what each balance operation makes
//! of it.

use crate::asset::types::{Asset, Balance, ModifyBalancePayload};
use crate::asset::AssetError;
use crate::primitive::{self, Address};
use vstd::prelude::*;

verus! {

/// The recorded assets, and what every user holds of every asset. `balances`
/// is total: a holder that was never credited holds `Balance::zero()`.
pub struct LedgerView {
    pub assets: Map<primitive::Hash, Asset>,
    pub balances: Map<(Address, primitive::Hash), Balance>,
}

impl LedgerView {
    /// The ledger without assets, in which nobody holds anything.
    pub open spec fn empty() -> LedgerView {
        LedgerView {
            assets: Map::empty(),
            balances: Map::new(|k: (Address, primitive::Hash)| true, |k: (Address, primitive::Hash)| Balance::zero()),
        }
    }

    /// Whether every holder has a balance.
    pub open spec fn total(self) -> bool {
        forall|k: (Address, primitive::Hash)| self.balances.dom().contains(k)
    }

    /// Whether an asset is recorded under the id.
    pub open spec fn has_asset(self, id: primitive::Hash) -> bool {
        self.assets.dom().contains(id)
    }

    /// What a user holds of an asset.
    pub open spec fn balance(self, user: Address, asset_id: primitive::Hash) -> Balance {
        self.balances[(user, asset_id)]
    }

    /// The ledger with one balance replaced.
    pub open spec fn with_balance(self, user: Address, asset_id: primitive::Hash, b: Balance) -> LedgerView {
        LedgerView { assets: self.assets, balances: self.balances.insert((user, asset_id), b) }
    }

    /// The ledger with one asset recorded, replacing one of the same id.
    pub open spec fn with_asset(self, asset: Asset) -> LedgerView {
        LedgerView { assets: self.assets.insert(asset.id, asset), balances: self.balances }
    }

    /// Adds `value` to the spendable part: fails for an unknown asset, or when
    /// the sum does not fit.
    pub open spec fn credited(self, p: ModifyBalancePayload) -> Result<LedgerView, AssetError> {
        let b = self.balance(p.user, p.asset_id);
        if !self.has_asset(p.asset_id) {
            Err(AssetError::AssetNotExist { id: p.asset_id })
        } else if b.current + p.value > u64::MAX {
            Err(AssetError::U64Overflow)
        } else {
            Ok(
                self.with_balance(
                    p.user,
                    p.asset_id,
                    Balance { current: (b.current + p.value) as u64, locked: b.locked },
                ),
            )
        }
    }

    /// Takes `value` from the spendable part: fails for an unknown asset, or
    /// when less than `value` is spendable.
    pub open spec fn debited(self, p: ModifyBalancePayload) -> Result<LedgerView, AssetError> {
        let b = self.balance(p.user, p.asset_id);
        if !self.has_asset(p.asset_id) {
            Err(AssetError::AssetNotExist { id: p.asset_id })
        } else if b.current < p.value {
            Err(AssetError::InsufficientBalance { wanted: p.value, had: b.current })
        } else {
            Ok(
                self.with_balance(
                    p.user,
                    p.asset_id,
                    Balance { current: (b.current - p.value) as u64, locked: b.locked },
                ),
            )
        }
    }

    /// Moves `value` from the spendable part into escrow.
    pub open spec fn escrowed(self, p: ModifyBalancePayload) -> Result<LedgerView, AssetError> {
        let b = self.balance(p.user, p.asset_id);
        if !self.has_asset(p.asset_id) {
            Err(AssetError::AssetNotExist { id: p.asset_id })
        } else if b.current < p.value {
            Err(AssetError::InsufficientBalance { wanted: p.value, had: b.current })
        } else if b.locked + p.value > u64::MAX {
            Err(AssetError::U64Overflow)
        } else {
            Ok(
                self.with_balance(
                    p.user,
                    p.asset_id,
                    Balance { current: (b.current - p.value) as u64, locked: (b.locked + p.value) as u64 },
                ),
            )
        }
    }

    /// Moves `value` out of escrow back into the spendable part.
    pub open spec fn released(self, p: ModifyBalancePayload) -> Result<LedgerView, AssetError> {
        let b = self.balance(p.user, p.asset_id);
        if !self.has_asset(p.asset_id) {
            Err(AssetError::AssetNotExist { id: p.asset_id })
        } else if b.locked < p.value {
            Err(AssetError::InsufficientBalance { wanted: p.value, had: b.locked })
        } else if b.current + p.value > u64::MAX {
            Err(AssetError::U64Overflow)
        } else {
            Ok(
                self.with_balance(
                    p.user,
                    p.asset_id,
                    Balance { current: (b.current + p.value) as u64, locked: (b.locked - p.value) as u64 },
                ),
            )
        }
    }

    /// A transfer: debit the sender, then credit the receiver.
    pub open spec fn transferred(
        self,
        from: Address,
        to: Address,
        asset_id: primitive::Hash,
        value: u64,
    ) -> Result<LedgerView, AssetError> {
        match self.debited(ModifyBalancePayload { asset_id, user: from, value }) {
            Err(e) => Err(e),
            Ok(l) => l.credited(ModifyBalancePayload { asset_id, user: to, value }),
        }
    }
}

/// What a privileged operation makes of the ledger: without the admission
/// token nothing but `PermissionDenial`.
pub open spec fn admitted_only(admitted: bool, outcome: Result<LedgerView, AssetError>) -> Result<
    LedgerView,
    AssetError,
> {
    if admitted {
        outcome
    } else {
        Err(AssetError::PermissionDenial)
    }
}

/// Whether a call that returned `res` and left the state at `after` did what
/// `outcome` prescribes for a state that stood at `before`: on success the
/// prescribed state, on failure the prescribed error and no change.
pub open spec fn follows<S, T, E>(before: S, after: S, res: Result<T, E>, outcome: Result<S, E>) -> bool {
    match outcome {
        Ok(s) => res is Ok && after == s,
        Err(e) => res is Err && res->Err_0 == e && after == before,
    }
}

} // verus!
