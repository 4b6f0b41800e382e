//! The asset ledger.

pub mod ledger;
pub mod types;

use crate::asset::ledger::{admitted_only, follows, LedgerView};
use crate::asset::types::{
    Asset, Balance, CreateAssetPayload, GetAssetPayload, GetBalancePayload, GetBalanceResponse,
    InitGenesisPayload, ModifyBalancePayload, TransferEvent, TransferPayload,
};
use crate::context::{Event, EventView, ServiceContext};
use crate::json::{create_asset_json, json_string, write_create_asset_json, append_bytes};
use crate::primitive::{self, digest_of, hex_text, Address};
use vstd::prelude::*;

verus! {

/// Why a ledger call failed.
#[derive(Debug)]
pub enum AssetError {
    JsonParse(serde_json::Error),
    AssetExisted { id: crate::primitive::Hash },
    AssetNotExist { id: crate::primitive::Hash },
    InsufficientBalance { wanted: u64, had: u64 },
    U64Overflow,
    PermissionDenial,
}

impl AssetError {
    /// The stable numeric code of the error.
    pub open spec fn code_of(self) -> u64 {
        match self {
            AssetError::JsonParse(_) => 101,
            AssetError::AssetExisted { .. } => 102,
            AssetError::AssetNotExist { .. } => 103,
            AssetError::InsufficientBalance { .. } => 104,
            AssetError::U64Overflow => 105,
            AssetError::PermissionDenial => 106,
        }
    }

    /// The stable numeric code of the error.
    pub fn code(&self) -> (c: u64)
        ensures
            c == self.code_of(),
    {
        match self {
            AssetError::JsonParse(_) => 101,
            AssetError::AssetExisted { .. } => 102,
            AssetError::AssetNotExist { .. } => 103,
            AssetError::InsufficientBalance { .. } => 104,
            AssetError::U64Overflow => 105,
            AssetError::PermissionDenial => 106,
        }
    }
}


/// What one user holds of one asset.
#[derive(Clone, Copy, Debug)]
pub struct Account {
    pub user: Address,
    pub asset_id: primitive::Hash,
    pub balance: Balance,
}

/// Whether the entry is that of the user and the asset.
pub open spec fn account_is(a: Account, user: Address, id: primitive::Hash) -> bool {
    a.user == user && a.asset_id == id
}

/// Whether the user has an entry for the asset.
pub open spec fn has_account(accounts: Seq<Account>, user: Address, id: primitive::Hash) -> bool {
    exists|i: int| 0 <= i < accounts.len() && account_is(#[trigger] accounts[i], user, id)
}

/// Where the entry of the user for the asset stands.
pub open spec fn account_pos(accounts: Seq<Account>, user: Address, id: primitive::Hash) -> int {
    choose|i: int| 0 <= i < accounts.len() && account_is(#[trigger] accounts[i], user, id)
}

/// The balance recorded for a holder, or zero when none is.
pub open spec fn balance_in(accounts: Seq<Account>, user: Address, id: primitive::Hash) -> Balance {
    if has_account(accounts, user, id) {
        accounts[account_pos(accounts, user, id)].balance
    } else {
        Balance::zero()
    }
}

/// No holder has two entries.
pub open spec fn distinct_accounts(accounts: Seq<Account>) -> bool {
    forall|i: int, j: int|
        #![trigger accounts[i], accounts[j]]
        0 <= i < j < accounts.len() ==> !account_is(accounts[i], accounts[j].user, accounts[j].asset_id)
}

/// Everything that all users together hold of one asset.
pub open spec fn held_in(accounts: Seq<Account>, id: primitive::Hash) -> int
    decreases accounts.len(),
{
    if accounts.len() == 0 {
        0
    } else {
        held_in(accounts.drop_last(), id) + if accounts.last().asset_id == id {
            accounts.last().balance.total()
        } else {
            0
        }
    }
}

/// Whether an asset of the id is among the assets.
pub open spec fn has_asset_in(assets: Seq<Asset>, id: primitive::Hash) -> bool {
    exists|i: int| 0 <= i < assets.len() && (#[trigger] assets[i]).id == id
}

/// Where the asset of the id stands.
pub open spec fn asset_pos(assets: Seq<Asset>, id: primitive::Hash) -> int {
    choose|i: int| 0 <= i < assets.len() && (#[trigger] assets[i]).id == id
}

/// No asset id is recorded twice.
pub open spec fn distinct_assets(assets: Seq<Asset>) -> bool {
    forall|i: int, j: int|
        #![trigger assets[i], assets[j]]
        0 <= i < j < assets.len() ==> assets[i].id != assets[j].id
}

/// Among distinct entries the entry of a holder is the one found.
proof fn lemma_account_unique(accounts: Seq<Account>, i: int, user: Address, id: primitive::Hash)
    requires
        distinct_accounts(accounts),
        0 <= i < accounts.len(),
        account_is(accounts[i], user, id),
    ensures
        has_account(accounts, user, id),
        account_pos(accounts, user, id) == i,
        balance_in(accounts, user, id) == accounts[i].balance,
{
    let p = account_pos(accounts, user, id);
    if p < i {
        assert(!account_is(accounts[p], accounts[i].user, accounts[i].asset_id));
    } else if i < p {
        assert(!account_is(accounts[i], accounts[p].user, accounts[p].asset_id));
    }
}

/// Among distinct assets the asset of an id is the one found.
proof fn lemma_asset_unique(assets: Seq<Asset>, i: int)
    requires
        distinct_assets(assets),
        0 <= i < assets.len(),
    ensures
        has_asset_in(assets, assets[i].id),
        asset_pos(assets, assets[i].id) == i,
{
    let p = asset_pos(assets, assets[i].id);
    if p < i {
        assert(assets[p].id != assets[i].id);
    } else if i < p {
        assert(assets[i].id != assets[p].id);
    }
}

/// Replacing a balance changes what is held by the difference.
proof fn lemma_held_update(accounts: Seq<Account>, i: int, b: Balance, id: primitive::Hash)
    requires
        0 <= i < accounts.len(),
    ensures
        held_in(
            accounts.update(i, Account { user: accounts[i].user, asset_id: accounts[i].asset_id, balance: b }),
            id,
        ) == held_in(accounts, id) + if accounts[i].asset_id == id {
            b.total() - accounts[i].balance.total()
        } else {
            0
        },
    decreases accounts.len(),
{
    let a = Account { user: accounts[i].user, asset_id: accounts[i].asset_id, balance: b };
    let next = accounts.update(i, a);
    if i == accounts.len() - 1 {
        assert(next.drop_last() =~= accounts.drop_last());
    } else {
        lemma_held_update(accounts.drop_last(), i, b, id);
        assert(next.drop_last() =~= accounts.drop_last().update(i, a));
    }
}

/// A new entry adds its balance to what is held.
proof fn lemma_held_push(accounts: Seq<Account>, a: Account, id: primitive::Hash)
    ensures
        held_in(accounts.push(a), id) == held_in(accounts, id) + if a.asset_id == id {
            a.balance.total()
        } else {
            0
        },
{
    assert(accounts.push(a).drop_last() =~= accounts);
}

/// Of an asset without entries nothing is held.
proof fn lemma_held_none(accounts: Seq<Account>, id: primitive::Hash)
    requires
        forall|i: int| 0 <= i < accounts.len() ==> (#[trigger] accounts[i]).asset_id != id,
    ensures
        held_in(accounts, id) == 0,
    decreases accounts.len(),
{
    if accounts.len() > 0 {
        lemma_held_none(accounts.drop_last(), id);
    }
}

/// The asset ledger: the recorded assets and what every user holds of them.
pub struct AssetService {
    assets: Vec<Asset>,
    accounts: Vec<Account>,
}

impl View for AssetService {
    type V = LedgerView;

    closed spec fn view(&self) -> LedgerView {
        LedgerView {
            assets: Map::new(
                |id: primitive::Hash| has_asset_in(self.assets@, id),
                |id: primitive::Hash| self.assets@[asset_pos(self.assets@, id)],
            ),
            balances: Map::new(
                |k: (Address, primitive::Hash)| true,
                |k: (Address, primitive::Hash)| balance_in(self.accounts@, k.0, k.1),
            ),
        }
    }
}

impl AssetService {
    /// The ledger's invariant: no asset and no holder is recorded twice, and
    /// balances exist only of recorded assets.
    pub closed spec fn wf(&self) -> bool {
        &&& distinct_assets(self.assets@)
        &&& distinct_accounts(self.accounts@)
        &&& forall|i: int|
            0 <= i < self.accounts@.len() ==> has_asset_in(self.assets@, (#[trigger] self.accounts@[i]).asset_id)
    }

    /// Everything that all users together hold of one asset, spendable or
    /// escrowed.
    pub closed spec fn total_held(&self, id: primitive::Hash) -> int {
        held_in(self.accounts@, id)
    }

    /// Asset conservation: of every recorded asset, all users together hold
    /// exactly its supply.
    pub open spec fn conserved(&self) -> bool {
        forall|id: primitive::Hash|
            self@.has_asset(id) ==> #[trigger] self.total_held(id) == self@.assets[id].supply
    }

    /// The ledger gives every holder a balance.
    pub proof fn lemma_total(&self)
        ensures
            self@.total(),
    {
    }

    /// A ledger without assets.
    pub fn new() -> (service: Self)
        ensures
            service.wf(),
            service@ == LedgerView::empty(),
            service.conserved(),
            forall|id: primitive::Hash| #[trigger] service.total_held(id) == 0,
    {
        let service = AssetService { assets: Vec::new(), accounts: Vec::new() };
        assert(service@.assets =~= LedgerView::empty().assets);
        assert(service@.balances =~= LedgerView::empty().balances);
        service
    }

    /// The place of the asset of an id, if it is recorded.
    fn find_asset(&self, id: &primitive::Hash) -> (found: Option<usize>)
        ensures
            match found {
                Some(i) => i < self.assets@.len() && self.assets@[i as int].id == *id,
                None => !has_asset_in(self.assets@, *id),
            },
    {
        let mut i: usize = 0;
        while i < self.assets.len()
            invariant
                0 <= i <= self.assets@.len(),
                forall|j: int| 0 <= j < i ==> (#[trigger] self.assets@[j]).id != *id,
            decreases self.assets@.len() - i,
        {
            if self.assets[i].id.equals(id) {
                return Some(i);
            }
            i = i + 1;
        }
        None
    }

    /// The place of the entry of a holder, if there is one.
    fn find_account(&self, user: &Address, id: &primitive::Hash) -> (found: Option<usize>)
        ensures
            match found {
                Some(i) => i < self.accounts@.len() && account_is(self.accounts@[i as int], *user, *id),
                None => !has_account(self.accounts@, *user, *id),
            },
    {
        let mut i: usize = 0;
        while i < self.accounts.len()
            invariant
                0 <= i <= self.accounts@.len(),
                forall|j: int| 0 <= j < i ==> !account_is(#[trigger] self.accounts@[j], *user, *id),
            decreases self.accounts@.len() - i,
        {
            if self.accounts[i].user.equals(user) && self.accounts[i].asset_id.equals(id) {
                return Some(i);
            }
            i = i + 1;
        }
        None
    }

    /// Whether an asset is recorded under the id.
    fn contains_asset(&self, id: &primitive::Hash) -> (yes: bool)
        ensures
            yes == self@.has_asset(*id),
    {
        self.find_asset(id).is_some()
    }

    /// What a user holds of an asset.
    fn balance_of(&self, user: &Address, id: &primitive::Hash) -> (b: Balance)
        requires
            self.wf(),
        ensures
            b == self@.balance(*user, *id),
    {
        match self.find_account(user, id) {
            Some(i) => {
                proof {
                    lemma_account_unique(self.accounts@, i as int, *user, *id);
                }
                self.accounts[i].balance
            },
            None => Balance { current: 0, locked: 0 },
        }
    }

    /// Sets what a user holds of a recorded asset.
    fn set_balance(&mut self, user: &Address, id: &primitive::Hash, b: Balance)
        requires
            old(self).wf(),
            old(self)@.has_asset(*id),
        ensures
            final(self).wf(),
            final(self)@ == old(self)@.with_balance(*user, *id, b),
            forall|a: primitive::Hash|
                #![trigger final(self).total_held(a)]
                final(self).total_held(a) == old(self).total_held(a) + if a == *id {
                    b.total() - old(self)@.balance(*user, *id).total()
                } else {
                    0
                },
    {
        let ghost before = self.accounts@;
        match self.find_account(user, id) {
            Some(i) => {
                let entry = Account { user: *user, asset_id: *id, balance: b };
                self.accounts[i] = entry;
                proof {
                    let after = self.accounts@;
                    assert(after =~= before.update(i as int, entry));
                    lemma_account_unique(before, i as int, *user, *id);
                    assert forall|a: primitive::Hash| self.total_held(a) == old(self).total_held(a) + if a
                        == *id {
                        b.total() - old(self)@.balance(*user, *id).total()
                    } else {
                        0
                    } by {
                        lemma_held_update(before, i as int, b, a);
                    }
                    assert forall|k: (Address, primitive::Hash)|
                        balance_in(after, k.0, k.1) == if k == (*user, *id) {
                            b
                        } else {
                            balance_in(before, k.0, k.1)
                        } by {
                        if has_account(before, k.0, k.1) {
                            let p = account_pos(before, k.0, k.1);
                            assert(account_is(after[p], k.0, k.1));
                            lemma_account_unique(before, p, k.0, k.1);
                            lemma_account_unique(after, p, k.0, k.1);
                        } else {
                            if has_account(after, k.0, k.1) {
                                let p = account_pos(after, k.0, k.1);
                                assert(account_is(before[p], k.0, k.1));
                            }
                        }
                    }
                    assert(self@.balances =~= old(self)@.balances.insert((*user, *id), b));
                }
            },
            None => {
                let entry = Account { user: *user, asset_id: *id, balance: b };
                self.accounts.push(entry);
                proof {
                    let after = self.accounts@;
                    assert(after == before.push(entry));
                    assert forall|a: primitive::Hash| self.total_held(a) == old(self).total_held(a) + if a
                        == *id {
                        b.total() - old(self)@.balance(*user, *id).total()
                    } else {
                        0
                    } by {
                        lemma_held_push(before, entry, a);
                    }
                    assert(distinct_accounts(after)) by {
                        assert forall|i: int, j: int| 0 <= i < j < after.len() implies !account_is(
                            after[i],
                            after[j].user,
                            after[j].asset_id,
                        ) by {
                            if j == before.len() {
                                assert(!account_is(before[i], *user, *id));
                            } else {
                                assert(!account_is(before[i], before[j].user, before[j].asset_id));
                            }
                        }
                    }
                    assert forall|k: (Address, primitive::Hash)|
                        balance_in(after, k.0, k.1) == if k == (*user, *id) {
                            b
                        } else {
                            balance_in(before, k.0, k.1)
                        } by {
                        if k == (*user, *id) {
                            lemma_account_unique(after, before.len() as int, k.0, k.1);
                        } else if has_account(before, k.0, k.1) {
                            let p = account_pos(before, k.0, k.1);
                            assert(account_is(after[p], k.0, k.1));
                            lemma_account_unique(before, p, k.0, k.1);
                            lemma_account_unique(after, p, k.0, k.1);
                        } else {
                            if has_account(after, k.0, k.1) {
                                let p = account_pos(after, k.0, k.1);
                                assert(account_is(before[p], k.0, k.1));
                            }
                        }
                    }
                    assert(self@.balances =~= old(self)@.balances.insert((*user, *id), b));
                    assert forall|i: int| 0 <= i < after.len() implies has_asset_in(
                        self.assets@,
                        (#[trigger] after[i]).asset_id,
                    ) by {
                        if i < before.len() {
                            assert(after[i] == before[i]);
                        }
                    }
                }
            },
        }
    }
}


/// The identifier of the asset that `caller` creates with `payload`: the
/// digest of the payload's canonical JSON followed by the caller's address in
/// hexadecimal. `None` where the payload has no JSON text.
pub open spec fn asset_id_of(payload: CreateAssetPayload, caller: Address) -> Option<primitive::Hash> {
    match create_asset_json(payload.name@, payload.symbol@, payload.supply) {
        Some(text) => Some(digest_of(text + hex_text(caller@))),
        None => None,
    }
}

/// The privileged balance operations that the ledger offers to a holder of
/// the admission token, and to nobody else.
pub trait AssetFacade {
    /// The invariant of the implementation.
    spec fn valid(&self) -> bool;

    /// The ledger that the implementation stands for.
    spec fn ledger(&self) -> LedgerView;

    /// Everything that all users together hold of one asset.
    spec fn held(&self, id: primitive::Hash) -> int;

    /// Moves `payload.value` from the spendable part into escrow.
    fn lock(&mut self, ctx: ServiceContext, payload: ModifyBalancePayload) -> (res: Result<(), AssetError>)
        requires
            old(self).valid(),
        ensures
            final(self).valid(),
            follows(
                old(self).ledger(),
                final(self).ledger(),
                res,
                admitted_only(ctx.admitted(), old(self).ledger().escrowed(payload)),
            ),
            forall|id: primitive::Hash| #[trigger] final(self).held(id) == old(self).held(id),
    ;

    /// Moves `payload.value` out of escrow back into the spendable part.
    fn unlock(&mut self, ctx: ServiceContext, payload: ModifyBalancePayload) -> (res: Result<(), AssetError>)
        requires
            old(self).valid(),
        ensures
            final(self).valid(),
            follows(
                old(self).ledger(),
                final(self).ledger(),
                res,
                admitted_only(ctx.admitted(), old(self).ledger().released(payload)),
            ),
            forall|id: primitive::Hash| #[trigger] final(self).held(id) == old(self).held(id),
    ;

    /// Adds `payload.value` to the spendable part.
    fn add_value(&mut self, ctx: ServiceContext, payload: ModifyBalancePayload) -> (res: Result<
        (),
        AssetError,
    >)
        requires
            old(self).valid(),
        ensures
            final(self).valid(),
            follows(
                old(self).ledger(),
                final(self).ledger(),
                res,
                admitted_only(ctx.admitted(), old(self).ledger().credited(payload)),
            ),
            forall|id: primitive::Hash| #[trigger]
                final(self).held(id) == old(self).held(id) + if res is Ok && id == payload.asset_id {
                    payload.value as int
                } else {
                    0
                },
    ;

    /// Takes `payload.value` from the spendable part.
    fn sub_value(&mut self, ctx: ServiceContext, payload: ModifyBalancePayload) -> (res: Result<
        (),
        AssetError,
    >)
        requires
            old(self).valid(),
        ensures
            final(self).valid(),
            follows(
                old(self).ledger(),
                final(self).ledger(),
                res,
                admitted_only(ctx.admitted(), old(self).ledger().debited(payload)),
            ),
            forall|id: primitive::Hash| #[trigger]
                final(self).held(id) == old(self).held(id) - if res is Ok && id == payload.asset_id {
                    payload.value as int
                } else {
                    0
                },
    ;
}

impl AssetFacade for AssetService {
    open spec fn valid(&self) -> bool {
        self.wf()
    }

    open spec fn ledger(&self) -> LedgerView {
        self@
    }

    open spec fn held(&self, id: primitive::Hash) -> int {
        self.total_held(id)
    }

    fn add_value(&mut self, ctx: ServiceContext, payload: ModifyBalancePayload) -> (res: Result<
        (),
        AssetError,
    >) {
        if !ctx.is_admitted() {
            return Err(AssetError::PermissionDenial);
        }
        self._add_value(&payload)
    }

    fn sub_value(&mut self, ctx: ServiceContext, payload: ModifyBalancePayload) -> (res: Result<
        (),
        AssetError,
    >) {
        if !ctx.is_admitted() {
            return Err(AssetError::PermissionDenial);
        }
        self._sub_value(&payload)
    }

    fn lock(&mut self, ctx: ServiceContext, payload: ModifyBalancePayload) -> (res: Result<(), AssetError>) {
        if !ctx.is_admitted() {
            return Err(AssetError::PermissionDenial);
        }
        if !self.contains_asset(&payload.asset_id) {
            return Err(AssetError::AssetNotExist { id: payload.asset_id });
        }
        let balance = self.balance_of(&payload.user, &payload.asset_id);
        if balance.current < payload.value {
            return Err(AssetError::InsufficientBalance { wanted: payload.value, had: balance.current });
        }
        match balance.locked.checked_add(payload.value) {
            None => Err(AssetError::U64Overflow),
            Some(locked) => {
                let next = Balance { current: balance.current - payload.value, locked };
                self.set_balance(&payload.user, &payload.asset_id, next);
                Ok(())
            },
        }
    }

    fn unlock(&mut self, ctx: ServiceContext, payload: ModifyBalancePayload) -> (res: Result<(), AssetError>) {
        if !ctx.is_admitted() {
            return Err(AssetError::PermissionDenial);
        }
        if !self.contains_asset(&payload.asset_id) {
            return Err(AssetError::AssetNotExist { id: payload.asset_id });
        }
        let balance = self.balance_of(&payload.user, &payload.asset_id);
        if balance.locked < payload.value {
            return Err(AssetError::InsufficientBalance { wanted: payload.value, had: balance.locked });
        }
        match balance.current.checked_add(payload.value) {
            None => Err(AssetError::U64Overflow),
            Some(current) => {
                let next = Balance { current, locked: balance.locked - payload.value };
                self.set_balance(&payload.user, &payload.asset_id, next);
                Ok(())
            },
        }
    }
}

impl AssetService {
    /// Adds `payload.value` to the spendable part of a balance.
    fn _add_value(&mut self, payload: &ModifyBalancePayload) -> (res: Result<(), AssetError>)
        requires
            old(self).wf(),
        ensures
            final(self).wf(),
            follows(old(self)@, final(self)@, res, old(self)@.credited(*payload)),
            forall|id: primitive::Hash| #[trigger]
                final(self).total_held(id) == old(self).total_held(id) + if res is Ok && id
                    == payload.asset_id {
                    payload.value as int
                } else {
                    0
                },
    {
        if !self.contains_asset(&payload.asset_id) {
            return Err(AssetError::AssetNotExist { id: payload.asset_id });
        }
        let balance = self.balance_of(&payload.user, &payload.asset_id);
        match balance.current.checked_add(payload.value) {
            None => Err(AssetError::U64Overflow),
            Some(current) => {
                let next = Balance { current, locked: balance.locked };
                self.set_balance(&payload.user, &payload.asset_id, next);
                Ok(())
            },
        }
    }

    /// Takes `payload.value` from the spendable part of a balance.
    fn _sub_value(&mut self, payload: &ModifyBalancePayload) -> (res: Result<(), AssetError>)
        requires
            old(self).wf(),
        ensures
            final(self).wf(),
            follows(old(self)@, final(self)@, res, old(self)@.debited(*payload)),
            forall|id: primitive::Hash| #[trigger]
                final(self).total_held(id) == old(self).total_held(id) - if res is Ok && id
                    == payload.asset_id {
                    payload.value as int
                } else {
                    0
                },
    {
        if !self.contains_asset(&payload.asset_id) {
            return Err(AssetError::AssetNotExist { id: payload.asset_id });
        }
        let balance = self.balance_of(&payload.user, &payload.asset_id);
        if balance.current < payload.value {
            return Err(AssetError::InsufficientBalance { wanted: payload.value, had: balance.current });
        }
        let next = Balance { current: balance.current - payload.value, locked: balance.locked };
        self.set_balance(&payload.user, &payload.asset_id, next);
        Ok(())
    }

    /// Looks an asset up.
    pub fn get_asset(&self, ctx: &ServiceContext, payload: GetAssetPayload) -> (res: Result<Asset, AssetError>)
        requires
            self.wf(),
        ensures
            match res {
                Ok(asset) => self@.has_asset(payload.id) && asset == self@.assets[payload.id],
                Err(e) => !self@.has_asset(payload.id) && e == (AssetError::AssetNotExist { id: payload.id }),
            },
    {
        match self.find_asset(&payload.id) {
            Some(i) => {
                proof {
                    lemma_asset_unique(self.assets@, i as int);
                }
                Ok(self.assets[i].clone())
            },
            None => Err(AssetError::AssetNotExist { id: payload.id }),
        }
    }

    /// What a user holds of an asset; zero for a holder never credited.
    pub fn get_balance(&self, ctx: &ServiceContext, payload: GetBalancePayload) -> (res: Result<
        GetBalanceResponse,
        AssetError,
    >)
        requires
            self.wf(),
        ensures
            res matches Ok(r) && r.asset_id == payload.asset_id && r.balance == self@.balance(
                payload.user,
                payload.asset_id,
            ),
    {
        let balance = self.balance_of(&payload.user, &payload.asset_id);
        Ok(GetBalanceResponse { asset_id: payload.asset_id, balance })
    }

    /// Moves `payload.value` of an asset from the caller to `payload.to`, and
    /// records the transfer as an event. Fails, changing nothing, as the
    /// debit of the caller or the credit of the receiver fails.
    pub fn transfer(&mut self, ctx: &mut ServiceContext, payload: TransferPayload) -> (res: Result<
        (),
        AssetError,
    >)
        requires
            old(self).wf(),
        ensures
            final(self).wf(),
            follows(
                old(self)@,
                final(self)@,
                res,
                old(self)@.transferred(old(ctx).caller, payload.to, payload.asset_id, payload.value),
            ),
            res is Ok ==> final(ctx).emitted() == old(ctx).emitted().push(
                EventView::TransferAsset(
                    TransferEvent {
                        asset_id: payload.asset_id,
                        from: old(ctx).caller,
                        to: payload.to,
                        value: payload.value,
                    },
                ),
            ),
            res is Err ==> final(ctx).emitted() == old(ctx).emitted(),
            final(ctx).caller == old(ctx).caller,
            final(ctx).tx_hash == old(ctx).tx_hash,
            final(ctx).height == old(ctx).height,
            final(ctx).extra == old(ctx).extra,
            forall|id: primitive::Hash| #[trigger] final(self).total_held(id) == old(self).total_held(id),
            old(self).conserved() ==> final(self).conserved(),
    {
        let from = ctx.get_caller();
        let before = self.balance_of(&from, &payload.asset_id);
        let sub_payload = ModifyBalancePayload { asset_id: payload.asset_id, user: from, value: payload.value };
        match self._sub_value(&sub_payload) {
            Err(e) => {
                return Err(e);
            },
            Ok(()) => {},
        }
        let add_payload = ModifyBalancePayload {
            asset_id: payload.asset_id,
            user: payload.to,
            value: payload.value,
        };
        match self._add_value(&add_payload) {
            Err(e) => {
                self.set_balance(&from, &payload.asset_id, before);
                assert(self@.balances =~= old(self)@.balances);
                return Err(e);
            },
            Ok(()) => {},
        }
        let event = TransferEvent {
            asset_id: payload.asset_id,
            from,
            to: payload.to,
            value: payload.value,
        };
        ctx.emit_event(Event::TransferAsset(event));
        Ok(())
    }
}


impl AssetService {
    /// Records an asset, in the place of one of the same id if there is one.
    fn put_asset(&mut self, asset: Asset)
        requires
            old(self).wf(),
        ensures
            final(self).wf(),
            final(self)@ == old(self)@.with_asset(asset),
            forall|id: primitive::Hash| #[trigger] final(self).total_held(id) == old(self).total_held(id),
    {
        let ghost before = self.assets@;
        let ghost id = asset.id;
        match self.find_asset(&asset.id) {
            Some(i) => {
                self.assets[i] = asset;
                proof {
                    let after = self.assets@;
                    assert(after =~= before.update(i as int, asset));
                    assert forall|k: primitive::Hash| has_asset_in(after, k) == (k == id || has_asset_in(
                        before,
                        k,
                    )) by {
                        if has_asset_in(before, k) {
                            let p = asset_pos(before, k);
                            assert(after[p].id == k);
                        }
                        if has_asset_in(after, k) {
                            let p = asset_pos(after, k);
                            assert(before[p].id == k);
                        }
                        assert(after[i as int].id == id);
                    }
                    assert forall|k: primitive::Hash| has_asset_in(after, k) implies after[asset_pos(after, k)]
                        == if k == id {
                        asset
                    } else {
                        before[asset_pos(before, k)]
                    } by {
                        let p = asset_pos(after, k);
                        assert(before[p].id == k);
                        lemma_asset_unique(before, p);
                        lemma_asset_unique(after, p);
                        lemma_asset_unique(after, i as int);
                    }
                    assert(self@.assets =~= old(self)@.assets.insert(id, asset));
                    assert forall|j: int| 0 <= j < self.accounts@.len() implies has_asset_in(
                        after,
                        (#[trigger] self.accounts@[j]).asset_id,
                    ) by {
                        assert(has_asset_in(before, self.accounts@[j].asset_id));
                    }
                }
            },
            None => {
                self.assets.push(asset);
                proof {
                    let after = self.assets@;
                    assert(after == before.push(asset));
                    assert(distinct_assets(after)) by {
                        assert forall|i: int, j: int| 0 <= i < j < after.len() implies after[i].id
                            != after[j].id by {
                            if j == before.len() {
                                assert(before[i].id != id);
                            } else {
                                assert(before[i].id != before[j].id);
                            }
                        }
                    }
                    assert forall|k: primitive::Hash| has_asset_in(after, k) == (k == id || has_asset_in(
                        before,
                        k,
                    )) by {
                        if has_asset_in(before, k) {
                            let p = asset_pos(before, k);
                            assert(after[p].id == k);
                        }
                        if has_asset_in(after, k) {
                            let p = asset_pos(after, k);
                            if p < before.len() {
                                assert(before[p].id == k);
                            }
                        }
                        assert(after[before.len() as int].id == id);
                    }
                    assert forall|k: primitive::Hash| has_asset_in(after, k) implies after[asset_pos(after, k)]
                        == if k == id {
                        asset
                    } else {
                        before[asset_pos(before, k)]
                    } by {
                        let p = asset_pos(after, k);
                        lemma_asset_unique(after, p);
                        lemma_asset_unique(after, before.len() as int);
                        if p < before.len() {
                            assert(before[p].id == k);
                            lemma_asset_unique(before, p);
                        }
                    }
                    assert(self@.assets =~= old(self)@.assets.insert(id, asset));
                    assert forall|j: int| 0 <= j < self.accounts@.len() implies has_asset_in(
                        after,
                        (#[trigger] self.accounts@[j]).asset_id,
                    ) by {
                        assert(has_asset_in(before, self.accounts@[j].asset_id));
                    }
                }
            },
        }
    }

    /// Of an asset that is not recorded nothing is held.
    proof fn lemma_unrecorded_asset_unheld(&self, id: primitive::Hash)
        requires
            self.wf(),
            !self@.has_asset(id),
        ensures
            self.total_held(id) == 0,
    {
        lemma_held_none(self.accounts@, id);
    }

    /// Records the asset that the chain starts with, replacing one of the
    /// same id, and sets its issuer's balance to the whole supply, all of it
    /// spendable.
    pub fn init_genesis(&mut self, payload: InitGenesisPayload)
        requires
            old(self).wf(),
        ensures
            final(self).wf(),
            final(self)@ == old(self)@.with_asset(
                Asset {
                    id: payload.id,
                    name: payload.name,
                    symbol: payload.symbol,
                    supply: payload.supply,
                    issuer: payload.issuer,
                },
            ).with_balance(payload.issuer, payload.id, Balance { current: payload.supply, locked: 0 }),
            forall|id: primitive::Hash|
                id != payload.id ==> #[trigger] final(self).total_held(id) == old(self).total_held(id),
            !old(self)@.has_asset(payload.id) ==> final(self).total_held(payload.id) == payload.supply,
            old(self).conserved() && !old(self)@.has_asset(payload.id) ==> final(self).conserved(),
    {
        proof {
            if !self@.has_asset(payload.id) {
                self.lemma_unrecorded_asset_unheld(payload.id);
                assert(self@.balance(payload.issuer, payload.id) == Balance::zero());
            }
        }
        let id = payload.id;
        let issuer = payload.issuer;
        let supply = payload.supply;
        let asset = Asset { id, name: payload.name, symbol: payload.symbol, supply, issuer };
        self.put_asset(asset);
        self.set_balance(&issuer, &id, Balance { current: supply, locked: 0 });
    }

    /// Issues a new asset to the caller: its id is derived from the payload
    /// and the caller, its whole supply becomes the caller's spendable
    /// balance, and the asset is published as an event.
    pub fn create_asset(&mut self, ctx: &mut ServiceContext, payload: CreateAssetPayload) -> (res: Result<
        Asset,
        AssetError,
    >)
        requires
            old(self).wf(),
        ensures
            final(self).wf(),
            final(ctx).caller == old(ctx).caller,
            final(ctx).tx_hash == old(ctx).tx_hash,
            final(ctx).height == old(ctx).height,
            final(ctx).extra == old(ctx).extra,
            match asset_id_of(payload, old(ctx).caller) {
                None => res matches Err(AssetError::JsonParse(_)),
                Some(id) => if old(self)@.has_asset(id) {
                    res matches Err(e) && e == (AssetError::AssetExisted { id })
                } else {
                    res matches Ok(asset) && asset == (Asset {
                        id,
                        name: payload.name,
                        symbol: payload.symbol,
                        supply: payload.supply,
                        issuer: old(ctx).caller,
                    })
                },
            },
            match res {
                Ok(asset) => {
                    &&& final(self)@ == old(self)@.with_asset(asset).with_balance(
                        asset.issuer,
                        asset.id,
                        Balance { current: asset.supply, locked: 0 },
                    )
                    &&& final(ctx).emitted() == old(ctx).emitted().push(EventView::CreateAsset(asset))
                    &&& final(self).total_held(asset.id) == asset.supply
                    &&& forall|id: primitive::Hash|
                        id != asset.id ==> #[trigger] final(self).total_held(id) == old(self).total_held(id)
                },
                Err(_) => {
                    &&& final(self)@ == old(self)@
                    &&& final(ctx).emitted() == old(ctx).emitted()
                    &&& forall|id: primitive::Hash| #[trigger]
                        final(self).total_held(id) == old(self).total_held(id)
                },
            },
            old(self).conserved() ==> final(self).conserved(),
    {
        let caller = ctx.get_caller();
        let name_json = match json_string(&payload.name) {
            Ok(v) => v,
            Err(e) => {
                return Err(AssetError::JsonParse(e));
            },
        };
        let symbol_json = match json_string(&payload.symbol) {
            Ok(v) => v,
            Err(e) => {
                return Err(AssetError::JsonParse(e));
            },
        };
        let mut text = write_create_asset_json(&name_json, &symbol_json, payload.supply);
        let caller_hex = caller.as_hex();
        append_bytes(&mut text, &caller_hex);
        let id = primitive::Hash::digest(&text);
        if self.contains_asset(&id) {
            return Err(AssetError::AssetExisted { id });
        }
        proof {
            self.lemma_unrecorded_asset_unheld(id);
        }
        let asset = Asset {
            id,
            name: payload.name,
            symbol: payload.symbol,
            supply: payload.supply,
            issuer: caller,
        };
        self.put_asset(asset.clone());
        self.set_balance(&caller, &id, Balance { current: payload.supply, locked: 0 });
        ctx.emit_event(Event::CreateAsset(asset.clone()));
        Ok(asset)
    }
}


impl AssetService {
    /// The recorded assets, each once.
    pub fn assets(&self) -> (assets: Vec<Asset>)
        requires
            self.wf(),
        ensures
            forall|i: int|
                0 <= i < assets@.len() ==> self@.has_asset((#[trigger] assets@[i]).id) && self@.assets[assets@[i].id]
                    == assets@[i],
            forall|id: primitive::Hash| self@.has_asset(id) ==> has_asset_in(assets@, id),
            distinct_assets(assets@),
    {
        let mut assets: Vec<Asset> = Vec::new();
        let mut i: usize = 0;
        while i < self.assets.len()
            invariant
                0 <= i <= self.assets@.len(),
                assets@ == self.assets@.take(i as int),
            decreases self.assets@.len() - i,
        {
            assets.push(self.assets[i].clone());
            assert(assets@ =~= self.assets@.take(i + 1));
            i = i + 1;
        }
        proof {
            assert(self.assets@.take(self.assets@.len() as int) =~= self.assets@);
            assert forall|i: int| 0 <= i < assets@.len() implies self@.has_asset((#[trigger] assets@[i]).id)
                && self@.assets[assets@[i].id] == assets@[i] by {
                lemma_asset_unique(self.assets@, i);
            }
        }
        assets
    }

    /// The balances that were ever set, each holder once. Who is not among
    /// them holds nothing.
    pub fn accounts(&self) -> (accounts: Vec<Account>)
        requires
            self.wf(),
        ensures
            forall|i: int|
                0 <= i < accounts@.len() ==> self@.balance(
                    (#[trigger] accounts@[i]).user,
                    accounts@[i].asset_id,
                ) == accounts@[i].balance,
            forall|user: Address, id: primitive::Hash|
                !has_account(accounts@, user, id) ==> self@.balance(user, id) == Balance::zero(),
            distinct_accounts(accounts@),
            forall|id: primitive::Hash| #[trigger] self.total_held(id) == held_in(accounts@, id),
    {
        let mut accounts: Vec<Account> = Vec::new();
        let mut i: usize = 0;
        while i < self.accounts.len()
            invariant
                0 <= i <= self.accounts@.len(),
                accounts@ == self.accounts@.take(i as int),
            decreases self.accounts@.len() - i,
        {
            accounts.push(self.accounts[i]);
            assert(accounts@ =~= self.accounts@.take(i + 1));
            i = i + 1;
        }
        proof {
            assert(self.accounts@.take(self.accounts@.len() as int) =~= self.accounts@);
            assert forall|i: int| 0 <= i < accounts@.len() implies self@.balance(
                (#[trigger] accounts@[i]).user,
                accounts@[i].asset_id,
            ) == accounts@[i].balance by {
                lemma_account_unique(self.accounts@, i, accounts@[i].user, accounts@[i].asset_id);
            }
        }
        accounts
    }
}

} // verus!
