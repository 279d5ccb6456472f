//! The registry: the directory of deployed accounts and the one place where
//! accounts are deployed.
//!
//! The registry keeps a log of its deployments, one entry per account key,
//! and a count per asset. It answers under which address the account of a
//! key is or would be deployed, and it deploys at most one account per key.

use vstd::prelude::*;
use crate::account::TbaAccount;
use crate::address::{Address, Bytes32};
use crate::auth::{AssetLedger, Authorization};
use crate::deriver::{lemma_salt_preimage_injective, salt_preimage, AccountKey};
use crate::error::Error;

verus! {

/// One entry of the log: the account of `key` is deployed at `address`.
#[derive(Copy, Clone, Debug, PartialEq, Eq)]
pub struct DeployedAccount {
    pub key: AccountKey,
    pub address: Address,
}

/// The number of accounts deployed for one asset.
#[derive(Copy, Clone, Debug, PartialEq, Eq)]
pub struct AccountCount {
    pub token_contract: Address,
    pub token_id: u128,
    pub count: u32,
}

/// What a successful deployment hands back: the address of the new account,
/// the code to install there, and the account itself, initialized with the
/// parts of its key.
#[derive(Debug, Clone, PartialEq, Eq)]
pub struct Deployment {
    pub address: Address,
    pub wasm_hash: Bytes32,
    pub account: TbaAccount,
}

/// The address recorded in `log` for `key`, if there is one.
pub open spec fn find_account(log: Seq<DeployedAccount>, key: AccountKey) -> Option<Address>
    decreases log.len(),
{
    if log.len() == 0 {
        None
    } else {
        match find_account(log.drop_last(), key) {
            Some(address) => Some(address),
            None => if log.last().key == key {
                Some(log.last().address)
            } else {
                None
            },
        }
    }
}

/// The number of entries of `log` for the asset `token_id` of
/// `token_contract`.
pub open spec fn count_for(log: Seq<DeployedAccount>, token_contract: Address, token_id: u128) -> nat
    decreases log.len(),
{
    if log.len() == 0 {
        0
    } else {
        count_for(log.drop_last(), token_contract, token_id) + if log.last().key.token_contract
            == token_contract && log.last().key.token_id == token_id {
            1nat
        } else {
            0nat
        }
    }
}

/// Whether an entry of `log` holds `address`.
pub open spec fn address_used(log: Seq<DeployedAccount>, address: Address) -> bool {
    exists|i: int| 0 <= i < log.len() && (#[trigger] log[i]).address == address
}

/// A log names no key twice and no address twice.
pub open spec fn log_wf(log: Seq<DeployedAccount>) -> bool {
    forall|i: int, j: int|
        0 <= i < j < log.len() ==> (#[trigger] log[i]).key != (#[trigger] log[j]).key
            && log[i].address != log[j].address
}

/// Whether `entry` counts the accounts of the given asset.
pub open spec fn counts_asset(entry: AccountCount, token_contract: Address, token_id: u128) -> bool {
    entry.token_contract == token_contract && entry.token_id == token_id
}

/// A key that `log` has no address for is the key of none of its entries.
pub proof fn lemma_find_none(log: Seq<DeployedAccount>, key: AccountKey)
    requires
        find_account(log, key) is None,
    ensures
        forall|i: int| 0 <= i < log.len() ==> (#[trigger] log[i]).key != key,
    decreases log.len(),
{
    if log.len() > 0 {
        lemma_find_none(log.drop_last(), key);
        assert forall|i: int| 0 <= i < log.len() implies (#[trigger] log[i]).key != key by {
            if i < log.len() - 1 {
                assert(log.drop_last()[i] == log[i]);
            }
        }
    }
}

/// What a beginning of the log records, the whole log records too.
pub proof fn lemma_find_prefix(log: Seq<DeployedAccount>, n: int, key: AccountKey)
    requires
        0 <= n <= log.len(),
        find_account(log.subrange(0, n), key) is Some,
    ensures
        find_account(log, key) == find_account(log.subrange(0, n), key),
    decreases log.len(),
{
    if n == log.len() {
        assert(log.subrange(0, n) =~= log);
    } else {
        assert(log.drop_last().subrange(0, n) =~= log.subrange(0, n));
        lemma_find_prefix(log.drop_last(), n, key);
    }
}

/// A beginning of the log has no more entries for an asset than the log.
pub proof fn lemma_count_prefix(
    log: Seq<DeployedAccount>,
    n: int,
    token_contract: Address,
    token_id: u128,
)
    requires
        0 <= n <= log.len(),
    ensures
        count_for(log.subrange(0, n), token_contract, token_id) <= count_for(
            log,
            token_contract,
            token_id,
        ),
    decreases log.len(),
{
    if n == log.len() {
        assert(log.subrange(0, n) =~= log);
    } else {
        assert(log.drop_last().subrange(0, n) =~= log.subrange(0, n));
        lemma_count_prefix(log.drop_last(), n, token_contract, token_id);
    }
}

/// What the log records for a key stands in one of its entries.
pub proof fn lemma_find_some(log: Seq<DeployedAccount>, key: AccountKey)
    requires
        find_account(log, key) is Some,
    ensures
        exists|i: int|
            0 <= i < log.len() && (#[trigger] log[i]).key == key && find_account(log, key) == Some(
                log[i].address,
            ),
    decreases log.len(),
{
    if log.len() > 0 {
        let rest = log.drop_last();
        if find_account(rest, key) is Some {
            lemma_find_some(rest, key);
            let i = choose|i: int|
                0 <= i < rest.len() && (#[trigger] rest[i]).key == key && find_account(rest, key)
                    == Some(rest[i].address);
            assert(log[i] == rest[i]);
        } else {
            assert(log[log.len() - 1].key == key);
        }
    }
}

/// The registry's state: who it is, which code it deploys, the log of its
/// deployments and the count of accounts per asset.
#[derive(Debug, Clone, PartialEq, Eq)]
pub struct TbaRegistry {
    address: Address,
    wasm_hash: Option<Bytes32>,
    accounts: Vec<DeployedAccount>,
    counts: Vec<AccountCount>,
}

impl TbaRegistry {
    /// The registry's own address, under which it deploys.
    pub closed spec fn deployer(&self) -> Address {
        self.address
    }

    /// The code of the accounts it deploys, once bound.
    pub closed spec fn implementation(&self) -> Option<Bytes32> {
        self.wasm_hash
    }

    /// The deployments made so far, oldest first.
    pub closed spec fn log(&self) -> Seq<DeployedAccount> {
        self.accounts@
    }

    /// The log names no key and no address twice, and the stored counts are
    /// the numbers of log entries per asset.
    pub closed spec fn wf(&self) -> bool {
        &&& log_wf(self.accounts@)
        &&& forall|i: int, j: int|
            0 <= i < j < self.counts@.len() ==> !counts_asset(
                #[trigger] self.counts@[i],
                (#[trigger] self.counts@[j]).token_contract,
                self.counts@[j].token_id,
            )
        &&& forall|i: int|
            0 <= i < self.counts@.len() ==> (#[trigger] self.counts@[i]).count == count_for(
                self.accounts@,
                self.counts@[i].token_contract,
                self.counts@[i].token_id,
            )
        &&& forall|token_contract: Address, token_id: u128|
            #[trigger] count_for(self.accounts@, token_contract, token_id) > 0 ==> exists|i: int|
                0 <= i < self.counts@.len() && counts_asset(
                    #[trigger] self.counts@[i],
                    token_contract,
                    token_id,
                )
    }

    /// The address of the account of `key`: the recorded one if the account
    /// is deployed, else `derived`, the address that the platform derives
    /// for the key.
    pub open spec fn account_address(&self, key: AccountKey, derived: Address) -> Address {
        match find_account(self.log(), key) {
            Some(address) => address,
            None => derived,
        }
    }

    /// How a deployment of the account of `key` at `derived` ends: the
    /// first of the errors that applies, or success.
    pub open spec fn deploy_outcome<L: AssetLedger>(
        &self,
        ledger: &L,
        auth: &Authorization,
        key: AccountKey,
        derived: Address,
    ) -> Result<(), Error> {
        match ledger.owner(key.token_contract, key.token_id) {
            None => Err(Error::NotFound),
            Some(owner) => if !auth.authorizes(owner) {
                Err(Error::Authorization)
            } else if find_account(self.log(), key) is Some {
                Err(Error::DuplicateDeployment)
            } else if self.implementation() is None {
                Err(Error::NotInitialized)
            } else if address_used(self.log(), derived) {
                Err(Error::DuplicateDeployment)
            } else if count_for(self.log(), key.token_contract, key.token_id) >= u32::MAX {
                Err(Error::Overflow)
            } else {
                Ok(())
            },
        }
    }

    /// A deployment of the account of `key` at `derived` led from `self` to
    /// `after` and returned `result`: on an error nothing has changed; on
    /// success the log has grown by the one entry, and the new account is
    /// initialized with the parts of `key`.
    pub open spec fn deployed<L: AssetLedger>(
        &self,
        after: &TbaRegistry,
        ledger: &L,
        auth: &Authorization,
        key: AccountKey,
        derived: Address,
        result: Result<Deployment, Error>,
    ) -> bool {
        match self.deploy_outcome(ledger, auth, key, derived) {
            Err(e) => result == Err::<Deployment, Error>(e) && *after == *self,
            Ok(()) => {
                &&& after.deployer() == self.deployer()
                &&& after.implementation() == self.implementation()
                &&& after.log() == self.log().push(DeployedAccount { key, address: derived })
                &&& result matches Ok(deployment)
                &&& deployment.address == derived
                &&& Some(deployment.wasm_hash) == self.implementation()
                &&& deployment.account.wf()
                &&& deployment.account.binding() == Some(key)
                &&& deployment.account.count() == 0
            },
        }
    }

    /// A registry at `address` that has deployed nothing and is not bound to
    /// an implementation yet.
    pub fn new(address: Address) -> (registry: TbaRegistry)
        ensures
            registry.wf(),
            registry.deployer() == address,
            registry.implementation() is None,
            registry.log() == Seq::<DeployedAccount>::empty(),
    {
        TbaRegistry { address, wasm_hash: None, accounts: Vec::new(), counts: Vec::new() }
    }

    /// Puts a registry together from its stored parts: its address, the
    /// implementation it is bound to, if any, and the log of its
    /// deployments. There is no registry whose log names a key or an
    /// address twice, or holds more entries for an asset than the count of
    /// the asset can show.
    pub fn restore(address: Address, wasm_hash: Option<Bytes32>, log: &Vec<DeployedAccount>) -> (restored:
        Option<TbaRegistry>)
        ensures
            restored is Some <==> log_wf(log@) && forall|token_contract: Address, token_id: u128|
                #[trigger] count_for(log@, token_contract, token_id) <= u32::MAX,
            restored matches Some(registry) ==> registry.wf() && registry.deployer() == address
                && registry.implementation() == wasm_hash && registry.log() == log@,
    {
        let mut registry = TbaRegistry {
            address,
            wasm_hash,
            accounts: Vec::new(),
            counts: Vec::new(),
        };
        let mut i: usize = 0;
        while i < log.len()
            invariant
                i <= log.len(),
                registry.wf(),
                registry.address == address,
                registry.wasm_hash == wasm_hash,
                registry.accounts@ == log@.subrange(0, i as int),
            decreases log.len() - i,
        {
            let entry = log[i];
            let ghost prefix = log@.subrange(0, i as int);
            if registry.get_deployed_address(&entry.key).is_some() {
                proof {
                    lemma_find_some(prefix, entry.key);
                    let j = choose|j: int|
                        0 <= j < prefix.len() && (#[trigger] prefix[j]).key == entry.key;
                    assert(log@[j] == prefix[j]);
                    assert(log@[j].key == log@[i as int].key);
                }
                return None;
            }
            if registry.uses_address(&entry.address) {
                proof {
                    let j = choose|j: int|
                        0 <= j < prefix.len() && (#[trigger] prefix[j]).address == entry.address;
                    assert(log@[j] == prefix[j]);
                    assert(log@[j].address == log@[i as int].address);
                }
                return None;
            }
            if registry.total_deployed_accounts(&entry.key.token_contract, entry.key.token_id)
                == u32::MAX {
                proof {
                    let longer = log@.subrange(0, i + 1);
                    assert(longer.drop_last() =~= prefix);
                    assert(longer.last() == entry);
                    lemma_count_prefix(log@, i + 1, entry.key.token_contract, entry.key.token_id);
                    assert(count_for(log@, entry.key.token_contract, entry.key.token_id)
                        > u32::MAX);
                }
                return None;
            }
            registry.push_entry(entry);
            assert(registry.accounts@ =~= log@.subrange(0, i + 1));
            i = i + 1;
        }
        assert(log@.subrange(0, i as int) =~= log@);
        proof {
            lemma_registry_invariants(registry);
        }
        Some(registry)
    }

    /// The log of the deployments, for the caller that stores the registry.
    pub fn deployments(&self) -> (log: &Vec<DeployedAccount>)
        ensures
            log@ == self.log(),
    {
        &self.accounts
    }

    /// Binds the registry to the code of the accounts it deploys. Allowed
    /// once.
    pub fn initialize(&mut self, tba_account_wasm_hash: Bytes32) -> (result: Result<(), Error>)
        requires
            old(self).wf(),
        ensures
            final(self).wf(),
            final(self).deployer() == old(self).deployer(),
            final(self).log() == old(self).log(),
            old(self).implementation() is Some ==> result == Err::<(), Error>(
                Error::AlreadyInitialized,
            ) && *final(self) == *old(self),
            old(self).implementation() is None ==> result is Ok && final(self).implementation()
                == Some(tba_account_wasm_hash),
    {
        if self.wasm_hash.is_some() {
            return Err(Error::AlreadyInitialized);
        }
        self.wasm_hash = Some(tba_account_wasm_hash);
        Ok(())
    }

    /// The registry's own address.
    pub fn address(&self) -> (address: Address)
        ensures
            address == self.deployer(),
    {
        self.address
    }

    /// The code of the accounts the registry deploys, once bound.
    pub fn implementation_wasm_hash(&self) -> (wasm_hash: Option<Bytes32>)
        ensures
            wasm_hash == self.implementation(),
    {
        self.wasm_hash
    }

    /// The address recorded for `key`, if the account is deployed. A key
    /// without a deployment is answered with `None`.
    pub fn get_deployed_address(&self, key: &AccountKey) -> (found: Option<Address>)
        ensures
            found == find_account(self.log(), *key),
    {
        let mut i: usize = 0;
        while i < self.accounts.len()
            invariant
                i <= self.accounts.len(),
                find_account(self.accounts@.subrange(0, i as int), *key) is None,
            decreases self.accounts.len() - i,
        {
            assert(self.accounts@.subrange(0, i + 1).drop_last() =~= self.accounts@.subrange(
                0,
                i as int,
            ));
            if self.accounts[i].key.same(key) {
                proof {
                    lemma_find_prefix(self.accounts@, i + 1, *key);
                }
                return Some(self.accounts[i].address);
            }
            i = i + 1;
        }
        assert(self.accounts@.subrange(0, i as int) =~= self.accounts@);
        None
    }

    /// Whether an account is recorded at `address`.
    fn uses_address(&self, address: &Address) -> (used: bool)
        ensures
            used == address_used(self.accounts@, *address),
    {
        let mut i: usize = 0;
        while i < self.accounts.len()
            invariant
                i <= self.accounts.len(),
                forall|j: int| 0 <= j < i ==> (#[trigger] self.accounts@[j]).address != *address,
            decreases self.accounts.len() - i,
        {
            if self.accounts[i].address.same(address) {
                return true;
            }
            i = i + 1;
        }
        false
    }

    /// Where the count of the given asset is stored, if anywhere.
    fn count_slot(&self, token_contract: &Address, token_id: u128) -> (slot: Option<usize>)
        ensures
            match slot {
                Some(i) => i < self.counts@.len() && counts_asset(
                    self.counts@[i as int],
                    *token_contract,
                    token_id,
                ),
                None => forall|i: int|
                    0 <= i < self.counts@.len() ==> !counts_asset(
                        #[trigger] self.counts@[i],
                        *token_contract,
                        token_id,
                    ),
            },
    {
        let mut i: usize = 0;
        while i < self.counts.len()
            invariant
                i <= self.counts.len(),
                forall|j: int|
                    0 <= j < i ==> !counts_asset(
                        #[trigger] self.counts@[j],
                        *token_contract,
                        token_id,
                    ),
            decreases self.counts.len() - i,
        {
            if self.counts[i].token_contract.same(token_contract) && self.counts[i].token_id
                == token_id {
                return Some(i);
            }
            i = i + 1;
        }
        None
    }

    /// The number of accounts deployed for the asset `token_id` of
    /// `token_contract`.
    pub fn total_deployed_accounts(&self, token_contract: &Address, token_id: u128) -> (total: u32)
        requires
            self.wf(),
        ensures
            total == count_for(self.log(), *token_contract, token_id),
    {
        match self.count_slot(token_contract, token_id) {
            Some(i) => self.counts[i].count,
            None => 0,
        }
    }

    /// The address of the account of `key`, before or after its deployment:
    /// the recorded address if the account is deployed, else `derived`, the
    /// address that the platform derives for the registry's own address and
    /// the composite salt of `key`. Nothing is deployed or changed, nobody
    /// is asked, and there is no error.
    pub fn get_account(&self, key: &AccountKey, derived: Address) -> (address: Address)
        ensures
            address == self.account_address(*key, derived),
    {
        match self.get_deployed_address(key) {
            Some(address) => address,
            None => derived,
        }
    }

    /// Logs `entry` and counts it for its asset.
    fn push_entry(&mut self, entry: DeployedAccount)
        requires
            old(self).wf(),
            find_account(old(self).accounts@, entry.key) is None,
            !address_used(old(self).accounts@, entry.address),
            count_for(old(self).accounts@, entry.key.token_contract, entry.key.token_id) < u32::MAX,
        ensures
            final(self).wf(),
            final(self).address == old(self).address,
            final(self).wasm_hash == old(self).wasm_hash,
            final(self).accounts@ == old(self).accounts@.push(entry),
    {
        let key = &entry.key;
        let slot = self.count_slot(&key.token_contract, key.token_id);
        let count: u32 = match slot {
            Some(i) => self.counts[i].count,
            None => {
                assert(count_for(self.accounts@, key.token_contract, key.token_id) == 0);
                0
            },
        };
        let updated = AccountCount {
            token_contract: key.token_contract,
            token_id: key.token_id,
            count: count + 1,
        };
        let ghost log = self.accounts@;
        let ghost counts = self.counts@;
        proof {
            lemma_find_none(log, *key);
        }
        self.accounts.push(entry);
        match slot {
            Some(i) => {
                self.counts.set(i, updated);
            },
            None => {
                self.counts.push(updated);
            },
        }
        proof {
            assert(self.accounts@.drop_last() =~= log);
            assert(self.accounts@.last() == entry);
            assert forall|i: int, j: int| 0 <= i < j < self.accounts@.len() implies (
            #[trigger] self.accounts@[i]).key != (#[trigger] self.accounts@[j]).key
                && self.accounts@[i].address != self.accounts@[j].address by {
                if j < log.len() {
                    assert(self.accounts@[i] == log[i] && self.accounts@[j] == log[j]);
                } else {
                    assert(self.accounts@[i] == log[i]);
                }
            }
            assert forall|i: int| 0 <= i < self.counts@.len() implies (
            #[trigger] self.counts@[i]).count == count_for(
                self.accounts@,
                self.counts@[i].token_contract,
                self.counts@[i].token_id,
            ) by {
                if i < counts.len() && !counts_asset(counts[i], key.token_contract, key.token_id) {
                    assert(self.counts@[i] == counts[i]);
                }
            }
            assert forall|token_contract: Address, token_id: u128| #[trigger]
                count_for(self.accounts@, token_contract, token_id) > 0 implies exists|i: int|
                0 <= i < self.counts@.len() && counts_asset(
                    #[trigger] self.counts@[i],
                    token_contract,
                    token_id,
                ) by {
                if token_contract == key.token_contract && token_id == key.token_id {
                    let at = match slot {
                        Some(i) => i as int,
                        None => counts.len() as int,
                    };
                    assert(counts_asset(self.counts@[at], token_contract, token_id));
                } else {
                    assert(count_for(log, token_contract, token_id) > 0);
                    let at = choose|i: int|
                        0 <= i < counts.len() && counts_asset(
                            #[trigger] counts[i],
                            token_contract,
                            token_id,
                        );
                    assert(self.counts@[at] == counts[at]);
                    assert(counts_asset(self.counts@[at], token_contract, token_id));
                }
            }
        }
    }

    /// Deploys the account of `key` at `derived`, the address that the
    /// platform derives for the registry's own address and the composite
    /// salt of `key`: the address that `get_account` announced before.
    ///
    /// The current owner of the asset, asked of `ledger`, must have
    /// authorized the call; the key must have no account yet and `derived`
    /// must be free; the registry must be bound to an implementation.
    /// Either everything happens (the account is initialized, the entry
    /// is logged, the asset's count goes up by one) or nothing does.
    pub fn create_account<L: AssetLedger>(
        &mut self,
        ledger: &L,
        auth: &Authorization,
        key: &AccountKey,
        derived: Address,
    ) -> (result: Result<Deployment, Error>)
        requires
            old(self).wf(),
        ensures
            final(self).wf(),
            old(self).deployed(final(self), ledger, auth, *key, derived, result),
    {
        let owner = match ledger.owner_of(&key.token_contract, key.token_id) {
            Some(owner) => owner,
            None => {
                return Err(Error::NotFound);
            },
        };
        if !auth.require_auth(&owner) {
            return Err(Error::Authorization);
        }
        if self.get_deployed_address(key).is_some() {
            return Err(Error::DuplicateDeployment);
        }
        let wasm_hash = match self.wasm_hash {
            Some(wasm_hash) => wasm_hash,
            None => {
                return Err(Error::NotInitialized);
            },
        };
        if self.uses_address(&derived) {
            return Err(Error::DuplicateDeployment);
        }
        if self.total_deployed_accounts(&key.token_contract, key.token_id) == u32::MAX {
            return Err(Error::Overflow);
        }
        let mut account = TbaAccount::new();
        let _ = account.initialize(
            key.token_contract,
            key.token_id,
            key.implementation_hash,
            key.salt,
        );
        self.push_entry(DeployedAccount { key: *key, address: derived });
        Ok(Deployment { address: derived, wasm_hash, account })
    }
}

/// What holds of every registry between its calls: the log names no key and
/// no address twice, and no asset has more accounts than its count can show.
pub proof fn lemma_registry_invariants(registry: TbaRegistry)
    requires
        registry.wf(),
    ensures
        log_wf(registry.log()),
        forall|token_contract: Address, token_id: u128|
            #[trigger] count_for(registry.log(), token_contract, token_id) <= u32::MAX,
{
    assert forall|token_contract: Address, token_id: u128| #[trigger]
        count_for(registry.log(), token_contract, token_id) <= u32::MAX by {
        if count_for(registry.log(), token_contract, token_id) > 0 {
            let at = choose|at: int|
                0 <= at < registry.counts@.len() && counts_asset(
                    #[trigger] registry.counts@[at],
                    token_contract,
                    token_id,
                );
            assert(registry.counts@[at].count == count_for(
                registry.log(),
                token_contract,
                token_id,
            ));
        }
    }
}

/// The address announced for a key that has no account yet is the address
/// at which the account is then deployed, and the address that the registry
/// answers with from then on, whatever the platform would derive later.
/// `derived` is the address that the platform derives for the key.
pub proof fn lemma_announced_address_is_deployed<L: AssetLedger>(
    before: TbaRegistry,
    after: TbaRegistry,
    ledger: &L,
    auth: &Authorization,
    key: AccountKey,
    derived: Address,
    result: Result<Deployment, Error>,
)
    requires
        find_account(before.log(), key) is None,
        before.deployed(&after, ledger, auth, key, derived, result),
        result is Ok,
    ensures
        before.account_address(key, derived) == result->Ok_0.address,
        find_account(after.log(), key) == Some(result->Ok_0.address),
        forall|later: Address| #[trigger] after.account_address(key, later) == result->Ok_0.address,
{
    assert(after.log().drop_last() =~= before.log());
}

/// When a deployment is owed: where the key has no account yet, the
/// registry is bound, the asset's current owner has authorized the call,
/// the derived address hosts no account and the asset's count has room, the
/// deployment succeeds, at the address that `get_account` announced for the
/// same derived address.
pub proof fn lemma_owner_deploys_at_announced_address<L: AssetLedger>(
    before: TbaRegistry,
    after: TbaRegistry,
    ledger: &L,
    auth: &Authorization,
    key: AccountKey,
    derived: Address,
    result: Result<Deployment, Error>,
)
    requires
        find_account(before.log(), key) is None,
        before.implementation() is Some,
        ledger.owner(key.token_contract, key.token_id) matches Some(owner) && auth.authorizes(
            owner,
        ),
        !address_used(before.log(), derived),
        count_for(before.log(), key.token_contract, key.token_id) < u32::MAX,
        before.deployed(&after, ledger, auth, key, derived, result),
    ensures
        result matches Ok(deployment) && deployment.address == before.account_address(
            key,
            derived,
        ),
        find_account(after.log(), key) == Some(derived),
        count_for(after.log(), key.token_contract, key.token_id) == count_for(
            before.log(),
            key.token_contract,
            key.token_id,
        ) + 1,
{
    assert(after.log().drop_last() =~= before.log());
}

/// A deployment leaves every recorded key at its recorded address.
pub proof fn lemma_recorded_address_is_kept<L: AssetLedger>(
    before: TbaRegistry,
    after: TbaRegistry,
    ledger: &L,
    auth: &Authorization,
    key: AccountKey,
    derived: Address,
    result: Result<Deployment, Error>,
    recorded: AccountKey,
)
    requires
        find_account(before.log(), recorded) is Some,
        before.deployed(&after, ledger, auth, key, derived, result),
    ensures
        find_account(after.log(), recorded) == find_account(before.log(), recorded),
{
    if result is Ok {
        assert(after.log().drop_last() =~= before.log());
    }
}

/// After the account of a key is deployed, no further deployment for the
/// key succeeds: a call that the current owner has authorized ends with
/// `DuplicateDeployment`, and the call changes nothing, so the count of the
/// asset shows the first deployment alone.
pub proof fn lemma_second_deployment_fails<L: AssetLedger, M: AssetLedger>(
    before: TbaRegistry,
    first: TbaRegistry,
    second: TbaRegistry,
    key: AccountKey,
    ledger: &L,
    auth: &Authorization,
    derived: Address,
    result: Result<Deployment, Error>,
    again_ledger: &M,
    again_auth: &Authorization,
    again_derived: Address,
    again: Result<Deployment, Error>,
)
    requires
        before.deployed(&first, ledger, auth, key, derived, result),
        result is Ok,
        first.deployed(&second, again_ledger, again_auth, key, again_derived, again),
    ensures
        again is Err,
        (again_ledger.owner(key.token_contract, key.token_id) matches Some(owner)
            && again_auth.authorizes(owner)) ==> again == Err::<Deployment, Error>(
            Error::DuplicateDeployment,
        ),
        second == first,
        count_for(second.log(), key.token_contract, key.token_id) == count_for(
            before.log(),
            key.token_contract,
            key.token_id,
        ) + 1,
{
    assert(first.log().drop_last() =~= before.log());
    assert(find_account(first.log(), key) is Some);
}

/// Two keys that differ in nothing but the salt are hashed from different
/// preimages and can both be deployed; their accounts then stand at
/// different addresses, and the count of their asset has gone up by two.
pub proof fn lemma_salts_give_separate_accounts<L: AssetLedger, M: AssetLedger>(
    before: TbaRegistry,
    first: TbaRegistry,
    second: TbaRegistry,
    key_a: AccountKey,
    key_b: AccountKey,
    ledger_a: &L,
    auth_a: &Authorization,
    derived_a: Address,
    result_a: Result<Deployment, Error>,
    ledger_b: &M,
    auth_b: &Authorization,
    derived_b: Address,
    result_b: Result<Deployment, Error>,
)
    requires
        key_a.implementation_hash == key_b.implementation_hash,
        key_a.token_contract == key_b.token_contract,
        key_a.token_id == key_b.token_id,
        key_a.salt != key_b.salt,
        before.deployed(&first, ledger_a, auth_a, key_a, derived_a, result_a),
        result_a is Ok,
        first.deployed(&second, ledger_b, auth_b, key_b, derived_b, result_b),
        result_b is Ok,
    ensures
        salt_preimage(key_a) != salt_preimage(key_b),
        result_a->Ok_0.address != result_b->Ok_0.address,
        find_account(second.log(), key_a) == Some(result_a->Ok_0.address),
        find_account(second.log(), key_b) == Some(result_b->Ok_0.address),
        count_for(second.log(), key_a.token_contract, key_a.token_id) == count_for(
            before.log(),
            key_a.token_contract,
            key_a.token_id,
        ) + 2,
{
    if salt_preimage(key_a) == salt_preimage(key_b) {
        lemma_salt_preimage_injective(key_a, key_b);
    }
    assert(first.log().drop_last() =~= before.log());
    assert(second.log().drop_last() =~= first.log());
    assert(first.log()[first.log().len() - 1].address == derived_a);
    assert(find_account(first.log(), key_a) == Some(derived_a));
}

/// After the account of one key is deployed, the account of a key that
/// differs in nothing but the salt is deployed too, at another address,
/// where the platform derives for it an address other than the first and
/// than every address logged before, the owner has authorized the call and
/// the asset's count has room for both.
pub proof fn lemma_other_salt_deploys<L: AssetLedger, M: AssetLedger>(
    before: TbaRegistry,
    first: TbaRegistry,
    second: TbaRegistry,
    key_a: AccountKey,
    key_b: AccountKey,
    ledger_a: &L,
    auth_a: &Authorization,
    derived_a: Address,
    result_a: Result<Deployment, Error>,
    ledger_b: &M,
    auth_b: &Authorization,
    derived_b: Address,
    result_b: Result<Deployment, Error>,
)
    requires
        key_a.implementation_hash == key_b.implementation_hash,
        key_a.token_contract == key_b.token_contract,
        key_a.token_id == key_b.token_id,
        key_a.salt != key_b.salt,
        find_account(before.log(), key_b) is None,
        before.deployed(&first, ledger_a, auth_a, key_a, derived_a, result_a),
        result_a is Ok,
        ledger_b.owner(key_b.token_contract, key_b.token_id) matches Some(owner)
            && auth_b.authorizes(owner),
        derived_b != derived_a,
        !address_used(before.log(), derived_b),
        count_for(before.log(), key_a.token_contract, key_a.token_id) + 1 < u32::MAX,
        first.deployed(&second, ledger_b, auth_b, key_b, derived_b, result_b),
    ensures
        result_b matches Ok(deployment) && deployment.address == derived_b
            && deployment.address != result_a->Ok_0.address,
        count_for(second.log(), key_a.token_contract, key_a.token_id) == count_for(
            before.log(),
            key_a.token_contract,
            key_a.token_id,
        ) + 2,
{
    assert(first.log().drop_last() =~= before.log());
    assert(first.log().last().address == derived_a);
    assert(!address_used(first.log(), derived_b)) by {
        if address_used(first.log(), derived_b) {
            let i = choose|i: int|
                0 <= i < first.log().len() && (#[trigger] first.log()[i]).address == derived_b;
            if i < before.log().len() {
                assert(before.log()[i].address == derived_b);
            }
        }
    }
    if first.deploy_outcome(ledger_b, auth_b, key_b, derived_b) is Ok {
        assert(second.log().drop_last() =~= first.log());
    }
}

} // verus!
