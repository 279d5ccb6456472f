//! The token-bound account: a proxy that acts for whoever owns the asset it
//! is bound to.
//!
//! The account stores its binding and a nonce, never an owner. Every action
//! asks the asset contract for the current owner and requires that owner's
//! authorization, so handing the asset on hands the account on with it.

use vstd::prelude::*;
use crate::address::{Address, Bytes32};
use crate::auth::{AssetLedger, Authorization};
use crate::deriver::AccountKey;
use crate::error::Error;

verus! {

/// The notification of one relayed call.
#[derive(Debug, Clone, PartialEq, Eq)]
pub struct TransactionExecutedEvent {
    pub to: Address,
    pub func: String,
    pub nonce: u64,
}

/// A call to relay: the target, the name of the function and the arguments,
/// which the account hands on without looking into them.
#[derive(Debug, Clone, PartialEq, Eq)]
pub struct Invocation<A> {
    pub to: Address,
    pub func: String,
    pub args: A,
}

/// What stands behind a relayed call: the notification `event` to emit, and
/// the `call` to forward to its target.
#[derive(Debug, Clone, PartialEq, Eq)]
pub struct Execution<A> {
    pub event: TransactionExecutedEvent,
    pub call: Invocation<A>,
}

/// The state of one account. `binding` is `None` until the account is
/// initialized, and `nonce` counts the relayed calls.
#[derive(Debug, Clone, PartialEq, Eq)]
pub struct TbaAccount {
    binding: Option<AccountKey>,
    nonce: u64,
}

impl TbaAccount {
    /// The asset and code the account is bound to, once it is initialized.
    pub closed spec fn binding(&self) -> Option<AccountKey> {
        self.binding
    }

    /// The number of calls the account has relayed.
    pub closed spec fn count(&self) -> u64 {
        self.nonce
    }

    /// Whether the account is bound to an asset.
    pub open spec fn initialized(&self) -> bool {
        self.binding() is Some
    }

    /// An account relays calls only once it is initialized.
    pub open spec fn wf(&self) -> bool {
        !self.initialized() ==> self.count() == 0
    }

    /// The owner the asset contract `ledger` names for the bound asset.
    pub open spec fn current_owner<L: AssetLedger>(&self, ledger: &L) -> Option<Address> {
        if self.initialized() {
            ledger.owner(self.binding()->Some_0.token_contract, self.binding()->Some_0.token_id)
        } else {
            None
        }
    }

    /// How a call of `execute` is decided: with the nonce of the relayed
    /// call, or with the first of the errors that applies.
    pub open spec fn execute_outcome<L: AssetLedger>(
        &self,
        ledger: &L,
        auth: &Authorization,
    ) -> Result<u64, Error> {
        match self.binding() {
            None => Err(Error::NotInitialized),
            Some(key) => match ledger.owner(key.token_contract, key.token_id) {
                None => Err(Error::NotFound),
                Some(owner) => if !auth.authorizes(owner) {
                    Err(Error::Authorization)
                } else if self.count() == u64::MAX {
                    Err(Error::Overflow)
                } else {
                    Ok((self.count() + 1) as u64)
                },
            },
        }
    }

    /// Whether the account vouches for a call: whether the current owner of
    /// the bound asset has authorized it.
    pub open spec fn check_auth_outcome<L: AssetLedger>(
        &self,
        ledger: &L,
        auth: &Authorization,
    ) -> Result<(), Error> {
        match self.binding() {
            None => Err(Error::NotInitialized),
            Some(key) => match ledger.owner(key.token_contract, key.token_id) {
                None => Err(Error::NotFound),
                Some(owner) => if auth.authorizes(owner) {
                    Ok(())
                } else {
                    Err(Error::Authorization)
                },
            },
        }
    }

    /// Deciding a call of `execute` led from `self` to `after` and gave
    /// `result`: on an error nothing has changed; on success the nonce has
    /// gone up by one, and the result holds the notification of the call
    /// under the new nonce and the call itself, as it was handed in.
    pub open spec fn executed<L: AssetLedger, A>(
        &self,
        after: &TbaAccount,
        ledger: &L,
        auth: &Authorization,
        to: Address,
        func: String,
        args: A,
        result: Result<Execution<A>, Error>,
    ) -> bool {
        match self.execute_outcome(ledger, auth) {
            Err(e) => result == Err::<Execution<A>, Error>(e) && *after == *self,
            Ok(nonce) => {
                &&& after.binding() == self.binding()
                &&& after.count() == nonce
                &&& result matches Ok(execution)
                &&& execution.event.to == to
                &&& execution.event.func@ == func@
                &&& execution.event.nonce == nonce
                &&& execution.call.to == to
                &&& execution.call.func@ == func@
                &&& execution.call.args == args
            },
        }
    }

    /// A fresh account: not initialized, nonce 0.
    pub fn new() -> (account: TbaAccount)
        ensures
            account.wf(),
            !account.initialized(),
            account.count() == 0,
    {
        TbaAccount { binding: None, nonce: 0 }
    }

    /// Puts together an account from its stored parts. There is no
    /// account that has relayed calls before it was initialized.
    pub fn from_parts(binding: Option<AccountKey>, nonce: u64) -> (account: Option<TbaAccount>)
        ensures
            account is Some <==> (binding is Some || nonce == 0),
            account matches Some(a) ==> a.wf() && a.binding() == binding && a.count() == nonce,
    {
        if binding.is_none() && nonce != 0 {
            None
        } else {
            Some(TbaAccount { binding, nonce })
        }
    }

    /// The stored binding, for the caller that persists the account.
    pub fn stored_binding(&self) -> (binding: Option<AccountKey>)
        ensures
            binding == self.binding(),
    {
        self.binding
    }

    /// Binds the account to an asset. Allowed once.
    pub fn initialize(
        &mut self,
        token_contract: Address,
        token_id: u128,
        implementation_hash: Bytes32,
        salt: Bytes32,
    ) -> (result: Result<(), Error>)
        requires
            old(self).wf(),
        ensures
            final(self).wf(),
            old(self).initialized() ==> result == Err::<(), Error>(Error::AlreadyInitialized)
                && *final(self) == *old(self),
            !old(self).initialized() ==> result is Ok && final(self).binding() == Some(
                (AccountKey { implementation_hash, token_contract, token_id, salt }),
            ) && final(self).count() == old(self).count(),
    {
        if self.binding.is_some() {
            return Err(Error::AlreadyInitialized);
        }
        self.binding = Some(AccountKey { implementation_hash, token_contract, token_id, salt });
        Ok(())
    }

    /// The contract of the bound asset.
    pub fn token_contract(&self) -> (result: Result<Address, Error>)
        ensures
            result == match self.binding() {
                Some(key) => Ok::<Address, Error>(key.token_contract),
                None => Err(Error::NotInitialized),
            },
    {
        match &self.binding {
            Some(key) => Ok(key.token_contract),
            None => Err(Error::NotInitialized),
        }
    }

    /// The id of the bound asset.
    pub fn token_id(&self) -> (result: Result<u128, Error>)
        ensures
            result == match self.binding() {
                Some(key) => Ok::<u128, Error>(key.token_id),
                None => Err(Error::NotInitialized),
            },
    {
        match &self.binding {
            Some(key) => Ok(key.token_id),
            None => Err(Error::NotInitialized),
        }
    }

    /// The current owner of the bound asset, asked of `ledger` now.
    pub fn owner<L: AssetLedger>(&self, ledger: &L) -> (result: Result<Address, Error>)
        ensures
            result == match self.binding() {
                None => Err::<Address, Error>(Error::NotInitialized),
                Some(key) => match ledger.owner(key.token_contract, key.token_id) {
                    None => Err(Error::NotFound),
                    Some(owner) => Ok(owner),
                },
            },
    {
        match &self.binding {
            None => Err(Error::NotInitialized),
            Some(key) => match ledger.owner_of(&key.token_contract, key.token_id) {
                None => Err(Error::NotFound),
                Some(owner) => Ok(owner),
            },
        }
    }

    /// The bound asset as a triple: a placeholder for the network, which
    /// is always 0, the asset contract and the asset id.
    pub fn token(&self) -> (result: Result<(u32, Address, u128), Error>)
        ensures
            result == match self.binding() {
                Some(key) => Ok::<(u32, Address, u128), Error>(
                    (0u32, key.token_contract, key.token_id),
                ),
                None => Err(Error::NotInitialized),
            },
    {
        match &self.binding {
            Some(key) => Ok((0u32, key.token_contract, key.token_id)),
            None => Err(Error::NotInitialized),
        }
    }

    /// The number of calls relayed so far.
    pub fn nonce(&self) -> (nonce: u64)
        ensures
            nonce == self.count(),
    {
        self.nonce
    }

    /// Decides a call of `execute`: checks that the current owner of the
    /// bound asset has authorized it and spends a nonce on it.
    ///
    /// The owner is asked of `ledger` on every call and must be among the
    /// addresses that authorized this one. On success the nonce goes up by
    /// exactly one and the result holds the notification and the call, both
    /// as they were handed in. On an error the account is left as it was.
    pub fn record_execution<L: AssetLedger, A>(
        &mut self,
        ledger: &L,
        auth: &Authorization,
        to: Address,
        func: String,
        args: A,
    ) -> (result: Result<Execution<A>, Error>)
        requires
            old(self).wf(),
        ensures
            final(self).wf(),
            old(self).executed(final(self), ledger, auth, to, func, args, result),
    {
        let owner = match self.owner(ledger) {
            Ok(owner) => owner,
            Err(e) => {
                return Err(e);
            },
        };
        if !auth.require_auth(&owner) {
            return Err(Error::Authorization);
        }
        if self.nonce == u64::MAX {
            return Err(Error::Overflow);
        }
        self.nonce = self.nonce + 1;
        let event = TransactionExecutedEvent { to, func: func.clone(), nonce: self.nonce };
        Ok(Execution { event, call: Invocation { to, func, args } })
    }

    /// Relays a call for the current owner of the bound asset and hands
    /// back what the target returns.
    ///
    /// The call is decided as `record_execution` decides it. Where that
    /// succeeds, `forward` is handed the notification to emit and the call
    /// to make, and what it returns is returned as it is. The nonce is
    /// spent before `forward` runs, whatever `forward` then returns: a call
    /// that fails at its target has still used up its nonce.
    pub fn execute<L: AssetLedger, A, R, F: FnOnce(Execution<A>) -> R>(
        &mut self,
        ledger: &L,
        auth: &Authorization,
        to: Address,
        func: String,
        args: A,
        forward: F,
    ) -> (result: Result<R, Error>)
        requires
            old(self).wf(),
            forall|execution: Execution<A>| call_requires(forward, (execution,)),
        ensures
            final(self).wf(),
            match old(self).execute_outcome(ledger, auth) {
                Err(e) => result == Err::<R, Error>(e) && *final(self) == *old(self),
                Ok(nonce) => exists|execution: Execution<A>|
                    {
                        &&& #[trigger] old(self).executed(
                            final(self),
                            ledger,
                            auth,
                            to,
                            func,
                            args,
                            Ok(execution),
                        )
                        &&& result matches Ok(returned)
                        &&& call_ensures(forward, (execution,), returned)
                    },
            },
    {
        let ghost before = *self;
        match self.record_execution(ledger, auth, to, func, args) {
            Err(e) => Err(e),
            Ok(execution) => {
                assert(before.executed(self, ledger, auth, to, func, args, Ok(execution)));
                Ok(forward(execution))
            },
        }
    }

    /// The account as a signer: accepts a call exactly when the current
    /// owner of the bound asset has authorized it. The account has no
    /// authority of its own.
    pub fn check_auth<L: AssetLedger>(&self, ledger: &L, auth: &Authorization) -> (result: Result<
        (),
        Error,
    >)
        ensures
            result == self.check_auth_outcome(ledger, auth),
    {
        let owner = match self.owner(ledger) {
            Ok(owner) => owner,
            Err(e) => {
                return Err(e);
            },
        };
        if auth.require_auth(&owner) {
            Ok(())
        } else {
            Err(Error::Authorization)
        }
    }
}

/// Every successful `execute` moves the nonce up by exactly one and reports
/// the new nonce; every failed one leaves it where it was. So the nonce,
/// which starts at 0, counts the successful calls: it never goes down and
/// skips no number.
pub proof fn lemma_nonce_counts_executions<L: AssetLedger, A>(
    before: TbaAccount,
    after: TbaAccount,
    ledger: &L,
    auth: &Authorization,
    to: Address,
    func: String,
    args: A,
    result: Result<Execution<A>, Error>,
)
    requires
        before.executed(&after, ledger, auth, to, func, args, result),
    ensures
        result is Ok ==> after.count() == before.count() + 1 && result->Ok_0.event.nonce
            == after.count(),
        result is Err ==> after.count() == before.count(),
        after.count() >= before.count(),
{
}

/// A call of `execute` that only `caller` has authorized, on an initialized
/// account whose asset is owned by someone else, fails with `Authorization`
/// and leaves the account, and with it the nonce, as it was.
pub proof fn lemma_non_owner_is_refused<L: AssetLedger, A>(
    before: TbaAccount,
    after: TbaAccount,
    ledger: &L,
    auth: &Authorization,
    caller: Address,
    to: Address,
    func: String,
    args: A,
    result: Result<Execution<A>, Error>,
)
    requires
        before.current_owner(ledger) matches Some(owner) && owner != caller,
        auth.signers@ == seq![caller],
        before.executed(&after, ledger, auth, to, func, args, result),
    ensures
        result == Err::<Execution<A>, Error>(Error::Authorization),
        after == before,
        after.count() == before.count(),
{
    let owner = before.current_owner(ledger)->Some_0;
    if auth.authorizes(owner) {
        let i = choose|i: int| 0 <= i < auth.signers@.len() && auth.signers@[i] == owner;
        assert(auth.signers@[0] == caller);
    }
}

} // verus!
