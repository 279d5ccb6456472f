//! Who stands behind a call, and who owns an asset.
//!
//! Neither is stored by an account or by the registry. The host verifies the
//! authorization proofs that come with a call and hands over the addresses
//! they are from; the asset contract is asked for the owner whenever an
//! owner is needed.

use vstd::prelude::*;
use crate::address::Address;

verus! {

/// The addresses whose authorization proofs for the current call the host
/// has verified.
#[derive(Clone, Debug, PartialEq, Eq)]
pub struct Authorization {
    pub signers: Vec<Address>,
}

impl Authorization {
    /// Whether `who` has authorized the call.
    pub open spec fn authorizes(&self, who: Address) -> bool {
        self.signers@.contains(who)
    }

    /// A call that nobody has authorized.
    pub fn none() -> (auth: Authorization)
        ensures
            auth.signers@ == Seq::<Address>::empty(),
            forall|who: Address| !auth.authorizes(who),
    {
        Authorization { signers: Vec::new() }
    }

    /// A call authorized by `signer` alone.
    pub fn signed_by(signer: Address) -> (auth: Authorization)
        ensures
            auth.signers@ == seq![signer],
            forall|who: Address| auth.authorizes(who) <==> who == signer,
    {
        let mut signers = Vec::new();
        signers.push(signer);
        let auth = Authorization { signers };
        assert(auth.signers@ =~= seq![signer]);
        assert(auth.signers@[0] == signer);
        auth
    }

    /// Adds the proof of one more address.
    pub fn and(self, signer: Address) -> (auth: Authorization)
        ensures
            auth.signers@ == self.signers@.push(signer),
            forall|who: Address| auth.authorizes(who) <==> self.authorizes(who) || who == signer,
    {
        let mut signers = self.signers;
        signers.push(signer);
        let auth = Authorization { signers };
        assert forall|who: Address| auth.authorizes(who) <==> self.authorizes(who) || who
            == signer by {
            if self.authorizes(who) {
                let i = choose|i: int| 0 <= i < self.signers@.len() && self.signers@[i] == who;
                assert(auth.signers@[i] == who);
            }
            if who == signer {
                assert(auth.signers@[self.signers@.len() as int] == who);
            }
        }
        auth
    }

    /// Whether `who` has authorized the call.
    pub fn require_auth(&self, who: &Address) -> (authorized: bool)
        ensures
            authorized == self.authorizes(*who),
    {
        let mut i: usize = 0;
        while i < self.signers.len()
            invariant
                i <= self.signers.len(),
                forall|j: int| 0 <= j < i ==> self.signers@[j] != *who,
            decreases self.signers.len() - i,
        {
            if self.signers[i].same(who) {
                return true;
            }
            i = i + 1;
        }
        false
    }
}

/// The ownership query that every asset contract must answer: the current
/// owner of each of its assets. An implementation stands for the contracts
/// that can be asked; a contract that is not among them, or an asset that
/// does not exist, has no owner.
pub trait AssetLedger {
    /// The owner of the asset `token_id` of the contract `token_contract`.
    spec fn owner(&self, token_contract: Address, token_id: u128) -> Option<Address>;

    /// Asks the contract `token_contract` for the current owner of its
    /// asset `token_id`.
    fn owner_of(&self, token_contract: &Address, token_id: u128) -> (owner: Option<Address>)
        ensures
            owner == self.owner(*token_contract, token_id),
    ;
}

} // verus!
