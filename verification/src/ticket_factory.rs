//! The ticket factory: deploys one ticket ledger per event and keeps the
//! list of the ledgers it has deployed.

use vstd::prelude::*;
use crate::address::{Address, Bytes32};
use crate::auth::Authorization;
use crate::error::Error;
use crate::ticket_nft::TicketNft;

verus! {

/// What a successful `deploy_ticket` hands back: the address of the new
/// ledger, the code to install there, and the ledger itself, without
/// tickets and with the minter it was deployed for.
#[derive(Clone, Debug, PartialEq, Eq)]
pub struct TicketDeployment {
    pub address: Address,
    pub wasm_hash: Bytes32,
    pub ledger: TicketNft,
}

/// Whether `address` stands in `contracts`.
pub open spec fn is_deployed(contracts: Seq<Address>, address: Address) -> bool {
    exists|i: int| 0 <= i < contracts.len() && #[trigger] contracts[i] == address
}

/// The list is no longer than the counter can show, and no address occurs
/// twice in it.
pub open spec fn contracts_wf(contracts: Seq<Address>) -> bool {
    &&& contracts.len() <= u32::MAX
    &&& forall|i: int, j: int|
        0 <= i < j < contracts.len() ==> #[trigger] contracts[i] != #[trigger] contracts[j]
}

/// The factory's state: who it is, who may deploy, the code of the ledgers,
/// and the addresses of the ledgers deployed so far. The ledger of the
/// event `n`, counted from 1, stands at place `n - 1`.
#[derive(Clone, Debug, PartialEq, Eq)]
pub struct TicketFactory {
    address: Address,
    admin: Address,
    ticket_wasm_hash: Bytes32,
    contracts: Vec<Address>,
}

impl TicketFactory {
    /// The factory's own address, under which it deploys.
    pub closed spec fn deployer(&self) -> Address {
        self.address
    }

    /// The address that may deploy.
    pub closed spec fn admin(&self) -> Address {
        self.admin
    }

    /// The code of the ledgers that the factory deploys.
    pub closed spec fn wasm_hash(&self) -> Bytes32 {
        self.ticket_wasm_hash
    }

    /// The addresses of the deployed ledgers, oldest first.
    pub closed spec fn contracts(&self) -> Seq<Address> {
        self.contracts@
    }

    /// The count of the ledgers fits the counter, and no address occurs
    /// twice.
    pub closed spec fn wf(&self) -> bool {
        contracts_wf(self.contracts@)
    }

    /// How a deployment at `derived` ends: the first of the errors that
    /// applies, or success.
    pub open spec fn deploy_outcome(&self, auth: &Authorization, derived: Address) -> Result<
        (),
        Error,
    > {
        if !auth.authorizes(self.admin()) {
            Err(Error::Authorization)
        } else if is_deployed(self.contracts(), derived) {
            Err(Error::DuplicateDeployment)
        } else if self.contracts().len() >= u32::MAX {
            Err(Error::Overflow)
        } else {
            Ok(())
        }
    }

    /// A deployment of a ledger for `minter` at `derived` led from `self`
    /// to `after` and returned `result`: on an error nothing has changed;
    /// on success the new address stands last in the list.
    pub open spec fn deployed(
        &self,
        after: &TicketFactory,
        auth: &Authorization,
        minter: Address,
        derived: Address,
        result: Result<TicketDeployment, Error>,
    ) -> bool {
        match self.deploy_outcome(auth, derived) {
            Err(e) => result == Err::<TicketDeployment, Error>(e) && *after == *self,
            Ok(()) => {
                &&& after.deployer() == self.deployer()
                &&& after.admin() == self.admin()
                &&& after.wasm_hash() == self.wasm_hash()
                &&& after.contracts() == self.contracts().push(derived)
                &&& result matches Ok(deployment)
                &&& deployment.address == derived
                &&& deployment.wasm_hash == self.wasm_hash()
                &&& deployment.ledger.wf()
                &&& deployment.ledger.contract() == derived
                &&& deployment.ledger.minter() == minter
                &&& deployment.ledger.next_id() == 1
                &&& deployment.ledger.owners() == Map::<u128, Address>::empty()
            },
        }
    }

    /// A factory at `address` that has deployed nothing, deploys ledgers
    /// with the code `ticket_wasm_hash`, and takes orders from `admin`.
    pub fn new(address: Address, admin: Address, ticket_wasm_hash: Bytes32) -> (factory: TicketFactory)
        ensures
            factory.wf(),
            factory.deployer() == address,
            factory.admin() == admin,
            factory.wasm_hash() == ticket_wasm_hash,
            factory.contracts() == Seq::<Address>::empty(),
    {
        TicketFactory { address, admin, ticket_wasm_hash, contracts: Vec::new() }
    }

    /// Puts a factory together from its stored parts. There is no factory
    /// whose list is longer than its counter can show or names an address
    /// twice.
    pub fn restore(address: Address, admin: Address, ticket_wasm_hash: Bytes32, contracts: Vec<Address>) -> (restored:
        Option<TicketFactory>)
        ensures
            restored is Some <==> contracts_wf(contracts@),
            restored matches Some(factory) ==> {
                &&& factory.wf()
                &&& factory.deployer() == address
                &&& factory.admin() == admin
                &&& factory.wasm_hash() == ticket_wasm_hash
                &&& factory.contracts() == contracts@
            },
    {
        if contracts.len() > u32::MAX as usize {
            return None;
        }
        let mut j: usize = 0;
        while j < contracts.len()
            invariant
                j <= contracts.len(),
                forall|a: int, b: int|
                    0 <= a < b < j ==> #[trigger] contracts@[a] != #[trigger] contracts@[b],
            decreases contracts.len() - j,
        {
            let mut i: usize = 0;
            while i < j
                invariant
                    i <= j < contracts.len(),
                    forall|a: int| 0 <= a < i ==> #[trigger] contracts@[a] != contracts@[j as int],
                decreases j - i,
            {
                if contracts[i].same(&contracts[j]) {
                    return None;
                }
                i = i + 1;
            }
            j = j + 1;
        }
        Some(TicketFactory { address, admin, ticket_wasm_hash, contracts })
    }

    /// The addresses of the deployed ledgers, for the caller that stores
    /// the factory.
    pub fn ticket_contracts(&self) -> (contracts: &Vec<Address>)
        ensures
            contracts@ == self.contracts(),
    {
        &self.contracts
    }

    /// The code of the ledgers that the factory deploys.
    pub fn ticket_wasm_hash(&self) -> (wasm_hash: Bytes32)
        ensures
            wasm_hash == self.wasm_hash(),
    {
        self.ticket_wasm_hash
    }

    /// The factory's own address.
    pub fn address(&self) -> (address: Address)
        ensures
            address == self.deployer(),
    {
        self.address
    }

    /// The address that may deploy.
    pub fn get_admin(&self) -> (admin: Address)
        ensures
            admin == self.admin(),
    {
        self.admin
    }

    /// The number of ledgers deployed.
    pub fn get_total_tickets(&self) -> (total: u32)
        requires
            self.wf(),
        ensures
            total == self.contracts().len(),
    {
        self.contracts.len() as u32
    }

    /// The ledger of the event `event_id`, counted from 1, if there is one.
    pub fn get_ticket_contract(&self, event_id: u32) -> (contract: Option<Address>)
        ensures
            contract == if 1 <= event_id <= self.contracts().len() {
                Some(self.contracts()[event_id - 1])
            } else {
                None
            },
    {
        if event_id >= 1 && (event_id as usize) <= self.contracts.len() {
            Some(self.contracts[(event_id - 1) as usize])
        } else {
            None
        }
    }

    /// Whether a ledger is recorded at `address`.
    fn has_contract(&self, address: &Address) -> (found: bool)
        ensures
            found == is_deployed(self.contracts@, *address),
    {
        let mut i: usize = 0;
        while i < self.contracts.len()
            invariant
                i <= self.contracts.len(),
                forall|j: int| 0 <= j < i ==> #[trigger] self.contracts@[j] != *address,
            decreases self.contracts.len() - i,
        {
            if self.contracts[i].same(address) {
                return true;
            }
            i = i + 1;
        }
        false
    }

    /// Deploys a ledger for `minter` at `derived`, the address that the
    /// platform derives for the factory's own address and the salt of the
    /// deployment. The admin must have authorized the call, and `derived`
    /// must be free. Either the address is recorded and the new ledger
    /// handed back, or nothing changes.
    pub fn deploy_ticket(&mut self, auth: &Authorization, minter: Address, derived: Address) -> (result:
        Result<TicketDeployment, Error>)
        requires
            old(self).wf(),
        ensures
            final(self).wf(),
            old(self).deployed(final(self), auth, minter, derived, result),
    {
        if !auth.require_auth(&self.admin) {
            return Err(Error::Authorization);
        }
        if self.has_contract(&derived) {
            return Err(Error::DuplicateDeployment);
        }
        if self.contracts.len() >= u32::MAX as usize {
            return Err(Error::Overflow);
        }
        let ledger = TicketNft::new(derived, minter);
        self.contracts.push(derived);
        Ok(TicketDeployment { address: derived, wasm_hash: self.ticket_wasm_hash, ledger })
    }
}

} // verus!
