//! A minimal ledger of event tickets: non-fungible assets of which every
//! address holds at most one.
//!
//! The ledger answers the ownership query that token-bound accounts rest on.

use vstd::prelude::*;
use crate::address::Address;
use crate::auth::{AssetLedger, Authorization};

verus! {

/// Why a call of the ledger failed. The ledger is then left as it was.
#[derive(Copy, Clone, Debug, PartialEq, Eq, Structural)]
pub enum TicketError {
    /// The address whose authorization the call needs has not given it.
    Unauthorized,
    /// The recipient holds a ticket already.
    AlreadyHasTicket,
    /// No ticket has this id: it was never minted, or it was burned.
    InvalidToken,
    /// The ticket belongs to someone else.
    NotOwner,
    /// The ids are used up.
    Overflow,
}

/// One ticket and the address that holds it.
#[derive(Copy, Clone, Debug, PartialEq, Eq)]
pub struct Ticket {
    pub token_id: u128,
    pub owner: Address,
}

/// Whether a ticket of `tickets` has the id `token_id`.
pub open spec fn has_token(tickets: Seq<Ticket>, token_id: u128) -> bool {
    exists|i: int| 0 <= i < tickets.len() && (#[trigger] tickets[i]).token_id == token_id
}

/// Whether `who` holds a ticket of `tickets`.
pub open spec fn has_holder(tickets: Seq<Ticket>, who: Address) -> bool {
    exists|i: int| 0 <= i < tickets.len() && (#[trigger] tickets[i]).owner == who
}

/// The owner of the first ticket of `tickets` with the id `token_id`.
pub open spec fn owner_in(tickets: Seq<Ticket>, token_id: u128) -> Option<Address>
    decreases tickets.len(),
{
    if tickets.len() == 0 {
        None
    } else {
        match owner_in(tickets.drop_last(), token_id) {
            Some(owner) => Some(owner),
            None => if tickets.last().token_id == token_id {
                Some(tickets.last().owner)
            } else {
                None
            },
        }
    }
}

/// The tickets as a map from the id to the owner.
pub open spec fn owners_of(tickets: Seq<Ticket>) -> Map<u128, Address> {
    Map::new(
        |token_id: u128| owner_in(tickets, token_id) is Some,
        |token_id: u128| owner_in(tickets, token_id)->Some_0,
    )
}

/// No id and no owner occurs twice, and every id is below `next_token_id`.
pub open spec fn tickets_wf(tickets: Seq<Ticket>, next_token_id: u128) -> bool {
    &&& next_token_id >= 1
    &&& forall|i: int| 0 <= i < tickets.len() ==> (#[trigger] tickets[i]).token_id < next_token_id
    &&& forall|i: int, j: int|
        0 <= i < j < tickets.len() ==> (#[trigger] tickets[i]).token_id != (
        #[trigger] tickets[j]).token_id && tickets[i].owner != tickets[j].owner
}

/// A list has an owner for exactly the ids of its tickets, and the owner it
/// has for an id is the owner of a ticket with that id.
pub proof fn lemma_owner_in(tickets: Seq<Ticket>, token_id: u128)
    ensures
        owner_in(tickets, token_id) is Some <==> has_token(tickets, token_id),
        owner_in(tickets, token_id) matches Some(owner) ==> exists|i: int|
            0 <= i < tickets.len() && (#[trigger] tickets[i]).token_id == token_id
                && tickets[i].owner == owner,
    decreases tickets.len(),
{
    if tickets.len() > 0 {
        let rest = tickets.drop_last();
        lemma_owner_in(rest, token_id);
        if owner_in(rest, token_id) is Some {
            let owner = owner_in(rest, token_id)->Some_0;
            let i = choose|i: int|
                0 <= i < rest.len() && (#[trigger] rest[i]).token_id == token_id && rest[i].owner
                    == owner;
            assert(tickets[i] == rest[i]);
        } else if tickets.last().token_id == token_id {
            assert(tickets[tickets.len() - 1].token_id == token_id);
        } else {
            if has_token(tickets, token_id) {
                let i = choose|i: int|
                    0 <= i < tickets.len() && (#[trigger] tickets[i]).token_id == token_id;
                assert(rest[i] == tickets[i]);
            }
        }
    }
}

/// The first ticket with an id is the one whose owner the list has for it.
pub proof fn lemma_first_match(tickets: Seq<Ticket>, i: int)
    requires
        0 <= i < tickets.len(),
        forall|j: int| 0 <= j < i ==> (#[trigger] tickets[j]).token_id != tickets[i].token_id,
    ensures
        owner_in(tickets, tickets[i].token_id) == Some(tickets[i].owner),
    decreases tickets.len(),
{
    let rest = tickets.drop_last();
    let token_id = tickets[i].token_id;
    if i == tickets.len() - 1 {
        lemma_owner_in(rest, token_id);
        if has_token(rest, token_id) {
            let j = choose|j: int| 0 <= j < rest.len() && (#[trigger] rest[j]).token_id == token_id;
            assert(tickets[j] == rest[j]);
        }
    } else {
        assert(rest[i] == tickets[i]);
        assert forall|j: int| 0 <= j < i implies (#[trigger] rest[j]).token_id
            != rest[i].token_id by {
            assert(rest[j] == tickets[j]);
        }
        lemma_first_match(rest, i);
    }
}

/// The map holds exactly the ids of the tickets.
pub proof fn lemma_owners_dom(tickets: Seq<Ticket>)
    ensures
        forall|token_id: u128|
            owners_of(tickets).dom().contains(token_id) <==> has_token(tickets, token_id),
{
    assert forall|token_id: u128|
        owners_of(tickets).dom().contains(token_id) <==> has_token(tickets, token_id) by {
        lemma_owner_in(tickets, token_id);
    }
}

/// In a list without repetition, each ticket is what the map holds for its
/// id.
pub proof fn lemma_owner_of_entry(tickets: Seq<Ticket>, next_token_id: u128, i: int)
    requires
        tickets_wf(tickets, next_token_id),
        0 <= i < tickets.len(),
    ensures
        owner_in(tickets, tickets[i].token_id) == Some(tickets[i].owner),
        owners_of(tickets).dom().contains(tickets[i].token_id),
        owners_of(tickets)[tickets[i].token_id] == tickets[i].owner,
{
    lemma_owner_in(tickets, tickets[i].token_id);
}

/// The ledger: its own address, the address that may mint, the next id to
/// give out, and the tickets that exist.
#[derive(Debug, Clone, PartialEq, Eq)]
pub struct TicketNft {
    address: Address,
    minter: Address,
    next_token_id: u128,
    tickets: Vec<Ticket>,
}

impl TicketNft {
    /// No id and no owner occurs twice among the tickets, and the next id
    /// is above all of theirs.
    pub closed spec fn wf(&self) -> bool {
        tickets_wf(self.tickets@, self.next_token_id)
    }

    /// The address of the ledger's contract.
    pub closed spec fn contract(&self) -> Address {
        self.address
    }

    /// The address that may mint.
    pub closed spec fn minter(&self) -> Address {
        self.minter
    }

    /// The id that the next ticket gets.
    pub closed spec fn next_id(&self) -> u128 {
        self.next_token_id
    }

    /// The tickets that exist, by id, each with its owner.
    pub closed spec fn owners(&self) -> Map<u128, Address> {
        owners_of(self.tickets@)
    }

    /// Whether `who` holds a ticket.
    pub closed spec fn holds(&self, who: Address) -> bool {
        has_holder(self.tickets@, who)
    }

    /// How a call of `mint_ticket_nft` ends.
    pub open spec fn mint_outcome(&self, auth: &Authorization, recipient: Address) -> Result<
        u128,
        TicketError,
    > {
        if !auth.authorizes(self.minter()) {
            Err(TicketError::Unauthorized)
        } else if self.holds(recipient) {
            Err(TicketError::AlreadyHasTicket)
        } else if self.next_id() == u128::MAX {
            Err(TicketError::Overflow)
        } else {
            Ok(self.next_id())
        }
    }

    /// How a call of `transfer_from` ends.
    pub open spec fn transfer_outcome(
        &self,
        auth: &Authorization,
        from: Address,
        to: Address,
        token_id: u128,
    ) -> Result<(), TicketError> {
        if !auth.authorizes(from) {
            Err(TicketError::Unauthorized)
        } else if !self.owners().dom().contains(token_id) {
            Err(TicketError::InvalidToken)
        } else if self.owners()[token_id] != from {
            Err(TicketError::NotOwner)
        } else if self.holds(to) {
            Err(TicketError::AlreadyHasTicket)
        } else {
            Ok(())
        }
    }

    /// How a call of `burn` ends.
    pub open spec fn burn_outcome(&self, auth: &Authorization, token_id: u128) -> Result<
        (),
        TicketError,
    > {
        if !self.owners().dom().contains(token_id) {
            Err(TicketError::InvalidToken)
        } else if !auth.authorizes(self.owners()[token_id]) {
            Err(TicketError::Unauthorized)
        } else {
            Ok(())
        }
    }

    /// A ledger at `address` without tickets, whose first ticket will have
    /// the id 1 and which `minter` may mint from.
    pub fn new(address: Address, minter: Address) -> (ledger: TicketNft)
        ensures
            ledger.wf(),
            ledger.contract() == address,
            ledger.minter() == minter,
            ledger.next_id() == 1,
            ledger.owners() == Map::<u128, Address>::empty(),
            forall|who: Address| !ledger.holds(who),
    {
        let ledger = TicketNft { address, minter, next_token_id: 1, tickets: Vec::new() };
        assert(ledger.owners() =~= Map::<u128, Address>::empty());
        ledger
    }

    /// Puts a ledger together from its stored parts. There is no ledger in
    /// which an id or an owner occurs twice, or an id is not below the next
    /// id.
    pub fn restore(address: Address, minter: Address, next_token_id: u128, tickets: Vec<Ticket>) -> (restored:
        Option<TicketNft>)
        ensures
            restored is Some <==> tickets_wf(tickets@, next_token_id),
            restored matches Some(ledger) ==> {
                &&& ledger.wf()
                &&& ledger.contract() == address
                &&& ledger.minter() == minter
                &&& ledger.next_id() == next_token_id
                &&& ledger.owners() == owners_of(tickets@)
                &&& forall|who: Address| ledger.holds(who) <==> has_holder(tickets@, who)
            },
    {
        if next_token_id < 1 {
            return None;
        }
        let mut j: usize = 0;
        while j < tickets.len()
            invariant
                j <= tickets.len(),
                next_token_id >= 1,
                forall|k: int| 0 <= k < j ==> (#[trigger] tickets@[k]).token_id < next_token_id,
                forall|a: int, b: int|
                    0 <= a < b < j ==> (#[trigger] tickets@[a]).token_id != (
                    #[trigger] tickets@[b]).token_id && tickets@[a].owner != tickets@[b].owner,
            decreases tickets.len() - j,
        {
            if tickets[j].token_id >= next_token_id {
                return None;
            }
            let mut i: usize = 0;
            while i < j
                invariant
                    i <= j < tickets.len(),
                    forall|a: int|
                        0 <= a < i ==> (#[trigger] tickets@[a]).token_id != tickets@[j as int].token_id
                            && tickets@[a].owner != tickets@[j as int].owner,
                decreases j - i,
            {
                if tickets[i].token_id == tickets[j].token_id || tickets[i].owner.same(
                    &tickets[j].owner,
                ) {
                    return None;
                }
                i = i + 1;
            }
            j = j + 1;
        }
        Some(TicketNft { address, minter, next_token_id, tickets })
    }

    /// The tickets that exist, for the caller that stores the ledger.
    pub fn tickets(&self) -> (tickets: &Vec<Ticket>)
        ensures
            owners_of(tickets@) == self.owners(),
            forall|who: Address| has_holder(tickets@, who) <==> self.holds(who),
            self.wf() ==> tickets_wf(tickets@, self.next_id()),
    {
        &self.tickets
    }

    /// The id that the next ticket gets.
    pub fn next_token_id(&self) -> (next: u128)
        ensures
            next == self.next_id(),
    {
        self.next_token_id
    }

    /// The place of the ticket `token_id` in the list, if it exists.
    fn index_of(&self, token_id: u128) -> (found: Option<usize>)
        ensures
            match found {
                Some(i) => i < self.tickets@.len() && self.tickets@[i as int].token_id == token_id
                    && forall|j: int|
                    0 <= j < i ==> (#[trigger] self.tickets@[j]).token_id != token_id,
                None => !has_token(self.tickets@, token_id),
            },
    {
        let mut i: usize = 0;
        while i < self.tickets.len()
            invariant
                i <= self.tickets.len(),
                forall|j: int| 0 <= j < i ==> (#[trigger] self.tickets@[j]).token_id != token_id,
            decreases self.tickets.len() - i,
        {
            if self.tickets[i].token_id == token_id {
                return Some(i);
            }
            i = i + 1;
        }
        None
    }

    /// The owner of the ticket `token_id`, if the ticket exists.
    pub fn owner_of(&self, token_id: u128) -> (owner: Option<Address>)
        ensures
            owner == self.owners().get(token_id),
    {
        proof {
            lemma_owner_in(self.tickets@, token_id);
        }
        match self.index_of(token_id) {
            Some(i) => {
                proof {
                    lemma_first_match(self.tickets@, i as int);
                }
                Some(self.tickets[i].owner)
            },
            None => None,
        }
    }

    /// Whether the ticket `token_id` exists: it was minted and not burned.
    pub fn is_valid(&self, token_id: u128) -> (valid: bool)
        ensures
            valid == self.owners().dom().contains(token_id),
    {
        proof {
            lemma_owner_in(self.tickets@, token_id);
        }
        self.index_of(token_id).is_some()
    }

    /// The number of tickets that `owner` holds: one or none.
    pub fn balance_of(&self, owner: &Address) -> (balance: u128)
        ensures
            balance == if self.holds(*owner) {
                1u128
            } else {
                0u128
            },
    {
        let mut i: usize = 0;
        while i < self.tickets.len()
            invariant
                i <= self.tickets.len(),
                forall|j: int| 0 <= j < i ==> (#[trigger] self.tickets@[j]).owner != *owner,
            decreases self.tickets.len() - i,
        {
            if self.tickets[i].owner.same(owner) {
                return 1;
            }
            i = i + 1;
        }
        0
    }

    /// The address that may mint.
    pub fn get_minter(&self) -> (minter: Address)
        ensures
            minter == self.minter(),
    {
        self.minter
    }

    /// The address of the ledger's contract.
    pub fn address(&self) -> (address: Address)
        ensures
            address == self.contract(),
    {
        self.address
    }

    /// Mints a ticket to `recipient` and returns its id. The minter must
    /// have authorized the call, and the recipient must hold no ticket.
    pub fn mint_ticket_nft(&mut self, auth: &Authorization, recipient: Address) -> (result: Result<
        u128,
        TicketError,
    >)
        requires
            old(self).wf(),
        ensures
            final(self).wf(),
            final(self).contract() == old(self).contract(),
            final(self).minter() == old(self).minter(),
            result == old(self).mint_outcome(auth, recipient),
            result is Err ==> *final(self) == *old(self),
            result matches Ok(token_id) ==> {
                &&& final(self).next_id() == token_id + 1
                &&& final(self).owners() == old(self).owners().insert(token_id, recipient)
                &&& !old(self).owners().dom().contains(token_id)
                &&& forall|who: Address|
                    final(self).holds(who) <==> old(self).holds(who) || who == recipient
            },
    {
        proof {
            lemma_owners_dom(self.tickets@);
        }
        if !auth.require_auth(&self.minter) {
            return Err(TicketError::Unauthorized);
        }
        if self.balance_of(&recipient) > 0 {
            return Err(TicketError::AlreadyHasTicket);
        }
        if self.next_token_id == u128::MAX {
            return Err(TicketError::Overflow);
        }
        let token_id = self.next_token_id;
        let ghost before = self.tickets@;
        let ticket = Ticket { token_id, owner: recipient };
        self.next_token_id = token_id + 1;
        self.tickets.push(ticket);
        proof {
            let after = self.tickets@;
            assert(after[before.len() as int] == ticket);
            assert forall|i: int| 0 <= i < before.len() implies after[i] == before[i] by {}
            assert forall|id: u128| has_token(after, id) <==> has_token(before, id) || id
                == token_id by {
                if has_token(before, id) {
                    let i = choose|i: int|
                        0 <= i < before.len() && (#[trigger] before[i]).token_id == id;
                    assert(after[i].token_id == id);
                }
            }
            assert forall|who: Address| has_holder(after, who) <==> has_holder(before, who) || who
                == recipient by {
                if has_holder(before, who) {
                    let i = choose|i: int| 0 <= i < before.len() && (#[trigger] before[i]).owner == who;
                    assert(after[i].owner == who);
                }
            }
            assert(tickets_wf(after, self.next_token_id));
            assert forall|id: u128| #[trigger]
                owner_in(after, id) == if id == token_id {
                    Some(recipient)
                } else {
                    owner_in(before, id)
                } by {
                lemma_owner_in(after, id);
                lemma_owner_in(before, id);
                if has_token(after, id) {
                    let i = choose|i: int|
                        0 <= i < after.len() && (#[trigger] after[i]).token_id == id;
                    lemma_owner_of_entry(after, self.next_token_id, i);
                    if i < before.len() {
                        lemma_owner_of_entry(before, token_id, i);
                    }
                }
            }
            assert(owners_of(after) =~= owners_of(before).insert(token_id, recipient));
            assert(!owners_of(before).dom().contains(token_id)) by {
                lemma_owner_in(before, token_id);
            }
        }
        Ok(token_id)
    }

    /// Hands the ticket `token_id` from `from` to `to`. `from` must have
    /// authorized the call and own the ticket, and `to` must hold none.
    pub fn transfer_from(
        &mut self,
        auth: &Authorization,
        from: &Address,
        to: Address,
        token_id: u128,
    ) -> (result: Result<(), TicketError>)
        requires
            old(self).wf(),
        ensures
            final(self).wf(),
            final(self).contract() == old(self).contract(),
            final(self).minter() == old(self).minter(),
            final(self).next_id() == old(self).next_id(),
            result == old(self).transfer_outcome(auth, *from, to, token_id),
            result is Err ==> *final(self) == *old(self),
            result is Ok ==> {
                &&& final(self).owners() == old(self).owners().insert(token_id, to)
                &&& forall|who: Address|
                    final(self).holds(who) <==> (old(self).holds(who) && who != *from) || who == to
            },
    {
        proof {
            lemma_owners_dom(self.tickets@);
        }
        if !auth.require_auth(from) {
            return Err(TicketError::Unauthorized);
        }
        let at = match self.index_of(token_id) {
            Some(at) => at,
            None => {
                return Err(TicketError::InvalidToken);
            },
        };
        proof {
            lemma_owner_of_entry(self.tickets@, self.next_token_id, at as int);
        }
        if !self.tickets[at].owner.same(from) {
            return Err(TicketError::NotOwner);
        }
        if self.balance_of(&to) > 0 {
            return Err(TicketError::AlreadyHasTicket);
        }
        let ghost before = self.tickets@;
        let ticket = Ticket { token_id, owner: to };
        self.tickets.set(at, ticket);
        proof {
            let after = self.tickets@;
            assert(after[at as int] == ticket);
            assert forall|i: int| 0 <= i < before.len() && i != at implies after[i]
                == before[i] by {}
            assert forall|id: u128| has_token(after, id) <==> has_token(before, id) by {
                if has_token(before, id) {
                    let i = choose|i: int|
                        0 <= i < before.len() && (#[trigger] before[i]).token_id == id;
                    assert(after[i].token_id == id);
                }
                if has_token(after, id) {
                    let i = choose|i: int| 0 <= i < after.len() && (#[trigger] after[i]).token_id == id;
                    assert(before[i].token_id == id);
                }
            }
            assert forall|who: Address| has_holder(after, who) <==> (has_holder(before, who) && who
                != *from) || who == to by {
                if has_holder(before, who) && who != *from {
                    let i = choose|i: int| 0 <= i < before.len() && (#[trigger] before[i]).owner == who;
                    assert(after[i].owner == who);
                }
                if has_holder(after, who) && who != to {
                    let i = choose|i: int| 0 <= i < after.len() && (#[trigger] after[i]).owner == who;
                    assert(before[i].owner == who);
                    assert(before[at as int].owner == *from);
                }
            }
            assert(tickets_wf(after, self.next_token_id)) by {
                assert forall|i: int, j: int| 0 <= i < j < after.len() implies (
                #[trigger] after[i]).token_id != (#[trigger] after[j]).token_id && after[i].owner
                    != after[j].owner by {
                    assert(before[i].token_id != before[j].token_id);
                    assert(before[i].owner != before[j].owner);
                }
            }
            assert forall|id: u128| #[trigger]
                owner_in(after, id) == if id == token_id {
                    Some(to)
                } else {
                    owner_in(before, id)
                } by {
                lemma_owner_in(after, id);
                lemma_owner_in(before, id);
                if has_token(after, id) {
                    let i = choose|i: int|
                        0 <= i < after.len() && (#[trigger] after[i]).token_id == id;
                    lemma_owner_of_entry(after, self.next_token_id, i);
                    lemma_owner_of_entry(before, self.next_token_id, i);
                }
            }
            assert(owners_of(after) =~= owners_of(before).insert(token_id, to));
        }
        Ok(())
    }

    /// Burns the ticket `token_id`. Its owner must have authorized the call.
    pub fn burn(&mut self, auth: &Authorization, token_id: u128) -> (result: Result<(), TicketError>)
        requires
            old(self).wf(),
        ensures
            final(self).wf(),
            final(self).contract() == old(self).contract(),
            final(self).minter() == old(self).minter(),
            final(self).next_id() == old(self).next_id(),
            result == old(self).burn_outcome(auth, token_id),
            result is Err ==> *final(self) == *old(self),
            result is Ok ==> {
                &&& final(self).owners() == old(self).owners().remove(token_id)
                &&& forall|who: Address|
                    final(self).holds(who) <==> old(self).holds(who) && who != old(
                        self,
                    ).owners()[token_id]
            },
    {
        proof {
            lemma_owners_dom(self.tickets@);
        }
        let at = match self.index_of(token_id) {
            Some(at) => at,
            None => {
                return Err(TicketError::InvalidToken);
            },
        };
        proof {
            lemma_owner_of_entry(self.tickets@, self.next_token_id, at as int);
        }
        let owner = self.tickets[at].owner;
        if !auth.require_auth(&owner) {
            return Err(TicketError::Unauthorized);
        }
        let ghost before = self.tickets@;
        self.tickets.remove(at);
        proof {
            let after = self.tickets@;
            assert forall|i: int| 0 <= i < after.len() implies (#[trigger] after[i]) == before[if i
                < at {
                i
            } else {
                i + 1
            }] by {}
            assert(tickets_wf(after, self.next_token_id)) by {
                assert forall|i: int, j: int| 0 <= i < j < after.len() implies (
                #[trigger] after[i]).token_id != (#[trigger] after[j]).token_id && after[i].owner
                    != after[j].owner by {
                    let bi = if i < at { i } else { i + 1 };
                    let bj = if j < at { j } else { j + 1 };
                    assert(before[bi].token_id != before[bj].token_id);
                    assert(before[bi].owner != before[bj].owner);
                }
                assert forall|i: int| 0 <= i < after.len() implies (#[trigger] after[i]).token_id
                    < self.next_token_id by {
                    let bi = if i < at { i } else { i + 1 };
                    assert(before[bi].token_id < self.next_token_id);
                }
            }
            assert forall|id: u128| has_token(after, id) <==> has_token(before, id) && id
                != token_id by {
                if has_token(before, id) && id != token_id {
                    let i = choose|i: int|
                        0 <= i < before.len() && (#[trigger] before[i]).token_id == id;
                    let ai = if i < at { i } else { i - 1 };
                    assert(after[ai].token_id == id);
                }
                if has_token(after, id) {
                    let i = choose|i: int| 0 <= i < after.len() && (#[trigger] after[i]).token_id == id;
                    let bi = if i < at { i } else { i + 1 };
                    assert(before[bi].token_id == id);
                    assert(before[at as int].token_id == token_id);
                }
            }
            assert forall|who: Address| has_holder(after, who) <==> has_holder(before, who) && who
                != owner by {
                if has_holder(before, who) && who != owner {
                    let i = choose|i: int| 0 <= i < before.len() && (#[trigger] before[i]).owner == who;
                    let ai = if i < at { i } else { i - 1 };
                    assert(after[ai].owner == who);
                }
                if has_holder(after, who) {
                    let i = choose|i: int| 0 <= i < after.len() && (#[trigger] after[i]).owner == who;
                    let bi = if i < at { i } else { i + 1 };
                    assert(before[bi].owner == who);
                    assert(before[at as int].owner == owner);
                }
            }
            assert forall|id: u128| #[trigger]
                owner_in(after, id) == if id == token_id {
                    None
                } else {
                    owner_in(before, id)
                } by {
                lemma_owner_in(after, id);
                lemma_owner_in(before, id);
                if has_token(after, id) {
                    let i = choose|i: int|
                        0 <= i < after.len() && (#[trigger] after[i]).token_id == id;
                    let bi = if i < at {
                        i
                    } else {
                        i + 1
                    };
                    lemma_owner_of_entry(after, self.next_token_id, i);
                    lemma_owner_of_entry(before, self.next_token_id, bi);
                }
            }
            assert(owners_of(after) =~= owners_of(before).remove(token_id));
        }
        Ok(())
    }
}

impl AssetLedger for TicketNft {
    /// The ledger answers for its own contract alone.
    open spec fn owner(&self, token_contract: Address, token_id: u128) -> Option<Address> {
        if token_contract == self.contract() {
            self.owners().get(token_id)
        } else {
            None
        }
    }

    fn owner_of(&self, token_contract: &Address, token_id: u128) -> (owner: Option<Address>) {
        if self.address.same(token_contract) {
            TicketNft::owner_of(self, token_id)
        } else {
            None
        }
    }
}

/// What holds of every ledger between its calls: every ticket has an id
/// below the next id, the holders are the owners of the tickets, and nobody
/// owns two tickets.
pub proof fn lemma_ledger_invariants(ledger: TicketNft)
    requires
        ledger.wf(),
    ensures
        ledger.next_id() >= 1,
        forall|token_id: u128|
            ledger.owners().dom().contains(token_id) ==> token_id < ledger.next_id(),
        forall|who: Address|
            ledger.holds(who) <==> exists|token_id: u128|
                ledger.owners().dom().contains(token_id) && #[trigger] ledger.owners()[token_id]
                    == who,
        forall|a: u128, b: u128|
            ledger.owners().dom().contains(a) && ledger.owners().dom().contains(b)
                && ledger.owners()[a] == ledger.owners()[b] ==> a == b,
{
    let tickets = ledger.tickets@;
    let next = ledger.next_token_id;
    assert forall|token_id: u128| ledger.owners().dom().contains(token_id) implies token_id
        < ledger.next_id() by {
        lemma_owner_in(tickets, token_id);
        let i = choose|i: int| 0 <= i < tickets.len() && (#[trigger] tickets[i]).token_id == token_id;
    }
    assert forall|who: Address|
        ledger.holds(who) <==> exists|token_id: u128|
            ledger.owners().dom().contains(token_id) && #[trigger] ledger.owners()[token_id]
                == who by {
        if ledger.holds(who) {
            let i = choose|i: int| 0 <= i < tickets.len() && (#[trigger] tickets[i]).owner == who;
            lemma_owner_of_entry(tickets, next, i);
            assert(ledger.owners().dom().contains(tickets[i].token_id) && ledger.owners()[tickets[i].token_id]
                == who);
        }
        if exists|token_id: u128|
            ledger.owners().dom().contains(token_id) && #[trigger] ledger.owners()[token_id]
                == who {
            let token_id = choose|token_id: u128|
                ledger.owners().dom().contains(token_id) && #[trigger] ledger.owners()[token_id]
                    == who;
            lemma_owner_in(tickets, token_id);
        }
    }
    assert forall|a: u128, b: u128|
        ledger.owners().dom().contains(a) && ledger.owners().dom().contains(b)
            && ledger.owners()[a] == ledger.owners()[b] implies a == b by {
        lemma_owner_in(tickets, a);
        lemma_owner_in(tickets, b);
        let owner = ledger.owners()[a];
        let i = choose|i: int|
            0 <= i < tickets.len() && (#[trigger] tickets[i]).token_id == a && tickets[i].owner
                == owner;
        let j = choose|j: int|
            0 <= j < tickets.len() && (#[trigger] tickets[j]).token_id == b && tickets[j].owner
                == owner;
        assert(i == j);
    }
}

} // verus!
