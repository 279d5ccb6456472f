use tba_core::account::{Execution, Invocation, TbaAccount, TransactionExecutedEvent};
use tba_core::address::Address;
use tba_core::auth::{AssetLedger, Authorization};
use tba_core::deriver::AccountKey;
use tba_core::error::Error;

/// An asset contract whose owners the test sets at will.
struct MockNftContract {
    address: Address,
    owners: Vec<(u128, Address)>,
}

impl MockNftContract {
    fn new(address: Address) -> Self {
        MockNftContract { address, owners: Vec::new() }
    }

    fn set_owner(&mut self, token_id: u128, owner: Address) {
        self.owners.retain(|(id, _)| *id != token_id);
        self.owners.push((token_id, owner));
    }
}

impl AssetLedger for MockNftContract {
    fn owner(&self, token_contract: Address, token_id: u128) -> Option<Address> {
        self.owner_of(&token_contract, token_id)
    }

    fn owner_of(&self, token_contract: &Address, token_id: u128) -> Option<Address> {
        if *token_contract != self.address {
            return None;
        }
        self.owners.iter().find(|(id, _)| *id == token_id).map(|(_, owner)| *owner)
    }
}

fn contract(n: u8) -> Address {
    Address::Contract([n; 32])
}

fn account(n: u8) -> Address {
    Address::Account([n; 32])
}

fn initialized(nft: &MockNftContract, token_id: u128) -> TbaAccount {
    let mut tba = TbaAccount::new();
    tba.initialize(nft.address, token_id, [1u8; 32], [2u8; 32]).unwrap();
    tba
}

#[test]
fn test_initialize() {
    let mut tba = TbaAccount::new();
    let nft_contract = contract(10);
    let token_id: u128 = 1;
    let impl_hash = [1u8; 32];
    let salt = [2u8; 32];

    tba.initialize(nft_contract, token_id, impl_hash, salt).unwrap();

    assert_eq!(tba.token_contract().unwrap(), nft_contract);
    assert_eq!(tba.token_id().unwrap(), token_id);
    assert_eq!(
        tba.stored_binding(),
        Some(AccountKey {
            implementation_hash: impl_hash,
            token_contract: nft_contract,
            token_id,
            salt
        })
    );
    assert_eq!(tba.nonce(), 0);
}

#[test]
fn test_initialize_twice_fails() {
    let mut tba = TbaAccount::new();
    let nft_contract = contract(10);
    let token_id: u128 = 1;
    let impl_hash = [1u8; 32];
    let salt = [2u8; 32];

    tba.initialize(nft_contract, token_id, impl_hash, salt).unwrap();
    let before = tba.clone();

    let result = tba.initialize(contract(11), 2, [3u8; 32], [4u8; 32]);
    assert!(result.is_err());
    assert_eq!(result.unwrap_err(), Error::AlreadyInitialized);
    assert_eq!(tba, before);
    assert_eq!(tba.token_contract().unwrap(), nft_contract);
}

#[test]
fn test_execute_success() {
    let mut nft = MockNftContract::new(contract(10));
    let target_id = contract(20);
    let token_id: u128 = 1;
    let owner = account(30);
    nft.set_owner(token_id, owner);
    let mut tba = initialized(&nft, token_id);

    // Execute through TBA; the target adds one to its argument.
    let func = String::from("test_func");
    let args = vec![42u32];
    let result = tba
        .execute(&nft, &Authorization::signed_by(owner), target_id, func, args, |execution| {
            execution.call.args.iter().map(|value| value + 1).collect::<Vec<u32>>()
        })
        .unwrap();

    let val: u32 = result[0];
    assert_eq!(val, 43u32);
    assert_eq!(tba.nonce(), 1);
}

#[test]
fn record_execution_hands_back_the_event_and_the_call() {
    let mut nft = MockNftContract::new(contract(10));
    let target_id = contract(20);
    let owner = account(30);
    nft.set_owner(1, owner);
    let mut tba = initialized(&nft, 1);

    let func = String::from("test_func");
    let args = vec![42u32];
    let execution = tba
        .record_execution(&nft, &Authorization::signed_by(owner), target_id, func.clone(), args.clone())
        .unwrap();

    assert_eq!(
        execution,
        Execution {
            event: TransactionExecutedEvent { to: target_id, func: func.clone(), nonce: 1 },
            call: Invocation { to: target_id, func, args },
        }
    );
    assert_eq!(tba.nonce(), 1);
}

#[test]
fn execute_hands_back_what_the_target_returns() {
    let mut nft = MockNftContract::new(contract(10));
    let target_id = contract(20);
    let owner = account(30);
    nft.set_owner(1, owner);
    let mut tba = initialized(&nft, 1);

    let mut events = Vec::new();
    let result = tba.execute(
        &nft,
        &Authorization::signed_by(owner),
        target_id,
        String::from("test_func"),
        vec![42u32],
        |execution: Execution<Vec<u32>>| {
            events.push(execution.event);
            execution.call.args.iter().map(|value| value + 1).collect::<Vec<u32>>()
        },
    );

    let val: u32 = result.unwrap()[0];
    assert_eq!(val, 43u32);
    assert_eq!(tba.nonce(), 1);
    assert_eq!(
        events,
        vec![TransactionExecutedEvent { to: target_id, func: String::from("test_func"), nonce: 1 }]
    );
}

#[test]
fn a_call_that_fails_at_its_target_has_spent_its_nonce() {
    let mut nft = MockNftContract::new(contract(10));
    let owner = account(30);
    nft.set_owner(1, owner);
    let mut tba = initialized(&nft, 1);
    let by_owner = Authorization::signed_by(owner);

    let failed: Result<Result<u32, &str>, Error> =
        tba.execute(&nft, &by_owner, contract(20), String::from("f"), (), |_| Err("target failed"));
    assert_eq!(failed, Ok(Err("target failed")));
    assert_eq!(tba.nonce(), 1);

    let mut forwarded = false;
    let refused = tba.execute(
        &nft,
        &Authorization::signed_by(account(31)),
        contract(20),
        String::from("f"),
        (),
        |_| forwarded = true,
    );
    assert_eq!(refused, Err(Error::Authorization));
    assert!(!forwarded);
    assert_eq!(tba.nonce(), 1);
}

#[test]
fn test_execute_non_owner_fails() {
    let mut nft = MockNftContract::new(contract(10));
    let token_id: u128 = 1;
    let owner = account(30);
    nft.set_owner(token_id, owner);
    let mut tba = initialized(&nft, token_id);
    let target = contract(20);
    let func = String::from("test");

    // Nobody has authorized the call.
    let mut forwarded = 0;
    let unsigned = tba.execute(&nft, &Authorization::none(), target, func.clone(), (), |_| {
        forwarded += 1;
    });
    assert_eq!(unsigned, Err(Error::Authorization));

    // Somebody else has.
    let stranger = Authorization::signed_by(account(31));
    let result = tba.execute(&nft, &stranger, target, func.clone(), (), |_| {
        forwarded += 1;
    });
    assert_eq!(result, Err(Error::Authorization));
    assert_eq!(forwarded, 0);
    assert_eq!(tba.nonce(), 0);

    let recorded = tba.record_execution(&nft, &stranger, target, func, Vec::<u32>::new());
    assert_eq!(recorded, Err(Error::Authorization));
    assert_eq!(tba.nonce(), 0);
}

#[test]
fn uninitialized_account_refuses_everything() {
    let nft = MockNftContract::new(contract(10));
    let mut tba = TbaAccount::new();
    assert_eq!(tba.token_contract(), Err(Error::NotInitialized));
    assert_eq!(tba.token_id(), Err(Error::NotInitialized));
    assert_eq!(tba.token(), Err(Error::NotInitialized));
    assert_eq!(tba.owner(&nft), Err(Error::NotInitialized));
    assert_eq!(tba.check_auth(&nft, &Authorization::signed_by(account(1))), Err(Error::NotInitialized));
    let result =
        tba.record_execution(&nft, &Authorization::signed_by(account(1)), contract(2), String::from("f"), ());
    assert_eq!(result, Err(Error::NotInitialized));
    assert_eq!(tba.nonce(), 0);
    assert_eq!(tba.stored_binding(), None);
}

#[test]
fn token_reports_placeholder_network_and_binding() {
    let nft = MockNftContract::new(contract(10));
    let tba = initialized(&nft, 77);
    assert_eq!(tba.token(), Ok((0u32, contract(10), 77u128)));
}

#[test]
fn owner_is_asked_on_every_call() {
    let mut nft = MockNftContract::new(contract(10));
    let tba = initialized(&nft, 5);
    assert_eq!(tba.owner(&nft), Err(Error::NotFound));
    nft.set_owner(5, account(1));
    assert_eq!(tba.owner(&nft), Ok(account(1)));
    nft.set_owner(5, contract(2));
    assert_eq!(tba.owner(&nft), Ok(contract(2)));
}

#[test]
fn owner_is_asked_of_the_bound_contract_only() {
    let mut other = MockNftContract::new(contract(11));
    other.set_owner(5, account(1));
    let bound = MockNftContract::new(contract(10));
    let tba = initialized(&bound, 5);
    assert_eq!(tba.owner(&other), Err(Error::NotFound));
}

#[test]
fn execute_on_unknown_asset_is_not_found() {
    let nft = MockNftContract::new(contract(10));
    let mut tba = initialized(&nft, 5);
    let result =
        tba.record_execution(&nft, &Authorization::signed_by(account(1)), contract(2), String::from("f"), 1u8);
    assert_eq!(result, Err(Error::NotFound));
    assert_eq!(tba.nonce(), 0);
}

#[test]
fn nonce_counts_successful_calls_only() {
    let mut nft = MockNftContract::new(contract(10));
    let owner = account(1);
    nft.set_owner(9, owner);
    let mut tba = initialized(&nft, 9);
    let by_owner = Authorization::signed_by(owner);
    let by_other = Authorization::signed_by(account(2));

    for expected in 1u64..=5 {
        let refused = tba.record_execution(&nft, &by_other, contract(3), String::from("f"), expected);
        assert_eq!(refused, Err(Error::Authorization));
        assert_eq!(tba.nonce(), expected - 1);

        let execution =
            tba.record_execution(&nft, &by_owner, contract(3), String::from("f"), expected).unwrap();
        assert_eq!(execution.event.nonce, expected);
        assert_eq!(execution.call.args, expected);
        assert_eq!(tba.nonce(), expected);
    }
}

#[test]
fn exhausted_nonce_is_an_overflow() {
    let mut nft = MockNftContract::new(contract(10));
    let owner = account(1);
    nft.set_owner(9, owner);
    let key = AccountKey {
        implementation_hash: [1u8; 32],
        token_contract: contract(10),
        token_id: 9,
        salt: [2u8; 32],
    };
    let mut tba = TbaAccount::from_parts(Some(key), u64::MAX - 1).unwrap();
    let by_owner = Authorization::signed_by(owner);

    let last = tba.record_execution(&nft, &by_owner, contract(3), String::from("f"), ()).unwrap();
    assert_eq!(last.event.nonce, u64::MAX);
    let result = tba.record_execution(&nft, &by_owner, contract(3), String::from("f"), ());
    assert_eq!(result, Err(Error::Overflow));
    assert_eq!(tba.nonce(), u64::MAX);
}

#[test]
fn from_parts_rejects_a_nonce_without_binding() {
    assert_eq!(TbaAccount::from_parts(None, 1), None);
    assert_eq!(TbaAccount::from_parts(None, 0), Some(TbaAccount::new()));
}

#[test]
fn check_auth_follows_the_current_owner() {
    let mut nft = MockNftContract::new(contract(10));
    let first = account(1);
    let second = account(2);
    nft.set_owner(9, first);
    let tba = initialized(&nft, 9);

    assert_eq!(tba.check_auth(&nft, &Authorization::signed_by(first)), Ok(()));
    assert_eq!(tba.check_auth(&nft, &Authorization::signed_by(second)), Err(Error::Authorization));
    assert_eq!(tba.check_auth(&nft, &Authorization::none()), Err(Error::Authorization));

    nft.set_owner(9, second);
    assert_eq!(tba.check_auth(&nft, &Authorization::signed_by(first)), Err(Error::Authorization));
    assert_eq!(tba.check_auth(&nft, &Authorization::signed_by(second)), Ok(()));
    assert_eq!(tba.check_auth(&nft, &Authorization::signed_by(first).and(second)), Ok(()));
}

#[test]
fn authorization_lists_its_signers() {
    let auth = Authorization::signed_by(account(1)).and(contract(2));
    assert!(auth.require_auth(&account(1)));
    assert!(auth.require_auth(&contract(2)));
    assert!(!auth.require_auth(&contract(1)));
    assert!(!auth.require_auth(&account(2)));
    assert!(!Authorization::none().require_auth(&account(1)));
    assert_eq!(auth.signers, vec![account(1), contract(2)]);
}
