use soroban_sdk::testutils::EnvTestConfig;
use soroban_sdk::xdr::{ContractId, ScAddress};
use soroban_sdk::{BytesN, Env, TryFromVal};
use tba_core::account::TbaAccount;
use tba_core::address::Address;
use tba_core::auth::{AssetLedger, Authorization};
use tba_core::deriver::{compute_composite_salt, AccountKey};
use tba_core::error::Error;
use tba_core::registry::{Deployment, TbaRegistry};

/// An asset contract in which one address owns every asset.
struct MockNFT {
    owner: Address,
}

impl AssetLedger for MockNFT {
    fn owner(&self, token_contract: Address, token_id: u128) -> Option<Address> {
        self.owner_of(&token_contract, token_id)
    }

    fn owner_of(&self, _token_contract: &Address, _token_id: u128) -> Option<Address> {
        Some(self.owner)
    }
}

/// An asset contract without assets.
struct EmptyNFT;

impl AssetLedger for EmptyNFT {
    fn owner(&self, token_contract: Address, token_id: u128) -> Option<Address> {
        self.owner_of(&token_contract, token_id)
    }

    fn owner_of(&self, _token_contract: &Address, _token_id: u128) -> Option<Address> {
        None
    }
}

/// The address that the host derives for a deployer and a salt.
fn host_address(env: &Env, deployer: &Address, salt: &[u8; 32]) -> Address {
    let Address::Contract(id) = deployer else {
        panic!("the registry is a contract");
    };
    let from = soroban_sdk::Address::try_from_val(
        env,
        &ScAddress::Contract(ContractId(soroban_sdk::xdr::Hash(*id))),
    )
    .unwrap();
    let at = env.deployer().with_address(from, BytesN::from_array(env, salt)).deployed_address();
    match ScAddress::from(&at) {
        ScAddress::Contract(id) => Address::Contract(id.0 .0),
        _ => panic!("the host derives the address of a contract"),
    }
}

/// The address that the host derives for the account of `key`.
fn derived(env: &Env, registry: &TbaRegistry, key: &AccountKey) -> Address {
    host_address(env, &registry.address(), &compute_composite_salt(env, key))
}

/// What the registry's contract does for `get_account`.
fn announce(env: &Env, registry: &TbaRegistry, key: &AccountKey) -> Address {
    registry.get_account(key, derived(env, registry, key))
}

/// What the registry's contract does for `create_account`.
fn create(
    env: &Env,
    registry: &mut TbaRegistry,
    ledger: &impl AssetLedger,
    auth: &Authorization,
    key: &AccountKey,
) -> Result<Deployment, Error> {
    let at = derived(env, registry, key);
    registry.create_account(ledger, auth, key, at)
}

fn key(token_contract: Address, token_id: u128, salt: u8) -> AccountKey {
    AccountKey { implementation_hash: [1u8; 32], token_contract, token_id, salt: [salt; 32] }
}

const REGISTRY: Address = Address::Contract([0xAA; 32]);
const WASM_HASH: [u8; 32] = [0x77; 32];
const OWNER: Address = Address::Account([0x01; 32]);

fn setup_test() -> (Env, TbaRegistry, MockNFT, Authorization, Address) {
    let env = Env::new_with_config(EnvTestConfig { capture_snapshot_at_drop: false });
    let mut registry = TbaRegistry::new(REGISTRY);
    registry.initialize(WASM_HASH).unwrap();
    (env, registry, MockNFT { owner: OWNER }, Authorization::signed_by(OWNER), Address::Contract([0x10; 32]))
}

#[test]
fn test_create_account_authorized() {
    let (env, mut client, nft, auth, nft_addr) = setup_test();
    let token_id = 1u128;

    let deployment = create(&env, &mut client, &nft, &auth, &key(nft_addr, token_id, 2)).unwrap();

    assert_eq!(deployment.account.token_contract(), Ok(nft_addr));
    assert_eq!(deployment.account.token_id(), Ok(token_id));
    assert_eq!(deployment.wasm_hash, WASM_HASH);
}

#[test]
fn test_get_account_matches_create_account() {
    let (env, mut client, nft, auth, nft_addr) = setup_test();
    let k = key(nft_addr, 1, 2);

    let calculated_address = announce(&env, &client, &k);
    let deployed_address = create(&env, &mut client, &nft, &auth, &k).unwrap().address;

    assert_eq!(calculated_address, deployed_address);
    assert_eq!(announce(&env, &client, &k), deployed_address);
}

#[test]
fn get_account_of_an_undeployed_key_changes_nothing() {
    let (env, client, _nft, _auth, nft_addr) = setup_test();
    let k = key(nft_addr, 1, 2);
    let before = client.clone();

    let at = derived(&env, &client, &k);
    assert_eq!(client.get_account(&k, at), at);
    assert_eq!(client, before);
    assert_eq!(client.get_deployed_address(&k), None);
    assert_eq!(client.total_deployed_accounts(&nft_addr, 1), 0);
}

#[test]
fn test_multiple_accounts_same_nft() {
    let (env, mut client, nft, auth, nft_addr) = setup_test();
    let token_id = 42u128;

    let addr1 = create(&env, &mut client, &nft, &auth, &key(nft_addr, token_id, 10)).unwrap().address;
    let addr2 = create(&env, &mut client, &nft, &auth, &key(nft_addr, token_id, 20)).unwrap().address;
    let addr3 = create(&env, &mut client, &nft, &auth, &key(nft_addr, token_id, 30)).unwrap().address;

    assert_ne!(addr1, addr2);
    assert_ne!(addr2, addr3);
    assert_ne!(addr1, addr3);

    assert_eq!(client.total_deployed_accounts(&nft_addr, token_id), 3);
}

#[test]
fn two_salts_give_two_accounts() {
    let (env, mut client, nft, auth, nft_addr) = setup_test();
    let token_id = 42u128;
    let first = create(&env, &mut client, &nft, &auth, &key(nft_addr, token_id, 10)).unwrap();
    let second = create(&env, &mut client, &nft, &auth, &key(nft_addr, token_id, 20)).unwrap();
    assert_ne!(first.address, second.address);
    assert_eq!(client.total_deployed_accounts(&nft_addr, token_id), 2);
}

#[test]
fn test_account_count_increments() {
    let (env, mut client, nft, auth, token_contract) = setup_test();
    let token_id = 100u128;

    assert_eq!(client.total_deployed_accounts(&token_contract, token_id), 0);

    for i in 1u8..=5u8 {
        create(&env, &mut client, &nft, &auth, &key(token_contract, token_id, i)).unwrap();
        assert_eq!(client.total_deployed_accounts(&token_contract, token_id), i as u32);
    }
}

#[test]
fn test_deployed_account_initialized() {
    let (env, mut client, nft, auth, token_contract) = setup_test();
    let token_id = 200u128;
    let k = key(token_contract, token_id, 50);

    let deployment = create(&env, &mut client, &nft, &auth, &k).unwrap();

    assert_eq!(deployment.account.token_contract().unwrap(), token_contract);
    assert_eq!(deployment.account.token_id().unwrap(), token_id);
    assert_eq!(deployment.account.stored_binding(), Some(k));
    assert_eq!(deployment.account.nonce(), 0);
    let mut expected = TbaAccount::new();
    expected.initialize(token_contract, token_id, [1u8; 32], [50u8; 32]).unwrap();
    assert_eq!(deployment.account, expected);
}

#[test]
fn test_cannot_create_account_twice() {
    let (env, mut client, nft, auth, token_contract) = setup_test();
    let token_id = 300u128;
    let k = key(token_contract, token_id, 60);

    create(&env, &mut client, &nft, &auth, &k).unwrap();
    let before = client.clone();

    let result = create(&env, &mut client, &nft, &auth, &k);
    assert!(result.is_err());
    assert_eq!(result.unwrap_err(), Error::DuplicateDeployment);
    assert_eq!(client, before);
    assert_eq!(client.total_deployed_accounts(&token_contract, token_id), 1);
}

#[test]
fn test_get_deployed_address() {
    let (env, mut client, nft, auth, token_contract) = setup_test();
    let k = key(token_contract, 400, 70);

    assert_eq!(client.get_deployed_address(&k), None);

    let deployed_address = create(&env, &mut client, &nft, &auth, &k).unwrap().address;

    assert_eq!(client.get_deployed_address(&k), Some(deployed_address));
}

#[test]
fn test_different_nfts_separate_counts() {
    let (env, mut client, nft, auth, _) = setup_test();
    let token_contract1 = Address::Contract([0x21; 32]);
    let token_contract2 = Address::Contract([0x22; 32]);

    create(&env, &mut client, &nft, &auth, &key(token_contract1, 1, 80)).unwrap();
    create(&env, &mut client, &nft, &auth, &key(token_contract2, 1, 90)).unwrap();

    assert_eq!(client.total_deployed_accounts(&token_contract1, 1), 1);
    assert_eq!(client.total_deployed_accounts(&token_contract2, 1), 1);

    create(&env, &mut client, &nft, &auth, &key(token_contract1, 1, 100)).unwrap();

    assert_eq!(client.total_deployed_accounts(&token_contract1, 1), 2);
    assert_eq!(client.total_deployed_accounts(&token_contract2, 1), 1);
    assert_eq!(client.total_deployed_accounts(&token_contract1, 2), 0);
}

#[test]
fn test_get_account_different_params() {
    let (env, client, _nft, _auth, token_contract) = setup_test();

    let addr1 = announce(&env, &client, &key(token_contract, 1, 1));
    let addr2 = announce(&env, &client, &key(token_contract, 2, 1));
    let addr3 = announce(&env, &client, &key(token_contract, 1, 2));

    assert_ne!(addr1, addr2);
    assert_ne!(addr1, addr3);
    assert_ne!(addr2, addr3);
}

#[test]
fn create_account_needs_the_owner() {
    let (env, mut client, nft, _auth, token_contract) = setup_test();
    let k = key(token_contract, 1, 1);
    let before = client.clone();

    let stranger = Authorization::signed_by(Address::Account([0x02; 32]));
    assert_eq!(create(&env, &mut client, &nft, &stranger, &k), Err(Error::Authorization));
    assert_eq!(create(&env, &mut client, &nft, &Authorization::none(), &k), Err(Error::Authorization));
    assert_eq!(create(&env, &mut client, &EmptyNFT, &stranger, &k), Err(Error::NotFound));
    assert_eq!(client, before);
    assert_eq!(client.get_deployed_address(&k), None);
    assert_eq!(client.total_deployed_accounts(&token_contract, 1), 0);
}

#[test]
fn a_second_deployment_by_a_stranger_fails_on_authorization_first() {
    let (env, mut client, nft, auth, token_contract) = setup_test();
    let k = key(token_contract, 1, 1);
    create(&env, &mut client, &nft, &auth, &k).unwrap();
    let stranger = Authorization::signed_by(Address::Account([0x02; 32]));
    assert_eq!(create(&env, &mut client, &nft, &stranger, &k), Err(Error::Authorization));
}

#[test]
fn an_unbound_registry_deploys_nothing() {
    let (env, _client, nft, auth, token_contract) = setup_test();
    let mut unbound = TbaRegistry::new(REGISTRY);
    let k = key(token_contract, 1, 1);
    assert_eq!(unbound.implementation_wasm_hash(), None);
    assert_eq!(create(&env, &mut unbound, &nft, &auth, &k), Err(Error::NotInitialized));
    assert_eq!(unbound, TbaRegistry::new(REGISTRY));
    let announced = announce(&env, &unbound, &k);
    unbound.initialize(WASM_HASH).unwrap();
    assert_eq!(create(&env, &mut unbound, &nft, &auth, &k).unwrap().address, announced);
}

#[test]
fn the_registry_is_initialized_once() {
    let mut registry = TbaRegistry::new(REGISTRY);
    assert_eq!(registry.address(), REGISTRY);
    assert_eq!(registry.initialize(WASM_HASH), Ok(()));
    assert_eq!(registry.implementation_wasm_hash(), Some(WASM_HASH));
    assert_eq!(registry.initialize([0u8; 32]), Err(Error::AlreadyInitialized));
    assert_eq!(registry.implementation_wasm_hash(), Some(WASM_HASH));
}

#[test]
fn the_account_stands_at_the_derived_address() {
    let (_env, mut client, nft, auth, token_contract) = setup_test();
    let k = key(token_contract, 7, 1);
    let at = Address::Contract([0x55; 32]);

    assert_eq!(client.get_account(&k, at), at);
    let deployment = client.create_account(&nft, &auth, &k, at).unwrap();
    let mut account = TbaAccount::new();
    account.initialize(token_contract, 7, [1u8; 32], [1u8; 32]).unwrap();
    assert_eq!(deployment, Deployment { address: at, wasm_hash: WASM_HASH, account });
    assert_eq!(client.get_account(&k, Address::Contract([0x56; 32])), at);
    assert_eq!(client.get_deployed_address(&k), Some(at));
}

#[test]
fn an_address_hosts_one_account() {
    let (_env, mut client, nft, auth, token_contract) = setup_test();
    let at = Address::Contract([0x55; 32]);
    client.create_account(&nft, &auth, &key(token_contract, 7, 1), at).unwrap();
    let before = client.clone();

    let other = key(token_contract, 7, 2);
    assert_eq!(client.create_account(&nft, &auth, &other, at), Err(Error::DuplicateDeployment));
    assert_eq!(client, before);
    assert_eq!(client.get_deployed_address(&other), None);
    assert_eq!(client.total_deployed_accounts(&token_contract, 7), 1);
}

#[test]
fn a_registry_is_restored_from_its_log() {
    let (env, mut client, nft, auth, token_contract) = setup_test();
    for salt in 1u8..=3 {
        create(&env, &mut client, &nft, &auth, &key(token_contract, 1, salt)).unwrap();
    }
    create(&env, &mut client, &nft, &auth, &key(token_contract, 2, 1)).unwrap();

    let restored = TbaRegistry::restore(REGISTRY, Some(WASM_HASH), client.deployments()).unwrap();
    assert_eq!(restored, client);
    assert_eq!(restored.total_deployed_accounts(&token_contract, 1), 3);
    assert_eq!(restored.total_deployed_accounts(&token_contract, 2), 1);
    assert_eq!(restored.deployments().len(), 4);

    let empty = TbaRegistry::restore(REGISTRY, None, &Vec::new()).unwrap();
    assert_eq!(empty, TbaRegistry::new(REGISTRY));
}

#[test]
fn a_log_with_repetition_is_no_registry() {
    let (_env, mut client, nft, auth, token_contract) = setup_test();
    let first = Address::Contract([0x51; 32]);
    let second = Address::Contract([0x52; 32]);
    client.create_account(&nft, &auth, &key(token_contract, 1, 1), first).unwrap();
    client.create_account(&nft, &auth, &key(token_contract, 1, 2), second).unwrap();
    let log = client.deployments().clone();

    let mut same_key = log.clone();
    same_key[1].key = same_key[0].key;
    assert_eq!(TbaRegistry::restore(REGISTRY, Some(WASM_HASH), &same_key), None);

    let mut same_address = log.clone();
    same_address[1].address = first;
    assert_eq!(TbaRegistry::restore(REGISTRY, Some(WASM_HASH), &same_address), None);

    assert!(TbaRegistry::restore(REGISTRY, Some(WASM_HASH), &log).is_some());
}
