//! The calls into the Soroban host. Nothing in this module is proved: each
//! contract here is a statement about the host that the rest of the crate
//! relies on.

use vstd::prelude::*;
use soroban_sdk::address_payload::AddressPayload;
use soroban_sdk::xdr::ToXdr;
use soroban_sdk::{Bytes, BytesN, Env};
use crate::address::{Address, Bytes32};

verus! {

/// The handle of the Soroban host environment. Its inside is not visible to
/// the proofs; it is only handed on to the host calls below.
#[verifier::external_type_specification]
#[verifier::external_body]
pub struct ExEnv(Env);

/// The SHA-256 digest of `data`, as the host's `compute_hash_sha256`
/// computes it.
pub uninterp spec fn sha256_digest(data: Seq<u8>) -> Seq<u8>;

/// Calls `soroban_sdk::crypto::Crypto::sha256` on a copy of `data`, which
/// the host takes up to the length that a 32-bit number can show. The
/// contract says only that the result is the SHA-256 digest of those bytes,
/// a function of the bytes alone. The host meters the call: an environment
/// whose budget is spent ends the invocation instead of returning.
#[verifier::external_body]
pub(crate) fn sha256(env: &Env, data: &Vec<u8>) -> (digest: Bytes32)
    requires
        data@.len() <= u32::MAX,
    ensures
        digest@ == sha256_digest(data@),
{
    env.crypto().sha256(&Bytes::from_slice(env, data.as_slice())).to_array()
}

/// Calls `soroban_sdk::xdr::ToXdr::to_xdr` on the host's form of `address`,
/// which `soroban_sdk::address_payload::AddressPayload::to_address` makes
/// of the kind and the thirty-two bytes. The contract states the serialized
/// value byte for byte: the tag of an address value, the tag of the kind of
/// address (followed, for an account, by the tag of an ed25519 key), then
/// the thirty-two bytes of the identifier. The host meters the call as it
/// meters `sha256`.
#[verifier::external_body]
pub(crate) fn address_xdr(env: &Env, address: &Address) -> (bytes: Vec<u8>)
    ensures
        bytes@ == address.xdr(),
{
    let payload = match address {
        Address::Account(key) => {
            AddressPayload::AccountIdPublicKeyEd25519(BytesN::from_array(env, key))
        },
        Address::Contract(id) => AddressPayload::ContractIdHash(BytesN::from_array(env, id)),
    };
    payload.to_address(env).to_xdr(env).iter().collect()
}

} // verus!
