//! The composite salt: the one value under which the platform derives the
//! address of a token-bound account.
//!
//! The salt is the SHA-256 digest of a fixed-layout preimage that holds every
//! part of the account's key. Both the look-ahead and the deployment of the
//! registry go through [`compute_composite_salt`].

use vstd::prelude::*;
use soroban_sdk::Env;
use crate::address::{bytes32_eq, Address, Bytes32};
use crate::platform::{address_xdr, sha256, sha256_digest};

verus! {

/// The identity of one deployable account: the code it runs, the asset it
/// is bound to, and a salt that tells apart several accounts of one asset.
#[derive(Copy, Clone, Debug, PartialEq, Eq)]
pub struct AccountKey {
    pub implementation_hash: Bytes32,
    pub token_contract: Address,
    pub token_id: u128,
    pub salt: Bytes32,
}

impl AccountKey {
    /// Whether `self` and `other` are the same key, part by part.
    pub fn same(&self, other: &AccountKey) -> (same: bool)
        ensures
            same == (*self == *other),
    {
        bytes32_eq(&self.implementation_hash, &other.implementation_hash)
            && self.token_contract.same(&other.token_contract) && self.token_id == other.token_id
            && bytes32_eq(&self.salt, &other.salt)
    }
}

/// The `width` low-order base-256 digits of `value`, most significant first.
pub open spec fn be_bytes(value: nat, width: nat) -> Seq<u8>
    decreases width,
{
    if width == 0 {
        Seq::empty()
    } else {
        be_bytes(value / 256, (width - 1) as nat).push((value % 256) as u8)
    }
}

/// `value` with its `digits` low-order base-256 digits dropped.
pub open spec fn drop_digits(value: nat, digits: nat) -> nat
    decreases digits,
{
    if digits == 0 {
        value
    } else {
        drop_digits(value / 256, (digits - 1) as nat)
    }
}

/// What is hashed into the composite salt: the implementation hash, the
/// digest of the serialized asset contract address, the token id as sixteen
/// big-endian bytes, and the caller's salt, in this order.
pub open spec fn salt_preimage(key: AccountKey) -> Seq<u8> {
    key.implementation_hash@ + sha256_digest(key.token_contract.xdr()) + be_bytes(
        key.token_id as nat,
        16,
    ) + key.salt@
}

/// The composite salt of `key`.
pub open spec fn composite_salt(key: AccountKey) -> Seq<u8> {
    sha256_digest(salt_preimage(key))
}

/// `width` digits are `width` bytes.
pub proof fn lemma_be_bytes_len(value: nat, width: nat)
    ensures
        be_bytes(value, width).len() == width,
    decreases width,
{
    if width > 0 {
        lemma_be_bytes_len(value / 256, (width - 1) as nat);
    }
}

/// Dropping one digit more is dividing by 256 once more.
proof fn lemma_drop_digits_step(value: nat, digits: nat)
    ensures
        drop_digits(value, digits + 1) == drop_digits(value, digits) / 256,
    decreases digits,
{
    assert(drop_digits(value, digits + 1) == drop_digits(value / 256, digits));
    if digits > 0 {
        lemma_drop_digits_step(value / 256, (digits - 1) as nat);
        assert(drop_digits(value, digits) == drop_digits(value / 256, (digits - 1) as nat));
    }
}

/// One digit more in front: the digit that stands next in `value`.
proof fn lemma_be_bytes_grow(value: nat, width: nat)
    ensures
        be_bytes(value, width + 1) == seq![(drop_digits(value, width) % 256) as u8] + be_bytes(
            value,
            width,
        ),
    decreases width,
{
    if width == 0 {
        assert(be_bytes(value / 256, 0) =~= Seq::<u8>::empty());
        assert(be_bytes(value, 1) =~= seq![(value % 256) as u8] + be_bytes(value, 0));
    } else {
        lemma_be_bytes_grow(value / 256, (width - 1) as nat);
        assert(be_bytes(value, width + 1) =~= seq![(drop_digits(value, width) % 256) as u8]
            + be_bytes(value, width));
    }
}

/// Two values whose `width` low-order digits agree, and whose remaining
/// digits agree, are the same value.
proof fn lemma_be_bytes_injective(a: nat, b: nat, width: nat)
    requires
        be_bytes(a, width) == be_bytes(b, width),
        drop_digits(a, width) == drop_digits(b, width),
    ensures
        a == b,
    decreases width,
{
    if width > 0 {
        let low_a = be_bytes(a / 256, (width - 1) as nat);
        let low_b = be_bytes(b / 256, (width - 1) as nat);
        assert(low_a.push((a % 256) as u8).last() == (a % 256) as u8);
        assert(low_b.push((b % 256) as u8).last() == (b % 256) as u8);
        assert(low_a.push((a % 256) as u8).drop_last() =~= low_a);
        assert(low_b.push((b % 256) as u8).drop_last() =~= low_b);
        lemma_be_bytes_injective(a / 256, b / 256, (width - 1) as nat);
    }
}

/// Sixteen digits hold every 128-bit number: no two token ids are written
/// with the same sixteen bytes.
pub proof fn lemma_token_id_bytes_injective(a: u128, b: u128)
    requires
        be_bytes(a as nat, 16) == be_bytes(b as nat, 16),
    ensures
        a == b,
{
    assert(drop_digits(a as nat, 16) == 0) by {
        reveal_with_fuel(drop_digits, 17);
    }
    assert(drop_digits(b as nat, 16) == 0) by {
        reveal_with_fuel(drop_digits, 17);
    }
    lemma_be_bytes_injective(a as nat, b as nat, 16);
}

/// The token id as sixteen bytes, most significant first.
pub fn u128_be_bytes(value: u128) -> (bytes: [u8; 16])
    ensures
        bytes@ == be_bytes(value as nat, 16),
{
    let mut bytes = [0u8; 16];
    let mut rest = value;
    let mut done: usize = 0;
    while done < 16
        invariant
            done <= 16,
            rest == drop_digits(value as nat, done as nat),
            bytes@.subrange(16 - done, 16) == be_bytes(value as nat, done as nat),
        decreases 16 - done,
    {
        proof {
            lemma_be_bytes_grow(value as nat, done as nat);
            lemma_drop_digits_step(value as nat, done as nat);
        }
        let ghost before = bytes@;
        bytes[15 - done] = (rest % 256) as u8;
        assert(bytes@.subrange(15 - done, 16) =~= seq![(rest % 256) as u8] + before.subrange(
            16 - done,
            16,
        ));
        rest = rest / 256;
        done = done + 1;
    }
    assert(bytes@.subrange(0, 16) =~= bytes@);
    bytes
}

/// Appends `bytes` to `out`.
fn append(out: &mut Vec<u8>, bytes: &[u8])
    ensures
        final(out)@ == old(out)@ + bytes@,
{
    let mut i: usize = 0;
    while i < bytes.len()
        invariant
            i <= bytes.len(),
            out@ == old(out)@ + bytes@.subrange(0, i as int),
        decreases bytes.len() - i,
    {
        out.push(bytes[i]);
        assert(out@ =~= old(out)@ + bytes@.subrange(0, i + 1));
        i = i + 1;
    }
    assert(bytes@.subrange(0, bytes.len() as int) =~= bytes@);
}

/// The composite salt of `key`: the SHA-256 digest of the preimage that
/// [`salt_preimage`] lays out, which is 112 bytes long.
pub fn compute_composite_salt(env: &Env, key: &AccountKey) -> (salt: Bytes32)
    ensures
        salt@ == composite_salt(*key),
        salt_preimage(*key).len() == 112,
{
    let token_contract_xdr = address_xdr(env, &key.token_contract);
    let token_contract_hash = sha256(env, &token_contract_xdr);
    let token_id_bytes = u128_be_bytes(key.token_id);
    let mut combined: Vec<u8> = Vec::new();
    append(&mut combined, key.implementation_hash.as_slice());
    append(&mut combined, token_contract_hash.as_slice());
    append(&mut combined, token_id_bytes.as_slice());
    append(&mut combined, key.salt.as_slice());
    assert(combined@ =~= salt_preimage(*key));
    sha256(env, &combined)
}

/// Keys that differ in the implementation hash, in the token id or in the
/// salt are hashed from different preimages; keys with the same preimage can
/// differ only in asset contracts whose serialized forms have one digest.
pub proof fn lemma_salt_preimage_injective(a: AccountKey, b: AccountKey)
    requires
        salt_preimage(a) == salt_preimage(b),
    ensures
        a.implementation_hash == b.implementation_hash,
        sha256_digest(a.token_contract.xdr()) == sha256_digest(b.token_contract.xdr()),
        a.token_id == b.token_id,
        a.salt == b.salt,
{
    let da = sha256_digest(a.token_contract.xdr());
    let db = sha256_digest(b.token_contract.xdr());
    let ta = be_bytes(a.token_id as nat, 16);
    let tb = be_bytes(b.token_id as nat, 16);
    lemma_be_bytes_len(a.token_id as nat, 16);
    lemma_be_bytes_len(b.token_id as nat, 16);
    let pa = salt_preimage(a);
    let pb = salt_preimage(b);
    assert(pa.len() == 80 + da.len());
    assert(pb.len() == 80 + db.len());
    let n = da.len() as int;
    assert(a.implementation_hash@ =~= pa.subrange(0, 32));
    assert(b.implementation_hash@ =~= pb.subrange(0, 32));
    assert(da =~= pa.subrange(32, 32 + n));
    assert(db =~= pb.subrange(32, 32 + n));
    assert(ta =~= pa.subrange(32 + n, 48 + n));
    assert(tb =~= pb.subrange(32 + n, 48 + n));
    assert(a.salt@ =~= pa.subrange(48 + n, 80 + n));
    assert(b.salt@ =~= pb.subrange(48 + n, 80 + n));
    lemma_token_id_bytes_injective(a.token_id, b.token_id);
    assert(a.implementation_hash =~= b.implementation_hash);
    assert(a.salt =~= b.salt);
}

} // verus!
