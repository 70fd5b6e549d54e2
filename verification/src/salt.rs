//! Deployment salts: the value that makes the identifier of a new instance
//! unique among the instances of one deployer.
//!
//! A salt is either supplied by the caller or derived from the ledger
//! context in which the instance is created: the SHA-256 digest of the
//! serialized ledger sequence number followed by the serialized ledger
//! timestamp. Serialization and digest are `soroban_sdk`'s; their contracts
//! here are believed, not proved.

use vstd::prelude::*;
use soroban_sdk::xdr::ToXdr;

verus! {

/// The SHA-256 digest of `data`, as `soroban_sdk::crypto::Crypto::sha256`
/// computes it.
pub uninterp spec fn sha256(data: Seq<u8>) -> Seq<u8>;

/// How many values `width` bytes can tell apart: `256^width`.
pub open spec fn capacity(width: nat) -> nat
    decreases width,
{
    if width == 0 {
        1
    } else {
        256 * capacity((width - 1) as nat)
    }
}

/// The `width` low-order bytes of `value`, most significant byte first.
pub open spec fn big_endian(value: nat, width: nat) -> Seq<u8>
    decreases width,
{
    if width == 0 {
        Seq::empty()
    } else {
        big_endian(value / 256, (width - 1) as nat).push((value % 256) as u8)
    }
}

/// The XDR form of a 32-bit unsigned contract value: the type tag 3 as a
/// 32-bit big-endian integer, then the value in four big-endian bytes.
pub open spec fn xdr_u32(value: u32) -> Seq<u8> {
    seq![0u8, 0u8, 0u8, 3u8] + big_endian(value as nat, 4)
}

/// The XDR form of a 64-bit unsigned contract value: the type tag 5 as a
/// 32-bit big-endian integer, then the value in eight big-endian bytes.
pub open spec fn xdr_u64(value: u64) -> Seq<u8> {
    seq![0u8, 0u8, 0u8, 5u8] + big_endian(value as nat, 8)
}

/// What is hashed into a ledger-derived salt: the serialized sequence
/// number, then the serialized timestamp.
pub open spec fn salt_preimage(sequence: u32, timestamp: u64) -> Seq<u8> {
    xdr_u32(sequence) + xdr_u64(timestamp)
}

/// Calls `soroban_sdk::crypto::Crypto::sha256` on a fresh environment.
///
/// Believed: the result is the SHA-256 digest of `data`, a function of the
/// bytes alone. Inputs are kept to one hash block so that the fresh
/// environment's metering budget cannot run out.
#[verifier::external_body]
fn digest(data: &Vec<u8>) -> (hash: [u8; 32])
    requires
        data@.len() <= 64,
    ensures
        hash@ == sha256(data@),
{
    let env = soroban_sdk::Env::default();
    let bytes = soroban_sdk::Bytes::from_slice(&env, data.as_slice());
    env.crypto().sha256(&bytes).to_array()
}

/// Calls `soroban_sdk::xdr::ToXdr::to_xdr` on a `u32`, on a fresh
/// environment.
///
/// Believed: the result is the XDR form of the contract value `U32(value)`,
/// eight bytes: the tag 3, then the value, both big-endian.
#[verifier::external_body]
fn serialize_u32(value: u32) -> (bytes: Vec<u8>)
    ensures
        bytes@ == xdr_u32(value),
{
    let env = soroban_sdk::Env::default();
    value.to_xdr(&env).iter().collect()
}

/// Calls `soroban_sdk::xdr::ToXdr::to_xdr` on a `u64`, on a fresh
/// environment.
///
/// Believed: the result is the XDR form of the contract value `U64(value)`,
/// twelve bytes: the tag 5, then the value, both big-endian.
#[verifier::external_body]
fn serialize_u64(value: u64) -> (bytes: Vec<u8>)
    ensures
        bytes@ == xdr_u64(value),
{
    let env = soroban_sdk::Env::default();
    value.to_xdr(&env).iter().collect()
}

/// `width` big-endian bytes are `width` bytes.
pub proof fn lemma_big_endian_len(value: nat, width: nat)
    ensures
        big_endian(value, width).len() == width,
    decreases width,
{
    if width > 0 {
        lemma_big_endian_len(value / 256, (width - 1) as nat);
    }
}

/// Values that fit `width` bytes and have the same big-endian form are the
/// same value.
pub proof fn lemma_big_endian_injective(a: nat, b: nat, width: nat)
    requires
        a < capacity(width),
        b < capacity(width),
        big_endian(a, width) == big_endian(b, width),
    ensures
        a == b,
    decreases width,
{
    if width > 0 {
        let narrower = (width - 1) as nat;
        let front_a = big_endian(a / 256, narrower);
        let front_b = big_endian(b / 256, narrower);
        assert(front_a.push((a % 256) as u8).drop_last() =~= front_a);
        assert(front_b.push((b % 256) as u8).drop_last() =~= front_b);
        assert(front_a.push((a % 256) as u8).last() == (a % 256) as u8);
        assert(front_b.push((b % 256) as u8).last() == (b % 256) as u8);
        lemma_big_endian_injective(a / 256, b / 256, narrower);
    }
}

/// The bytes hashed into a ledger-derived salt: twenty of them.
pub fn ledger_salt_preimage(sequence: u32, timestamp: u64) -> (bytes: Vec<u8>)
    ensures
        bytes@ == salt_preimage(sequence, timestamp),
        bytes@.len() == 20,
{
    let mut bytes = serialize_u32(sequence);
    let mut tail = serialize_u64(timestamp);
    proof {
        lemma_big_endian_len(sequence as nat, 4);
        lemma_big_endian_len(timestamp as nat, 8);
    }
    bytes.append(&mut tail);
    bytes
}

/// The salt derived from the ledger context: the digest of the serialized
/// sequence number followed by the serialized timestamp.
pub fn derive_salt(sequence: u32, timestamp: u64) -> (salt: [u8; 32])
    ensures
        salt@ == sha256(salt_preimage(sequence, timestamp)),
{
    let preimage = ledger_salt_preimage(sequence, timestamp);
    digest(&preimage)
}

/// Ledger contexts that differ in sequence number or in timestamp are
/// hashed from different bytes; only a collision of the digest itself could
/// give them the same salt.
pub proof fn lemma_preimage_injective(
    sequence: u32,
    timestamp: u64,
    other_sequence: u32,
    other_timestamp: u64,
)
    requires
        salt_preimage(sequence, timestamp) == salt_preimage(other_sequence, other_timestamp),
    ensures
        sequence == other_sequence,
        timestamp == other_timestamp,
{
    let left = salt_preimage(sequence, timestamp);
    let right = salt_preimage(other_sequence, other_timestamp);
    lemma_big_endian_len(sequence as nat, 4);
    lemma_big_endian_len(timestamp as nat, 8);
    lemma_big_endian_len(other_sequence as nat, 4);
    lemma_big_endian_len(other_timestamp as nat, 8);
    assert(left.subrange(4, 8) =~= big_endian(sequence as nat, 4));
    assert(right.subrange(4, 8) =~= big_endian(other_sequence as nat, 4));
    assert(left.subrange(12, 20) =~= big_endian(timestamp as nat, 8));
    assert(right.subrange(12, 20) =~= big_endian(other_timestamp as nat, 8));
    assert(capacity(4) == 0x1_0000_0000) by {
        reveal_with_fuel(capacity, 5);
    }
    assert(capacity(8) == 0x1_0000_0000_0000_0000) by {
        reveal_with_fuel(capacity, 9);
    }
    lemma_big_endian_injective(sequence as nat, other_sequence as nat, 4);
    lemma_big_endian_injective(timestamp as nat, other_timestamp as nat, 8);
}

/// Where the salt of a new instance comes from.
///
/// The two sources are never mixed: a creation uses the salt its caller
/// supplies, or the one derived from the ledger context. With the second,
/// any number of instances can be created for one asset, and the salt is
/// not known before the ledger closes. (A salt derived from the asset
/// alone, which would allow one instance per asset, is not offered.)
#[derive(Debug, Clone, Copy, PartialEq, Eq)]
pub enum SaltSource {
    /// The caller supplies the salt.
    Explicit([u8; 32]),
    /// The salt is derived from the current ledger sequence number and
    /// timestamp.
    Ledger { sequence: u32, timestamp: u64 },
}

impl SaltSource {
    /// The salt that this source stands for.
    pub open spec fn salt(self) -> Seq<u8> {
        match self {
            SaltSource::Explicit(salt) => salt@,
            SaltSource::Ledger { sequence, timestamp } => sha256(
                salt_preimage(sequence, timestamp),
            ),
        }
    }

    /// The source that a creation uses: the caller's salt if one is
    /// supplied, the ledger context otherwise.
    pub fn select(explicit: Option<[u8; 32]>, sequence: u32, timestamp: u64) -> (source: Self)
        ensures
            source == match explicit {
                Some(salt) => SaltSource::Explicit(salt),
                None => SaltSource::Ledger { sequence, timestamp },
            },
    {
        match explicit {
            Some(salt) => SaltSource::Explicit(salt),
            None => SaltSource::Ledger { sequence, timestamp },
        }
    }

    /// Computes the salt.
    pub fn resolve(&self) -> (salt: [u8; 32])
        ensures
            salt@ == self.salt(),
    {
        match self {
            SaltSource::Explicit(salt) => *salt,
            SaltSource::Ledger { sequence, timestamp } => derive_salt(*sequence, *timestamp),
        }
    }
}

} // verus!
