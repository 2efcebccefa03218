//! The base layer's encoding of deposits, forced transactions and public values.
use crate::bytes::{
    be_bytes, be_value, law_be_bytes_of_value, law_be_round_trip, lemma_be_bytes_len,
    lemma_u32_width, lemma_u64_width, u32_be,
};
use crate::hash::{keccak256, keccak256_digest, lemma_same_bytes, Hash32};
use crate::types::{Deposit, ForcedTx};
use alloy_primitives::{Address, Bytes, FixedBytes, U256};
use alloy_sol_types::SolValue;
use vstd::arithmetic::power::lemma_pow_increases;
use vstd::prelude::*;

verus! {

/// An address of the base layer.
pub type Address20 = [u8; 20];

/// `n` zero bytes.
pub open spec fn zeros(n: nat) -> Seq<u8> {
    Seq::new(n, |i: int| 0u8)
}

/// A number as one word of the encoding.
pub open spec fn word(n: nat) -> Seq<u8> {
    be_bytes(n, 32)
}

/// `(address user, uint256 amount, uint256 timestamp)`, encoded.
pub open spec fn deposit_encoding(user: Seq<u8>, amount: u64, timestamp: u64) -> Seq<u8> {
    zeros(12) + user + word(amount as nat) + word(timestamp as nat)
}

/// `(bytes data, uint256 timestamp)`, encoded: the offset of the pair, the offset of the data in
/// it, the timestamp, the data's length, and the data padded to whole words.
pub open spec fn forced_encoding(data: Seq<u8>, timestamp: u64) -> Seq<u8> {
    word(32) + word(64) + word(timestamp as nat) + word(data.len()) + data + zeros(
        ((32 - data.len() % 32) % 32) as nat,
    )
}

/// `alloy_sol_types::SolValue::abi_encode` on `(Address, U256, U256)`: three words, the address
/// padded with zeros on the left and the numbers big-endian.
#[verifier::external_body]
fn abi_encode_deposit(user: &Address20, amount: u64, timestamp: u64) -> (encoded: Vec<u8>)
    ensures
        encoded@ == deposit_encoding(user@, amount, timestamp),
{
    let user = Address::from_slice(user);
    let amount = U256::from(amount);
    let timestamp = U256::from(timestamp);
    (user, amount, timestamp).abi_encode()
}

/// `alloy_sol_types::SolValue::abi_encode` on `(Bytes, U256)`: a pair with a dynamic member stands
/// behind its offset, and so does the member in the pair; the bytes follow their length and are
/// padded with zeros on the right.
#[verifier::external_body]
fn abi_encode_forced(data: &Vec<u8>, timestamp: u64) -> (encoded: Vec<u8>)
    ensures
        encoded@ == forced_encoding(data@, timestamp),
{
    let data = Bytes::from(data.clone());
    let timestamp = U256::from(timestamp);
    (data, timestamp).abi_encode()
}

/// The digest of one deposit as the base layer computes it. The user is the low 20 bytes of the
/// rollup address.
pub open spec fn deposit_digest(item: Deposit) -> Hash32 {
    keccak256(deposit_encoding(item.to@.subrange(12, 32), item.amount, item.timestamp))
}

/// The digest of one forced transaction as the base layer computes it.
pub open spec fn forced_digest(item: ForcedTx) -> Hash32 {
    keccak256(forced_encoding(item.l2_calldata@, item.timestamp))
}

/// The digests of the deposits, one after the other.
pub open spec fn deposit_digests(items: Seq<Deposit>) -> Seq<u8>
    decreases items.len(),
{
    if items.len() == 0 {
        Seq::empty()
    } else {
        deposit_digests(items.drop_last()) + deposit_digest(items.last())@
    }
}

/// The digests of the forced transactions, one after the other.
pub open spec fn forced_digests(items: Seq<ForcedTx>) -> Seq<u8>
    decreases items.len(),
{
    if items.len() == 0 {
        Seq::empty()
    } else {
        forced_digests(items.drop_last()) + forced_digest(items.last())@
    }
}

/// The low 20 bytes of a rollup address.
fn low_address(to: &Hash32) -> (user: Address20)
    ensures
        user@ == to@.subrange(12, 32),
{
    let mut user: Address20 = [0u8; 20];
    let mut i: usize = 0;
    while i < 20
        invariant
            i <= 20,
            forall|j: int| 0 <= j < i ==> user[j] == to[j + 12],
        decreases 20 - i,
    {
        user[i] = to[i + 12];
        i = i + 1;
    }
    assert(user@ =~= to@.subrange(12, 32));
    user
}

/// The digest that commits to the deposits of a block.
pub fn hash_deposits(items: &[Deposit]) -> (digest: Hash32)
    ensures
        digest == keccak256(deposit_digests(items@)),
{
    let mut item_hashes: Vec<u8> = Vec::new();
    let mut i: usize = 0;
    assert(items@.take(0).len() == 0);
    while i < items.len()
        invariant
            i <= items@.len(),
            item_hashes@ == deposit_digests(items@.take(i as int)),
        decreases items@.len() - i,
    {
        let item: &Deposit = &items[i];
        let user: Address20 = low_address(&item.to);
        let encoded: Vec<u8> = abi_encode_deposit(&user, item.amount, item.timestamp);
        let item_hash: Hash32 = keccak256_digest(encoded.as_slice());
        assert(items@.take(i + 1).drop_last() =~= items@.take(i as int));
        let ghost before = item_hashes@;
        item_hashes.extend_from_slice(&item_hash);
        assert(item_hashes@ =~= before + item_hash@);
        i = i + 1;
    }
    assert(items@.take(i as int) =~= items@);
    keccak256_digest(item_hashes.as_slice())
}

/// The digest that commits to the forced transactions of a block.
pub fn hash_forced_txs(items: &[ForcedTx]) -> (digest: Hash32)
    ensures
        digest == keccak256(forced_digests(items@)),
{
    let mut item_hashes: Vec<u8> = Vec::new();
    let mut i: usize = 0;
    assert(items@.take(0).len() == 0);
    while i < items.len()
        invariant
            i <= items@.len(),
            item_hashes@ == forced_digests(items@.take(i as int)),
        decreases items@.len() - i,
    {
        let item: &ForcedTx = &items[i];
        let encoded: Vec<u8> = abi_encode_forced(&item.l2_calldata, item.timestamp);
        let item_hash: Hash32 = keccak256_digest(encoded.as_slice());
        assert(items@.take(i + 1).drop_last() =~= items@.take(i as int));
        let ghost before = item_hashes@;
        item_hashes.extend_from_slice(&item_hash);
        assert(item_hashes@ =~= before + item_hash@);
        i = i + 1;
    }
    assert(items@.take(i as int) =~= items@);
    keccak256_digest(item_hashes.as_slice())
}

/// A commitment: the first 28 bytes of a digest and the number of items behind it.
pub open spec fn commitment(hash: Seq<u8>, count: u32) -> Seq<u8> {
    hash.take(28) + be_bytes(count as nat, 4)
}

/// The first 28 bytes of `hash`, then `count`.
pub fn build_commitment(hash: &Hash32, count: u32) -> (out: Hash32)
    ensures
        out@ == commitment(hash@, count),
{
    let mut out: Hash32 = [0u8; 32];
    let tail: [u8; 4] = u32_be(count);
    let mut i: usize = 0;
    while i < 28
        invariant
            i <= 28,
            forall|j: int| 0 <= j < i ==> out[j] == hash[j],
        decreases 28 - i,
    {
        out[i] = hash[i];
        i = i + 1;
    }
    out[28] = tail[0];
    out[29] = tail[1];
    out[30] = tail[2];
    out[31] = tail[3];
    assert(out@ =~= commitment(hash@, count));
    out
}

/// What a proof of a block makes public.
#[derive(Debug, Clone, Copy, PartialEq, Eq)]
pub struct PublicValues {
    pub pre_state_root: Hash32,
    pub post_state_root: Hash32,
    pub deposits_commitment: Hash32,
    pub forced_txs_commitment: Hash32,
}

/// The public values as four words.
pub open spec fn public_encoding(values: PublicValues) -> Seq<u8> {
    values.pre_state_root@ + values.post_state_root@ + values.deposits_commitment@
        + values.forced_txs_commitment@
}

/// `alloy_sol_types::SolValue::abi_encode` on four `bytes32`: the four words one after the other.
#[verifier::external_body]
fn abi_encode_words(a: &Hash32, b: &Hash32, c: &Hash32, d: &Hash32) -> (encoded: Vec<u8>)
    ensures
        encoded@ == a@ + b@ + c@ + d@,
{
    let a = FixedBytes::<32>::from(a);
    let b = FixedBytes::<32>::from(b);
    let c = FixedBytes::<32>::from(c);
    let d = FixedBytes::<32>::from(d);
    (a, b, c, d).abi_encode()
}

/// `alloy_sol_types::SolValue::abi_decode` on four `bytes32`: it fails on fewer than four words,
/// and else reads the first four; what follows them is ignored.
#[verifier::external_body]
fn abi_decode_words(data: &[u8]) -> (decoded: Option<(Hash32, Hash32, Hash32, Hash32)>)
    ensures
        decoded is Some <==> data@.len() >= 128,
        decoded matches Some(words) ==> words.0@ + words.1@ + words.2@ + words.3@ == data@.take(
            128,
        ),
{
    let (a, b, c, d) = <(
        FixedBytes<32>,
        FixedBytes<32>,
        FixedBytes<32>,
        FixedBytes<32>,
    )>::abi_decode(data).ok()?;
    Some((a.0, b.0, c.0, d.0))
}

impl PublicValues {
    /// The values as the prover commits to them.
    pub fn abi_encode(&self) -> (encoded: Vec<u8>)
        ensures
            encoded@ == public_encoding(*self),
    {
        abi_encode_words(
            &self.pre_state_root,
            &self.post_state_root,
            &self.deposits_commitment,
            &self.forced_txs_commitment,
        )
    }

    /// The values that a proof committed to.
    pub fn abi_decode(data: &[u8]) -> (decoded: Option<PublicValues>)
        ensures
            decoded is Some <==> data@.len() >= 128,
            decoded matches Some(values) ==> public_encoding(values) == data@.take(128),
    {
        match abi_decode_words(data) {
            Some(
                (pre_state_root, post_state_root, deposits_commitment, forced_txs_commitment),
            ) => Some(
                PublicValues {
                    pre_state_root,
                    post_state_root,
                    deposits_commitment,
                    forced_txs_commitment,
                },
            ),
            None => None,
        }
    }
}

/// Public values that are encoded and decoded again are the same values.
pub proof fn law_public_values_round_trip(values: PublicValues, decoded: PublicValues)
    requires
        public_encoding(decoded) == public_encoding(values).take(128),
    ensures
        public_encoding(values).len() == 128,
        decoded == values,
{
    let whole = public_encoding(values);
    assert(whole.take(128) =~= whole);
    assert(decoded.pre_state_root@ =~= public_encoding(decoded).subrange(0, 32));
    assert(decoded.post_state_root@ =~= public_encoding(decoded).subrange(32, 64));
    assert(decoded.deposits_commitment@ =~= public_encoding(decoded).subrange(64, 96));
    assert(decoded.forced_txs_commitment@ =~= public_encoding(decoded).subrange(96, 128));
    assert(values.pre_state_root@ =~= whole.subrange(0, 32));
    assert(values.post_state_root@ =~= whole.subrange(32, 64));
    assert(values.deposits_commitment@ =~= whole.subrange(64, 96));
    assert(values.forced_txs_commitment@ =~= whole.subrange(96, 128));
    lemma_same_bytes(decoded.pre_state_root, values.pre_state_root);
    lemma_same_bytes(decoded.post_state_root, values.post_state_root);
    lemma_same_bytes(decoded.deposits_commitment, values.deposits_commitment);
    lemma_same_bytes(decoded.forced_txs_commitment, values.forced_txs_commitment);
}

/// A commitment tells the number of items and the first 28 bytes of the digest.
pub proof fn law_commitment_binds(a: Hash32, count_a: u32, b: Hash32, count_b: u32)
    requires
        commitment(a@, count_a) == commitment(b@, count_b),
    ensures
        count_a == count_b,
        a@.take(28) == b@.take(28),
{
    lemma_be_bytes_len(count_a as nat, 4);
    lemma_be_bytes_len(count_b as nat, 4);
    assert(commitment(a@, count_a).skip(28) =~= be_bytes(count_a as nat, 4));
    assert(commitment(b@, count_b).skip(28) =~= be_bytes(count_b as nat, 4));
    assert(commitment(a@, count_a).take(28) =~= a@.take(28));
    assert(commitment(b@, count_b).take(28) =~= b@.take(28));
    lemma_u32_width(count_a);
    lemma_u32_width(count_b);
    law_be_round_trip(count_a as nat, 4);
    law_be_round_trip(count_b as nat, 4);
}

proof fn lemma_word(n: u64)
    ensures
        word(n as nat).len() == 32,
        be_value(word(n as nat)) == n,
{
    lemma_be_bytes_len(n as nat, 32);
    lemma_u64_width(n);
    lemma_pow_increases(256, 8, 32);
    law_be_round_trip(n as nat, 32);
}

/// The encoding of a deposit tells the user, the amount and the timestamp.
pub proof fn law_deposit_encoding_binds(
    user_a: Address20,
    amount_a: u64,
    timestamp_a: u64,
    user_b: Address20,
    amount_b: u64,
    timestamp_b: u64,
)
    requires
        deposit_encoding(user_a@, amount_a, timestamp_a) == deposit_encoding(
            user_b@,
            amount_b,
            timestamp_b,
        ),
    ensures
        user_a@ == user_b@,
        amount_a == amount_b,
        timestamp_a == timestamp_b,
{
    let a = deposit_encoding(user_a@, amount_a, timestamp_a);
    let b = deposit_encoding(user_b@, amount_b, timestamp_b);
    lemma_word(amount_a);
    lemma_word(amount_b);
    lemma_word(timestamp_a);
    lemma_word(timestamp_b);
    assert(a.subrange(12, 32) =~= user_a@);
    assert(b.subrange(12, 32) =~= user_b@);
    assert(a.subrange(32, 64) =~= word(amount_a as nat));
    assert(b.subrange(32, 64) =~= word(amount_b as nat));
    assert(a.subrange(64, 96) =~= word(timestamp_a as nat));
    assert(b.subrange(64, 96) =~= word(timestamp_b as nat));
}

/// The encoding of a forced transaction tells the payload and the timestamp.
pub proof fn law_forced_encoding_binds(
    data_a: Seq<u8>,
    timestamp_a: u64,
    data_b: Seq<u8>,
    timestamp_b: u64,
)
    requires
        data_a.len() <= u64::MAX,
        data_b.len() <= u64::MAX,
        forced_encoding(data_a, timestamp_a) == forced_encoding(data_b, timestamp_b),
    ensures
        data_a == data_b,
        timestamp_a == timestamp_b,
{
    let a = forced_encoding(data_a, timestamp_a);
    let b = forced_encoding(data_b, timestamp_b);
    lemma_word(32);
    lemma_word(64);
    lemma_word(timestamp_a);
    lemma_word(timestamp_b);
    lemma_word(data_a.len() as u64);
    lemma_word(data_b.len() as u64);
    assert(a.subrange(64, 96) =~= word(timestamp_a as nat));
    assert(b.subrange(64, 96) =~= word(timestamp_b as nat));
    assert(a.subrange(96, 128) =~= word(data_a.len()));
    assert(b.subrange(96, 128) =~= word(data_b.len()));
    assert(data_a.len() == data_b.len());
    assert(a.subrange(128, 128 + data_a.len() as int) =~= data_a);
    assert(b.subrange(128, 128 + data_b.len() as int) =~= data_b);
}

/// The bytes that are hashed for a list of deposits are one digest of 32 bytes after the other, in the
/// order of the list.
pub proof fn law_deposit_digests_are_in_place(items: Seq<Deposit>, i: int)
    requires
        0 <= i < items.len(),
    ensures
        deposit_digests(items).len() == 32 * items.len(),
        deposit_digests(items).subrange(32 * i, 32 * i + 32) == deposit_digest(items[i])@,
    decreases items.len(),
{
    lemma_deposit_digests_len(items);
    let init = items.drop_last();
    lemma_deposit_digests_len(init);
    if i < init.len() {
        law_deposit_digests_are_in_place(init, i);
        assert(deposit_digests(items).subrange(32 * i, 32 * i + 32) =~= deposit_digests(init).subrange(
            32 * i,
            32 * i + 32,
        ));
    } else {
        assert(deposit_digests(items).subrange(32 * i, 32 * i + 32) =~= deposit_digest(items[i])@);
    }
}

proof fn lemma_deposit_digests_len(items: Seq<Deposit>)
    ensures
        deposit_digests(items).len() == 32 * items.len(),
    decreases items.len(),
{
    if items.len() > 0 {
        lemma_deposit_digests_len(items.drop_last());
    }
}

/// The bytes of two lists of deposits together are those of the first followed by those of the second.
pub proof fn law_deposit_digests_append(first: Seq<Deposit>, second: Seq<Deposit>)
    ensures
        deposit_digests(first + second) == deposit_digests(first) + deposit_digests(second),
    decreases second.len(),
{
    if second.len() == 0 {
        assert(first + second =~= first);
        assert(deposit_digests(first) + deposit_digests(second) =~= deposit_digests(first));
    } else {
        law_deposit_digests_append(first, second.drop_last());
        assert((first + second).drop_last() =~= first + second.drop_last());
        assert(deposit_digests(first + second) =~= deposit_digests(first) + deposit_digests(second));
    }
}

/// The bytes that are hashed for a list of forced transactions are one digest of 32 bytes after the other, in the
/// order of the list.
pub proof fn law_forced_digests_are_in_place(items: Seq<ForcedTx>, i: int)
    requires
        0 <= i < items.len(),
    ensures
        forced_digests(items).len() == 32 * items.len(),
        forced_digests(items).subrange(32 * i, 32 * i + 32) == forced_digest(items[i])@,
    decreases items.len(),
{
    lemma_forced_digests_len(items);
    let init = items.drop_last();
    lemma_forced_digests_len(init);
    if i < init.len() {
        law_forced_digests_are_in_place(init, i);
        assert(forced_digests(items).subrange(32 * i, 32 * i + 32) =~= forced_digests(init).subrange(
            32 * i,
            32 * i + 32,
        ));
    } else {
        assert(forced_digests(items).subrange(32 * i, 32 * i + 32) =~= forced_digest(items[i])@);
    }
}

proof fn lemma_forced_digests_len(items: Seq<ForcedTx>)
    ensures
        forced_digests(items).len() == 32 * items.len(),
    decreases items.len(),
{
    if items.len() > 0 {
        lemma_forced_digests_len(items.drop_last());
    }
}

/// The bytes of two lists of forced transactions together are those of the first followed by those of the second.
pub proof fn law_forced_digests_append(first: Seq<ForcedTx>, second: Seq<ForcedTx>)
    ensures
        forced_digests(first + second) == forced_digests(first) + forced_digests(second),
    decreases second.len(),
{
    if second.len() == 0 {
        assert(first + second =~= first);
        assert(forced_digests(first) + forced_digests(second) =~= forced_digests(first));
    } else {
        law_forced_digests_append(first, second.drop_last());
        assert((first + second).drop_last() =~= first + second.drop_last());
        assert(forced_digests(first + second) =~= forced_digests(first) + forced_digests(second));
    }
}

/// The digest of a deposit is that of three words: the low 20 bytes of the address behind zeros,
/// the amount, and the timestamp.
pub proof fn law_deposit_digest_is_of_three_words(item: Deposit, bytes: Seq<u8>)
    requires
        bytes.len() == 96,
        forall|i: int| 0 <= i < 12 ==> #[trigger] bytes[i] == 0,
        bytes.subrange(12, 32) == item.to@.subrange(12, 32),
        be_value(bytes.subrange(32, 64)) == item.amount,
        be_value(bytes.subrange(64, 96)) == item.timestamp,
    ensures
        deposit_digest(item) == keccak256(bytes),
{
    law_be_bytes_of_value(bytes.subrange(32, 64));
    law_be_bytes_of_value(bytes.subrange(64, 96));
    assert(bytes.subrange(0, 12) =~= zeros(12));
    assert(bytes =~= bytes.subrange(0, 12) + bytes.subrange(12, 32) + bytes.subrange(32, 64)
        + bytes.subrange(64, 96));
}

/// The digest of a forced transaction is that of four words (two offsets, the timestamp and the
/// length of the payload) and of the payload, padded with zeros to whole words.
pub proof fn law_forced_digest_is_of_words_and_payload(item: ForcedTx, bytes: Seq<u8>)
    requires
        ({
            let len = item.l2_calldata@.len();
            &&& 128 + len <= bytes.len() < 128 + len + 32
            &&& bytes.len() % 32 == 0
            &&& be_value(bytes.subrange(0, 32)) == 32
            &&& be_value(bytes.subrange(32, 64)) == 64
            &&& be_value(bytes.subrange(64, 96)) == item.timestamp
            &&& be_value(bytes.subrange(96, 128)) == len
            &&& bytes.subrange(128, 128 + len as int) == item.l2_calldata@
            &&& forall|i: int| 128 + len <= i < bytes.len() ==> #[trigger] bytes[i] == 0
        }),
    ensures
        forced_digest(item) == keccak256(bytes),
{
    let len = item.l2_calldata@.len();
    law_be_bytes_of_value(bytes.subrange(0, 32));
    law_be_bytes_of_value(bytes.subrange(32, 64));
    law_be_bytes_of_value(bytes.subrange(64, 96));
    law_be_bytes_of_value(bytes.subrange(96, 128));
    let pad = bytes.skip(128 + len as int);
    assert(pad.len() == (32 - len % 32) % 32);
    assert(pad =~= zeros(((32 - len % 32) % 32) as nat));
    assert(bytes =~= bytes.subrange(0, 32) + bytes.subrange(32, 64) + bytes.subrange(64, 96)
        + bytes.subrange(96, 128) + bytes.subrange(128, 128 + len as int) + pad);
}

/// The encodings hold their parts in place: a deposit the user and the two numbers, a forced
/// transaction the two offsets, the two numbers, and the payload with zeros behind it.
pub proof fn law_encodings_hold_their_parts(
    user: Address20,
    amount: u64,
    timestamp: u64,
    data: Seq<u8>,
)
    requires
        data.len() <= u64::MAX,
    ensures
        ({
            let e = deposit_encoding(user@, amount, timestamp);
            &&& e.len() == 96
            &&& forall|i: int| 0 <= i < 12 ==> #[trigger] e[i] == 0
            &&& e.subrange(12, 32) == user@
            &&& be_value(e.subrange(32, 64)) == amount
            &&& be_value(e.subrange(64, 96)) == timestamp
        }),
        ({
            let e = forced_encoding(data, timestamp);
            &&& 128 + data.len() <= e.len() < 128 + data.len() + 32
            &&& e.len() % 32 == 0
            &&& be_value(e.subrange(0, 32)) == 32
            &&& be_value(e.subrange(32, 64)) == 64
            &&& be_value(e.subrange(64, 96)) == timestamp
            &&& be_value(e.subrange(96, 128)) == data.len()
            &&& e.subrange(128, 128 + data.len() as int) == data
            &&& forall|i: int| 128 + data.len() <= i < e.len() ==> #[trigger] e[i] == 0
        }),
{
    lemma_word(amount);
    lemma_word(timestamp);
    lemma_word(32);
    lemma_word(64);
    lemma_word(data.len() as u64);
    let d = deposit_encoding(user@, amount, timestamp);
    assert(d.subrange(12, 32) =~= user@);
    assert(d.subrange(32, 64) =~= word(amount as nat));
    assert(d.subrange(64, 96) =~= word(timestamp as nat));
    let f = forced_encoding(data, timestamp);
    assert(f.subrange(0, 32) =~= word(32));
    assert(f.subrange(32, 64) =~= word(64));
    assert(f.subrange(64, 96) =~= word(timestamp as nat));
    assert(f.subrange(96, 128) =~= word(data.len()));
    assert(f.subrange(128, 128 + data.len() as int) =~= data);
}

/// A commitment is 32 bytes: the first 28 of the digest, then the count.
pub proof fn law_commitment_layout(hash: Hash32, count: u32)
    ensures
        commitment(hash@, count).len() == 32,
        commitment(hash@, count).take(28) == hash@.take(28),
        be_value(commitment(hash@, count).skip(28)) == count,
{
    lemma_be_bytes_len(count as nat, 4);
    assert(commitment(hash@, count).take(28) =~= hash@.take(28));
    assert(commitment(hash@, count).skip(28) =~= be_bytes(count as nat, 4));
    lemma_u32_width(count);
    law_be_round_trip(count as nat, 4);
}

/// The public values are encoded in four words: the root before, the root after, and the two
/// commitments.
pub proof fn law_public_values_layout(values: PublicValues)
    ensures
        public_encoding(values).len() == 128,
        public_encoding(values).subrange(0, 32) == values.pre_state_root@,
        public_encoding(values).subrange(32, 64) == values.post_state_root@,
        public_encoding(values).subrange(64, 96) == values.deposits_commitment@,
        public_encoding(values).subrange(96, 128) == values.forced_txs_commitment@,
{
    let e = public_encoding(values);
    assert(e.subrange(0, 32) =~= values.pre_state_root@);
    assert(e.subrange(32, 64) =~= values.post_state_root@);
    assert(e.subrange(64, 96) =~= values.deposits_commitment@);
    assert(e.subrange(96, 128) =~= values.forced_txs_commitment@);
}

} // verus!
