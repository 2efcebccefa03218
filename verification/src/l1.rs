//! What comes in from the base layer.
use crate::abi::{deposit_digest, deposit_encoding, forced_digest, forced_encoding, zeros, Address20};
use crate::bytes::{
    be_bytes, be_value, fits_u64, law_be_bytes_of_value, law_le_reads_backwards, law_le_round_trip,
    le_value, lemma_u64_width,
};
use crate::hash::{hash_of, keccak256, lemma_hash_of, lemma_hash_of_bytes, zero, zero_hash, Hash32};
use crate::types::{Deposit, ForcedTx};
use alloy_primitives::U256;
use vstd::arithmetic::power::pow;
use vstd::prelude::*;

verus! {

/// A 256-bit number of the base layer, big-endian.
pub type Word = [u8; 32];

/// A deposit as the bridge holds it.
#[derive(Debug, Clone, Copy, PartialEq, Eq)]
pub struct L1Deposit {
    pub user: Address20,
    pub amount: Word,
    pub timestamp: Word,
}

/// A forced transaction as the bridge holds it.
#[derive(Debug, Clone, PartialEq, Eq)]
pub struct L1ForcedTx {
    pub data: Vec<u8>,
    pub timestamp: Word,
}

/// A number of the base layer fits the rollup's 64 bits.
pub open spec fn fits(word: Word) -> bool {
    be_value(word@) <= u64::MAX
}

/// The numbers of a deposit fit.
pub open spec fn deposit_fits(item: L1Deposit) -> bool {
    fits(item.amount) && fits(item.timestamp)
}

/// The rollup address of an address of the base layer: twelve zero bytes, then the address.
pub open spec fn address_hash(addr: Address20) -> Hash32 {
    hash_of(zeros(12) + addr@)
}

/// The deposit that the rollup makes of one of the bridge.
pub open spec fn deposit_of(item: L1Deposit) -> Deposit {
    Deposit {
        to: address_hash(item.user),
        amount: be_value(item.amount@) as u64,
        timestamp: be_value(item.timestamp@) as u64,
    }
}

/// The transfer in a payload: sender, recipient, nonce, fee, amount, timestamp and an inner
/// payload behind its length, the numbers little-endian. What follows is ignored.
pub struct Payload {
    pub from: Hash32,
    pub to: Hash32,
    pub nonce: u64,
    pub fee: u64,
    pub amount: u64,
}

/// The payload is complete.
pub open spec fn payload_complete(data: Seq<u8>) -> bool {
    data.len() >= 104 && 104 + le_value(data.subrange(96, 104)) <= data.len()
}

/// The transfer that a payload holds, if it is complete.
pub open spec fn payload_of(data: Seq<u8>) -> Option<Payload> {
    if payload_complete(data) {
        Some(
            Payload {
                from: hash_of(data.subrange(0, 32)),
                to: hash_of(data.subrange(32, 64)),
                nonce: le_value(data.subrange(64, 72)) as u64,
                fee: le_value(data.subrange(72, 80)) as u64,
                amount: le_value(data.subrange(80, 88)) as u64,
            },
        )
    } else {
        None
    }
}

/// `tx` is what the rollup makes of a forced transaction of the bridge: the transfer in its
/// payload, or a dummy where there is none. The timestamp is the bridge's, and the whole payload is
/// kept.
pub open spec fn forced_of(item: L1ForcedTx, tx: ForcedTx) -> bool {
    &&& tx.timestamp == be_value(item.timestamp@)
    &&& tx.l2_calldata@ == item.data@
    &&& match payload_of(item.data@) {
        Some(payload) => tx.from == payload.from && tx.to == payload.to && tx.nonce == payload.nonce
            && tx.fee == payload.fee && tx.amount == payload.amount,
        None => tx.from == zero() && tx.to == zero() && tx.nonce == 0 && tx.fee == 0 && tx.amount
            == 0,
    }
}

/// `alloy_primitives::U256::to::<u64>`, on the number that `from_be_bytes` reads: the number
/// itself, which has to fit.
#[verifier::external_body]
fn word_to_u64(word: &Word) -> (n: u64)
    requires
        be_value(word@) <= u64::MAX,
    ensures
        n == be_value(word@),
{
    U256::from_be_bytes(*word).to::<u64>()
}

/// `bincode::deserialize` on `([u8; 32], [u8; 32], u64, u64, u64, u64, Vec<u8>)`: it fails where
/// the bytes run out, and else reads the hashes, the little-endian numbers, and as many bytes as a
/// little-endian length says; what follows them is ignored.
#[verifier::external_body]
fn decode_payload(data: &[u8]) -> (fields: Option<
    (Hash32, Hash32, u64, u64, u64, u64, Vec<u8>),
>)
    ensures
        fields is Some <==> payload_complete(data@),
        fields matches Some(f) ==> f.0@ == data@.subrange(0, 32) && f.1@ == data@.subrange(32, 64)
            && f.2 == le_value(data@.subrange(64, 72)) && f.3 == le_value(data@.subrange(72, 80))
            && f.4 == le_value(data@.subrange(80, 88)) && f.5 == le_value(data@.subrange(88, 96))
            && f.6@ == data@.subrange(104, 104 + le_value(data@.subrange(96, 104)) as int),
{
    bincode::deserialize::<([u8; 32], [u8; 32], u64, u64, u64, u64, Vec<u8>)>(data).ok()
}

/// The rollup address of an address of the base layer.
pub fn address_to_hash(addr: &Address20) -> (hash: Hash32)
    ensures
        hash == address_hash(*addr),
        hash@ == zeros(12) + addr@,
{
    let mut hash: Hash32 = zero_hash();
    let mut i: usize = 0;
    while i < 20
        invariant
            i <= 20,
            forall|j: int| 0 <= j < 12 ==> hash[j] == 0,
            forall|j: int| 0 <= j < i ==> hash[j + 12] == addr[j],
        decreases 20 - i,
    {
        hash[i + 12] = addr[i];
        i = i + 1;
    }
    proof {
        assert forall|j: int| 0 <= j < 32 implies hash@[j] == (zeros(12) + addr@)[j] by {
            if j >= 12 {
                assert(hash[(j - 12) + 12] == addr[j - 12]);
            }
        }
        assert(hash@ =~= zeros(12) + addr@);
        lemma_hash_of(hash);
    }
    hash
}

/// The items that the rollup has not processed yet, as the first and the number of them.
pub fn unprocessed(processed: &Word, total: &Word) -> (range: Option<(u64, u64)>)
    requires
        fits(*processed),
        fits(*total),
    ensures
        range is Some <==> be_value(total@) > be_value(processed@),
        range matches Some((start, count)) ==> start == be_value(processed@) && start + count
            == be_value(total@),
{
    let processed: u64 = word_to_u64(processed);
    let total: u64 = word_to_u64(total);
    if total > processed {
        Some((processed, total - processed))
    } else {
        None
    }
}

/// Whether the numbers of all deposits fit.
pub fn deposits_fit(items: &[L1Deposit]) -> (all: bool)
    ensures
        all == (forall|i: int| 0 <= i < items@.len() ==> deposit_fits(#[trigger] items@[i])),
{
    let mut i: usize = 0;
    while i < items.len()
        invariant
            i <= items@.len(),
            forall|j: int| 0 <= j < i ==> deposit_fits(#[trigger] items@[j]),
        decreases items@.len() - i,
    {
        if !fits_u64(&items[i].amount) || !fits_u64(&items[i].timestamp) {
            assert(!deposit_fits(items@[i as int]));
            return false;
        }
        i = i + 1;
    }
    true
}

/// Whether the timestamps of all forced transactions fit.
pub fn forced_txs_fit(items: &[L1ForcedTx]) -> (all: bool)
    ensures
        all == (forall|i: int| 0 <= i < items@.len() ==> fits((#[trigger] items@[i]).timestamp)),
{
    let mut i: usize = 0;
    while i < items.len()
        invariant
            i <= items@.len(),
            forall|j: int| 0 <= j < i ==> fits((#[trigger] items@[j]).timestamp),
        decreases items@.len() - i,
    {
        if !fits_u64(&items[i].timestamp) {
            assert(!fits(items@[i as int].timestamp));
            return false;
        }
        i = i + 1;
    }
    true
}

/// The deposits that the rollup makes of those of the bridge, in their order.
pub fn deposits_from_l1(items: &[L1Deposit]) -> (deposits: Vec<Deposit>)
    requires
        forall|i: int| 0 <= i < items@.len() ==> deposit_fits(#[trigger] items@[i]),
    ensures
        deposits@ == items@.map_values(|item: L1Deposit| deposit_of(item)),
{
    let mut deposits: Vec<Deposit> = Vec::new();
    let mut i: usize = 0;
    while i < items.len()
        invariant
            i <= items@.len(),
            forall|j: int| 0 <= j < items@.len() ==> deposit_fits(#[trigger] items@[j]),
            deposits@.len() == i,
            forall|j: int| 0 <= j < i ==> #[trigger] deposits@[j] == deposit_of(items@[j]),
        decreases items@.len() - i,
    {
        let item: &L1Deposit = &items[i];
        assert(deposit_fits(items@[i as int]));
        deposits.push(
            Deposit {
                to: address_to_hash(&item.user),
                amount: word_to_u64(&item.amount),
                timestamp: word_to_u64(&item.timestamp),
            },
        );
        i = i + 1;
    }
    assert(deposits@ =~= items@.map_values(|item: L1Deposit| deposit_of(item)));
    deposits
}

fn copy_bytes(bytes: &Vec<u8>) -> (copy: Vec<u8>)
    ensures
        copy@ == bytes@,
{
    let mut copy: Vec<u8> = Vec::new();
    copy.extend_from_slice(bytes.as_slice());
    assert(copy@ =~= bytes@);
    copy
}

/// The forced transactions that the rollup makes of those of the bridge, in their order.
pub fn forced_txs_from_l1(items: &[L1ForcedTx]) -> (txs: Vec<ForcedTx>)
    requires
        forall|i: int| 0 <= i < items@.len() ==> fits((#[trigger] items@[i]).timestamp),
    ensures
        txs@.len() == items@.len(),
        forall|i: int| 0 <= i < items@.len() ==> forced_of(items@[i], #[trigger] txs@[i]),
{
    let mut txs: Vec<ForcedTx> = Vec::new();
    let mut i: usize = 0;
    while i < items.len()
        invariant
            i <= items@.len(),
            forall|j: int| 0 <= j < items@.len() ==> fits((#[trigger] items@[j]).timestamp),
            txs@.len() == i,
            forall|j: int| 0 <= j < i ==> forced_of(items@[j], #[trigger] txs@[j]),
        decreases items@.len() - i,
    {
        let item: &L1ForcedTx = &items[i];
        assert(fits(items@[i as int].timestamp));
        let timestamp: u64 = word_to_u64(&item.timestamp);
        let l2_calldata: Vec<u8> = copy_bytes(&item.data);
        let tx: ForcedTx = match decode_payload(item.data.as_slice()) {
            Some((from, to, nonce, fee, amount, _, _)) => {
                proof {
                    lemma_hash_of(from);
                    lemma_hash_of(to);
                }
                ForcedTx { from, to, nonce, fee, amount, timestamp, l2_calldata }
            },
            None => ForcedTx {
                from: zero_hash(),
                to: zero_hash(),
                nonce: 0,
                fee: 0,
                amount: 0,
                timestamp,
                l2_calldata,
            },
        };
        assert(forced_of(items@[i as int], tx));
        txs.push(tx);
        i = i + 1;
    }
    txs
}

/// What a block commits to for a deposit is what the bridge commits to.
pub proof fn law_deposit_digest_is_the_bridges(item: L1Deposit)
    requires
        deposit_fits(item),
    ensures
        deposit_digest(deposit_of(item)) == keccak256(
            deposit_encoding(
                item.user@,
                be_value(item.amount@) as u64,
                be_value(item.timestamp@) as u64,
            ),
        ),
{
    lemma_hash_of_bytes(zeros(12) + item.user@);
    assert(deposit_of(item).to@.subrange(12, 32) =~= item.user@);
}

/// What a block commits to for a forced transaction is what the bridge commits to, whether or not
/// the payload can be read.
pub proof fn law_forced_digest_is_the_bridges(item: L1ForcedTx, tx: ForcedTx)
    requires
        fits(item.timestamp),
        forced_of(item, tx),
    ensures
        forced_digest(tx) == keccak256(
            forced_encoding(item.data@, be_value(item.timestamp@) as u64),
        ),
{
}

/// A payload as a user encodes it: the transfer with any timestamp and any inner payload.
pub open spec fn encoded_payload(
    from: Hash32,
    to: Hash32,
    nonce: u64,
    fee: u64,
    amount: u64,
    timestamp: u64,
    inner: Seq<u8>,
) -> Seq<u8> {
    from@ + to@ + be_bytes(nonce as nat, 8).reverse() + be_bytes(fee as nat, 8).reverse()
        + be_bytes(amount as nat, 8).reverse() + be_bytes(timestamp as nat, 8).reverse() + be_bytes(
        inner.len(),
        8,
    ).reverse() + inner
}

proof fn lemma_little(n: u64)
    ensures
        be_bytes(n as nat, 8).reverse().len() == 8,
        le_value(be_bytes(n as nat, 8).reverse()) == n,
{
    lemma_u64_width(n);
    law_le_round_trip(n as nat, 8);
}

proof fn lemma_encoded_payload(
    from: Hash32,
    to: Hash32,
    nonce: u64,
    fee: u64,
    amount: u64,
    timestamp: u64,
    inner: Seq<u8>,
    rest: Seq<u8>,
)
    requires
        inner.len() <= u64::MAX,
    ensures
        ({
            let data = encoded_payload(from, to, nonce, fee, amount, timestamp, inner) + rest;
            &&& data.len() == 104 + inner.len() + rest.len()
            &&& data.subrange(0, 32) == from@
            &&& data.subrange(32, 64) == to@
            &&& le_value(data.subrange(64, 72)) == nonce
            &&& le_value(data.subrange(72, 80)) == fee
            &&& le_value(data.subrange(80, 88)) == amount
            &&& le_value(data.subrange(96, 104)) == inner.len()
        }),
{
    lemma_little(nonce);
    lemma_little(fee);
    lemma_little(amount);
    lemma_little(timestamp);
    lemma_little(inner.len() as u64);
    let data = encoded_payload(from, to, nonce, fee, amount, timestamp, inner) + rest;
    assert(data.subrange(0, 32) =~= from@);
    assert(data.subrange(32, 64) =~= to@);
    assert(data.subrange(64, 72) =~= be_bytes(nonce as nat, 8).reverse());
    assert(data.subrange(72, 80) =~= be_bytes(fee as nat, 8).reverse());
    assert(data.subrange(80, 88) =~= be_bytes(amount as nat, 8).reverse());
    assert(data.subrange(96, 104) =~= be_bytes(inner.len(), 8).reverse());
}

/// A transfer that a user encodes is read back from the bridge, whatever its inner payload, the
/// empty one too, and whatever follows it: the forced transaction has the encoded sender, recipient,
/// nonce, fee and amount, the bridge's timestamp, and the whole payload.
pub proof fn law_encoded_transfer_is_read_back(
    from: Hash32,
    to: Hash32,
    nonce: u64,
    fee: u64,
    amount: u64,
    timestamp: u64,
    inner: Seq<u8>,
    rest: Seq<u8>,
    item: L1ForcedTx,
    tx: ForcedTx,
)
    requires
        inner.len() <= u64::MAX,
        item.data@ == encoded_payload(from, to, nonce, fee, amount, timestamp, inner) + rest,
        forced_of(item, tx),
    ensures
        tx.from == from,
        tx.to == to,
        tx.nonce == nonce,
        tx.fee == fee,
        tx.amount == amount,
        tx.timestamp == be_value(item.timestamp@),
        tx.l2_calldata@ == item.data@,
{
    lemma_encoded_payload(from, to, nonce, fee, amount, timestamp, inner, rest);
    lemma_hash_of(from);
    lemma_hash_of(to);
}

/// A dummy is made exactly where the bytes run out: where there are fewer than the 104 of a transfer
/// without an inner payload, or fewer than the inner length asks for. It still has the bridge's
/// timestamp and the whole payload.
pub proof fn law_dummy_is_made_where_the_bytes_run_out(item: L1ForcedTx, tx: ForcedTx)
    requires
        forced_of(item, tx),
    ensures
        payload_of(item.data@) is None <==> item.data@.len() < 104 || item.data@.len() - 104
            < le_value(item.data@.subrange(96, 104)),
        payload_complete(item.data@) <==> payload_of(item.data@) is Some,
        payload_of(item.data@) is None ==> tx.from == zero() && tx.to == zero() && tx.nonce == 0
            && tx.fee == 0 && tx.amount == 0,
        payload_of(item.data@) is Some ==> tx.from@ == item.data@.subrange(0, 32) && tx.to@
            == item.data@.subrange(32, 64) && tx.nonce == le_value(item.data@.subrange(64, 72))
            && tx.fee == le_value(item.data@.subrange(72, 80)) && tx.amount == le_value(
            item.data@.subrange(80, 88),
        ),
        tx.timestamp == be_value(item.timestamp@),
        tx.l2_calldata@ == item.data@,
{
    if payload_of(item.data@) is Some {
        lemma_hash_of_bytes(item.data@.subrange(0, 32));
        lemma_hash_of_bytes(item.data@.subrange(32, 64));
        lemma_le_fits(item.data@.subrange(64, 72));
        lemma_le_fits(item.data@.subrange(72, 80));
        lemma_le_fits(item.data@.subrange(80, 88));
    }
}

proof fn lemma_le_fits(s: Seq<u8>)
    requires
        s.len() == 8,
    ensures
        le_value(s) <= u64::MAX,
{
    law_le_reads_backwards(s);
    law_be_bytes_of_value(s.reverse());
    assert(pow(256, 8) == 0x1_0000_0000_0000_0000) by {
        reveal_with_fuel(pow, 9);
    }
}

/// Every forced transaction that stands for one of the bridge is that one, so that two which stand
/// for the same agree in all that a block reads of them.
pub proof fn law_forced_transaction_is_determined(item: L1ForcedTx, a: ForcedTx, b: ForcedTx)
    requires
        forced_of(item, a),
        forced_of(item, b),
    ensures
        a.from == b.from,
        a.to == b.to,
        a.nonce == b.nonce,
        a.fee == b.fee,
        a.amount == b.amount,
        a.timestamp == b.timestamp,
        a.l2_calldata@ == b.l2_calldata@,
{
}

/// A deposit of the bridge becomes one with the user in the low bytes of the address, and with the
/// bridge's amount and timestamp, which have to be below 2^64.
pub proof fn law_deposit_is_the_bridges(item: L1Deposit, i: int)
    requires
        0 <= i < 32,
    ensures
        deposit_fits(item) <==> be_value(item.amount@) < 0x1_0000_0000_0000_0000 && be_value(
            item.timestamp@,
        ) < 0x1_0000_0000_0000_0000,
        fits(item.amount) <==> be_value(item.amount@) < 0x1_0000_0000_0000_0000,
        deposit_fits(item) ==> deposit_of(item).amount == be_value(item.amount@) && deposit_of(
            item,
        ).timestamp == be_value(item.timestamp@),
        deposit_of(item).to[i] == if i < 12 {
            0
        } else {
            item.user[i - 12]
        },
        address_hash(item.user) == deposit_of(item).to,
{
    lemma_hash_of_bytes(zeros(12) + item.user@);
    assert(deposit_of(item).to@[i] == (zeros(12) + item.user@)[i]);
}

} // verus!
