use vstd::prelude::*;
use crate::hash::{keccak256, keccak256_of};
use crate::trie::{le_bytes, push_le_bytes};

verus! {

/// Size in bytes of a receipt's bloom filter.
pub const BLOOM_BYTES: usize = 256;

/// A log entry emitted during execution.
#[derive(Debug, Clone)]
pub struct Log {
    pub address: u64,
    /// Up to four topics.
    pub topics: Vec<Vec<u8>>,
    pub data: Vec<u8>,
}

/// Outcome of one executed transaction.
#[derive(Debug, Clone)]
pub struct Receipt {
    /// `true` when execution succeeded, `false` when it reverted.
    pub status: bool,
    pub gas_used: u64,
    pub logs: Vec<Log>,
    pub bloom: Vec<u8>,
    /// Address of the created contract, set only on a successful creation.
    pub contract_address: Option<u64>,
    /// Data returned by the call; empty when nothing was returned.
    pub output: Vec<u8>,
}

/// A bloom filter with no bit set.
pub fn empty_bloom() -> (r: Vec<u8>)
    ensures
        r@ == Seq::new(BLOOM_BYTES as nat, |i: int| 0u8),
{
    let mut r: Vec<u8> = Vec::new();
    let mut i: usize = 0;
    while i < BLOOM_BYTES
        invariant
            i <= BLOOM_BYTES,
            r@ == Seq::new(i as nat, |j: int| 0u8),
        decreases BLOOM_BYTES - i,
    {
        r.push(0u8);
        i = i + 1;
        assert(r@ =~= Seq::new(i as nat, |j: int| 0u8));
    }
    r
}

/// A bloom filter with no bit set.
pub open spec fn zero_bloom() -> Seq<u8> {
    Seq::new(BLOOM_BYTES as nat, |i: int| 0u8)
}

/// The `k`-th filter bit chosen by digest `h`: eleven bits of its
/// `k`-th pair of bytes.
pub open spec fn bloom_bit(h: Seq<u8>, k: int) -> int {
    ((h[2 * k] as int) * 256 + h[2 * k + 1] as int) % 2048
}

/// `b` with bit `bit` set; bit 0 is the lowest bit of the last byte.
pub open spec fn set_bit(b: Seq<u8>, bit: int) -> Seq<u8> {
    let i = 255 - bit / 8;
    b.update(i, b[i] | (1u8 << ((bit % 8) as u8)))
}

/// `b` with the three bits of `item` set.
pub open spec fn accrue(b: Seq<u8>, item: Seq<u8>) -> Seq<u8> {
    let h = keccak256_of(item);
    set_bit(set_bit(set_bit(b, bloom_bit(h, 0)), bloom_bit(h, 1)), bloom_bit(h, 2))
}

/// `b` with the bits of each topic set.
pub open spec fn accrue_topics(b: Seq<u8>, topics: Seq<Vec<u8>>) -> Seq<u8>
    decreases topics.len(),
{
    if topics.len() == 0 {
        b
    } else {
        accrue(accrue_topics(b, topics.drop_last()), topics.last()@)
    }
}

/// `b` with the bits of a log's address (eight bytes, little-endian) and
/// of its topics set.
pub open spec fn accrue_log(b: Seq<u8>, log: Log) -> Seq<u8> {
    accrue_topics(accrue(b, le_bytes(log.address as nat, 8)), log.topics@)
}

/// Bloom filter over the addresses and topics of `logs`.
pub open spec fn logs_bloom_spec(logs: Seq<Log>) -> Seq<u8>
    decreases logs.len(),
{
    if logs.len() == 0 {
        zero_bloom()
    } else {
        accrue_log(logs_bloom_spec(logs.drop_last()), logs.last())
    }
}

fn set_bloom_bit(b: &mut Vec<u8>, h: &Vec<u8>, k: usize)
    requires
        old(b)@.len() == BLOOM_BYTES,
        h@.len() == 32,
        k < 3,
    ensures
        final(b)@ == set_bit(old(b)@, bloom_bit(h@, k as int)),
{
    let bit: usize = ((h[2 * k] as usize) * 256 + (h[2 * k + 1] as usize)) % 2048;
    let i: usize = 255 - bit / 8;
    let v: u8 = b[i] | (1u8 << ((bit % 8) as u8));
    b.set(i, v);
}

fn accrue_item(b: &mut Vec<u8>, item: &[u8])
    requires
        old(b)@.len() == BLOOM_BYTES,
    ensures
        final(b)@ == accrue(old(b)@, item@),
        final(b)@.len() == BLOOM_BYTES,
{
    let h = keccak256(item);
    set_bloom_bit(b, &h, 0);
    set_bloom_bit(b, &h, 1);
    set_bloom_bit(b, &h, 2);
}

/// Computes the bloom filter of `logs`.
pub fn logs_bloom(logs: &Vec<Log>) -> (r: Vec<u8>)
    ensures
        r@ == logs_bloom_spec(logs@),
        r@.len() == BLOOM_BYTES,
{
    let mut b = empty_bloom();
    let mut i: usize = 0;
    while i < logs.len()
        invariant
            i <= logs@.len(),
            b@ == logs_bloom_spec(logs@.take(i as int)),
            b@.len() == BLOOM_BYTES,
        decreases logs@.len() - i,
    {
        let log = &logs[i];
        let mut addr: Vec<u8> = Vec::new();
        push_le_bytes(&mut addr, log.address as u128, 8);
        let ghost start = b@;
        accrue_item(&mut b, addr.as_slice());
        let mut t: usize = 0;
        while t < log.topics.len()
            invariant
                t <= log.topics@.len(),
                b@ == accrue_topics(accrue(start, le_bytes(log.address as nat, 8)), log.topics@.take(t as int)),
                b@.len() == BLOOM_BYTES,
            decreases log.topics@.len() - t,
        {
            accrue_item(&mut b, log.topics[t].as_slice());
            proof {
                let tp = log.topics@.take(t + 1);
                assert(tp.drop_last() =~= log.topics@.take(t as int));
            }
            t = t + 1;
        }
        proof {
            assert(log.topics@.take(log.topics@.len() as int) =~= log.topics@);
            let lp = logs@.take(i + 1);
            assert(lp.drop_last() =~= logs@.take(i as int));
        }
        i = i + 1;
    }
    assert(logs@.take(logs@.len() as int) =~= logs@);
    b
}

impl Receipt {
    /// A receipt whose bloom filter is computed from its logs.
    pub fn new(status: bool, gas_used: u64, logs: Vec<Log>, contract_address: Option<u64>, output: Vec<u8>) -> (r: Receipt)
        ensures
            r.output@ == output@,
            r.status == status,
            r.gas_used == gas_used,
            r.logs@ == logs@,
            r.bloom@ == logs_bloom_spec(logs@),
            r.contract_address == contract_address,
    {
        let bloom = logs_bloom(&logs);
        Receipt { status, gas_used, logs, bloom, contract_address, output }
    }
}

} // verus!
