use vstd::prelude::*;

verus! {

/// Base cost of every transaction.
pub const TX_BASE_GAS: u64 = 21000;
/// Surcharge of a contract creation.
pub const TX_CREATE_GAS: u64 = 32000;
/// Cost of a zero byte of data.
pub const TX_DATA_ZERO_GAS: u64 = 4;
/// Cost of a non-zero byte of data.
pub const TX_DATA_NONZERO_GAS: u64 = 16;

/// A transaction whose sender has been recovered from its signature.
#[derive(Debug, Clone)]
pub struct Transaction {
    pub sender: u64,
    pub nonce: u64,
    pub gas_limit: u64,
    pub max_fee_per_gas: u64,
    pub max_priority_fee_per_gas: u64,
    /// Recipient; `None` creates a contract.
    pub to: Option<u64>,
    pub value: u128,
    pub data: Vec<u8>,
}

/// Gas charged for the data bytes.
pub open spec fn data_gas(data: Seq<u8>) -> nat
    decreases data.len(),
{
    if data.len() == 0 {
        0
    } else {
        data_gas(data.drop_last()) + if data.last() == 0 { TX_DATA_ZERO_GAS as nat } else { TX_DATA_NONZERO_GAS as nat }
    }
}

/// Gas owed before any execution: base cost, data cost and the creation
/// surcharge when there is no recipient.
pub open spec fn intrinsic_gas_spec(data: Seq<u8>, create: bool) -> nat {
    TX_BASE_GAS as nat + data_gas(data) + if create { TX_CREATE_GAS as nat } else { 0 }
}

proof fn lemma_data_gas_bound(data: Seq<u8>)
    ensures
        data_gas(data) <= 16 * data.len(),
    decreases data.len(),
{
    if data.len() > 0 {
        lemma_data_gas_bound(data.drop_last());
    }
}

/// Computes the intrinsic gas of a transaction with the given data.
pub fn intrinsic_gas(data: &[u8], create: bool) -> (r: u128)
    ensures
        r == intrinsic_gas_spec(data@, create),
{
    let mut total: u128 = 0;
    let mut i: usize = 0;
    while i < data.len()
        invariant
            i <= data@.len(),
            total == data_gas(data@.take(i as int)),
        decreases data@.len() - i,
    {
        proof {
            lemma_data_gas_bound(data@.take(i as int));
            let t = data@.take(i + 1);
            assert(t.drop_last() =~= data@.take(i as int));
        }
        if data[i] == 0 {
            total = total + (TX_DATA_ZERO_GAS as u128);
        } else {
            total = total + (TX_DATA_NONZERO_GAS as u128);
        }
        i = i + 1;
    }
    assert(data@.take(data@.len() as int) =~= data@);
    let surcharge: u128 = if create { TX_CREATE_GAS as u128 } else { 0 };
    proof {
        lemma_data_gas_bound(data@);
    }
    (TX_BASE_GAS as u128) + total + surcharge
}

} // verus!
