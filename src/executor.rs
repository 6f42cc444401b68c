use vstd::prelude::*;
use crate::fee::{effective_gas_price, effective_price_spec};
use crate::hash::{keccak256, keccak256_of};
use crate::precompiles::{lookup_precompile, precompile_at, precompile_gas, precompile_gas_spec, precompile_output_spec, run_precompile};
use crate::receipt::{zero_bloom, Receipt};
use crate::transaction::{intrinsic_gas, intrinsic_gas_spec, Transaction};
use crate::trie::{account_of, le_bytes, push_le_bytes, Account, Trie};

verus! {

/// Block parameters supplied by the host, read-only during execution.
#[derive(Debug, Clone, Copy, PartialEq, Eq, Structural)]
pub struct BlockContext {
    pub number: u64,
    pub timestamp: u64,
    pub base_fee: u64,
    pub gas_limit: u64,
}

/// Reasons for rejecting a transaction before any state change.
#[derive(Debug, Clone, Copy, PartialEq, Eq, Structural)]
pub enum TxError {
    /// The nonce differs from the sender's account nonce.
    NonceMismatch,
    /// The sender's nonce cannot be incremented any more.
    NonceOverflow,
    /// The gas limit is below the intrinsic gas.
    IntrinsicGasTooLow,
    /// The fee cap is below the block's base fee.
    InvalidFee,
    /// The sender cannot pay `gas_limit * price + value`.
    InsufficientFunds,
}

/// Intrinsic gas of `tx`.
pub open spec fn tx_intrinsic(tx: &Transaction) -> nat {
    intrinsic_gas_spec(tx.data@, tx.to is None)
}

/// Price per gas that `tx` pays under `base_fee`.
pub open spec fn tx_price(tx: &Transaction, base_fee: u64) -> int {
    effective_price_spec(tx.max_fee_per_gas, tx.max_priority_fee_per_gas, base_fee)
}

/// The checks made before execution, in order; `None` when all pass.
pub open spec fn validate_spec(m: Map<u64, Account>, base_fee: u64, tx: &Transaction) -> Option<TxError> {
    let a = account_of(m, tx.sender);
    if tx.nonce != a.nonce {
        Some(TxError::NonceMismatch)
    } else if a.nonce == u64::MAX {
        Some(TxError::NonceOverflow)
    } else if tx_intrinsic(tx) > tx.gas_limit {
        Some(TxError::IntrinsicGasTooLow)
    } else if tx.max_fee_per_gas < base_fee {
        Some(TxError::InvalidFee)
    } else if tx.gas_limit * tx_price(tx, base_fee) + tx.value > a.balance {
        Some(TxError::InsufficientFunds)
    } else {
        None
    }
}

/// Value of a little-endian byte string.
pub open spec fn le_value(s: Seq<u8>) -> nat
    decreases s.len(),
{
    if s.len() == 0 {
        0
    } else {
        s[0] as nat + 256 * le_value(s.drop_first())
    }
}

/// Address of the contract created by `sender` with `nonce`: the first
/// eight bytes, little-endian, of the Keccak-256 digest of both encoded.
pub open spec fn create_address_spec(sender: u64, nonce: u64) -> u64 {
    le_value(keccak256_of(le_bytes(sender as nat, 16) + le_bytes(nonce as nat, 16)).take(8)) as u64
}

/// Account that receives the value of `tx`.
pub open spec fn recipient_spec(tx: &Transaction) -> u64 {
    match tx.to {
        Some(a) => a,
        None => create_address_spec(tx.sender, tx.nonce),
    }
}

/// Gas that a complete execution of `tx` costs.
pub open spec fn exec_cost(tx: &Transaction) -> nat {
    tx_intrinsic(tx) + match tx.to {
        Some(a) => match precompile_at(a) {
            Some(p) => precompile_gas_spec(p, tx.data@.len()),
            None => 0,
        },
        None => 0,
    }
}

/// Execution runs out of gas.
pub open spec fn out_of_gas(tx: &Transaction) -> bool {
    exec_cost(tx) > tx.gas_limit
}

/// Gas charged: the full limit when execution ran out of gas, else its cost.
pub open spec fn gas_used_spec(tx: &Transaction) -> nat {
    if out_of_gas(tx) { tx.gas_limit as nat } else { exec_cost(tx) }
}

/// State after the nonce increment and the charge for the gas used; this
/// stays even when execution reverts.
pub open spec fn charged_state(m: Map<u64, Account>, base_fee: u64, tx: &Transaction) -> Map<u64, Account> {
    let a = account_of(m, tx.sender);
    m.insert(tx.sender, Account {
        nonce: (a.nonce + 1) as u64,
        balance: (a.balance - gas_used_spec(tx) * tx_price(tx, base_fee)) as u128,
    })
}

/// Charged state with the value taken from the sender.
pub open spec fn debited_state(m: Map<u64, Account>, base_fee: u64, tx: &Transaction) -> Map<u64, Account> {
    let c = charged_state(m, base_fee, tx);
    let a = c[tx.sender];
    c.insert(tx.sender, Account { nonce: a.nonce, balance: (a.balance - tx.value) as u128 })
}

/// Execution completes: enough gas, no address collision on creation, and
/// the recipient's balance can hold the value.
pub open spec fn dispatch_succeeds(m: Map<u64, Account>, base_fee: u64, tx: &Transaction) -> bool {
    &&& !out_of_gas(tx)
    &&& (tx.to is None ==> account_of(charged_state(m, base_fee, tx), recipient_spec(tx)) == Account::empty_spec())
    &&& account_of(debited_state(m, base_fee, tx), recipient_spec(tx)).balance + tx.value <= u128::MAX
}

/// Data returned by a transaction that passed validation: a precompile's
/// output when the call to it succeeded, nothing otherwise.
pub open spec fn output_spec(m: Map<u64, Account>, base_fee: u64, tx: &Transaction) -> Seq<u8> {
    match tx.to {
        Some(a) => match precompile_at(a) {
            Some(p) => if dispatch_succeeds(m, base_fee, tx) {
                precompile_output_spec(p, tx.data@)
            } else {
                Seq::empty()
            },
            None => Seq::empty(),
        },
        None => Seq::empty(),
    }
}

/// State after a transaction that passed validation: the value moved on
/// success, only the charge otherwise.
pub open spec fn post_state(m: Map<u64, Account>, base_fee: u64, tx: &Transaction) -> Map<u64, Account> {
    if dispatch_succeeds(m, base_fee, tx) {
        let d = debited_state(m, base_fee, tx);
        let r = account_of(d, recipient_spec(tx));
        d.insert(recipient_spec(tx), Account {
            nonce: if tx.to is None { 1 } else { r.nonce },
            balance: (r.balance + tx.value) as u128,
        })
    } else {
        charged_state(m, base_fee, tx)
    }
}

/// `256` to the power `n`.
pub open spec fn pow256(n: nat) -> nat
    decreases n,
{
    if n == 0 { 1 } else { 256 * pow256((n - 1) as nat) }
}

pub(crate) proof fn lemma_pow256_mono(a: nat, b: nat)
    requires
        a <= b,
    ensures
        1 <= pow256(a) <= pow256(b),
    decreases b,
{
    if b > 0 {
        if a < b {
            lemma_pow256_mono(a, (b - 1) as nat);
        } else {
            lemma_pow256_mono((a - 1) as nat, (b - 1) as nat);
        }
    }
}

pub(crate) proof fn lemma_le_value_bound(s: Seq<u8>)
    ensures
        le_value(s) < pow256(s.len()),
    decreases s.len(),
{
    if s.len() > 0 {
        lemma_le_value_bound(s.drop_first());
        let p = pow256((s.len() - 1) as nat);
        lemma_pow256_mono(0, (s.len() - 1) as nat);
        let a = s[0] as int;
        let b = le_value(s.drop_first()) as int;
        assert(a + 256 * b < 256 * p) by (nonlinear_arith)
            requires 0 <= a < 256, 0 <= b < p;
    }
}

/// Computes the address of the contract created by `sender` with `nonce`.
pub fn create_address(sender: u64, nonce: u64) -> (r: u64)
    ensures
        r == create_address_spec(sender, nonce),
{
    let mut buf: Vec<u8> = Vec::new();
    push_le_bytes(&mut buf, sender as u128, 16);
    push_le_bytes(&mut buf, nonce as u128, 16);
    assert(buf@ =~= le_bytes(sender as nat, 16) + le_bytes(nonce as nat, 16));
    let h = keccak256(buf.as_slice());
    let mut v: u128 = 0;
    let mut i: usize = 8;
    while i > 0
        invariant
            i <= 8,
            h@.len() == 32,
            v == le_value(h@.subrange(i as int, 8)),
            v < pow256((8 - i) as nat),
        decreases i,
    {
        proof {
            let s = h@.subrange(i - 1, 8);
            assert(s.drop_first() =~= h@.subrange(i as int, 8));
            lemma_le_value_bound(s);
            lemma_pow256_mono((8 - i) as nat, 7);
            reveal_with_fuel(pow256, 8);
        }
        i = i - 1;
        v = (h[i] as u128) + 256 * v;
        proof {
            lemma_le_value_bound(h@.subrange(i as int, 8));
        }
    }
    proof {
        assert(h@.subrange(0, 8) =~= h@.take(8));
        reveal_with_fuel(pow256, 9);
    }
    v as u64
}

/// Applies `tx` to `state` in a block with `ctx`. The input trie is never
/// changed: a rejected transaction leaves no trace, an accepted one yields
/// a new trie and its receipt.
pub fn apply(state: &Trie, ctx: &BlockContext, tx: &Transaction) -> (r: Result<(Trie, Receipt), TxError>)
    requires
        state.wf(),
    ensures
        match r {
            Ok((next, receipt)) => {
                &&& validate_spec(state@, ctx.base_fee, tx) is None
                &&& next.wf()
                &&& next@ == post_state(state@, ctx.base_fee, tx)
                &&& receipt.status == dispatch_succeeds(state@, ctx.base_fee, tx)
                &&& receipt.gas_used == gas_used_spec(tx)
                &&& receipt.contract_address == (if tx.to is None && dispatch_succeeds(state@, ctx.base_fee, tx) {
                    Some(recipient_spec(tx))
                } else {
                    None::<u64>
                })
                &&& receipt.output@ == output_spec(state@, ctx.base_fee, tx)
                &&& receipt.logs@.len() == 0
                &&& receipt.bloom@ == zero_bloom()
            },
            Err(e) => validate_spec(state@, ctx.base_fee, tx) == Some(e),
        },
{
    let sender = state.get_account(tx.sender);
    if tx.nonce != sender.nonce {
        return Err(TxError::NonceMismatch);
    }
    if sender.nonce == u64::MAX {
        return Err(TxError::NonceOverflow);
    }
    let create = tx.to.is_none();
    let intrinsic = intrinsic_gas(tx.data.as_slice(), create);
    if intrinsic > tx.gas_limit as u128 {
        return Err(TxError::IntrinsicGasTooLow);
    }
    let price = match effective_gas_price(tx.max_fee_per_gas, tx.max_priority_fee_per_gas, ctx.base_fee) {
        Ok(p) => p,
        Err(_) => {
            return Err(TxError::InvalidFee);
        },
    };
    assert((tx.gas_limit as int) * (price as int) <= (u64::MAX as int) * (u64::MAX as int)) by (nonlinear_arith)
        requires tx.gas_limit <= u64::MAX, price <= u64::MAX;
    let upfront: u128 = (tx.gas_limit as u128) * (price as u128);
    if upfront > sender.balance || tx.value > sender.balance - upfront {
        return Err(TxError::InsufficientFunds);
    }
    let mut cost: u128 = intrinsic;
    match tx.to {
        Some(a) => match lookup_precompile(a) {
            Some(p) => {
                cost = cost + precompile_gas(p, tx.data.len());
            },
            None => {},
        },
        None => {},
    }
    let oog = cost > tx.gas_limit as u128;
    let gas_used: u64 = if oog { tx.gas_limit } else { cost as u64 };
    assert((gas_used as int) * (price as int) <= (tx.gas_limit as int) * (price as int)) by (nonlinear_arith)
        requires gas_used <= tx.gas_limit, price >= 0;
    let fee: u128 = (gas_used as u128) * (price as u128);
    let mut next = state.snapshot();
    let charged = Account { nonce: sender.nonce + 1, balance: sender.balance - fee };
    next.insert(tx.sender, charged);
    let recipient: u64 = match tx.to {
        Some(a) => a,
        None => create_address(tx.sender, tx.nonce),
    };
    let ghost m = state@;
    let ghost base = ctx.base_fee;
    assert(next@ == charged_state(m, base, tx));
    let mut ok = !oog;
    if ok && create {
        let existing = next.get_account(recipient);
        if existing.nonce != 0 || existing.balance != 0 {
            ok = false;
        }
    }
    let debited = Account { nonce: charged.nonce, balance: charged.balance - tx.value };
    assert(debited_state(m, base, tx) == next@.insert(tx.sender, debited));
    if ok {
        let target = if recipient == tx.sender { debited } else { next.get_account(recipient) };
        assert(target == account_of(debited_state(m, base, tx), recipient));
        if target.balance > u128::MAX - tx.value {
            ok = false;
        } else {
            next.insert(tx.sender, debited);
            let nonce: u64 = if create { 1 } else { target.nonce };
            next.insert(recipient, Account { nonce, balance: target.balance + tx.value });
        }
    }
    assert(ok == dispatch_succeeds(m, base, tx));
    let contract_address = if create && ok { Some(recipient) } else { None };
    let output: Vec<u8> = match tx.to {
        Some(a) => match lookup_precompile(a) {
            Some(p) => if ok {
                run_precompile(p, tx.data.as_slice())
            } else {
                Vec::new()
            },
            None => Vec::new(),
        },
        None => Vec::new(),
    };
    let receipt = Receipt::new(ok, gas_used, Vec::new(), contract_address, output);
    assert(receipt.logs@ =~= Seq::<crate::receipt::Log>::empty());
    Ok((next, receipt))
}

/// The checks made when a transaction enters the pending queue, against
/// the latest known state; `None` when all pass. A nonce ahead of the
/// account's is admitted, since earlier transactions may still come.
pub open spec fn admission_spec(m: Map<u64, Account>, tx: &Transaction) -> Option<TxError> {
    let a = account_of(m, tx.sender);
    if tx.nonce < a.nonce {
        Some(TxError::NonceMismatch)
    } else if tx_intrinsic(tx) > tx.gas_limit {
        Some(TxError::IntrinsicGasTooLow)
    } else if tx.gas_limit * tx.max_fee_per_gas + tx.value > a.balance {
        Some(TxError::InsufficientFunds)
    } else {
        None
    }
}

/// Checks a transaction for admission into the pending queue: its nonce
/// is not used yet, its gas limit covers its intrinsic gas, and the sender
/// can pay the gas limit at its fee cap plus the value.
pub fn pre_validate(state: &Trie, tx: &Transaction) -> (r: Result<(), TxError>)
    requires
        state.wf(),
    ensures
        r is Ok <==> admission_spec(state@, tx) is None,
        r matches Err(e) ==> admission_spec(state@, tx) == Some(e),
{
    let sender = state.get_account(tx.sender);
    if tx.nonce < sender.nonce {
        return Err(TxError::NonceMismatch);
    }
    let intrinsic = intrinsic_gas(tx.data.as_slice(), tx.to.is_none());
    if intrinsic > tx.gas_limit as u128 {
        return Err(TxError::IntrinsicGasTooLow);
    }
    assert((tx.gas_limit as int) * (tx.max_fee_per_gas as int) <= (u64::MAX as int) * (u64::MAX as int))
        by (nonlinear_arith)
        requires tx.gas_limit <= u64::MAX, tx.max_fee_per_gas <= u64::MAX;
    let upfront: u128 = (tx.gas_limit as u128) * (tx.max_fee_per_gas as u128);
    if upfront > sender.balance || tx.value > sender.balance - upfront {
        return Err(TxError::InsufficientFunds);
    }
    Ok(())
}

/// A transaction whose gas limit is below its intrinsic gas is rejected
/// with `IntrinsicGasTooLow` once its nonce has been checked; `apply`
/// leaves its input state untouched on every rejection.
pub proof fn lemma_intrinsic_gas_too_low(m: Map<u64, Account>, base_fee: u64, tx: &Transaction)
    requires
        account_of(m, tx.sender).nonce == tx.nonce,
        tx.nonce < u64::MAX,
        tx_intrinsic(tx) > tx.gas_limit,
    ensures
        validate_spec(m, base_fee, tx) == Some(TxError::IntrinsicGasTooLow),
{
}

/// A transaction accepted once is rejected with `NonceMismatch` when it is
/// applied again to the resulting state.
pub proof fn lemma_replay_rejected(m: Map<u64, Account>, base_fee: u64, tx: &Transaction)
    requires
        validate_spec(m, base_fee, tx) is None,
    ensures
        validate_spec(post_state(m, base_fee, tx), base_fee, tx) == Some(TxError::NonceMismatch),
{
    let p = post_state(m, base_fee, tx);
    let a = account_of(m, tx.sender);
    if dispatch_succeeds(m, base_fee, tx) {
        let d = debited_state(m, base_fee, tx);
        assert(d[tx.sender].nonce == a.nonce + 1);
        if recipient_spec(tx) == tx.sender {
            assert(tx.to is Some);
        }
    }
    assert(account_of(p, tx.sender).nonce == a.nonce + 1);
}

/// A transaction that reverts still advances the sender's nonce by one and
/// costs it exactly `gas_used * price`; every other account is unchanged.
pub proof fn lemma_revert_keeps_charge_only(m: Map<u64, Account>, base_fee: u64, tx: &Transaction)
    requires
        validate_spec(m, base_fee, tx) is None,
        !dispatch_succeeds(m, base_fee, tx),
    ensures
        account_of(post_state(m, base_fee, tx), tx.sender).nonce == account_of(m, tx.sender).nonce + 1,
        account_of(post_state(m, base_fee, tx), tx.sender).balance
            == account_of(m, tx.sender).balance - gas_used_spec(tx) * tx_price(tx, base_fee),
        forall|k: u64| k != tx.sender ==> account_of(post_state(m, base_fee, tx), k) == account_of(m, k),
{
    let a = account_of(m, tx.sender);
    let g = gas_used_spec(tx) as int;
    let p = tx_price(tx, base_fee);
    assert(g <= tx.gas_limit);
    assert(0 <= p);
    assert(g * p <= tx.gas_limit * p) by (nonlinear_arith)
        requires g <= tx.gas_limit, 0 <= p;
    assert(0 <= g * p) by (nonlinear_arith)
        requires 0 <= g, 0 <= p;
}

} // verus!
