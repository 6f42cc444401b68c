use vstd::prelude::*;

verus! {

/// Denominator of the per-block base fee adjustment: at most one eighth.
pub const BASE_FEE_CHANGE_DENOMINATOR: u64 = 8;

/// Fee errors.
#[derive(Debug, Clone, Copy, PartialEq, Eq, Structural)]
pub enum FeeError {
    /// The fee cap is below the block's base fee.
    InvalidFee,
}

/// Gas usage target of a block: half of its gas limit.
pub open spec fn gas_target(gas_limit: u64) -> int {
    gas_limit as int / 2
}

/// Base fee of the next block after a parent with the given base fee, gas
/// used and gas limit. The used gas is counted at most up to the gas limit,
/// so the fee moves by at most an eighth of the parent's base fee; a rise
/// is at least 1; the fee saturates at `u64::MAX` and never drops below 0.
pub open spec fn base_fee_spec(parent_base_fee: u64, parent_gas_used: u64, parent_gas_limit: u64) -> int {
    let target = gas_target(parent_gas_limit);
    let used = if parent_gas_used as int > 2 * target { 2 * target } else { parent_gas_used as int };
    let base = parent_base_fee as int;
    if target == 0 || used == target {
        base
    } else if used > target {
        let raw = base * (used - target) / target / 8;
        let delta = if raw < 1 { 1 } else { raw };
        if base + delta > u64::MAX { u64::MAX as int } else { base + delta }
    } else {
        base - base * (target - used) / target / 8
    }
}

proof fn lemma_scaled_le(base: int, diff: int, target: int)
    requires
        0 <= base <= u64::MAX,
        0 <= diff <= target,
        0 < target <= u64::MAX,
    ensures
        base * diff <= base * target,
        base * target <= u64::MAX * u64::MAX,
        (base * diff) / target <= base,
{
    assert(base * diff <= base * target) by (nonlinear_arith)
        requires 0 <= base, diff <= target;
    assert(base * target <= u64::MAX * u64::MAX) by (nonlinear_arith)
        requires 0 <= base <= u64::MAX, 0 < target <= u64::MAX;
    assert((base * diff) / target <= base) by (nonlinear_arith)
        requires 0 <= base * diff <= base * target, 0 < target;
}

/// Computes the base fee of the next block.
pub fn compute_base_fee(parent_base_fee: u64, parent_gas_used: u64, parent_gas_limit: u64) -> (r: u64)
    ensures
        r == base_fee_spec(parent_base_fee, parent_gas_used, parent_gas_limit),
{
    let target: u64 = parent_gas_limit / 2;
    let used: u64 = if parent_gas_used > 2 * target { 2 * target } else { parent_gas_used };
    if target == 0 || used == target {
        parent_base_fee
    } else if used > target {
        let diff: u64 = used - target;
        proof {
            lemma_scaled_le(parent_base_fee as int, diff as int, target as int);
        }
        let prod: u128 = (parent_base_fee as u128) * (diff as u128);
        let raw: u128 = prod / (target as u128) / (BASE_FEE_CHANGE_DENOMINATOR as u128);
        let delta: u64 = if raw < 1 { 1 } else { raw as u64 };
        parent_base_fee.saturating_add(delta)
    } else {
        let diff: u64 = target - used;
        proof {
            lemma_scaled_le(parent_base_fee as int, diff as int, target as int);
        }
        let prod: u128 = (parent_base_fee as u128) * (diff as u128);
        let raw: u128 = prod / (target as u128) / (BASE_FEE_CHANGE_DENOMINATOR as u128);
        parent_base_fee - (raw as u64)
    }
}

/// Price per gas paid under a fee cap and a priority fee: the base fee plus
/// the priority fee, the latter clamped to what the cap leaves above the
/// base fee.
pub open spec fn effective_price_spec(max_fee: u64, priority_fee: u64, base_fee: u64) -> int {
    let room = max_fee as int - base_fee as int;
    base_fee as int + if (priority_fee as int) < room { priority_fee as int } else { room }
}

/// Computes the price per gas that a transaction pays in a block with the
/// given base fee; fails when its fee cap is below the base fee.
pub fn effective_gas_price(max_fee: u64, priority_fee: u64, base_fee: u64) -> (r: Result<u64, FeeError>)
    ensures
        max_fee < base_fee ==> r == Err::<u64, FeeError>(FeeError::InvalidFee),
        max_fee >= base_fee ==> r == Ok::<u64, FeeError>(effective_price_spec(max_fee, priority_fee, base_fee) as u64),
        max_fee >= base_fee ==> base_fee <= effective_price_spec(max_fee, priority_fee, base_fee) <= max_fee,
{
    if max_fee < base_fee {
        Err(FeeError::InvalidFee)
    } else {
        let room: u64 = max_fee - base_fee;
        let tip: u64 = if priority_fee < room { priority_fee } else { room };
        Ok(base_fee + tip)
    }
}

} // verus!
