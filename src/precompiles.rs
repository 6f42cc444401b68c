use vstd::prelude::*;

verus! {

/// Address of the identity precompile, which returns its input.
pub const IDENTITY_ADDRESS: u64 = 4;
/// Fixed part of the identity precompile's cost.
pub const IDENTITY_BASE_GAS: u64 = 15;
/// Cost of the identity precompile per 32-byte word of input.
pub const IDENTITY_WORD_GAS: u64 = 3;

/// The precompiles at their reserved addresses.
#[derive(Debug, Clone, Copy, PartialEq, Eq, Structural)]
pub enum Precompile {
    Identity,
}

/// The precompile at `address`, if it is a reserved one.
pub open spec fn precompile_at(address: u64) -> Option<Precompile> {
    if address == IDENTITY_ADDRESS { Some(Precompile::Identity) } else { None }
}

/// Gas cost of running `p` on an input of `len` bytes.
pub open spec fn precompile_gas_spec(p: Precompile, len: nat) -> nat {
    match p {
        Precompile::Identity => (IDENTITY_BASE_GAS + IDENTITY_WORD_GAS * ((len + 31) / 32)) as nat,
    }
}

/// Output of `p` on `input`.
pub open spec fn precompile_output_spec(p: Precompile, input: Seq<u8>) -> Seq<u8> {
    match p {
        Precompile::Identity => input,
    }
}

/// Looks up the precompile at `address`.
pub fn lookup_precompile(address: u64) -> (r: Option<Precompile>)
    ensures
        r == precompile_at(address),
{
    if address == IDENTITY_ADDRESS { Some(Precompile::Identity) } else { None }
}

/// Gas cost of running `p` on an input of `len` bytes.
pub fn precompile_gas(p: Precompile, len: usize) -> (r: u128)
    ensures
        r == precompile_gas_spec(p, len as nat),
{
    match p {
        Precompile::Identity => {
            assert(len as int <= u64::MAX);
            let words: u128 = ((len as u128) + 31) / 32;
            assert(words <= 0x1_0000_0000_0000_0000u128) by (nonlinear_arith)
                requires words == ((len as u128) + 31) / 32, len as int <= u64::MAX;
            let base: u128 = IDENTITY_BASE_GAS as u128;
            let per_word: u128 = IDENTITY_WORD_GAS as u128;
            assert(per_word == 3 && base == 15);
            base + per_word * words
        },
    }
}

/// Runs `p` on `input`; precompiles only compute and touch no state.
pub fn run_precompile(p: Precompile, input: &[u8]) -> (r: Vec<u8>)
    ensures
        r@ == precompile_output_spec(p, input@),
{
    match p {
        Precompile::Identity => {
            let mut out: Vec<u8> = Vec::new();
            let mut i: usize = 0;
            while i < input.len()
                invariant
                    i <= input@.len(),
                    out@ == input@.take(i as int),
                decreases input@.len() - i,
            {
                out.push(input[i]);
                i = i + 1;
                assert(out@ =~= input@.take(i as int));
            }
            assert(out@ =~= input@);
            out
        },
    }
}

} // verus!
