use vstd::prelude::*;
use crate::trie::{Account, Trie};

verus! {

/// The state that seeds a chain: each listed address holds its balance
/// with nonce 0; a later entry for the same address replaces an earlier
/// one.
pub fn genesis_state(balances: &Vec<(u64, u128)>) -> (r: Trie)
    ensures
        r.wf(),
        forall|k: u64| #[trigger] r@.contains_key(k) <==> exists|i: int| 0 <= i < balances@.len() && balances@[i].0 == k,
        forall|i: int| 0 <= i < balances@.len()
            && (forall|j: int| i < j < balances@.len() ==> balances@[j].0 != balances@[i].0)
            ==> r@[#[trigger] balances@[i].0] == (Account { nonce: 0, balance: balances@[i].1 }),
{
    let mut t = Trie::new();
    let mut i: usize = 0;
    while i < balances.len()
        invariant
            i <= balances@.len(),
            t.wf(),
            forall|k: u64| #[trigger] t@.contains_key(k) <==> exists|j: int| 0 <= j < i && balances@[j].0 == k,
            forall|j: int| 0 <= j < i && (forall|m: int| j < m < i ==> balances@[m].0 != balances@[j].0)
                ==> t@[#[trigger] balances@[j].0] == (Account { nonce: 0, balance: balances@[j].1 }),
        decreases balances@.len() - i,
    {
        let (k, b) = balances[i];
        t.insert(k, Account { nonce: 0, balance: b });
        i = i + 1;
        proof {
            assert forall|q: u64| #[trigger] t@.contains_key(q) implies exists|j: int| 0 <= j < i && balances@[j].0 == q by {
                if q == k {
                    assert(balances@[i - 1].0 == q);
                }
            }
        }
    }
    t
}

} // verus!
