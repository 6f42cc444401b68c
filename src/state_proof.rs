use vstd::prelude::*;
use crate::executor::{le_value, lemma_le_value_bound, lemma_pow256_mono, pow256};
use crate::hash::{keccak256, keccak256_of};
use crate::trie::{encode_entries, encode_entry, entries_map, le_bytes, sorted_keys, Account, Trie};

verus! {

/// Size in bytes of one encoded entry.
pub const ENTRY_BYTES: usize = 48;

/// The value at `key` in `m`, if any.
pub open spec fn lookup(m: Map<u64, Account>, key: u64) -> Option<Account> {
    if m.contains_key(key) { Some(m[key]) } else { None }
}

proof fn lemma_le_bytes_len(x: nat, n: nat)
    ensures
        le_bytes(x, n).len() == n,
    decreases n,
{
    if n > 0 {
        lemma_le_bytes_len(x / 256, (n - 1) as nat);
    }
}

proof fn lemma_le_value_of_bytes(x: nat, n: nat)
    requires
        x < pow256(n),
    ensures
        le_value(le_bytes(x, n)) == x,
    decreases n,
{
    if n > 0 {
        let b = le_bytes(x, n);
        let p = pow256((n - 1) as nat);
        assert(x / 256 < p) by (nonlinear_arith)
            requires x < 256 * p;
        lemma_le_value_of_bytes(x / 256, (n - 1) as nat);
        assert(b.drop_first() =~= le_bytes(x / 256, (n - 1) as nat));
        assert(x == x % 256 + 256 * (x / 256)) by (nonlinear_arith);
    }
}

proof fn lemma_bytes_of_le_value(b: Seq<u8>)
    ensures
        le_bytes(le_value(b), b.len()) == b,
    decreases b.len(),
{
    if b.len() > 0 {
        lemma_bytes_of_le_value(b.drop_first());
        let r = le_value(b.drop_first());
        let v = le_value(b);
        let a = b[0] as nat;
        assert(v % 256 == a && v / 256 == r) by (nonlinear_arith)
            requires v == a + 256 * r, a < 256;
        assert(le_bytes(v, b.len()) =~= b);
    } else {
        assert(le_bytes(le_value(b), 0) =~= b);
    }
}

proof fn lemma_encode_len(s: Seq<(u64, Account)>)
    ensures
        encode_entries(s).len() == 48 * s.len(),
    decreases s.len(),
{
    if s.len() > 0 {
        lemma_encode_len(s.drop_last());
        let e = s.last();
        lemma_le_bytes_len(e.0 as nat, 16);
        lemma_le_bytes_len(e.1.nonce as nat, 16);
        lemma_le_bytes_len(e.1.balance as nat, 16);
    }
}

proof fn lemma_encode_prefix(s: Seq<(u64, Account)>, j: int)
    requires
        0 <= j <= s.len(),
    ensures
        encode_entries(s).take(48 * j) == encode_entries(s.take(j)),
    decreases s.len(),
{
    lemma_encode_len(s);
    if j == s.len() {
        assert(s.take(j) =~= s);
        assert(encode_entries(s).take(48 * j) =~= encode_entries(s));
    } else {
        let d = s.drop_last();
        lemma_encode_len(d);
        lemma_encode_prefix(d, j);
        assert(d.take(j) =~= s.take(j));
        assert(encode_entries(s).take(48 * j) =~= encode_entries(d).take(48 * j));
    }
}

/// Bytes `48 * i .. 48 * i + 48` of an encoding are the encoding of entry `i`.
proof fn lemma_chunk(s: Seq<(u64, Account)>, i: int)
    requires
        0 <= i < s.len(),
    ensures
        encode_entries(s).len() == 48 * s.len(),
        encode_entries(s).subrange(48 * i, 48 * i + 16) == le_bytes(s[i].0 as nat, 16),
        encode_entries(s).subrange(48 * i + 16, 48 * i + 32) == le_bytes(s[i].1.nonce as nat, 16),
        encode_entries(s).subrange(48 * i + 32, 48 * i + 48) == le_bytes(s[i].1.balance as nat, 16),
{
    lemma_encode_len(s);
    lemma_encode_prefix(s, i + 1);
    let t = s.take(i + 1);
    assert(t.drop_last() =~= s.take(i));
    assert(t.last() == s[i]);
    lemma_encode_len(s.take(i));
    let e = s[i];
    lemma_le_bytes_len(e.0 as nat, 16);
    lemma_le_bytes_len(e.1.nonce as nat, 16);
    lemma_le_bytes_len(e.1.balance as nat, 16);
    let big = encode_entries(s);
    let pre = encode_entries(s.take(i));
    assert(big.take(48 * i + 48) == pre + encode_entry(e));
    assert(big.subrange(48 * i, 48 * i + 16) =~= (pre + encode_entry(e)).subrange(48 * i, 48 * i + 16));
    assert(big.subrange(48 * i + 16, 48 * i + 32) =~= (pre + encode_entry(e)).subrange(48 * i + 16, 48 * i + 32));
    assert(big.subrange(48 * i + 32, 48 * i + 48) =~= (pre + encode_entry(e)).subrange(48 * i + 32, 48 * i + 48));
    assert((pre + encode_entry(e)).subrange(48 * i, 48 * i + 16) =~= le_bytes(e.0 as nat, 16));
    assert((pre + encode_entry(e)).subrange(48 * i + 16, 48 * i + 32) =~= le_bytes(e.1.nonce as nat, 16));
    assert((pre + encode_entry(e)).subrange(48 * i + 32, 48 * i + 48) =~= le_bytes(e.1.balance as nat, 16));
}

/// Reads a 16-byte little-endian value at `start`.
fn read_le16(b: &[u8], start: usize) -> (r: u128)
    requires
        start + 16 <= b@.len(),
    ensures
        r == le_value(b@.subrange(start as int, start + 16)),
{
    let len = b.len();
    let mut v: u128 = 0;
    let mut i: usize = 16;
    while i > 0
        invariant
            i <= 16,
            b@.len() == len,
            start + 16 <= b@.len(),
            v == le_value(b@.subrange(start + i, start + 16)),
            v < pow256((16 - i) as nat),
        decreases i,
    {
        proof {
            let s = b@.subrange(start + i - 1, start + 16);
            assert(s.drop_first() =~= b@.subrange(start + i, start + 16));
            lemma_pow256_mono((16 - i) as nat, 15);
            reveal_with_fuel(pow256, 16);
        }
        i = i - 1;
        v = (b[start + i] as u128) + 256 * v;
        proof {
            lemma_le_value_bound(b@.subrange(start + i, start + 16));
        }
    }
    v
}

fn bytes_equal(a: &[u8], b: &[u8]) -> (r: bool)
    ensures
        r == (a@ == b@),
{
    if a.len() != b.len() {
        return false;
    }
    let mut i: usize = 0;
    while i < a.len()
        invariant
            i <= a@.len(),
            a@.len() == b@.len(),
            forall|j: int| 0 <= j < i ==> a@[j] == b@[j],
        decreases a@.len() - i,
    {
        if a[i] != b[i] {
            return false;
        }
        i = i + 1;
    }
    assert(a@ =~= b@);
    true
}

/// Checks `proof` against `root` and reads the value at `key` from it:
/// `None` when the proof's digest is not `root` or the proof is not the
/// encoding of strictly sorted entries; otherwise the value, if any.
pub fn verify_proof(root: &[u8], key: u64, proof: &[u8]) -> (r: Option<Option<Account>>)
    ensures
        forall|s: Seq<(u64, Account)>|
            sorted_keys(s) && encode_entries(s) == proof@ && keccak256_of(proof@) == root@
                ==> r == Some(lookup(entries_map(s), key)),
        r matches Some(v) ==> keccak256_of(proof@) == root@ && exists|s: Seq<(u64, Account)>|
            sorted_keys(s) && encode_entries(s) == proof@ && v == lookup(entries_map(s), key),
{
    let h = keccak256(proof);
    if !bytes_equal(h.as_slice(), root) {
        return None;
    }
    proof {
        assert forall|s: Seq<(u64, Account)>| sorted_keys(s) && encode_entries(s) == proof@
            implies proof@.len() == 48 * s.len() by {
            lemma_encode_len(s);
        }
    }
    if proof.len() % ENTRY_BYTES != 0 {
        return None;
    }
    let plen = proof.len();
    let n: usize = plen / ENTRY_BYTES;
    let mut entries: Vec<(u64, Account)> = Vec::new();
    let mut i: usize = 0;
    proof {
        reveal_with_fuel(pow256, 9);
        lemma_pow256_mono(8, 16);
        assert(encode_entries(entries@) =~= proof@.take(0));
    }
    while i < n
        invariant
            i <= n,
            n * 48 == proof@.len(),
            proof@.len() == plen,
            keccak256_of(proof@) == root@,
            pow256(8) == 0x1_0000_0000_0000_0000,
            pow256(8) <= pow256(16),
            entries@.len() == i,
            sorted_keys(entries@),
            encode_entries(entries@) == proof@.take(48 * i),
            forall|s: Seq<(u64, Account)>| sorted_keys(s) && encode_entries(s) == proof@
                ==> s.len() == n && entries@ == s.take(i as int),
        decreases n - i,
    {
        assert(48 * i + 48 <= 48 * n) by (nonlinear_arith)
            requires i < n;
        let at: usize = 48 * i;
        let k = read_le16(proof, at);
        let nonce = read_le16(proof, at + 16);
        let bal = read_le16(proof, at + 32);
        proof {
            assert forall|s: Seq<(u64, Account)>| sorted_keys(s) && encode_entries(s) == proof@
                implies k == s[i as int].0 && nonce == s[i as int].1.nonce && bal == s[i as int].1.balance by {
                reveal_with_fuel(pow256, 17);
                lemma_chunk(s, i as int);
                lemma_le_value_of_bytes(s[i as int].0 as nat, 16);
                lemma_le_value_of_bytes(s[i as int].1.nonce as nat, 16);
                lemma_le_value_of_bytes(s[i as int].1.balance as nat, 16);
            }
        }
        if k > u64::MAX as u128 || nonce > u64::MAX as u128 {
            return None;
        }
        if i > 0 && k <= entries[i - 1].0 as u128 {
            proof {
                assert forall|s: Seq<(u64, Account)>| sorted_keys(s) && encode_entries(s) == proof@
                    implies false by {
                    assert(entries@[i - 1] == s.take(i as int)[i - 1]);
                    assert(s[i - 1].0 < s[i as int].0);
                }
            }
            return None;
        }
        let e = (k as u64, Account { nonce: nonce as u64, balance: bal });
        let ghost before = entries@;
        entries.push(e);
        proof {
            let chunk_k = proof@.subrange(at as int, at + 16);
            let chunk_n = proof@.subrange(at + 16, at + 32);
            let chunk_b = proof@.subrange(at + 32, at + 48);
            lemma_bytes_of_le_value(chunk_k);
            lemma_bytes_of_le_value(chunk_n);
            lemma_bytes_of_le_value(chunk_b);
            assert(entries@.drop_last() == before);
            assert(encode_entry(e) =~= chunk_k + chunk_n + chunk_b);
            assert(proof@.take(48 * (i + 1)) =~= proof@.take(48 * i) + (chunk_k + chunk_n + chunk_b));
            assert forall|a: int, c: int| 0 <= a < c < entries@.len() implies entries@[a].0 < entries@[c].0 by {
                if c == i {
                    if a < i - 1 {
                        assert(before[a].0 < before[i - 1].0);
                    }
                } else {
                    assert(before[a].0 < before[c].0);
                }
            }
            assert forall|s: Seq<(u64, Account)>| sorted_keys(s) && encode_entries(s) == proof@
                implies s.len() == n && entries@ == s.take(i + 1) by {
                assert(before == s.take(i as int));
                assert(entries@ =~= s.take(i + 1));
            }
        }
        i = i + 1;
    }
    proof {
        assert(proof@.take(48 * n) =~= proof@);
        assert forall|s: Seq<(u64, Account)>| sorted_keys(s) && encode_entries(s) == proof@
            implies entries@ == s by {
            assert(s.take(n as int) =~= s);
        }
    }
    let t = Trie::from_sorted(entries);
    Some(t.get(key))
}

} // verus!
