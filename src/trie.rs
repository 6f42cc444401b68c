use vstd::prelude::*;
use crate::hash::{keccak256, keccak256_of};

verus! {

/// State of one account.
#[derive(Debug, Clone, Copy, PartialEq, Eq, Structural)]
pub struct Account {
    pub nonce: u64,
    pub balance: u128,
}

impl Account {
    /// The account that every address holds before it is first written.
    pub open spec fn empty_spec() -> Account {
        Account { nonce: 0, balance: 0 }
    }

    pub fn empty() -> (r: Account)
        ensures
            r == Account::empty_spec(),
    {
        Account { nonce: 0, balance: 0 }
    }
}

/// Keys strictly increase along the sequence.
pub open spec fn sorted_keys(s: Seq<(u64, Account)>) -> bool {
    forall|i: int, j: int| 0 <= i < j < s.len() ==> s[i].0 < s[j].0
}

pub open spec fn has_key(s: Seq<(u64, Account)>, k: u64) -> bool {
    exists|i: int| 0 <= i < s.len() && s[i].0 == k
}

/// The key/value map held by a sequence of entries.
pub open spec fn entries_map(s: Seq<(u64, Account)>) -> Map<u64, Account> {
    Map::new(
        |k: u64| has_key(s, k),
        |k: u64| s[choose|i: int| 0 <= i < s.len() && s[i].0 == k].1,
    )
}

/// No key occurs twice.
pub open spec fn distinct_keys(s: Seq<(u64, Account)>) -> bool {
    forall|i: int, j: int| 0 <= i < s.len() && 0 <= j < s.len() && s[i].0 == s[j].0 ==> i == j
}

/// The map of a set of key/value pairs with distinct keys; it depends only
/// on which pairs occur, not on their order.
pub open spec fn pairs_map(s: Seq<(u64, Account)>) -> Map<u64, Account> {
    Map::new(
        |k: u64| exists|v: Account| s.contains((k, v)),
        |k: u64| choose|v: Account| s.contains((k, v)),
    )
}

/// Little-endian encoding of `x` in `n` bytes.
pub open spec fn le_bytes(x: nat, n: nat) -> Seq<u8>
    decreases n,
{
    if n == 0 {
        Seq::empty()
    } else {
        seq![(x % 256) as u8] + le_bytes(x / 256, (n - 1) as nat)
    }
}

/// Canonical encoding of one entry: key, nonce and balance, 16 bytes each.
pub open spec fn encode_entry(e: (u64, Account)) -> Seq<u8> {
    le_bytes(e.0 as nat, 16) + le_bytes(e.1.nonce as nat, 16) + le_bytes(e.1.balance as nat, 16)
}

/// Canonical encoding of a sequence of entries.
pub open spec fn encode_entries(s: Seq<(u64, Account)>) -> Seq<u8>
    decreases s.len(),
{
    if s.len() == 0 {
        Seq::empty()
    } else {
        encode_entries(s.drop_last()) + encode_entry(s.last())
    }
}

proof fn lemma_entries_map_at(s: Seq<(u64, Account)>, i: int)
    requires
        sorted_keys(s),
        0 <= i < s.len(),
    ensures
        entries_map(s).contains_key(s[i].0),
        entries_map(s)[s[i].0] == s[i].1,
{
    let k = s[i].0;
    assert(has_key(s, k));
    let j = choose|j: int| 0 <= j < s.len() && s[j].0 == k;
    if j < i {
        assert(s[j].0 < s[i].0);
    } else if j > i {
        assert(s[i].0 < s[j].0);
    }
}

proof fn lemma_drop_first_map(s: Seq<(u64, Account)>)
    requires
        sorted_keys(s),
        s.len() > 0,
    ensures
        sorted_keys(s.drop_first()),
        entries_map(s.drop_first()) == entries_map(s).remove(s[0].0),
{
    let t = s.drop_first();
    assert(sorted_keys(t)) by {
        assert forall|i: int, j: int| 0 <= i < j < t.len() implies t[i].0 < t[j].0 by {
            assert(t[i] == s[i + 1] && t[j] == s[j + 1]);
        }
    }
    let m = entries_map(s).remove(s[0].0);
    assert forall|k: u64| #[trigger] entries_map(t).contains_key(k) <==> m.contains_key(k) by {
        if has_key(t, k) {
            let i = choose|i: int| 0 <= i < t.len() && t[i].0 == k;
            assert(s[i + 1] == t[i]);
            assert(s[0].0 < s[i + 1].0);
            assert(has_key(s, k));
        }
        if m.contains_key(k) {
            let i = choose|i: int| 0 <= i < s.len() && s[i].0 == k;
            assert(i != 0);
            assert(t[i - 1] == s[i]);
            assert(has_key(t, k));
        }
    }
    assert forall|k: u64| #[trigger] entries_map(t).contains_key(k) implies entries_map(t)[k] == m[k] by {
        let i = choose|i: int| 0 <= i < t.len() && t[i].0 == k;
        lemma_entries_map_at(t, i);
        assert(s[i + 1] == t[i]);
        lemma_entries_map_at(s, i + 1);
    }
    assert(entries_map(t) =~= m);
}

/// Two sorted entry sequences that hold the same map are the same sequence.
proof fn lemma_sorted_unique(s1: Seq<(u64, Account)>, s2: Seq<(u64, Account)>)
    requires
        sorted_keys(s1),
        sorted_keys(s2),
        entries_map(s1) == entries_map(s2),
    ensures
        s1 == s2,
    decreases s1.len(),
{
    if s1.len() == 0 {
        if s2.len() > 0 {
            lemma_entries_map_at(s2, 0);
        }
        assert(s1 =~= s2);
    } else {
        lemma_entries_map_at(s1, 0);
        let a = s1[0].0;
        let j = choose|j: int| 0 <= j < s2.len() && s2[j].0 == a;
        lemma_entries_map_at(s2, 0);
        let b = s2[0].0;
        let i = choose|i: int| 0 <= i < s1.len() && s1[i].0 == b;
        if i > 0 {
            assert(s1[0].0 < s1[i].0);
        }
        if j > 0 {
            assert(s2[0].0 < s2[j].0);
        }
        assert(a == b);
        lemma_drop_first_map(s1);
        lemma_drop_first_map(s2);
        lemma_sorted_unique(s1.drop_first(), s2.drop_first());
        assert(s1 =~= seq![s1[0]] + s1.drop_first());
        assert(s2 =~= seq![s2[0]] + s2.drop_first());
    }
}

/// Key/value store of accounts with a canonical commitment: entries are
/// kept in strictly increasing key order, so the digest of their encoding
/// depends only on the key/value map held.
pub struct Trie {
    entries: Vec<(u64, Account)>,
}

impl Trie {
    pub closed spec fn view(&self) -> Map<u64, Account> {
        entries_map(self.entries@)
    }

    pub closed spec fn wf(&self) -> bool {
        sorted_keys(self.entries@)
    }

    /// The commitment of the map held.
    pub closed spec fn spec_root_hash(&self) -> Seq<u8> {
        keccak256_of(encode_entries(self.entries@))
    }

    /// Two well-formed tries that hold the same map have the same root hash.
    pub proof fn lemma_root_hash_canonical(t1: &Trie, t2: &Trie)
        requires
            t1.wf(),
            t2.wf(),
            t1@ == t2@,
        ensures
            t1.spec_root_hash() == t2.spec_root_hash(),
    {
        lemma_sorted_unique(t1.entries@, t2.entries@);
    }

    /// An empty trie.
    pub fn new() -> (r: Trie)
        ensures
            r.wf(),
            r@ == Map::<u64, Account>::empty(),
    {
        let r = Trie { entries: Vec::new() };
        assert(r@ =~= Map::<u64, Account>::empty());
        r
    }

    /// Index of the first entry whose key is not below `key`.
    fn position(&self, key: u64) -> (r: usize)
        requires
            self.wf(),
        ensures
            r <= self.entries@.len(),
            forall|i: int| 0 <= i < r ==> self.entries@[i].0 < key,
            forall|i: int| r <= i < self.entries@.len() ==> self.entries@[i].0 >= key,
    {
        let mut i: usize = 0;
        while i < self.entries.len() && self.entries[i].0 < key
            invariant
                self.wf(),
                i <= self.entries@.len(),
                forall|j: int| 0 <= j < i ==> self.entries@[j].0 < key,
            decreases self.entries@.len() - i,
        {
            i = i + 1;
        }
        proof {
            if i < self.entries@.len() {
                assert forall|j: int| i <= j < self.entries@.len() implies self.entries@[j].0 >= key by {
                    if j > i {
                        assert(self.entries@[i as int].0 < self.entries@[j].0);
                    }
                }
            }
        }
        i
    }

    /// The value stored under `key`, if any.
    pub fn get(&self, key: u64) -> (r: Option<Account>)
        requires
            self.wf(),
        ensures
            r == (if self@.contains_key(key) { Some(self@[key]) } else { None::<Account> }),
    {
        let i = self.position(key);
        if i < self.entries.len() && self.entries[i].0 == key {
            proof {
                lemma_entries_map_at(self.entries@, i as int);
            }
            Some(self.entries[i].1)
        } else {
            proof {
                if has_key(self.entries@, key) {
                    let j = choose|j: int| 0 <= j < self.entries@.len() && self.entries@[j].0 == key;
                    if j > i {
                        assert(self.entries@[i as int].0 < self.entries@[j].0);
                    }
                }
            }
            None
        }
    }

    /// The account stored under `key`, or the empty account.
    pub fn get_account(&self, key: u64) -> (r: Account)
        requires
            self.wf(),
        ensures
            r == account_of(self@, key),
    {
        match self.get(key) {
            Some(a) => a,
            None => Account::empty(),
        }
    }

    /// Stores `value` under `key`, replacing any earlier value.
    pub fn insert(&mut self, key: u64, value: Account)
        requires
            old(self).wf(),
        ensures
            final(self).wf(),
            final(self)@ == old(self)@.insert(key, value),
    {
        let i = self.position(key);
        let ghost s = self.entries@;
        if i < self.entries.len() && self.entries[i].0 == key {
            self.entries.set(i, (key, value));
        } else {
            self.entries.insert(i, (key, value));
        }
        let ghost t = self.entries@;
        assert(sorted_keys(t));
        assert forall|k: u64| #[trigger] self@.contains_key(k) <==> old(self)@.insert(key, value).contains_key(k) by {
            if has_key(t, k) {
                let j = choose|j: int| 0 <= j < t.len() && t[j].0 == k;
                if k != key {
                    if j < i {
                        assert(t[j] == s[j]);
                    } else {
                        assert(t[j] == s[j - if t.len() > s.len() { 1int } else { 0int }]);
                    }
                    assert(has_key(s, k));
                }
            }
            if k != key && has_key(s, k) {
                let j = choose|j: int| 0 <= j < s.len() && s[j].0 == k;
                if j < i {
                    assert(t[j] == s[j]);
                } else if t.len() > s.len() {
                    assert(t[j + 1] == s[j]);
                } else {
                    assert(t[j] == s[j]);
                }
                assert(has_key(t, k));
            }
            if k == key {
                assert(t[i as int].0 == key);
                assert(has_key(t, k));
            }
        }
        assert forall|k: u64| #[trigger] self@.contains_key(k) implies self@[k] == old(self)@.insert(key, value)[k] by {
            let j = choose|j: int| 0 <= j < t.len() && t[j].0 == k;
            lemma_entries_map_at(t, j);
            if k == key {
                lemma_entries_map_at(t, i as int);
            } else if j < i {
                assert(t[j] == s[j]);
                lemma_entries_map_at(s, j);
            } else if t.len() > s.len() {
                assert(t[j] == s[j - 1]);
                lemma_entries_map_at(s, j - 1);
            } else {
                assert(t[j] == s[j]);
                lemma_entries_map_at(s, j);
            }
        }
        assert(self@ =~= old(self)@.insert(key, value));
    }

    /// Removes the value stored under `key`, if any.
    pub fn delete(&mut self, key: u64)
        requires
            old(self).wf(),
        ensures
            final(self).wf(),
            final(self)@ == old(self)@.remove(key),
    {
        let i = self.position(key);
        if i < self.entries.len() && self.entries[i].0 == key {
            let ghost s = self.entries@;
            self.entries.remove(i);
            let ghost t = self.entries@;
            assert(sorted_keys(t)) by {
                assert forall|a: int, b: int| 0 <= a < b < t.len() implies t[a].0 < t[b].0 by {
                    let a2 = if a < i { a } else { a + 1 };
                    let b2 = if b < i { b } else { b + 1 };
                    assert(t[a] == s[a2] && t[b] == s[b2]);
                }
            }
            assert forall|k: u64| #[trigger] self@.contains_key(k) <==> old(self)@.remove(key).contains_key(k) by {
                if has_key(t, k) {
                    let j = choose|j: int| 0 <= j < t.len() && t[j].0 == k;
                    let j2 = if j < i { j } else { j + 1 };
                    assert(t[j] == s[j2]);
                    assert(has_key(s, k));
                    if j2 != i {
                        lemma_entries_map_at(s, j2);
                        lemma_entries_map_at(s, i as int);
                    }
                }
                if k != key && has_key(s, k) {
                    let j = choose|j: int| 0 <= j < s.len() && s[j].0 == k;
                    if j < i {
                        assert(t[j] == s[j]);
                    } else {
                        assert(t[j - 1] == s[j]);
                    }
                    assert(has_key(t, k));
                }
            }
            assert forall|k: u64| #[trigger] self@.contains_key(k) implies self@[k] == old(self)@.remove(key)[k] by {
                let j = choose|j: int| 0 <= j < t.len() && t[j].0 == k;
                lemma_entries_map_at(t, j);
                let j2 = if j < i { j } else { j + 1 };
                assert(t[j] == s[j2]);
                lemma_entries_map_at(s, j2);
            }
            assert(self@ =~= old(self)@.remove(key));
        } else {
            proof {
                if has_key(self.entries@, key) {
                    let j = choose|j: int| 0 <= j < self.entries@.len() && self.entries@[j].0 == key;
                    if j > i {
                        assert(self.entries@[i as int].0 < self.entries@[j].0);
                    }
                }
            }
            assert(self@ =~= old(self)@.remove(key));
        }
    }
    /// Copy of this trie; the original stays valid as an older snapshot.
    pub fn snapshot(&self) -> (r: Trie)
        requires
            self.wf(),
        ensures
            r.wf(),
            r@ == self@,
            r.spec_root_hash() == self.spec_root_hash(),
    {
        let mut entries: Vec<(u64, Account)> = Vec::new();
        let mut i: usize = 0;
        while i < self.entries.len()
            invariant
                i <= self.entries@.len(),
                entries@ == self.entries@.take(i as int),
            decreases self.entries@.len() - i,
        {
            entries.push(self.entries[i]);
            i = i + 1;
            assert(entries@ =~= self.entries@.take(i as int));
        }
        assert(entries@ =~= self.entries@);
        Trie { entries }
    }

    /// The canonical encoding of the entries, whose digest is the root hash.
    pub closed spec fn spec_encoding(&self) -> Seq<u8> {
        encode_entries(self.entries@)
    }

    /// The root hash is the digest of the encoding, which decodes to
    /// strictly sorted entries holding this trie's map.
    pub proof fn lemma_encoding(&self)
        requires
            self.wf(),
        ensures
            self.spec_root_hash() == keccak256_of(self.spec_encoding()),
            exists|s: Seq<(u64, Account)>|
                sorted_keys(s) && encode_entries(s) == self.spec_encoding() && entries_map(s) == self@,
    {
        assert(sorted_keys(self.entries@) && encode_entries(self.entries@) == self.spec_encoding());
    }

    /// A proof for any key of this trie: the canonical encoding of all
    /// entries, checked against the root hash by `verify_proof`.
    pub fn generate_proof(&self) -> (r: Vec<u8>)
        ensures
            r@ == self.spec_encoding(),
    {
        let mut out: Vec<u8> = Vec::new();
        let mut i: usize = 0;
        while i < self.entries.len()
            invariant
                i <= self.entries@.len(),
                out@ == encode_entries(self.entries@.take(i as int)),
            decreases self.entries@.len() - i,
        {
            let (k, a) = self.entries[i];
            push_le_bytes(&mut out, k as u128, 16);
            push_le_bytes(&mut out, a.nonce as u128, 16);
            push_le_bytes(&mut out, a.balance, 16);
            proof {
                let t = self.entries@.take(i + 1);
                assert(t.drop_last() =~= self.entries@.take(i as int));
                assert(t.last() == self.entries@[i as int]);
            }
            i = i + 1;
        }
        assert(self.entries@.take(self.entries@.len() as int) =~= self.entries@);
        out
    }

    /// Trie over entries already known to be strictly sorted.
    pub(crate) fn from_sorted(entries: Vec<(u64, Account)>) -> (r: Trie)
        requires
            sorted_keys(entries@),
        ensures
            r.wf(),
            r@ == entries_map(entries@),
    {
        Trie { entries }
    }

    /// Root hash: Keccak-256 of the canonical encoding of the entries.
    pub fn root_hash(&self) -> (r: Vec<u8>)
        ensures
            r@ == self.spec_root_hash(),
            r@.len() == 32,
    {
        let enc = self.generate_proof();
        keccak256(enc.as_slice())
    }

    /// Trie holding the given pairs, inserted in order: where a key
    /// repeats, its last pair wins.
    pub fn build(pairs: &Vec<(u64, Account)>) -> (r: Trie)
        ensures
            r.wf(),
            forall|k: u64| #[trigger] r@.contains_key(k) <==> exists|i: int| 0 <= i < pairs@.len() && pairs@[i].0 == k,
            forall|i: int| 0 <= i < pairs@.len()
                && (forall|j: int| i < j < pairs@.len() ==> pairs@[j].0 != pairs@[i].0)
                ==> r@[#[trigger] pairs@[i].0] == pairs@[i].1,
            distinct_keys(pairs@) ==> r@ == pairs_map(pairs@),
    {
        let mut t = Trie::new();
        let mut i: usize = 0;
        while i < pairs.len()
            invariant
                i <= pairs@.len(),
                t.wf(),
                distinct_keys(pairs@) ==> forall|j: int| 0 <= j < i ==>
                    #[trigger] t@.contains_key(pairs@[j].0) && t@[pairs@[j].0] == pairs@[j].1,
                forall|k: u64| #[trigger] t@.contains_key(k) <==> exists|j: int| 0 <= j < i && pairs@[j].0 == k,
                forall|j: int| 0 <= j < i && (forall|m: int| j < m < i ==> pairs@[m].0 != pairs@[j].0)
                    ==> t@[#[trigger] pairs@[j].0] == pairs@[j].1,
            decreases pairs@.len() - i,
        {
            let (k, v) = pairs[i];
            t.insert(k, v);
            i = i + 1;
            proof {
                assert forall|q: u64| #[trigger] t@.contains_key(q) implies exists|j: int| 0 <= j < i && pairs@[j].0 == q by {
                    if q == k {
                        assert(pairs@[i - 1].0 == q);
                    }
                }
            }
        }
        proof {
            if distinct_keys(pairs@) {
                let s = pairs@;
                assert forall|k: u64| #[trigger] t@.contains_key(k) <==> pairs_map(s).contains_key(k) by {
                    if t@.contains_key(k) {
                        let j = choose|j: int| 0 <= j < i && pairs@[j].0 == k;
                        assert(s[j] == (k, s[j].1));
                        assert(s.contains((k, s[j].1)));
                    }
                    if pairs_map(s).contains_key(k) {
                        let v = choose|v: Account| s.contains((k, v));
                        let j = choose|j: int| 0 <= j < s.len() && s[j] == (k, v);
                        assert(t@.contains_key(s[j].0));
                    }
                }
                assert forall|k: u64| #[trigger] t@.contains_key(k) implies t@[k] == pairs_map(s)[k] by {
                    let j = choose|j: int| 0 <= j < i && pairs@[j].0 == k;
                    assert(s.contains((k, s[j].1)));
                    let v = choose|v: Account| s.contains((k, v));
                    let m = choose|m: int| 0 <= m < s.len() && s[m] == (k, v);
                    assert(m == j);
                    assert(t@.contains_key(s[j].0));
                }
                assert(t@ =~= pairs_map(s));
            }
        }
        t
    }
}

/// Appends the `n`-byte little-endian encoding of `x`.
pub(crate) fn push_le_bytes(out: &mut Vec<u8>, x: u128, n: usize)
    ensures
        final(out)@ == old(out)@ + le_bytes(x as nat, n as nat),
{
    let mut v: u128 = x;
    let mut k: usize = n;
    while k > 0
        invariant
            k <= n,
            out@ + le_bytes(v as nat, k as nat) == old(out)@ + le_bytes(x as nat, n as nat),
        decreases k,
    {
        let ghost before = out@;
        let ghost rest = le_bytes(v as nat, k as nat);
        out.push((v % 256) as u8);
        assert(rest == seq![(v % 256) as u8] + le_bytes((v / 256) as nat, (k - 1) as nat));
        v = v / 256;
        k = k - 1;
        assert(out@ + le_bytes(v as nat, k as nat) =~= before + rest);
    }
    assert(out@ =~= out@ + le_bytes(v as nat, 0));
}

/// Tries built from the same set of pairs with distinct keys, in whatever
/// order, hold the same map and so have the same root hash.
pub proof fn lemma_build_order_independent(
    s1: Seq<(u64, Account)>,
    s2: Seq<(u64, Account)>,
    t1: &Trie,
    t2: &Trie,
)
    requires
        distinct_keys(s1),
        distinct_keys(s2),
        s1.to_set() == s2.to_set(),
        t1.wf(),
        t2.wf(),
        t1@ == pairs_map(s1),
        t2@ == pairs_map(s2),
    ensures
        t1.spec_root_hash() == t2.spec_root_hash(),
{
    assert forall|p: (u64, Account)| s1.contains(p) <==> s2.contains(p) by {
        assert(s1.contains(p) <==> s1.to_set().contains(p));
        assert(s2.contains(p) <==> s2.to_set().contains(p));
    }
    assert(pairs_map(s1) =~= pairs_map(s2));
    Trie::lemma_root_hash_canonical(t1, t2);
}

/// The account at `key` in `m`, the empty account where `m` holds none.
pub open spec fn account_of(m: Map<u64, Account>, key: u64) -> Account {
    if m.contains_key(key) { m[key] } else { Account::empty_spec() }
}

} // verus!
