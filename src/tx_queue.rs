use vstd::prelude::*;
use crate::fee::{effective_gas_price, effective_price_spec};
use crate::transaction::Transaction;

verus! {

/// A pending transaction with its insertion time.
#[derive(Debug, Clone)]
pub struct QueueEntry {
    pub tx: Transaction,
    /// Insertion counter; earlier entries have smaller values.
    pub seq: u64,
}

/// Reasons for refusing a submission; the queue is then unchanged.
#[derive(Debug, Clone, Copy, PartialEq, Eq, Structural)]
pub enum QueueError {
    /// A pending transaction with the same sender and nonce is not outbid
    /// by the required bump.
    Underpriced,
    /// No room, and the transaction does not outrank the lowest entry.
    QueueFull,
}

/// Ordering price of `tx` under `base_fee`: its effective gas price, or 0
/// when its fee cap is below the base fee.
pub open spec fn priority(tx: &Transaction, base_fee: u64) -> int {
    if tx.max_fee_per_gas < base_fee {
        0
    } else {
        effective_price_spec(tx.max_fee_per_gas, tx.max_priority_fee_per_gas, base_fee)
    }
}

/// `a` goes into a block before `b`: higher priority, then earlier insertion.
pub open spec fn better(a: QueueEntry, b: QueueEntry, base_fee: u64) -> bool {
    priority(&a.tx, base_fee) > priority(&b.tx, base_fee)
        || (priority(&a.tx, base_fee) == priority(&b.tx, base_fee) && a.seq < b.seq)
}

/// Entry `b` comes before every other entry of `q`.
pub open spec fn is_best(q: Seq<QueueEntry>, b: int, base_fee: u64) -> bool {
    &&& 0 <= b < q.len()
    &&& forall|j: int| 0 <= j < q.len() && j != b ==> better(q[b], q[j], base_fee)
}

/// At most one entry comes before all others.
pub proof fn lemma_best_unique(q: Seq<QueueEntry>, b1: int, b2: int, base_fee: u64)
    requires
        is_best(q, b1, base_fee),
        is_best(q, b2, base_fee),
    ensures
        b1 == b2,
{
    if b1 != b2 {
        assert(better(q[b1], q[b2], base_fee));
        assert(better(q[b2], q[b1], base_fee));
    }
}

/// At most one entry comes after all others.
pub proof fn lemma_worst_unique(q: Seq<QueueEntry>, w1: int, w2: int, base_fee: u64)
    requires
        is_worst(q, w1, base_fee),
        is_worst(q, w2, base_fee),
    ensures
        w1 == w2,
{
    if w1 != w2 {
        assert(better(q[w1], q[w2], base_fee));
        assert(better(q[w2], q[w1], base_fee));
    }
}

/// Outcome of offering `tx` under `base_fee` to a queue with entries `q`,
/// capacity `cap`, replacement bump `bump` and next insertion counter
/// `next_seq`: the result and the entries afterwards.
pub open spec fn submit_spec(
    q: Seq<QueueEntry>,
    cap: nat,
    bump: u32,
    next_seq: u64,
    tx: Transaction,
    base_fee: u64,
) -> (Result<(), QueueError>, Seq<QueueEntry>) {
    let e = QueueEntry { tx, seq: next_seq };
    if next_seq == u64::MAX {
        (Err(QueueError::QueueFull), q)
    } else if has_slot(q, &tx) {
        if outbids(&q[slot_index(q, &tx)].tx, &tx, bump) {
            (Ok(()), q.update(slot_index(q, &tx), e))
        } else {
            (Err(QueueError::Underpriced), q)
        }
    } else if q.len() < cap {
        (Ok(()), q.push(e))
    } else {
        let w = choose|w: int| is_worst(q, w, base_fee);
        if q.len() > 0 && priority(&tx, base_fee) > priority(&q[w].tx, base_fee) {
            (Ok(()), q.remove(w).push(e))
        } else {
            (Err(QueueError::QueueFull), q)
        }
    }
}

/// Entry `w` comes after every other entry of `q`.
pub open spec fn is_worst(q: Seq<QueueEntry>, w: int, base_fee: u64) -> bool {
    &&& 0 <= w < q.len()
    &&& forall|j: int| 0 <= j < q.len() && j != w ==> better(q[j], q[w], base_fee)
}

/// Entry `e` is pending under the same sender and nonce as `tx`.
pub open spec fn same_slot(e: QueueEntry, tx: &Transaction) -> bool {
    e.tx.sender == tx.sender && e.tx.nonce == tx.nonce
}

pub open spec fn has_slot(q: Seq<QueueEntry>, tx: &Transaction) -> bool {
    exists|i: int| 0 <= i < q.len() && same_slot(q[i], tx)
}

pub open spec fn slot_index(q: Seq<QueueEntry>, tx: &Transaction) -> int {
    choose|i: int| 0 <= i < q.len() && same_slot(q[i], tx)
}

/// `new` outbids `old` by at least `bump_percent` percent of the fee cap.
pub open spec fn outbids(old: &Transaction, new: &Transaction, bump_percent: u32) -> bool {
    new.max_fee_per_gas * 100 >= old.max_fee_per_gas * (100 + bump_percent)
}

/// No two entries share an insertion counter, or a sender and nonce.
pub open spec fn distinct_entries(q: Seq<QueueEntry>) -> bool {
    forall|i: int, j: int|
        #![trigger q[i], q[j]]
        0 <= i < q.len() && 0 <= j < q.len() && i != j ==> {
            &&& q[i].seq != q[j].seq
            &&& !same_slot(q[i], &q[j].tx)
        }
}

/// Pending transactions ordered for block inclusion.
pub struct TxQueue {
    entries: Vec<QueueEntry>,
    capacity: usize,
    min_bump_percent: u32,
    next_seq: u64,
}

impl TxQueue {
    pub closed spec fn view(&self) -> Seq<QueueEntry> {
        self.entries@
    }

    pub closed spec fn spec_capacity(&self) -> nat {
        self.capacity as nat
    }

    pub closed spec fn spec_min_bump(&self) -> u32 {
        self.min_bump_percent
    }

    pub closed spec fn spec_next_seq(&self) -> u64 {
        self.next_seq
    }

    /// Insertion counters are distinct and below the next one; no two
    /// entries share a sender and nonce; the capacity is respected.
    pub closed spec fn wf(&self) -> bool {
        &&& self.entries@.len() <= self.capacity
        &&& forall|i: int| 0 <= i < self.entries@.len() ==> #[trigger] self.entries@[i].seq < self.next_seq
        &&& distinct_entries(self.entries@)
    }

    /// What well-formedness gives a caller: distinct entries, counters
    /// below the next one, and the capacity respected.
    pub proof fn lemma_wf_facts(&self)
        requires
            self.wf(),
        ensures
            distinct_entries(self@),
            forall|i: int| 0 <= i < self@.len() ==> #[trigger] self@[i].seq < self.spec_next_seq(),
            self@.len() <= self.spec_capacity(),
    {
    }

    /// An empty queue holding at most `capacity` entries and asking a
    /// replacement to raise the fee cap by `min_bump_percent` percent.
    pub fn new(capacity: usize, min_bump_percent: u32) -> (r: TxQueue)
        ensures
            r.wf(),
            r@.len() == 0,
            r.spec_capacity() == capacity,
            r.spec_min_bump() == min_bump_percent,
            r.spec_next_seq() == 0,
    {
        TxQueue { entries: Vec::new(), capacity, min_bump_percent, next_seq: 0 }
    }

    /// Number of pending entries.
    pub fn len(&self) -> (r: usize)
        ensures
            r == self@.len(),
    {
        self.entries.len()
    }

    /// The pending entries, in insertion order of their slots.
    pub fn entries(&self) -> (r: &Vec<QueueEntry>)
        ensures
            r@ == self@,
    {
        &self.entries
    }

    fn find_slot(&self, tx: &Transaction) -> (r: Option<usize>)
        requires
            self.wf(),
        ensures
            r is None <==> !has_slot(self@, tx),
            r matches Some(i) ==> i == slot_index(self@, tx) && same_slot(self@[i as int], tx) && i < self@.len(),
    {
        let mut i: usize = 0;
        while i < self.entries.len()
            invariant
                self.wf(),
                i <= self.entries@.len(),
                forall|j: int| 0 <= j < i ==> !same_slot(self.entries@[j], tx),
            decreases self.entries@.len() - i,
        {
            if self.entries[i].tx.sender == tx.sender && self.entries[i].tx.nonce == tx.nonce {
                proof {
                    let q = self.entries@;
                    assert(self@ == q);
                    assert(same_slot(q[i as int], tx));
                    assert(has_slot(q, tx));
                    let k = slot_index(q, tx);
                    assert(0 <= k < q.len() && same_slot(q[k], tx));
                    if k != i {
                        assert(!same_slot(q[k], &q[i as int].tx));
                    }
                }
                return Some(i);
            }
            i = i + 1;
        }
        None
    }

    fn priority_of(tx: &Transaction, base_fee: u64) -> (r: u64)
        ensures
            r == priority(tx, base_fee),
    {
        match effective_gas_price(tx.max_fee_per_gas, tx.max_priority_fee_per_gas, base_fee) {
            Ok(p) => p,
            Err(_) => 0,
        }
    }

    /// `better` on two entries, computed.
    fn ranks_before(a: &QueueEntry, b: &QueueEntry, base_fee: u64) -> (r: bool)
        ensures
            r == better(*a, *b, base_fee),
    {
        let pa = Self::priority_of(&a.tx, base_fee);
        let pb = Self::priority_of(&b.tx, base_fee);
        pa > pb || (pa == pb && a.seq < b.seq)
    }

    fn best_index(&self, base_fee: u64) -> (r: usize)
        requires
            self.wf(),
            self@.len() > 0,
        ensures
            is_best(self@, r as int, base_fee),
    {
        let mut b: usize = 0;
        let mut i: usize = 1;
        while i < self.entries.len()
            invariant
                self.wf(),
                1 <= i <= self.entries@.len(),
                b < i,
                forall|j: int| 0 <= j < i && j != b ==> better(self.entries@[b as int], self.entries@[j], base_fee),
            decreases self.entries@.len() - i,
        {
            if Self::ranks_before(&self.entries[i], &self.entries[b], base_fee) {
                b = i;
            } else {
                assert(self.entries@[i as int].seq != self.entries@[b as int].seq);
            }
            i = i + 1;
        }
        b
    }

    fn worst_index(&self, base_fee: u64) -> (r: usize)
        requires
            self.wf(),
            self@.len() > 0,
        ensures
            is_worst(self@, r as int, base_fee),
    {
        let mut w: usize = 0;
        let mut i: usize = 1;
        while i < self.entries.len()
            invariant
                self.wf(),
                1 <= i <= self.entries@.len(),
                w < i,
                forall|j: int| 0 <= j < i && j != w ==> better(self.entries@[j], self.entries@[w as int], base_fee),
            decreases self.entries@.len() - i,
        {
            if Self::ranks_before(&self.entries[w], &self.entries[i], base_fee) {
                w = i;
            } else {
                assert(self.entries@[i as int].seq != self.entries@[w as int].seq);
            }
            i = i + 1;
        }
        w
    }
    /// Offers `tx` to the queue, ordered under `base_fee`. A transaction for
    /// a pending sender and nonce replaces that entry only when it outbids
    /// it; a new one is added when there is room, else it takes the place
    /// of the lowest entry when it has a strictly higher priority. The
    /// queue is also full once its insertion counter is exhausted.
    pub fn submit(&mut self, tx: Transaction, base_fee: u64) -> (r: Result<(), QueueError>)
        requires
            old(self).wf(),
        ensures
            final(self).wf(),
            final(self).spec_capacity() == old(self).spec_capacity(),
            final(self).spec_min_bump() == old(self).spec_min_bump(),
            (r, final(self)@) == submit_spec(
                old(self)@,
                old(self).spec_capacity(),
                old(self).spec_min_bump(),
                old(self).spec_next_seq(),
                tx,
                base_fee,
            ),
            r is Err ==> final(self)@ == old(self)@ && final(self).spec_next_seq() == old(self).spec_next_seq(),
            r is Ok ==> final(self).spec_next_seq() == old(self).spec_next_seq() + 1,
            old(self).spec_next_seq() == u64::MAX ==> r == Err::<(), QueueError>(QueueError::QueueFull),
            old(self).spec_next_seq() < u64::MAX ==> ({
                let q = old(self)@;
                let e = QueueEntry { tx, seq: old(self).spec_next_seq() };
                if has_slot(q, &tx) {
                    if outbids(&q[slot_index(q, &tx)].tx, &tx, old(self).spec_min_bump()) {
                        r is Ok && final(self)@ == q.update(slot_index(q, &tx), e)
                    } else {
                        r == Err::<(), QueueError>(QueueError::Underpriced)
                    }
                } else if q.len() < old(self).spec_capacity() {
                    r is Ok && final(self)@ == q.push(e)
                } else {
                    &&& (r is Ok <==> exists|w: int|
                        is_worst(q, w, base_fee) && priority(&tx, base_fee) > priority(&q[w].tx, base_fee))
                    &&& (r is Ok ==> exists|w: int|
                        is_worst(q, w, base_fee) && final(self)@ == q.remove(w).push(e))
                    &&& (r is Err ==> r == Err::<(), QueueError>(QueueError::QueueFull))
                }
            }),
    {
        if self.next_seq == u64::MAX {
            return Err(QueueError::QueueFull);
        }
        let ghost q = self.entries@;
        let seq = self.next_seq;
        match self.find_slot(&tx) {
            Some(i) => {
                let old_fee = self.entries[i].tx.max_fee_per_gas;
                let new_fee = tx.max_fee_per_gas;
                let bump = self.min_bump_percent;
                assert((old_fee as int) * (100 + bump as int) <= (u64::MAX as int) * (u32::MAX as int + 100))
                    by (nonlinear_arith)
                    requires old_fee <= u64::MAX, bump <= u32::MAX;
                if (new_fee as u128) * 100 >= (old_fee as u128) * (100 + bump as u128) {
                    let e = QueueEntry { tx, seq };
                    self.entries.set(i, e);
                    self.next_seq = seq + 1;
                    proof {
                        let n = self.entries@;
                        assert forall|a: int, b: int|
                            #![trigger n[a], n[b]]
                            0 <= a < n.len() && 0 <= b < n.len() && a != b implies {
                                &&& n[a].seq != n[b].seq
                                &&& !same_slot(n[a], &n[b].tx)
                            } by {
                            if a != i && b != i {
                                assert(n[a] == q[a] && n[b] == q[b]);
                            } else if a == i {
                                assert(n[b] == q[b]);
                                assert(!same_slot(q[i as int], &q[b].tx));
                            } else {
                                assert(n[a] == q[a]);
                                assert(!same_slot(q[a], &q[i as int].tx));
                            }
                        }
                    }
                    Ok(())
                } else {
                    Err(QueueError::Underpriced)
                }
            },
            None => {
                if self.entries.len() < self.capacity {
                    self.entries.push(QueueEntry { tx, seq });
                    self.next_seq = seq + 1;
                    proof {
                        let n = self.entries@;
                        assert forall|a: int, b: int|
                            #![trigger n[a], n[b]]
                            0 <= a < n.len() && 0 <= b < n.len() && a != b implies {
                                &&& n[a].seq != n[b].seq
                                &&& !same_slot(n[a], &n[b].tx)
                            } by {
                            if a < q.len() && b < q.len() {
                                assert(n[a] == q[a] && n[b] == q[b]);
                            } else if a < q.len() {
                                assert(n[a] == q[a]);
                                assert(!same_slot(q[a], &tx));
                            } else {
                                assert(n[b] == q[b]);
                                assert(!same_slot(q[b], &tx));
                            }
                        }
                    }
                    Ok(())
                } else if self.entries.len() == 0 {
                    Err(QueueError::QueueFull)
                } else {
                    let w = self.worst_index(base_fee);
                    let pw = Self::priority_of(&self.entries[w].tx, base_fee);
                    let pn = Self::priority_of(&tx, base_fee);
                    if pn > pw {
                        self.entries.remove(w);
                        self.entries.push(QueueEntry { tx, seq });
                        self.next_seq = seq + 1;
                        proof {
                            let wc = choose|v: int| is_worst(q, v, base_fee);
                            lemma_worst_unique(q, wc, w as int, base_fee);
                            let n = self.entries@;
                            let rm = q.remove(w as int);
                            assert(n == rm.push(QueueEntry { tx, seq }));
                            assert forall|a: int| 0 <= a < rm.len() implies rm[a] == q[if a < w { a } else { a + 1 }] by {}
                            assert forall|a: int, b: int|
                                #![trigger n[a], n[b]]
                                0 <= a < n.len() && 0 <= b < n.len() && a != b implies {
                                    &&& n[a].seq != n[b].seq
                                    &&& !same_slot(n[a], &n[b].tx)
                                } by {
                                let a2 = if a < w { a } else { a + 1 };
                                let b2 = if b < w { b } else { b + 1 };
                                if a < rm.len() && b < rm.len() {
                                    assert(n[a] == q[a2] && n[b] == q[b2]);
                                } else if a < rm.len() {
                                    assert(n[a] == q[a2]);
                                    assert(!same_slot(q[a2], &tx));
                                } else {
                                    assert(n[b] == q[b2]);
                                    assert(!same_slot(q[b2], &tx));
                                }
                            }
                            assert forall|a: int| 0 <= a < n.len() implies #[trigger] n[a].seq < self.next_seq by {
                                if a < rm.len() {
                                    assert(n[a] == q[if a < w { a } else { a + 1 }]);
                                }
                            }
                        }
                        Ok(())
                    } else {
                        proof {
                            let wc = choose|v: int| is_worst(q, v, base_fee);
                            lemma_worst_unique(q, wc, w as int, base_fee);
                            assert forall|v: int| is_worst(q, v, base_fee) implies
                                !(priority(&tx, base_fee) > priority(&q[v].tx, base_fee)) by {
                                if v != w {
                                    assert(better(q[v], q[w as int], base_fee));
                                    assert(better(q[w as int], q[v], base_fee));
                                }
                            }
                        }
                        Err(QueueError::QueueFull)
                    }
                }
            },
        }
    }

    /// Removes and returns the entry that goes first into a block under
    /// `base_fee`; `None` when the queue is empty.
    pub fn pop_best_entry(&mut self, base_fee: u64) -> (r: Option<QueueEntry>)
        requires
            old(self).wf(),
        ensures
            final(self).wf(),
            final(self).spec_capacity() == old(self).spec_capacity(),
            final(self).spec_min_bump() == old(self).spec_min_bump(),
            final(self).spec_next_seq() == old(self).spec_next_seq(),
            r is None <==> old(self)@.len() == 0,
            r is None ==> final(self)@ == old(self)@,
            r matches Some(e) ==> exists|b: int|
                is_best(old(self)@, b, base_fee) && e == old(self)@[b] && final(self)@ == old(self)@.remove(b),
    {
        if self.entries.len() == 0 {
            return None;
        }
        let b = self.best_index(base_fee);
        let ghost q = self.entries@;
        let e = self.entries.remove(b);
        proof {
            let n = self.entries@;
            assert forall|a: int| 0 <= a < n.len() implies #[trigger] n[a] == q[if a < b { a } else { a + 1 }] by {}
            assert forall|a: int, c: int|
                #![trigger n[a], n[c]]
                0 <= a < n.len() && 0 <= c < n.len() && a != c implies {
                    &&& n[a].seq != n[c].seq
                    &&& !same_slot(n[a], &n[c].tx)
                } by {
                let a2 = if a < b { a } else { a + 1 };
                let c2 = if c < b { c } else { c + 1 };
                assert(n[a] == q[a2] && n[c] == q[c2]);
            }
            assert forall|a: int| 0 <= a < n.len() implies #[trigger] n[a].seq < self.next_seq by {
                assert(n[a] == q[if a < b { a } else { a + 1 }]);
            }
        }
        Some(e)
    }

    /// Removes and returns the transaction that goes first into a block
    /// under `base_fee`; `None` when the queue is empty.
    pub fn pop_best(&mut self, base_fee: u64) -> (r: Option<Transaction>)
        requires
            old(self).wf(),
        ensures
            final(self).wf(),
            final(self).spec_capacity() == old(self).spec_capacity(),
            final(self).spec_min_bump() == old(self).spec_min_bump(),
            final(self).spec_next_seq() == old(self).spec_next_seq(),
            r is None <==> old(self)@.len() == 0,
            r is None ==> final(self)@ == old(self)@,
            r matches Some(t) ==> exists|b: int|
                is_best(old(self)@, b, base_fee) && t == old(self)@[b].tx && final(self)@ == old(self)@.remove(b),
    {
        match self.pop_best_entry(base_fee) {
            Some(e) => Some(e.tx),
            None => None,
        }
    }

    /// Puts back entries taken out earlier, after the pending ones.
    pub(crate) fn restore(&mut self, back: Vec<QueueEntry>)
        requires
            old(self).wf(),
            distinct_entries(old(self)@ + back@),
            forall|i: int| 0 <= i < back@.len() ==> #[trigger] back@[i].seq < old(self).spec_next_seq(),
            old(self)@.len() + back@.len() <= old(self).spec_capacity(),
        ensures
            final(self).wf(),
            final(self)@ == old(self)@ + back@,
            final(self).spec_capacity() == old(self).spec_capacity(),
            final(self).spec_min_bump() == old(self).spec_min_bump(),
            final(self).spec_next_seq() == old(self).spec_next_seq(),
    {
        let ghost all = old(self)@ + back@;
        let mut rest = back;
        while rest.len() > 0
            invariant
                all == self.entries@ + rest@,
                distinct_entries(all),
                forall|j: int| 0 <= j < all.len() ==> #[trigger] all[j].seq < old(self).spec_next_seq(),
                all.len() <= self.capacity,
                self.capacity == old(self).spec_capacity(),
                self.min_bump_percent == old(self).spec_min_bump(),
                self.next_seq == old(self).spec_next_seq(),
                self.wf(),
            decreases rest@.len(),
        {
            let ghost before = self.entries@;
            let ghost r0 = rest@;
            let e = rest.remove(0);
            self.entries.push(e);
            proof {
                let n = self.entries@;
                assert(all =~= n + rest@) by {
                    assert(r0 =~= seq![e] + rest@);
                }
                assert forall|a: int| 0 <= a < n.len() implies #[trigger] n[a] == all[a] by {}
                assert forall|a: int, c: int|
                    #![trigger n[a], n[c]]
                    0 <= a < n.len() && 0 <= c < n.len() && a != c implies {
                        &&& n[a].seq != n[c].seq
                        &&& !same_slot(n[a], &n[c].tx)
                    } by {
                    assert(n[a] == all[a] && n[c] == all[c]);
                }
                assert forall|a: int| 0 <= a < n.len() implies #[trigger] n[a].seq < self.next_seq by {
                    assert(n[a] == all[a]);
                }
            }
        }
        assert(self.entries@ =~= all);
    }

    /// Gas limit of the transaction that `pop_best` would return.
    pub fn best_gas_limit(&self, base_fee: u64) -> (r: Option<u64>)
        requires
            self.wf(),
        ensures
            r is None <==> self@.len() == 0,
            r matches Some(g) ==> exists|b: int| is_best(self@, b, base_fee) && g == self@[b].tx.gas_limit,
    {
        if self.entries.len() == 0 {
            None
        } else {
            let b = self.best_index(base_fee);
            Some(self.entries[b].tx.gas_limit)
        }
    }
}

} // verus!
