use vstd::prelude::*;
use crate::executor::{apply, dispatch_succeeds, gas_used_spec, post_state, recipient_spec, validate_spec, BlockContext};
use crate::receipt::Receipt;
use crate::transaction::{Transaction, TX_BASE_GAS};
use crate::tx_queue::{distinct_entries, is_best, lemma_best_unique, same_slot, QueueEntry, TxQueue};
use crate::trie::{Account, Trie};

verus! {

/// Total gas used by a sequence of receipts.
pub open spec fn receipts_gas(rs: Seq<Receipt>) -> nat
    decreases rs.len(),
{
    if rs.len() == 0 {
        0
    } else {
        receipts_gas(rs.drop_last()) + rs.last().gas_used as nat
    }
}

/// Status, gas used and created contract address of each receipt.
pub open spec fn receipt_summary(rs: Seq<Receipt>) -> Seq<(bool, u64, Option<u64>)> {
    rs.map_values(|r: Receipt| (r.status, r.gas_used, r.contract_address))
}

/// Receipt summary of a transaction that passed validation against `m`.
pub open spec fn outcome_of(m: Map<u64, Account>, base_fee: u64, tx: &Transaction) -> (bool, u64, Option<u64>) {
    (
        dispatch_succeeds(m, base_fee, tx),
        gas_used_spec(tx) as u64,
        if tx.to is None && dispatch_succeeds(m, base_fee, tx) {
            Some(recipient_spec(tx))
        } else {
            None
        },
    )
}

/// Position in `q.remove(b) + d.push(q[b])` of entry `a` of `q + d`,
/// taken the other way: where entry `a` of the new sequence came from.
pub open spec fn moved_from(a: int, b: int, len: int) -> int {
    if a < b { a } else if a < len - 1 { a + 1 } else { b }
}

proof fn lemma_move_to_back(q: Seq<QueueEntry>, d: Seq<QueueEntry>, b: int)
    requires
        0 <= b < q.len(),
        distinct_entries(q + d),
    ensures
        (q.remove(b) + d.push(q[b])).len() == (q + d).len(),
        forall|a: int| 0 <= a < (q + d).len() ==>
            #[trigger] (q.remove(b) + d.push(q[b]))[a] == (q + d)[moved_from(a, b, (q + d).len() as int)],
        distinct_entries(q.remove(b) + d.push(q[b])),
{
    let all = q + d;
    let n = q.remove(b) + d.push(q[b]);
    let len = all.len() as int;
    assert forall|a: int| 0 <= a < len implies #[trigger] n[a] == all[moved_from(a, b, len)] by {
        if a < b {
        } else if a < q.len() - 1 {
        } else if a < len - 1 {
            assert(n[a] == d[a - (q.len() - 1)]);
        } else {
        }
    }
    assert forall|a: int, c: int|
        #![trigger n[a], n[c]]
        0 <= a < n.len() && 0 <= c < n.len() && a != c implies {
            &&& n[a].seq != n[c].seq
            &&& !same_slot(n[a], &n[c].tx)
        } by {
        assert(n[a] == all[moved_from(a, b, len)] && n[c] == all[moved_from(c, b, len)]);
    }
}

proof fn lemma_remove_distinct(q: Seq<QueueEntry>, d: Seq<QueueEntry>, b: int)
    requires
        0 <= b < q.len(),
        distinct_entries(q + d),
    ensures
        forall|a: int| 0 <= a < (q.remove(b) + d).len() ==>
            #[trigger] (q.remove(b) + d)[a] == (q + d)[if a < b { a } else { a + 1 }],
        distinct_entries(q.remove(b) + d),
{
    let all = q + d;
    let n = q.remove(b) + d;
    assert forall|a: int| 0 <= a < n.len() implies #[trigger] n[a] == all[if a < b { a } else { a + 1 }] by {
        if a >= q.len() - 1 {
            assert(n[a] == d[a - (q.len() - 1)]);
        }
    }
    assert forall|a: int, c: int|
        #![trigger n[a], n[c]]
        0 <= a < n.len() && 0 <= c < n.len() && a != c implies {
            &&& n[a].seq != n[c].seq
            &&& !same_slot(n[a], &n[c].tx)
        } by {
        assert(n[a] == all[if a < b { a } else { a + 1 }] && n[c] == all[if c < b { c } else { c + 1 }]);
    }
}

/// Outcome of building the rest of a block from state `m`, pending
/// entries `q`, gas `used` so far, receipt summary `rs` and entries `d`
/// set aside because they did not fit: the final state, the final summary
/// and the entries left queued, those set aside last.
pub open spec fn block_spec(
    m: Map<u64, Account>,
    q: Seq<QueueEntry>,
    ctx: BlockContext,
    used: nat,
    rs: Seq<(bool, u64, Option<u64>)>,
    d: Seq<QueueEntry>,
) -> (Map<u64, Account>, Seq<(bool, u64, Option<u64>)>, Seq<QueueEntry>)
    decreases q.len(),
{
    if q.len() == 0 || ctx.gas_limit < used + TX_BASE_GAS {
        (m, rs, q + d)
    } else {
        let b = choose|b: int| is_best(q, b, ctx.base_fee);
        let tx = q[b].tx;
        if !(0 <= b < q.len()) {
            (m, rs, q + d)
        } else if tx.gas_limit > ctx.gas_limit - used {
            block_spec(m, q.remove(b), ctx, used, rs, d.push(q[b]))
        } else if validate_spec(m, ctx.base_fee, &tx) is None {
            block_spec(
                post_state(m, ctx.base_fee, &tx),
                q.remove(b),
                ctx,
                used + gas_used_spec(&tx),
                rs.push(outcome_of(m, ctx.base_fee, &tx)),
                d,
            )
        } else {
            block_spec(m, q.remove(b), ctx, used, rs, d)
        }
    }
}

/// Builds one block on `state`: takes pending transactions best first
/// while the remaining gas covers the base transaction cost. One whose gas
/// limit exceeds the remaining gas is set aside and stays queued; one that
/// fits is applied to the running state, and its receipt is kept when it
/// was accepted, while a rejected one is dropped. Returns the new state and
/// the receipts in execution order.
pub fn build_block(state: &Trie, queue: &mut TxQueue, ctx: &BlockContext) -> (r: (Trie, Vec<Receipt>))
    requires
        state.wf(),
        old(queue).wf(),
    ensures
        r.0.wf(),
        final(queue).wf(),
        r.0@ == block_spec(state@, old(queue)@, *ctx, 0, seq![], seq![]).0,
        receipt_summary(r.1@) == block_spec(state@, old(queue)@, *ctx, 0, seq![], seq![]).1,
        final(queue)@ == block_spec(state@, old(queue)@, *ctx, 0, seq![], seq![]).2,
        forall|i: int| 0 <= i < r.1@.len() ==> (#[trigger] r.1@[i]).logs@.len() == 0,
        final(queue).spec_capacity() == old(queue).spec_capacity(),
        final(queue).spec_min_bump() == old(queue).spec_min_bump(),
        final(queue)@.len() <= old(queue)@.len(),
        r.1@.len() <= old(queue)@.len() - final(queue)@.len(),
        receipts_gas(r.1@) <= ctx.gas_limit,
{
    let mut running = state.snapshot();
    let mut receipts: Vec<Receipt> = Vec::new();
    let mut deferred: Vec<QueueEntry> = Vec::new();
    let mut used: u64 = 0;
    assert(receipt_summary(receipts@) =~= seq![]);
    proof {
        old(queue).lemma_wf_facts();
        assert(queue@ + deferred@ =~= queue@);
    }
    loop
        invariant
            running.wf(),
            queue.wf(),
            queue.spec_capacity() == old(queue).spec_capacity(),
            queue.spec_min_bump() == old(queue).spec_min_bump(),
            queue.spec_next_seq() == old(queue).spec_next_seq(),
            old(queue)@.len() <= old(queue).spec_capacity(),
            distinct_entries(queue@ + deferred@),
            forall|j: int| 0 <= j < deferred@.len() ==> #[trigger] deferred@[j].seq < queue.spec_next_seq(),
            queue@.len() + deferred@.len() <= old(queue)@.len(),
            receipts@.len() <= old(queue)@.len() - (queue@.len() + deferred@.len()),
            used == receipts_gas(receipts@),
            used <= ctx.gas_limit,
            forall|i: int| 0 <= i < receipts@.len() ==> (#[trigger] receipts@[i]).logs@.len() == 0,
            block_spec(state@, old(queue)@, *ctx, 0, seq![], seq![])
                == block_spec(running@, queue@, *ctx, used as nat, receipt_summary(receipts@), deferred@),
        ensures
            queue.wf(),
            queue.spec_capacity() == old(queue).spec_capacity(),
            queue.spec_min_bump() == old(queue).spec_min_bump(),
            queue.spec_next_seq() == old(queue).spec_next_seq(),
            old(queue)@.len() <= old(queue).spec_capacity(),
            distinct_entries(queue@ + deferred@),
            forall|j: int| 0 <= j < deferred@.len() ==> #[trigger] deferred@[j].seq < queue.spec_next_seq(),
            queue@.len() + deferred@.len() <= old(queue)@.len(),
            receipts@.len() <= old(queue)@.len() - (queue@.len() + deferred@.len()),
            block_spec(state@, old(queue)@, *ctx, 0, seq![], seq![])
                == (running@, receipt_summary(receipts@), queue@ + deferred@),
        decreases queue@.len(),
    {
        let remaining: u64 = ctx.gas_limit - used;
        if remaining < TX_BASE_GAS {
            break;
        }
        let ghost q = queue@;
        let ghost d = deferred@;
        let ghost m = running@;
        let ghost sm = receipt_summary(receipts@);
        proof {
            queue.lemma_wf_facts();
        }
        let e = match queue.pop_best_entry(ctx.base_fee) {
            Some(e) => e,
            None => {
                break;
            },
        };
        let ghost b = choose|b: int| is_best(q, b, ctx.base_fee) && e == q[b] && queue@ == q.remove(b);
        proof {
            let bc = choose|b: int| is_best(q, b, ctx.base_fee);
            lemma_best_unique(q, bc, b, ctx.base_fee);
            queue.lemma_wf_facts();
        }
        if e.tx.gas_limit > remaining {
            proof {
                lemma_move_to_back(q, d, b);
                let len = (q + d).len() as int;
                assert forall|j: int| 0 <= j < d.len() + 1 implies #[trigger] d.push(e)[j].seq < queue.spec_next_seq() by {
                    if j < d.len() {
                        assert(d.push(e)[j] == d[j]);
                    } else {
                        assert(d.push(e)[j] == q[b]);
                    }
                }
            }
            deferred.push(e);
            proof {
                assert(queue@ + deferred@ == q.remove(b) + d.push(q[b]));
            }
        } else {
            proof {
                lemma_remove_distinct(q, d, b);
            }
            let tx = e.tx;
            match apply(&running, ctx, &tx) {
                Ok((next, receipt)) => {
                    running = next;
                    let ghost before = receipts@;
                    let g = receipt.gas_used;
                    receipts.push(receipt);
                    proof {
                        assert(receipts@.drop_last() == before);
                        assert(receipt_summary(receipts@) =~= sm.push(outcome_of(m, ctx.base_fee, &tx)));
                    }
                    used = used + g;
                },
                Err(_) => {},
            }
        }
    }
    proof {
        assert forall|j: int| 0 <= j < deferred@.len() implies #[trigger] deferred@[j].seq < queue.spec_next_seq() by {}
    }
    queue.restore(deferred);
    (running, receipts)
}

} // verus!
