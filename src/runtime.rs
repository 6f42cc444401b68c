use vstd::prelude::*;
use crate::executor::{admission_spec, pre_validate, BlockContext, TxError};
use crate::handler::{block_spec, build_block, receipt_summary};
use crate::receipt::Receipt;
use crate::transaction::Transaction;
use crate::trie::{account_of, Account, Trie};
use crate::tx_queue::{submit_spec, QueueEntry, QueueError, TxQueue};

verus! {

/// Why a submitted transaction was not queued.
#[derive(Debug, Clone, Copy, PartialEq, Eq, Structural)]
pub enum SubmitError {
    Validation(TxError),
    Queue(QueueError),
}

/// A chain instance: the canonical state, the pending queue and the root
/// hashes of every committed state, oldest first.
pub struct Runtime {
    state: Trie,
    queue: TxQueue,
    roots: Vec<Vec<u8>>,
}

impl Runtime {
    pub closed spec fn wf(&self) -> bool {
        self.state.wf() && self.queue.wf()
    }

    /// The canonical state.
    pub closed spec fn state_view(&self) -> Map<u64, Account> {
        self.state@
    }

    /// Root hash of the canonical state.
    pub closed spec fn spec_root(&self) -> Seq<u8> {
        self.state.spec_root_hash()
    }

    /// The committed roots, oldest first.
    pub closed spec fn spec_roots(&self) -> Seq<Seq<u8>> {
        self.roots@.map_values(|r: Vec<u8>| r@)
    }

    /// Number of pending transactions.
    pub closed spec fn spec_pending(&self) -> nat {
        self.queue@.len()
    }

    /// The pending entries.
    pub closed spec fn queue_view(&self) -> Seq<QueueEntry> {
        self.queue@
    }

    /// Capacity of the pending queue.
    pub closed spec fn queue_capacity(&self) -> nat {
        self.queue.spec_capacity()
    }

    /// Replacement bump of the pending queue, in percent.
    pub closed spec fn queue_bump(&self) -> u32 {
        self.queue.spec_min_bump()
    }

    /// Next insertion counter of the pending queue.
    pub closed spec fn queue_next_seq(&self) -> u64 {
        self.queue.spec_next_seq()
    }

    /// A chain that starts from `genesis`, with an empty queue of the given
    /// capacity and replacement bump; the genesis root is the first root.
    pub fn new(genesis: Trie, capacity: usize, min_bump_percent: u32) -> (r: Runtime)
        requires
            genesis.wf(),
        ensures
            r.wf(),
            r.state_view() == genesis@,
            r.spec_root() == genesis.spec_root_hash(),
            r.spec_roots() == seq![genesis.spec_root_hash()],
            r.spec_pending() == 0,
    {
        let root = genesis.root_hash();
        let mut roots: Vec<Vec<u8>> = Vec::new();
        roots.push(root);
        let r = Runtime { state: genesis, queue: TxQueue::new(capacity, min_bump_percent), roots };
        assert(r.spec_roots() =~= seq![genesis.spec_root_hash()]);
        r
    }

    /// The account at `address` in the canonical state.
    pub fn get_account(&self, address: u64) -> (r: Account)
        requires
            self.wf(),
        ensures
            r == account_of(self.state_view(), address),
    {
        self.state.get_account(address)
    }

    /// Root hash of the canonical state.
    pub fn state_root(&self) -> (r: Vec<u8>)
        ensures
            r@ == self.spec_root(),
    {
        self.state.root_hash()
    }

    /// Number of pending transactions.
    pub fn pending(&self) -> (r: usize)
        requires
            self.wf(),
        ensures
            r == self.spec_pending(),
    {
        self.queue.len()
    }

    /// Validates `tx` against the canonical state and offers it to the
    /// queue under `base_fee`. The state is never changed.
    pub fn submit_transaction(&mut self, tx: Transaction, base_fee: u64) -> (r: Result<(), SubmitError>)
        requires
            old(self).wf(),
        ensures
            final(self).wf(),
            final(self).state_view() == old(self).state_view(),
            final(self).spec_roots() == old(self).spec_roots(),
            final(self).spec_root() == old(self).spec_root(),
            admission_spec(old(self).state_view(), &tx) matches Some(e) ==> r == Err::<(), SubmitError>(
                SubmitError::Validation(e),
            ) && final(self).spec_pending() == old(self).spec_pending(),
            final(self).queue_capacity() == old(self).queue_capacity(),
            final(self).queue_bump() == old(self).queue_bump(),
            admission_spec(old(self).state_view(), &tx) is None ==> ({
                let (qr, qv) = submit_spec(
                    old(self).queue_view(),
                    old(self).queue_capacity(),
                    old(self).queue_bump(),
                    old(self).queue_next_seq(),
                    tx,
                    base_fee,
                );
                &&& final(self).queue_view() == qv
                &&& r == match qr {
                    Ok(()) => Ok::<(), SubmitError>(()),
                    Err(e) => Err(SubmitError::Queue(e)),
                }
            }),
            r is Ok ==> final(self).spec_pending() >= 1,
            r matches Err(SubmitError::Queue(_)) ==> final(self).spec_pending() == old(self).spec_pending(),
    {
        match pre_validate(&self.state, &tx) {
            Err(e) => Err(SubmitError::Validation(e)),
            Ok(()) => match self.queue.submit(tx, base_fee) {
                Ok(()) => Ok(()),
                Err(e) => Err(SubmitError::Queue(e)),
            },
        }
    }

    /// Builds a block on the canonical state from the queue, commits the
    /// resulting state as canonical, records its root, and returns the root
    /// and the receipts in execution order.
    pub fn build_block(&mut self, ctx: &BlockContext) -> (r: (Vec<u8>, Vec<Receipt>))
        requires
            old(self).wf(),
        ensures
            final(self).wf(),
            r.0@ == final(self).spec_root(),
            final(self).state_view() == block_spec(old(self).state_view(), old(self).queue_view(), *ctx, 0, seq![], seq![]).0,
            receipt_summary(r.1@) == block_spec(old(self).state_view(), old(self).queue_view(), *ctx, 0, seq![], seq![]).1,
            final(self).queue_view() == block_spec(old(self).state_view(), old(self).queue_view(), *ctx, 0, seq![], seq![]).2,
            forall|i: int| 0 <= i < r.1@.len() ==> (#[trigger] r.1@[i]).logs@.len() == 0,
            final(self).queue_capacity() == old(self).queue_capacity(),
            final(self).spec_roots() == old(self).spec_roots().push(r.0@),
            final(self).spec_pending() <= old(self).spec_pending(),
            r.1@.len() <= old(self).spec_pending() - final(self).spec_pending(),
    {
        let (next, receipts) = build_block(&self.state, &mut self.queue, ctx);
        self.state = next;
        let root = self.state.root_hash();
        self.roots.push(self.state.root_hash());
        assert(self.spec_roots() =~= old(self).spec_roots().push(root@));
        (root, receipts)
    }
}

} // verus!
