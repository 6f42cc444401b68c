use ain_evm::add;
use ain_evm::executor::{apply, create_address, BlockContext, TxError};
use ain_evm::fee::{compute_base_fee, effective_gas_price, FeeError};
use ain_evm::genesis::genesis_state;
use ain_evm::handler::build_block;
use ain_evm::receipt::{logs_bloom, Log, Receipt};
use ain_evm::state_proof::verify_proof;
use ain_evm::runtime::{Runtime, SubmitError};
use ain_evm::precompiles::{lookup_precompile, precompile_gas, run_precompile, Precompile};
use ain_evm::transaction::{intrinsic_gas, Transaction};
use ain_evm::trie::{Account, Trie};
use ain_evm::tx_queue::{QueueError, TxQueue};

fn acct(nonce: u64, balance: u128) -> Account {
    Account { nonce, balance }
}

fn transfer(sender: u64, nonce: u64, to: u64, value: u128, gas_limit: u64, price: u64) -> Transaction {
    Transaction {
        sender,
        nonce,
        gas_limit,
        max_fee_per_gas: price,
        max_priority_fee_per_gas: price,
        to: Some(to),
        value,
        data: Vec::new(),
    }
}

fn ctx(base_fee: u64, gas_limit: u64) -> BlockContext {
    BlockContext { number: 1, timestamp: 0, base_fee, gas_limit }
}

#[test]
fn it_works() {
    let result = add(2, 2);
    assert_eq!(result, 4);
}

#[test]
fn trie_insert_get_delete() {
    let mut t = Trie::new();
    assert_eq!(t.get(7), None);
    t.insert(7, acct(1, 50));
    t.insert(3, acct(0, 10));
    t.insert(7, acct(2, 60));
    assert_eq!(t.get(7), Some(acct(2, 60)));
    assert_eq!(t.get(3), Some(acct(0, 10)));
    t.delete(7);
    assert_eq!(t.get(7), None);
    assert_eq!(t.get_account(7), acct(0, 0));
    t.delete(99);
    assert_eq!(t.get(3), Some(acct(0, 10)));
}

#[test]
fn trie_root_hash_independent_of_order() {
    let a = vec![(1u64, acct(0, 5)), (9, acct(3, 7)), (4, acct(1, 1))];
    let b = vec![(4u64, acct(1, 1)), (1, acct(0, 5)), (9, acct(3, 7))];
    let ta = Trie::build(&a);
    let tb = Trie::build(&b);
    let ha = ta.root_hash();
    assert_eq!(ha.len(), 32);
    assert_eq!(ha, tb.root_hash());
    let mut tc = tb.snapshot();
    tc.insert(9, acct(3, 8));
    assert_ne!(tc.root_hash(), ha);
    assert_eq!(tb.root_hash(), ha);
}

#[test]
fn empty_trie_hash_is_keccak_of_empty() {
    let h = Trie::new().root_hash();
    assert_eq!(h[0], 0xc5);
    assert_eq!(h[1], 0xd2);
    assert_eq!(h[31], 0x70);
}

#[test]
fn base_fee_adjustment() {
    assert_eq!(compute_base_fee(1000, 500, 1000), 1000);
    assert_eq!(compute_base_fee(1000, 1000, 1000), 1125);
    assert_eq!(compute_base_fee(1000, 0, 1000), 875);
    assert_eq!(compute_base_fee(1000, 5000, 1000), 1125);
    assert_eq!(compute_base_fee(1000, 750, 1000), 1062);
    assert_eq!(compute_base_fee(1, 501, 1000), 2);
    assert_eq!(compute_base_fee(0, 0, 1000), 0);
    assert_eq!(compute_base_fee(77, 10, 1), 77);
    assert_eq!(compute_base_fee(u64::MAX, 1000, 1000), u64::MAX);
}

#[test]
fn effective_price_clamps_tip() {
    assert_eq!(effective_gas_price(100, 5, 90), Ok(95));
    assert_eq!(effective_gas_price(100, 20, 90), Ok(100));
    assert_eq!(effective_gas_price(100, 0, 100), Ok(100));
    assert_eq!(effective_gas_price(80, 5, 90), Err(FeeError::InvalidFee));
}

#[test]
fn intrinsic_gas_counts_bytes() {
    assert_eq!(intrinsic_gas(&[], false), 21000);
    assert_eq!(intrinsic_gas(&[0, 1, 2], false), 21000 + 4 + 16 + 16);
    assert_eq!(intrinsic_gas(&[], true), 53000);
}

#[test]
fn identity_precompile() {
    assert_eq!(lookup_precompile(4), Some(Precompile::Identity));
    assert_eq!(lookup_precompile(5), None);
    assert_eq!(precompile_gas(Precompile::Identity, 0), 15);
    assert_eq!(precompile_gas(Precompile::Identity, 33), 21);
    assert_eq!(run_precompile(Precompile::Identity, &[1, 2, 3]), vec![1, 2, 3]);
}

#[test]
fn intrinsic_gas_too_low_leaves_state() {
    let state = Trie::build(&vec![(1u64, acct(0, 1_000_000))]);
    let before = state.root_hash();
    let tx = transfer(1, 0, 2, 5, 20999, 1);
    assert_eq!(apply(&state, &ctx(0, 10_000_000), &tx).err(), Some(TxError::IntrinsicGasTooLow));
    assert_eq!(state.root_hash(), before);
    assert_eq!(state.get(1), Some(acct(0, 1_000_000)));
}

#[test]
fn replay_is_rejected() {
    let state = Trie::build(&vec![(1u64, acct(0, 1_000_000))]);
    let tx = transfer(1, 0, 2, 5, 21000, 1);
    let (next, receipt) = apply(&state, &ctx(0, 10_000_000), &tx).unwrap();
    assert!(receipt.status);
    assert_eq!(apply(&next, &ctx(0, 10_000_000), &tx).err(), Some(TxError::NonceMismatch));
}

#[test]
fn validation_errors() {
    let state = Trie::build(&vec![(1u64, acct(3, 30_000))]);
    let c = ctx(2, 10_000_000);
    assert_eq!(apply(&state, &c, &transfer(1, 2, 2, 0, 21000, 2)).err(), Some(TxError::NonceMismatch));
    assert_eq!(apply(&state, &c, &transfer(1, 4, 2, 0, 21000, 2)).err(), Some(TxError::NonceMismatch));
    assert_eq!(apply(&state, &c, &transfer(1, 3, 2, 0, 21000, 1)).err(), Some(TxError::InvalidFee));
    assert_eq!(apply(&state, &c, &transfer(1, 3, 2, 0, 21000, 2)).err(), Some(TxError::InsufficientFunds));
    let full = Trie::build(&vec![(1u64, acct(u64::MAX, 1))]);
    assert_eq!(
        apply(&full, &c, &transfer(1, u64::MAX, 2, 0, 21000, 2)).err(),
        Some(TxError::NonceOverflow)
    );
}

#[test]
fn reverted_call_charges_gas_only() {
    let state = Trie::build(&vec![(1u64, acct(0, 1_000_000))]);
    let mut tx = transfer(1, 0, 4, 500, 21020, 2);
    tx.data = vec![7];
    let (next, receipt) = apply(&state, &ctx(1, 10_000_000), &tx).unwrap();
    assert!(!receipt.status);
    assert!(receipt.output.is_empty());
    assert_eq!(receipt.gas_used, 21020);
    assert_eq!(next.get_account(1), acct(1, 1_000_000 - 21020 * 2));
    assert_eq!(next.get(4), None);
}

#[test]
fn call_to_precompile_succeeds_with_gas() {
    let state = Trie::build(&vec![(1u64, acct(0, 1_000_000))]);
    let mut tx = transfer(1, 0, 4, 500, 30000, 2);
    tx.data = vec![7];
    let (next, receipt) = apply(&state, &ctx(1, 10_000_000), &tx).unwrap();
    assert!(receipt.status);
    assert_eq!(receipt.output, vec![7]);
    assert_eq!(receipt.gas_used, 21016 + 18);
    assert_eq!(next.get_account(1), acct(1, 1_000_000 - 21034 * 2 - 500));
    assert_eq!(next.get_account(4), acct(0, 500));
}

#[test]
fn recipient_overflow_reverts() {
    let state = Trie::build(&vec![(1u64, acct(0, 1_000_000)), (2, acct(0, u128::MAX))]);
    let tx = transfer(1, 0, 2, 1, 21000, 1);
    let (next, receipt) = apply(&state, &ctx(0, 10_000_000), &tx).unwrap();
    assert!(!receipt.status);
    assert_eq!(next.get_account(1), acct(1, 1_000_000 - 21000));
    assert_eq!(next.get_account(2), acct(0, u128::MAX));
}

#[test]
fn contract_creation_sets_address() {
    let state = Trie::build(&vec![(1u64, acct(0, 1_000_000))]);
    let tx = Transaction {
        sender: 1,
        nonce: 0,
        gas_limit: 60000,
        max_fee_per_gas: 1,
        max_priority_fee_per_gas: 1,
        to: None,
        value: 10,
        data: vec![0, 0],
    };
    let (next, receipt) = apply(&state, &ctx(0, 10_000_000), &tx).unwrap();
    let addr = create_address(1, 0);
    assert!(receipt.status);
    assert_eq!(receipt.contract_address, Some(addr));
    assert_eq!(receipt.gas_used, 53008);
    assert_eq!(next.get_account(addr), acct(1, 10));
    assert_eq!(next.get_account(1), acct(1, 1_000_000 - 53008 - 10));
    assert_ne!(create_address(1, 0), create_address(1, 1));
}

#[test]
fn queue_orders_by_price_then_insertion() {
    let mut q = TxQueue::new(10, 10);
    let a = transfer(1, 0, 9, 0, 21000, 10);
    let b = transfer(2, 0, 9, 0, 21000, 10);
    let c = transfer(3, 0, 9, 0, 21000, 12);
    assert_eq!(q.submit(a, 0), Ok(()));
    assert_eq!(q.submit(b, 0), Ok(()));
    assert_eq!(q.len(), 2);
    assert_eq!(q.pop_best(0).unwrap().sender, 1);
    assert_eq!(q.pop_best(0).unwrap().sender, 2);
    assert!(q.pop_best(0).is_none());
    assert_eq!(q.submit(transfer(1, 1, 9, 0, 21000, 10), 0), Ok(()));
    assert_eq!(q.submit(c, 0), Ok(()));
    assert_eq!(q.pop_best(0).unwrap().sender, 3);
}

#[test]
fn queue_replacement_needs_bump() {
    let mut q = TxQueue::new(10, 25);
    assert_eq!(q.submit(transfer(7, 5, 9, 0, 21000, 10), 0), Ok(()));
    assert_eq!(q.submit(transfer(7, 5, 9, 1, 21000, 11), 0), Err(QueueError::Underpriced));
    assert_eq!(q.entries()[0].tx.max_fee_per_gas, 10);
    assert_eq!(q.submit(transfer(7, 5, 9, 2, 21000, 15), 0), Ok(()));
    assert_eq!(q.len(), 1);
    assert_eq!(q.entries()[0].tx.max_fee_per_gas, 15);
    assert_eq!(q.entries()[0].tx.value, 2);
}

#[test]
fn queue_full_evicts_lowest() {
    let mut q = TxQueue::new(2, 10);
    assert_eq!(q.submit(transfer(1, 0, 9, 0, 21000, 5), 0), Ok(()));
    assert_eq!(q.submit(transfer(2, 0, 9, 0, 21000, 8), 0), Ok(()));
    assert_eq!(q.submit(transfer(3, 0, 9, 0, 21000, 5), 0), Err(QueueError::QueueFull));
    assert_eq!(q.submit(transfer(4, 0, 9, 0, 21000, 6), 0), Ok(()));
    assert_eq!(q.len(), 2);
    assert_eq!(q.pop_best(0).unwrap().sender, 2);
    assert_eq!(q.pop_best(0).unwrap().sender, 4);
    let mut z = TxQueue::new(0, 10);
    assert_eq!(z.submit(transfer(1, 0, 9, 0, 21000, 5), 0), Err(QueueError::QueueFull));
}

#[test]
fn block_with_one_transfer() {
    let state = genesis_state(&vec![(1u64, 100_000u128)]);
    let mut q = TxQueue::new(10, 10);
    assert_eq!(q.submit(transfer(1, 0, 2, 100, 21000, 1), 0), Ok(()));
    let (next, receipts) = build_block(&state, &mut q, &ctx(0, 30_000_000));
    assert_eq!(receipts.len(), 1);
    assert!(receipts[0].status);
    assert_eq!(receipts[0].logs.len(), 0);
    assert_eq!(receipts[0].bloom.len(), 256);
    assert_eq!(next.get_account(1), acct(1, 100_000 - 100 - 21000));
    assert_eq!(next.get_account(2).balance, 100);
    assert_eq!(q.len(), 0);
}

#[test]
fn block_drops_unaffordable_transfer() {
    let state = Trie::build(&vec![(1u64, acct(0, 1000))]);
    let mut q = TxQueue::new(10, 10);
    assert_eq!(q.submit(transfer(1, 0, 2, 100, 21000, 1), 0), Ok(()));
    let (next, receipts) = build_block(&state, &mut q, &ctx(0, 30_000_000));
    assert_eq!(receipts.len(), 0);
    assert_eq!(next.get_account(1), acct(0, 1000));
    assert_eq!(q.len(), 0);
}

#[test]
fn block_stops_at_gas_limit() {
    let state = Trie::build(&vec![(1u64, acct(0, 1_000_000)), (2, acct(0, 1_000_000))]);
    let mut q = TxQueue::new(10, 10);
    assert_eq!(q.submit(transfer(1, 0, 3, 1, 21000, 2), 0), Ok(()));
    assert_eq!(q.submit(transfer(2, 0, 3, 1, 21000, 1), 0), Ok(()));
    let (next, receipts) = build_block(&state, &mut q, &ctx(0, 30000));
    assert_eq!(receipts.len(), 1);
    assert_eq!(next.get_account(3).balance, 1);
    assert_eq!(next.get_account(1).nonce, 1);
    assert_eq!(q.len(), 1);
}

#[test]
fn block_drops_stale_nonce() {
    let state = Trie::build(&vec![(1u64, acct(0, 1_000_000))]);
    let mut q = TxQueue::new(10, 10);
    assert_eq!(q.submit(transfer(1, 0, 3, 1, 21000, 2), 0), Ok(()));
    assert_eq!(q.submit(transfer(1, 2, 3, 1, 21000, 1), 0), Ok(()));
    let (next, receipts) = build_block(&state, &mut q, &ctx(0, 1_000_000));
    assert_eq!(receipts.len(), 1);
    assert_eq!(next.get_account(1).nonce, 1);
    assert_eq!(q.len(), 0);
}

#[test]
fn runtime_end_to_end() {
    let genesis = Trie::build(&vec![(1u64, acct(0, 100_000))]);
    let genesis_root = genesis.root_hash();
    let mut rt = Runtime::new(genesis, 16, 10);
    assert_eq!(rt.state_root(), genesis_root);
    assert_eq!(
        rt.submit_transaction(transfer(1, 0, 2, 100, 20000, 1), 0),
        Err(SubmitError::Validation(TxError::IntrinsicGasTooLow))
    );
    assert_eq!(
        rt.submit_transaction(transfer(1, 0, 2, 100_000, 21000, 1), 0),
        Err(SubmitError::Validation(TxError::InsufficientFunds))
    );
    assert_eq!(rt.submit_transaction(transfer(1, 0, 2, 100, 21000, 1), 0), Ok(()));
    assert_eq!(
        rt.submit_transaction(transfer(1, 0, 2, 100, 21000, 1), 0),
        Err(SubmitError::Queue(QueueError::Underpriced))
    );
    assert_eq!(rt.pending(), 1);
    let (root, receipts) = rt.build_block(&ctx(0, 30_000_000));
    assert_eq!(receipts.len(), 1);
    assert!(receipts[0].status);
    assert_eq!(receipts[0].gas_used, 21000);
    assert_eq!(root, rt.state_root());
    assert_ne!(root, genesis_root);
    assert_eq!(rt.get_account(1), acct(1, 100_000 - 100 - 21000));
    assert_eq!(rt.get_account(2), acct(0, 100));
    assert_eq!(rt.pending(), 0);
    assert_eq!(
        rt.submit_transaction(transfer(1, 0, 2, 100, 21000, 1), 0),
        Err(SubmitError::Validation(TxError::NonceMismatch))
    );
}

#[test]
fn bloom_of_logs() {
    let empty = logs_bloom(&Vec::new());
    assert_eq!(empty, vec![0u8; 256]);
    let log = Log { address: 5, topics: vec![vec![1, 2, 3]], data: vec![9] };
    let b = logs_bloom(&vec![log.clone()]);
    assert_eq!(b.len(), 256);
    let ones: u32 = b.iter().map(|x| x.count_ones()).sum();
    assert!(ones >= 1 && ones <= 6);
    let r = Receipt::new(true, 21000, vec![log], None, vec![1]);
    assert_eq!(r.bloom, b);
    let two = logs_bloom(&vec![
        Log { address: 5, topics: vec![vec![1, 2, 3]], data: vec![] },
        Log { address: 6, topics: vec![], data: vec![] },
    ]);
    for i in 0..256 {
        assert_eq!(two[i] & b[i], b[i]);
    }
}

#[test]
fn genesis_seeds_balances() {
    let g = genesis_state(&vec![(1u64, 10u128), (2, 20), (1, 30)]);
    assert_eq!(g.get(1), Some(acct(0, 30)));
    assert_eq!(g.get(2), Some(acct(0, 20)));
    assert_eq!(g.get(3), None);
    assert_eq!(g.root_hash(), Trie::build(&vec![(2u64, acct(0, 20)), (1, acct(0, 30))]).root_hash());
}

#[test]
fn proof_round_trip() {
    let t = Trie::build(&vec![(3u64, acct(1, 10)), (8, acct(0, 99))]);
    let root = t.root_hash();
    let proof = t.generate_proof();
    assert_eq!(proof.len(), 96);
    assert_eq!(verify_proof(&root, 8, &proof), Some(Some(acct(0, 99))));
    assert_eq!(verify_proof(&root, 3, &proof), Some(Some(acct(1, 10))));
    assert_eq!(verify_proof(&root, 5, &proof), Some(None));
    let mut bad = proof.clone();
    bad[20] ^= 1;
    assert_eq!(verify_proof(&root, 8, &bad), None);
    let other = Trie::new().root_hash();
    assert_eq!(verify_proof(&other, 8, &proof), None);
    let empty = Trie::new();
    assert_eq!(verify_proof(&empty.root_hash(), 1, &empty.generate_proof()), Some(None));
}

#[test]
fn build_last_pair_wins() {
    let t = Trie::build(&vec![(1u64, acct(0, 1)), (2, acct(0, 2)), (1, acct(4, 9))]);
    assert_eq!(t.get(1), Some(acct(4, 9)));
    assert_eq!(t.get(2), Some(acct(0, 2)));
}

#[test]
fn runtime_build_block_commits_queue_outcome() {
    let genesis = genesis_state(&vec![(1u64, 1_000_000u128), (2, 1_000_000)]);
    let mut rt = Runtime::new(genesis, 2, 10);
    assert_eq!(rt.submit_transaction(transfer(1, 0, 3, 5, 21000, 3), 0), Ok(()));
    assert_eq!(rt.submit_transaction(transfer(2, 0, 3, 7, 21000, 2), 0), Ok(()));
    assert_eq!(
        rt.submit_transaction(transfer(1, 1, 3, 5, 21000, 1), 0),
        Err(SubmitError::Queue(QueueError::QueueFull))
    );
    let (_, receipts) = rt.build_block(&ctx(0, 1_000_000));
    assert_eq!(receipts.len(), 2);
    assert_eq!(receipts[0].gas_used, 21000);
    assert_eq!(rt.get_account(1), acct(1, 1_000_000 - 5 - 63000));
    assert_eq!(rt.get_account(2), acct(1, 1_000_000 - 7 - 42000));
    assert_eq!(rt.get_account(3).balance, 12);
}

#[test]
fn block_sets_aside_transaction_that_does_not_fit() {
    let state = genesis_state(&vec![(1u64, 1_000_000u128), (2, 1_000_000)]);
    let mut q = TxQueue::new(10, 10);
    assert_eq!(q.submit(transfer(1, 0, 3, 1, 40000, 5), 0), Ok(()));
    assert_eq!(q.submit(transfer(2, 0, 3, 2, 21000, 1), 0), Ok(()));
    let (next, receipts) = build_block(&state, &mut q, &ctx(0, 30000));
    assert_eq!(receipts.len(), 1);
    assert_eq!(next.get_account(2).nonce, 1);
    assert_eq!(next.get_account(1).nonce, 0);
    assert_eq!(q.len(), 1);
    assert_eq!(q.entries()[0].tx.sender, 1);
    assert_eq!(q.pop_best(0).unwrap().gas_limit, 40000);
}
