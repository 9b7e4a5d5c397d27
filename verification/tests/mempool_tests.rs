use mempool::account_queue::AccountTxQueue;
use mempool::mem_pool::{BatchOutcome, MemPool, MempoolError, MAX_TRANSACTIONS_PER_ACCOUNT};
use mempool::transfer::{AccountId, Nonce, TransferTx};
use mempool::tx_queue::TxQueue;

pub fn tx(from: AccountId, nonce: Nonce, fee: u32) -> TransferTx {
    TransferTx { from, to: 0, amount: 0, nonce, fee: fee as u128 }
}

/// The two-transfer account queue most scenarios start from: 5 -> fee 20,
/// 7 -> fee 40.
fn base_account_queue() -> AccountTxQueue {
    let mut queue = AccountTxQueue::default();
    assert_eq!(queue.insert(tx(1, 5, 20)), true);
    assert_eq!(queue.insert(tx(1, 7, 40)), true);
    queue
}

#[test]
fn test_account_tx_queue() {
    let mut queue = AccountTxQueue::default();

    assert_eq!(queue.pending_nonce(), 0);
    assert_eq!(queue.next_fee(), None);

    assert_eq!(queue.insert(tx(1, 5, 20)), true);
    assert_eq!(queue.len(), 1);
    assert_eq!(queue.insert(tx(1, 5, 20)), false);
    assert_eq!(queue.len(), 1);
    assert_eq!(queue.next_fee().unwrap(), 20);

    assert_eq!(queue.pending_nonce(), 6);

    assert_eq!(queue.insert(tx(1, 7, 40)), true);
    assert_eq!(queue.len(), 2);
    assert_eq!(queue.next_fee().unwrap(), 20);

    let mut q = base_account_queue();
    let (rejected, tx_out) = q.pop(5);
    assert_eq!(rejected.len(), 0);
    assert_eq!(tx_out.unwrap().nonce, 5);
    assert_eq!(q.len(), 1);
    assert_eq!(q.next_fee().unwrap(), 40);
    assert_eq!(q.pending_nonce(), 8);

    let mut q = base_account_queue();
    let (rejected, tx_out) = q.pop(6);
    assert_eq!(rejected.len(), 2);
    assert_eq!(tx_out.is_none(), true);
    assert_eq!(q.len(), 0);
    assert_eq!(q.next_fee(), None);

    let mut q = base_account_queue();
    let (rejected, tx_out) = q.pop(7);
    assert_eq!(rejected.len(), 1);
    assert_eq!(tx_out, None);
    assert_eq!(q.len(), 1);
    assert_eq!(q.pending_nonce(), 8);

    let mut q = base_account_queue();
    let (rejected, tx_out) = q.pop(8);
    assert_eq!(rejected.len(), 2);
    assert_eq!(tx_out.is_none(), true);
    assert_eq!(q.pending_nonce(), 0);

    let mut q = base_account_queue();
    assert_eq!(q.insert(tx(1, 6, 40)), true);
    let (rejected, tx_out) = q.pop(6);
    assert_eq!(rejected.len(), 1);
    assert_eq!(tx_out, None);

    let (rejected, tx_out) = q.pop(6);
    assert_eq!(rejected.len(), 0);
    assert_eq!(tx_out.unwrap().nonce, 6);
    assert_eq!(q.len(), 1);
    assert_eq!(q.next_fee().unwrap(), 40);
    assert_eq!(q.pending_nonce(), 8);
}

/// The three-account pending set the aggregate scenarios start from, after
/// the duplicate insert of nonce 5 was ignored:
/// account 1: 5 -> fee 20, 6 -> fee 50; account 2: 0 -> fee 40.
fn base_tx_queue() -> TxQueue {
    let mut q = TxQueue::default();
    q.insert(tx(1, 5, 20));
    q.insert(tx(2, 0, 40));
    q.insert(tx(1, 6, 50));
    q.insert(tx(1, 5, 50));
    q
}

#[test]
fn test_tx_queue() {
    let mut q = TxQueue::default();
    assert_eq!(q.peek_next(), None);

    q.insert(tx(1, 5, 20));
    assert_eq!(q.len(), 1);
    assert_eq!(q.peek_next().unwrap(), 1);

    q.insert(tx(2, 0, 40));
    assert_eq!(q.len(), 2);
    assert_eq!(q.peek_next().unwrap(), 2);

    q.insert(tx(1, 6, 50));
    assert_eq!(q.len(), 3);
    assert_eq!(q.peek_next().unwrap(), 2);

    // A duplicate nonce is ignored: account 1 keeps the fee-20 transfer at
    // nonce 5, so account 2 (fee 40) still outranks it.
    q.insert(tx(1, 5, 50));
    assert_eq!(q.len(), 3);
    assert_eq!(q.peek_next().unwrap(), 2);

    let mut q = base_tx_queue();
    let (rejected, tx_out) = q.next(1, 5);
    assert_eq!(rejected.len(), 0);
    assert_eq!(tx_out.as_ref().unwrap().from, 1);
    assert_eq!(tx_out.as_ref().unwrap().nonce, 5);
    assert_eq!(tx_out.as_ref().unwrap().fee, 20);
    assert_eq!(q.len(), 2);
    assert_eq!(q.peek_next().unwrap(), 1);

    let mut q = base_tx_queue();
    let (rejected, tx_out) = q.next(1, 6);
    assert_eq!(rejected.len(), 1);
    assert_eq!(tx_out, None);
    assert_eq!(q.len(), 2);
    assert_eq!(q.peek_next().unwrap(), 1);

    let (rejected, tx_out) = q.next(1, 6);
    assert_eq!(rejected.len(), 0);
    assert_eq!(tx_out.as_ref().unwrap().from, 1);
    assert_eq!(tx_out.as_ref().unwrap().nonce, 6);
    assert_eq!(tx_out.as_ref().unwrap().fee, 50);
    assert_eq!(q.len(), 1);
    assert_eq!(q.peek_next().unwrap(), 2);

    let (rejected, tx_out) = q.next(2, 0);
    assert_eq!(rejected.len(), 0);
    assert_eq!(tx_out.as_ref().unwrap().from, 2);
    assert_eq!(tx_out.as_ref().unwrap().nonce, 0);
    assert_eq!(q.len(), 0);
    assert_eq!(q.peek_next(), None);
}

#[test]
fn tx_queue_extraction_order() {
    // Full extraction in priority order: account 2 first (fee 40), then
    // account 1's nonce 5 (fee 20, re-keying the account to fee 50), then
    // account 1's nonce 6.
    let mut q = base_tx_queue();
    assert_eq!(q.peek_next().unwrap(), 2);
    let (rejected, tx_out) = q.next(2, 0);
    assert_eq!(rejected.len(), 0);
    assert_eq!(tx_out.unwrap(), tx(2, 0, 40));
    assert_eq!(q.peek_next().unwrap(), 1);
    let (rejected, tx_out) = q.next(1, 5);
    assert_eq!(rejected.len(), 0);
    assert_eq!(tx_out.unwrap(), tx(1, 5, 20));
    assert_eq!(q.peek_next().unwrap(), 1);
    let (rejected, tx_out) = q.next(1, 6);
    assert_eq!(rejected.len(), 0);
    assert_eq!(tx_out.unwrap(), tx(1, 6, 50));
    assert_eq!(q.peek_next(), None);
    assert_eq!(q.len(), 0);
}

#[test]
fn tx_queue_peek_ties_and_gap_rejection() {
    // Two accounts with the same best fee: the peek is one of them.
    let mut q = TxQueue::default();
    q.insert(tx(1, 0, 25));
    q.insert(tx(2, 0, 25));
    let top = q.peek_next().unwrap();
    assert!(top == 1 || top == 2);

    // Extracting past every key rejects the whole account queue.
    let mut q = TxQueue::default();
    q.insert(tx(1, 0, 10));
    q.insert(tx(1, 1, 10));
    let (rejected, tx_out) = q.next(1, 2);
    assert_eq!(rejected.len(), 2);
    assert_eq!(tx_out, None);
    assert_eq!(q.len(), 0);
    assert_eq!(q.peek_next(), None);
}

#[test]
fn drain_and_rebuild_reproduces_extraction() {
    let mut q = TxQueue::default();
    q.insert(tx(1, 0, 10));
    q.insert(tx(1, 1, 30));
    q.insert(tx(2, 0, 20));

    // Drain in priority order, always extracting the account's lowest nonce.
    let drain_all = |q: &mut TxQueue| -> Vec<TransferTx> {
        let mut drained: Vec<TransferTx> = Vec::new();
        let nonce_plan = [(2, 0), (1, 0), (1, 1)];
        let mut step = 0;
        while let Some(id) = q.peek_next() {
            let (expected_id, next_nonce) = nonce_plan[step];
            assert_eq!(id, expected_id);
            let (rejected, tx_out) = q.next(id, next_nonce);
            assert_eq!(rejected.len(), 0);
            drained.push(tx_out.unwrap());
            step += 1;
        }
        drained
    };
    let drained = drain_all(&mut q);
    assert_eq!(drained, vec![tx(2, 0, 20), tx(1, 0, 10), tx(1, 1, 30)]);

    let mut rebuilt = TxQueue::default();
    rebuilt.batch_insert(drained.clone());
    assert_eq!(rebuilt.len(), 3);
    let replay = drain_all(&mut rebuilt);
    assert_eq!(replay, drained);
}

#[test]
fn admission_accepts_in_sequence_and_reports_errors() {
    let mut pool = MemPool::new();

    // A new account may start at any nonce.
    assert_eq!(pool.add_transaction(tx(1, 5, 20)), Ok(()));
    assert_eq!(pool.pending_nonce(1), Some(6));
    assert_eq!(pool.pending_nonce(9), None);

    // The next transfer must sit exactly at the pending nonce.
    assert_eq!(
        pool.add_transaction(tx(1, 7, 40)),
        Err(MempoolError::NonceOutOfSequence { expected: 6, got: 7 })
    );
    // A duplicate nonce cannot be the pending nonce either.
    assert_eq!(
        pool.add_transaction(tx(1, 5, 90)),
        Err(MempoolError::NonceOutOfSequence { expected: 6, got: 5 })
    );
    assert_eq!(pool.len(), 1);

    assert_eq!(pool.add_transaction(tx(1, 6, 40)), Ok(()));
    assert_eq!(pool.len(), 2);
    assert_eq!(pool.pending_nonce(1), Some(7));
}

#[test]
fn admission_enforces_account_capacity() {
    let mut pool = MemPool::new();
    for n in 0..MAX_TRANSACTIONS_PER_ACCOUNT {
        assert_eq!(pool.add_transaction(tx(7, n as Nonce, 1)), Ok(()));
    }
    assert_eq!(pool.len(), MAX_TRANSACTIONS_PER_ACCOUNT);
    assert_eq!(
        pool.add_transaction(tx(7, MAX_TRANSACTIONS_PER_ACCOUNT as Nonce, 1)),
        Err(MempoolError::TooManyPerAccount)
    );
    assert_eq!(pool.len(), MAX_TRANSACTIONS_PER_ACCOUNT);
    // Another account is unaffected by the full one.
    assert_eq!(pool.add_transaction(tx(8, 0, 1)), Ok(()));
}

#[test]
fn batch_trigger_arms_once() {
    let mut pool = MemPool::new();
    assert_eq!(pool.add_transaction(tx(1, 0, 5)), Ok(()));
    assert_eq!(pool.check_batch_trigger(2), false);
    assert_eq!(pool.add_transaction(tx(1, 1, 5)), Ok(()));
    assert_eq!(pool.check_batch_trigger(2), true);
    // Already armed: no second request until the batch starts.
    assert_eq!(pool.check_batch_trigger(2), false);

    let handed_off = pool.begin_batch();
    assert_eq!(handed_off.len(), 2);
    assert_eq!(pool.len(), 0);
    // The flag was cleared at the start of batch processing.
    assert_eq!(pool.check_batch_trigger(2), false);
    pool.finish_batch(handed_off, BatchOutcome::Applied { applied: Vec::new(), block_number: 1 });
    assert_eq!(pool.len(), 2);
}

#[test]
fn rejected_batch_reinserts_valid_and_drops_invalid() {
    let mut pool = MemPool::new();
    assert_eq!(pool.add_transaction(tx(1, 0, 5)), Ok(()));
    assert_eq!(pool.add_transaction(tx(1, 1, 6)), Ok(()));
    assert_eq!(pool.add_transaction(tx(2, 3, 7)), Ok(()));

    let mut handed_off = pool.begin_batch();
    assert_eq!(pool.len(), 0);
    // The state-keeper drains the set, applies account 1's first transfer,
    // finds account 2's invalid, and sends the rest back as still valid
    // after a failed block.
    let (_, applied) = handed_off.next(2, 3);
    assert_eq!(applied, Some(tx(2, 3, 7)));
    let (_, invalid_tx) = handed_off.next(1, 0);
    let (_, valid_tx) = handed_off.next(1, 1);
    assert_eq!(handed_off.len(), 0);

    pool.finish_batch(
        handed_off,
        BatchOutcome::Rejected {
            valid: vec![valid_tx.unwrap()],
            invalid: vec![invalid_tx.unwrap()],
        },
    );
    assert_eq!(pool.len(), 1);
    assert_eq!(pool.pending_nonce(1), Some(2));
    assert_eq!(pool.pending_nonce(2), None);
}

#[test]
fn pending_nonce_tracks_gaps() {
    // The pending nonce walks the consecutive run from the smallest key.
    let mut q = AccountTxQueue::default();
    assert_eq!(q.insert(tx(3, 2, 1)), true);
    assert_eq!(q.insert(tx(3, 3, 1)), true);
    assert_eq!(q.insert(tx(3, 9, 1)), true);
    assert_eq!(q.pending_nonce(), 4);
    assert_eq!(q.len(), 3);
    let (rejected, tx_out) = q.pop(9);
    assert_eq!(rejected.len(), 2);
    assert_eq!(tx_out, None);
    assert_eq!(q.pending_nonce(), 10);
}
