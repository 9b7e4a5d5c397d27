//! The mempool's decision layer: admission of a submitted transfer against
//! the sender's pending state, arming of a batch once enough transfers are
//! pending, and the two halves of the pending-set handoff to the
//! state-keeper. The event loop that carries requests and channels around
//! these decisions lives outside the library.
use vstd::prelude::*;
use crate::account_queue::{aq_has_any, pending_fits, pending_nonce_of};
use crate::transfer::{AccountId, Nonce, TransferTx};
use crate::tx_queue::{
    account_entries, tq_batch_model, tq_insert_model, tq_insert_is_new, total_size, PendingModel,
    TxQueue,
};

verus! {

/// The most transfers one account may have pending when an admission
/// completes.
pub const MAX_TRANSACTIONS_PER_ACCOUNT: usize = 128;

/// The result of a mempool operation that can refuse its input.
pub type TxResult<T> = Result<T, MempoolError>;

/// Why an admission was refused. The pending set is unchanged on refusal.
#[derive(Clone, Copy, Debug, PartialEq, Eq, Structural)]
pub enum MempoolError {
    /// The sender already has `MAX_TRANSACTIONS_PER_ACCOUNT` transfers
    /// pending.
    TooManyPerAccount,
    /// The transfer's nonce is not the sender's pending nonce.
    NonceOutOfSequence { expected: Nonce, got: Nonce },
}

/// What the state-keeper reports back with the returned pending set.
pub enum BatchOutcome {
    /// A transfer block was produced from the listed transfers.
    Applied { applied: Vec<TransferTx>, block_number: u32 },
    /// Block creation failed: the still-eligible transfers go back into the
    /// pending set, the invalid ones are dropped for good.
    Rejected { valid: Vec<TransferTx>, invalid: Vec<TransferTx> },
}

/// The admission verdict for `tx` against the pending set `qs`: refused when
/// the sender's queue is full, refused when the sender has a queue and the
/// nonce is not the pending one, accepted otherwise (a new account may start
/// at any nonce).
pub open spec fn admission_outcome(qs: PendingModel, tx: TransferTx) -> Result<(), MempoolError> {
    if qs.contains_key(tx.from) {
        if qs[tx.from].dom().len() >= MAX_TRANSACTIONS_PER_ACCOUNT {
            Err(MempoolError::TooManyPerAccount)
        } else if tx.nonce as int != pending_nonce_of(qs[tx.from]) {
            Err(
                MempoolError::NonceOutOfSequence {
                    expected: pending_nonce_of(qs[tx.from]) as Nonce,
                    got: tx.nonce,
                },
            )
        } else {
            Ok(())
        }
    } else {
        Ok(())
    }
}

/// The mempool: the pending set it owns between batches, and whether a batch
/// request is already on its way.
pub struct MemPool {
    batch_requested: bool,
    queue: TxQueue,
}

impl MemPool {
    /// The pending transfers, by account.
    pub closed spec fn queues(self) -> PendingModel {
        self.queue.queues_model()
    }

    /// The total number of pending transfers.
    pub closed spec fn pool_len(self) -> nat {
        self.queue.len_model()
    }

    /// Whether a batch request is on its way.
    pub closed spec fn batch_pending(self) -> bool {
        self.batch_requested
    }

    pub closed spec fn inv(self) -> bool {
        self.queue.inv()
    }

    /// A fresh mempool: nothing pending, no batch on its way.
    pub fn new() -> (r: MemPool)
        ensures
            r.inv(),
            r.queues() == Map::<AccountId, Map<Nonce, TransferTx>>::empty(),
            r.pool_len() == 0,
            r.batch_pending() == false,
    {
        MemPool { batch_requested: false, queue: TxQueue::default() }
    }

    /// The pending nonce of the account, or None for an account with nothing
    /// pending.
    pub fn pending_nonce(&self, account_id: AccountId) -> (r: Option<Nonce>)
        requires
            self.inv(),
            self.queues().contains_key(account_id) ==> pending_fits(self.queues()[account_id]),
        ensures
            match r {
                Some(n) => self.queues().contains_key(account_id) && n as int == pending_nonce_of(
                    self.queues()[account_id],
                ),
                None => !self.queues().contains_key(account_id),
            },
    {
        self.queue.pending_nonce(account_id)
    }

    /// The total number of pending transfers.
    pub fn len(&self) -> (r: usize)
        ensures
            r as nat == self.pool_len(),
    {
        self.queue.len()
    }

    /// Admission: refuses a transfer whose sender has a full queue, or whose
    /// nonce is out of sequence for a sender with pending transfers; inserts
    /// it otherwise. On refusal the mempool is unchanged; on success the
    /// sender's queue stays within the per-account capacity.
    pub fn add_transaction(&mut self, transaction: TransferTx) -> (r: TxResult<()>)
        requires
            old(self).inv(),
            old(self).pool_len() < usize::MAX as nat,
            (old(self).queues().contains_key(transaction.from)
                && old(self).queues()[transaction.from].dom().len()
                < MAX_TRANSACTIONS_PER_ACCOUNT) ==> pending_fits(
                old(self).queues()[transaction.from],
            ),
        ensures
            final(self).inv(),
            r == admission_outcome(old(self).queues(), transaction),
            r.is_err() ==> *final(self) == *old(self),
            r.is_ok() ==> {
                &&& final(self).queues() == tq_insert_model(old(self).queues(), transaction)
                &&& final(self).pool_len() == old(self).pool_len() + 1
                &&& account_entries(final(self).queues(), transaction.from).dom().len()
                    <= MAX_TRANSACTIONS_PER_ACCOUNT
                &&& final(self).batch_pending() == old(self).batch_pending()
            },
    {
        let ghost qs0 = self.queues();
        match self.queue.account_len(transaction.from) {
            Some(n) => {
                if n >= MAX_TRANSACTIONS_PER_ACCOUNT {
                    return Err(MempoolError::TooManyPerAccount);
                }
                let pending = self.queue.pending_nonce(transaction.from).unwrap();
                if transaction.nonce != pending {
                    return Err(
                        MempoolError::NonceOutOfSequence { expected: pending, got: transaction.nonce },
                    );
                }
                proof {
                    assert(!qs0[transaction.from].contains_key(transaction.nonce)) by {
                        crate::account_queue::lemma_pending_not_present(qs0[transaction.from]);
                    }
                    assert(tq_insert_is_new(qs0, transaction));
                }
                self.queue.insert(transaction);
                proof {
                    assert(account_entries(self.queues(), transaction.from)
                        == qs0[transaction.from].insert(transaction.nonce, transaction));
                }
                Ok(())
            },
            None => {
                proof {
                    assert(tq_insert_is_new(qs0, transaction));
                }
                self.queue.insert(transaction);
                proof {
                    assert(account_entries(self.queues(), transaction.from) =~= Map::<
                        Nonce,
                        TransferTx,
                    >::empty().insert(transaction.nonce, transaction));
                }
                Ok(())
            },
        }
    }

    /// After a successful admission: arms a batch when enough transfers are
    /// pending and none is on its way yet. Returns whether the caller must
    /// now post a batch-processing event to itself.
    pub fn check_batch_trigger(&mut self, batch_size: usize) -> (r: bool)
        requires
            old(self).inv(),
        ensures
            final(self).inv(),
            r == (!old(self).batch_pending() && old(self).pool_len() >= batch_size),
            final(self).batch_pending() == (old(self).batch_pending() || old(self).pool_len()
                >= batch_size),
            final(self).queues() == old(self).queues(),
            final(self).pool_len() == old(self).pool_len(),
    {
        if !self.batch_requested && self.queue.len() >= batch_size {
            self.batch_requested = true;
            true
        } else {
            false
        }
    }

    /// The first half of a batch handoff: clears the batch flag and moves the
    /// whole pending set out, leaving the mempool transiently empty.
    pub fn begin_batch(&mut self) -> (r: TxQueue)
        requires
            old(self).inv(),
        ensures
            final(self).inv(),
            final(self).batch_pending() == false,
            final(self).queues() == Map::<AccountId, Map<Nonce, TransferTx>>::empty(),
            final(self).pool_len() == 0,
            r.inv(),
            r.queues_model() == old(self).queues(),
            r.len_model() == old(self).pool_len(),
    {
        self.batch_requested = false;
        let mut taken = TxQueue::default();
        core::mem::swap(&mut taken, &mut self.queue);
        taken
    }

    /// The second half of a batch handoff: adopts the pending set the
    /// state-keeper returned and, when block creation failed, reinserts the
    /// still-eligible transfers. Invalid transfers are dropped.
    pub fn finish_batch(&mut self, returned: TxQueue, outcome: BatchOutcome)
        requires
            old(self).inv(),
            returned.inv(),
            match outcome {
                BatchOutcome::Rejected { valid, .. } => returned.len_model() + valid@.len()
                    <= usize::MAX as nat,
                BatchOutcome::Applied { .. } => true,
            },
        ensures
            final(self).inv(),
            final(self).batch_pending() == old(self).batch_pending(),
            match outcome {
                BatchOutcome::Applied { .. } => final(self).queues() == returned.queues_model(),
                BatchOutcome::Rejected { valid, .. } => final(self).queues() == tq_batch_model(
                    returned.queues_model(),
                    valid@,
                ),
            },
    {
        self.queue = returned;
        match outcome {
            BatchOutcome::Applied { .. } => {},
            BatchOutcome::Rejected { valid, .. } => {
                self.queue.batch_insert(valid);
            },
        }
    }
}

/// The cached count equals the sum of the per-account queue sizes, in every
/// reachable pending set.
pub proof fn lemma_count_consistent(q: TxQueue)
    requires
        q.inv(),
    ensures
        q.len_model() == total_size(q.queues_model()),
{
}

/// Every account the ordering structure ranks carries as its priority the fee
/// of its lowest-nonce pending transfer, in every reachable pending set.
pub proof fn lemma_priority_coherent(q: TxQueue, id: AccountId)
    requires
        q.inv(),
        q.queues_model().contains_key(id),
    ensures
        q.order_model().contains_key(id),
        crate::account_queue::aq_next_fee(q.queues_model()[id]) == Some(q.order_model()[id]),
{
    assert(q.order_model().dom().contains(id));
}

/// No account with an empty queue is kept in the pending set, in every
/// reachable pending set.
pub proof fn lemma_no_empty_queue(q: TxQueue, id: AccountId)
    requires
        q.inv(),
        q.queues_model().contains_key(id),
    ensures
        aq_has_any(q.queues_model()[id]),
        q.queues_model()[id].dom().len() > 0,
{
    let c = q.queues_model()[id];
    let k = choose|k: Nonce| c.contains_key(k);
    vstd::set_lib::lemma_len_subset(Set::empty().insert(k), c.dom());
}

/// Inserting the same transfer a second time changes neither the pending set
/// nor, therefore, its size: the second insertion hits a taken nonce slot.
pub proof fn lemma_duplicate_insert(qs: PendingModel, tx: TransferTx)
    ensures
        !tq_insert_is_new(tq_insert_model(qs, tx), tx),
        tq_insert_model(tq_insert_model(qs, tx), tx) == tq_insert_model(qs, tx),
        total_size(tq_insert_model(tq_insert_model(qs, tx), tx)) == total_size(
            tq_insert_model(qs, tx),
        ),
{
    let m1 = tq_insert_model(qs, tx);
    assert(m1.contains_key(tx.from));
    assert(m1[tx.from].contains_key(tx.nonce));
    assert(tq_insert_model(m1, tx) =~= m1);
}

} // verus!
