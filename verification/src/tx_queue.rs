//! The aggregate pending set: one nonce-ordered queue per account plus a
//! max-priority queue over accounts keyed by each account's best available
//! fee, and a cached total count.
use vstd::prelude::*;
use std::collections::HashMap;
use crate::account_queue::{
    AccountTxQueue, aq_wf, aq_has_any, aq_next_fee, aq_next_fee_val, is_entry_seq, pending_fits,
    pending_nonce_of, pop_dropped, pop_stays, pop_taken, lemma_pop_sizes,
};
use crate::pq_order::{
    pqueue_entries, pqueue_push, pqueue_peek, pqueue_change_priority, pqueue_remove,
};
use crate::transfer::{AccountId, Fee, Nonce, TransferTx};

verus! {

broadcast use vstd::std_specs::hash::group_hash_axioms;

/// The per-account queues of a pending set, by account, each as its
/// mathematical contents.
pub type PendingModel = Map<AccountId, Map<Nonce, TransferTx>>;

/// The pending transfers of `id`, or no transfers for an unknown account.
pub open spec fn account_entries(qs: PendingModel, id: AccountId) -> Map<Nonce, TransferTx> {
    if qs.contains_key(id) {
        qs[id]
    } else {
        Map::empty()
    }
}

/// Whether `tx` would occupy a fresh nonce slot of its sender.
pub open spec fn tq_insert_is_new(qs: PendingModel, tx: TransferTx) -> bool {
    !account_entries(qs, tx.from).contains_key(tx.nonce)
}

/// The pending set after inserting `tx`: the sender's queue gains `tx` at its
/// nonce unless that nonce is already taken, in which case nothing changes
/// inside the queue.
pub open spec fn tq_insert_model(qs: PendingModel, tx: TransferTx) -> PendingModel {
    let c = account_entries(qs, tx.from);
    qs.insert(
        tx.from,
        if c.contains_key(tx.nonce) {
            c
        } else {
            c.insert(tx.nonce, tx)
        },
    )
}

/// The pending set after inserting every transfer of `txs` in order.
pub open spec fn tq_batch_model(qs: PendingModel, txs: Seq<TransferTx>) -> PendingModel
    decreases txs.len(),
{
    if txs.len() == 0 {
        qs
    } else {
        tq_batch_model(tq_insert_model(qs, txs[0]), txs.drop_first())
    }
}

/// The total number of pending transfers across all accounts.
pub open spec fn total_size(qs: PendingModel) -> nat
    decreases qs.dom().len(),
    when qs.dom().finite()
{
    if qs.dom().finite() && qs.dom().len() > 0 {
        let id = qs.dom().choose();
        qs[id].dom().len() + total_size(qs.remove(id))
    } else {
        0
    }
}

/// Taking one account out of the pending set lowers the total by exactly the
/// size of that account's queue.
pub proof fn lemma_total_size_remove(qs: PendingModel, id: AccountId)
    requires
        qs.dom().finite(),
        qs.contains_key(id),
    ensures
        total_size(qs) == total_size(qs.remove(id)) + qs[id].dom().len(),
    decreases qs.dom().len(),
{
    assert(qs.dom().len() > 0) by {
        vstd::set_lib::lemma_len_subset(Set::empty().insert(id), qs.dom());
    }
    let c = qs.dom().choose();
    assert(qs.dom().contains(c));
    if c == id {
    } else {
        lemma_total_size_remove(qs.remove(c), id);
        lemma_total_size_remove(qs.remove(id), c);
        assert(qs.remove(c).remove(id) =~= qs.remove(id).remove(c));
    }
}

/// Replacing (or adding) one account's queue shifts the total by the size
/// difference.
pub proof fn lemma_total_size_insert(qs: PendingModel, id: AccountId, c: Map<Nonce, TransferTx>)
    requires
        qs.dom().finite(),
    ensures
        total_size(qs.insert(id, c)) as int == total_size(qs) as int - (if qs.contains_key(id) {
            qs[id].dom().len() as int
        } else {
            0int
        }) + c.dom().len() as int,
{
    lemma_total_size_remove(qs.insert(id, c), id);
    if qs.contains_key(id) {
        lemma_total_size_remove(qs, id);
        assert(qs.insert(id, c).remove(id) =~= qs.remove(id));
    } else {
        assert(qs.insert(id, c).remove(id) =~= qs);
    }
}

/// The aggregate pending set.
pub struct TxQueue {
    queues: HashMap<AccountId, AccountTxQueue>,
    order: priority_queue::PriorityQueue<AccountId, Fee>,
    len: usize,
}

impl TxQueue {
    /// The pending transfers, by account.
    pub closed spec fn queues_model(self) -> PendingModel {
        self.queues@.map_values(|aq: AccountTxQueue| aq@)
    }

    /// The priority the ordering structure holds for each account.
    pub closed spec fn order_model(self) -> Map<AccountId, Fee> {
        pqueue_entries(self.order)
    }

    /// The cached total count of pending transfers.
    pub closed spec fn len_model(self) -> nat {
        self.len as nat
    }

    /// The pending set's invariant: the ordering structure lists exactly the
    /// accounts with pending transfers; no account's queue is empty; each
    /// account's priority equals the fee of its lowest-nonce transfer; and
    /// the cached count equals the sum of the queue sizes.
    pub open spec fn inv(self) -> bool {
        &&& self.queues_model().dom().finite()
        &&& self.order_model().dom() == self.queues_model().dom()
        &&& forall|id: AccountId| #[trigger]
            self.queues_model().contains_key(id) ==> aq_wf(self.queues_model()[id]) && aq_has_any(
                self.queues_model()[id],
            )
        &&& forall|id: AccountId| #[trigger]
            self.queues_model().contains_key(id) ==> aq_next_fee(self.queues_model()[id]) == Some(
                self.order_model()[id],
            )
        &&& self.len_model() == total_size(self.queues_model())
    }

    /// Relies on std::collections::HashMap::new and
    /// priority_queue::PriorityQueue::new: both start empty.
    #[verifier::external_body]
    pub fn new() -> (r: TxQueue)
        ensures
            r.queues_model().dom() == Set::<AccountId>::empty(),
            r.order_model().dom() == Set::<AccountId>::empty(),
            r.len_model() == 0,
    {
        TxQueue { queues: HashMap::new(), order: priority_queue::PriorityQueue::new(), len: 0 }
    }

    /// The total number of pending transfers.
    pub fn len(&self) -> (r: usize)
        ensures
            r as nat == self.len_model(),
    {
        self.len
    }

    /// The account whose lowest-nonce transfer carries the greatest fee, or
    /// None when nothing is pending. Among accounts tied at the greatest fee
    /// the choice is deterministic for a given insertion history but not
    /// specified.
    pub fn peek_next(&self) -> (r: Option<AccountId>)
        requires
            self.inv(),
        ensures
            match r {
                Some(id) => self.queues_model().contains_key(id) && forall|o: AccountId| #[trigger]
                    self.queues_model().contains_key(o) ==> aq_next_fee_val(
                        self.queues_model()[o],
                    ) <= aq_next_fee_val(self.queues_model()[id]),
                None => self.queues_model().dom().len() == 0,
            },
    {
        let r = pqueue_peek(&self.order);
        proof {
            if r.is_none() {
                assert(self.queues_model().dom() =~= Set::<AccountId>::empty());
            }
        }
        match r {
            Some(ip) => Some(ip.0),
            None => None,
        }
    }

    /// The pending nonce of the account, or None for an account with nothing
    /// pending.
    pub fn pending_nonce(&self, account_id: AccountId) -> (r: Option<Nonce>)
        requires
            self.inv(),
            self.queues_model().contains_key(account_id) ==> pending_fits(
                self.queues_model()[account_id],
            ),
        ensures
            match r {
                Some(n) => self.queues_model().contains_key(account_id) && n as int
                    == pending_nonce_of(self.queues_model()[account_id]),
                None => !self.queues_model().contains_key(account_id),
            },
    {
        match self.queues.get(&account_id) {
            Some(q) => Some(q.pending_nonce()),
            None => None,
        }
    }

    /// The size of the account's queue, or None for an account with nothing
    /// pending.
    pub fn account_len(&self, account_id: AccountId) -> (r: Option<usize>)
        requires
            self.inv(),
        ensures
            match r {
                Some(n) => self.queues_model().contains_key(account_id) && n
                    == self.queues_model()[account_id].dom().len(),
                None => !self.queues_model().contains_key(account_id),
            },
    {
        match self.queues.get(&account_id) {
            Some(q) => {
                proof {
                    assert(self.queues_model().contains_key(account_id));
                    assert(self.queues_model()[account_id] == q@);
                }
                Some(q.len())
            },
            None => None,
        }
    }

    /// Makes sure a (possibly empty) queue and an ordering entry exist for the
    /// account, seeding a fresh account with priority zero.
    fn ensure_queue(&mut self, account_id: AccountId)
        requires
            old(self).inv(),
        ensures
            old(self).queues_model().contains_key(account_id) ==> *final(self) == *old(self),
            !old(self).queues_model().contains_key(account_id) ==> {
                &&& final(self).queues_model() == old(self).queues_model().insert(
                    account_id,
                    Map::<Nonce, TransferTx>::empty(),
                )
                &&& final(self).order_model() == old(self).order_model().insert(account_id, 0)
                &&& final(self).len_model() == old(self).len_model()
            },
            final(self).queues_model().contains_key(account_id),
            final(self).queues_model().dom().finite(),
            aq_wf(final(self).queues_model()[account_id]),
    {
        let ghost qs0 = self.queues_model();
        if !self.queues.contains_key(&account_id) {
            self.queues.insert(account_id, AccountTxQueue::default());
            pqueue_push(&mut self.order, account_id, 0);
            proof {
                assert(self.queues_model() =~= qs0.insert(
                    account_id,
                    Map::<Nonce, TransferTx>::empty(),
                ));
            }
        }
    }

    /// Inserts `tx` into its sender's queue (creating the queue if need be),
    /// counts it if its nonce slot was free, and re-keys the sender's
    /// priority to the fee of the sender's lowest-nonce pending transfer.
    pub fn insert(&mut self, tx: TransferTx)
        requires
            old(self).inv(),
            old(self).len_model() < usize::MAX as nat,
        ensures
            final(self).inv(),
            final(self).queues_model() == tq_insert_model(old(self).queues_model(), tx),
            final(self).len_model() == old(self).len_model() + (if tq_insert_is_new(
                old(self).queues_model(),
                tx,
            ) {
                1nat
            } else {
                0nat
            }),
    {
        let ghost qs0 = self.queues_model();
        let from = tx.from;
        self.ensure_queue(from);
        let ghost qs1 = self.queues_model();
        let mut aq = self.queues.remove(&from).unwrap();
        let ghost c0 = aq@;
        let is_new = aq.insert(tx);
        if is_new {
            self.len = self.len + 1;
        }
        let nf = aq.next_fee();
        proof {
            assert(aq@.contains_key(tx.nonce));
            assert(aq_has_any(aq@));
        }
        let fee = nf.unwrap();
        self.queues.insert(from, aq);
        pqueue_change_priority(&mut self.order, from, fee);
        proof {
            assert(c0 == account_entries(qs0, tx.from));
            assert(self.queues_model() =~= qs1.insert(from, aq@));
            assert(self.queues_model() =~= tq_insert_model(qs0, tx));
            assert(self.order_model() =~= old(self).order_model().insert(from, fee));
            lemma_total_size_insert(qs0, from, aq@);
            assert(self.order_model().dom() =~= self.queues_model().dom());
            assert(self.inv()) by {
                assert forall|id: AccountId| #[trigger]
                    self.queues_model().contains_key(id) implies aq_wf(self.queues_model()[id])
                    && aq_has_any(self.queues_model()[id]) && aq_next_fee(self.queues_model()[id])
                    == Some(self.order_model()[id]) by {
                    if id != from {
                        assert(self.queues_model()[id] == qs0[id]);
                        assert(qs0.contains_key(id));
                    }
                }
            }
        }
    }

    /// Inserts every transfer in the list, in order.
    pub fn batch_insert(&mut self, list: Vec<TransferTx>)
        requires
            old(self).inv(),
            old(self).len_model() + list@.len() <= usize::MAX as nat,
        ensures
            final(self).inv(),
            final(self).queues_model() == tq_batch_model(old(self).queues_model(), list@),
            final(self).len_model() <= old(self).len_model() + list@.len(),
    {
        let ghost qs0 = self.queues_model();
        let ghost len0 = self.len_model();
        let mut i: usize = 0;
        #[verifier::loop_isolation(false)]
        while i < list.len()
            invariant
                0 <= i <= list@.len(),
                self.inv(),
                self.queues_model() == tq_batch_model(qs0, list@.take(i as int)),
                self.len_model() <= len0 + i,
            decreases list@.len() - i,
        {
            proof {
                lemma_tq_batch_model_push(qs0, list@.take(i as int), list@[i as int]);
                assert(list@.take(i as int).push(list@[i as int]) =~= list@.take(i as int + 1));
            }
            self.insert(list[i]);
            i = i + 1;
        }
        proof {
            assert(list@.take(list@.len() as int) =~= list@);
        }
    }

    /// The batch-extraction step for the account the ordering structure ranks
    /// first. Stale entries of that account are rejected; the transfer at
    /// `next_nonce` is extracted, or kept back once when stale entries hid
    /// it; the account's priority is re-keyed, or the account is dropped when
    /// its queue drained.
    pub fn next(&mut self, account_id: AccountId, next_nonce: Nonce) -> (r: (
        Vec<TransferTx>,
        Option<TransferTx>,
    ))
        requires
            old(self).inv(),
            old(self).queues_model().contains_key(account_id),
        ensures
            final(self).inv(),
            is_entry_seq(r.0@, pop_dropped(old(self).queues_model()[account_id], next_nonce)),
            r.1 == pop_taken(old(self).queues_model()[account_id], next_nonce),
            final(self).queues_model() == (if aq_has_any(
                pop_stays(old(self).queues_model()[account_id], next_nonce),
            ) {
                old(self).queues_model().insert(
                    account_id,
                    pop_stays(old(self).queues_model()[account_id], next_nonce),
                )
            } else {
                old(self).queues_model().remove(account_id)
            }),
            final(self).len_model() + r.0@.len() + (if r.1.is_some() {
                1nat
            } else {
                0nat
            }) == old(self).len_model(),
    {
        let ghost qs0 = self.queues_model();
        let mut aq = self.queues.remove(&account_id).unwrap();
        let ghost c = aq@;
        proof {
            assert(c == qs0[account_id]);
            lemma_total_size_remove(qs0, account_id);
            lemma_pop_sizes(c, next_nonce);
        }
        let (rejected, tx) = aq.pop(next_nonce);
        let ejected = rejected.len() + (if tx.is_some() {
            1
        } else {
            0
        });
        self.len = self.len - ejected;
        let nf = aq.next_fee();
        match nf {
            Some(fee) => {
                self.queues.insert(account_id, aq);
                pqueue_change_priority(&mut self.order, account_id, fee);
                proof {
                    assert(aq_has_any(aq@));
                    assert(self.queues_model() =~= qs0.insert(account_id, aq@));
                    assert(self.order_model() =~= old(self).order_model().insert(
                        account_id,
                        fee,
                    ));
                    lemma_total_size_insert(qs0, account_id, aq@);
                    assert(self.order_model().dom() =~= self.queues_model().dom());
                    assert(self.inv()) by {
                        assert forall|id: AccountId| #[trigger]
                            self.queues_model().contains_key(id) implies aq_wf(
                            self.queues_model()[id],
                        ) && aq_has_any(self.queues_model()[id]) && aq_next_fee(
                            self.queues_model()[id],
                        ) == Some(self.order_model()[id]) by {
                            if id != account_id {
                                assert(self.queues_model()[id] == qs0[id]);
                                assert(qs0.contains_key(id));
                            }
                        }
                    }
                }
            },
            None => {
                pqueue_remove(&mut self.order, account_id);
                proof {
                    assert(!aq_has_any(aq@));
                    assert(aq@.dom() =~= Set::<Nonce>::empty());
                    assert(self.queues_model() =~= qs0.remove(account_id));
                    assert(self.order_model().dom() =~= self.queues_model().dom());
                    assert(self.inv()) by {
                        assert forall|id: AccountId| #[trigger]
                            self.queues_model().contains_key(id) implies aq_wf(
                            self.queues_model()[id],
                        ) && aq_has_any(self.queues_model()[id]) && aq_next_fee(
                            self.queues_model()[id],
                        ) == Some(self.order_model()[id]) by {
                            assert(self.queues_model()[id] == qs0[id]);
                            assert(qs0.contains_key(id));
                        }
                    }
                }
            },
        }
        (rejected, tx)
    }
}

/// Inserting one more transfer after a batch is the batch extended by it.
pub proof fn lemma_tq_batch_model_push(qs: PendingModel, txs: Seq<TransferTx>, tx: TransferTx)
    ensures
        tq_batch_model(qs, txs.push(tx)) == tq_insert_model(tq_batch_model(qs, txs), tx),
    decreases txs.len(),
{
    if txs.len() == 0 {
        assert(txs.push(tx)[0] == tx);
        assert(txs.push(tx).drop_first() =~= Seq::<TransferTx>::empty());
        assert(tq_batch_model(qs, txs.push(tx)) == tq_batch_model(
            tq_insert_model(qs, tx),
            Seq::<TransferTx>::empty(),
        ));
        assert(tq_batch_model(tq_insert_model(qs, tx), Seq::<TransferTx>::empty())
            == tq_insert_model(qs, tx));
        assert(tq_batch_model(qs, txs) == qs);
    } else {
        assert(txs.push(tx)[0] == txs[0]);
        assert(txs.push(tx).drop_first() =~= txs.drop_first().push(tx));
        assert(tq_batch_model(qs, txs.push(tx)) == tq_batch_model(
            tq_insert_model(qs, txs[0]),
            txs.drop_first().push(tx),
        ));
        lemma_tq_batch_model_push(tq_insert_model(qs, txs[0]), txs.drop_first(), tx);
        assert(tq_batch_model(qs, txs) == tq_batch_model(
            tq_insert_model(qs, txs[0]),
            txs.drop_first(),
        ));
    }
}

/// `txs` lists only entries of `qs`, each one sitting in `qs` at its own
/// sender and nonce.
pub open spec fn lists_entries_of(txs: Seq<TransferTx>, qs: PendingModel) -> bool {
    forall|i: int|
        0 <= i < txs.len() ==> {
            let t = #[trigger] txs[i];
            &&& qs.contains_key(t.from)
            &&& qs[t.from].contains_key(t.nonce)
            &&& qs[t.from][t.nonce] == t
        }
}

/// No two elements of `txs` occupy the same sender-and-nonce slot.
pub open spec fn distinct_slots(txs: Seq<TransferTx>) -> bool {
    forall|i: int, j: int|
        0 <= i < j < txs.len() ==> !((#[trigger] txs[i]).from == (#[trigger] txs[j]).from
            && txs[i].nonce == txs[j].nonce)
}

/// Every entry of `qs` appears somewhere in `txs`.
pub open spec fn covers_entries(txs: Seq<TransferTx>, qs: PendingModel) -> bool {
    forall|a: AccountId, k: Nonce|
        qs.contains_key(a) && #[trigger] qs[a].contains_key(k) ==> exists|i: int|
            0 <= i < txs.len() && (#[trigger] txs[i]).from == a && txs[i].nonce == k
}

/// The pending set holds an entry for this sender at this nonce.
pub open spec fn slot_in(m: PendingModel, a: AccountId, k: Nonce) -> bool {
    m.contains_key(a) && m[a].contains_key(k)
}

proof fn lemma_rebuild_step(qs: PendingModel, m: PendingModel, txs: Seq<TransferTx>)
    requires
        forall|a: AccountId| #[trigger] m.contains_key(a) ==> qs.contains_key(a),
        forall|a: AccountId, k: Nonce|
            m.contains_key(a) && #[trigger] m[a].contains_key(k) ==> qs.contains_key(a)
                && qs[a].contains_key(k) && qs[a][k] == m[a][k],
        forall|a: AccountId| #[trigger] qs.contains_key(a) ==> exists|k: Nonce|
            qs[a].contains_key(k),
        lists_entries_of(txs, qs),
        distinct_slots(txs),
        forall|i: int| 0 <= i < txs.len() ==> !slot_in(m, (#[trigger] txs[i]).from, txs[i].nonce),
        forall|a: AccountId, k: Nonce|
            qs.contains_key(a) && #[trigger] qs[a].contains_key(k) ==> slot_in(m, a, k) || exists|
                i: int,
            | 0 <= i < txs.len() && (#[trigger] txs[i]).from == a && txs[i].nonce == k,
    ensures
        tq_batch_model(m, txs) == qs,
    decreases txs.len(),
{
    if txs.len() == 0 {
        assert forall|a: AccountId| #[trigger] qs.contains_key(a) implies m.contains_key(a) by {
            let k = choose|k: Nonce| qs[a].contains_key(k);
            assert(slot_in(m, a, k));
        }
        assert forall|a: AccountId| #[trigger] qs.contains_key(a) implies m[a] =~= qs[a] by {
            assert forall|k: Nonce| #[trigger] qs[a].contains_key(k) implies m[a].contains_key(k)
                && m[a][k] == qs[a][k] by {
                assert(slot_in(m, a, k));
            }
        }
        assert(m =~~= qs);
    } else {
        let t = txs[0];
        let m2 = tq_insert_model(m, t);
        let rest = txs.drop_first();
        assert(!slot_in(m, t.from, t.nonce));
        let c = account_entries(m, t.from);
        assert(!c.contains_key(t.nonce));
        assert(m2 == m.insert(t.from, c.insert(t.nonce, t)));
        assert forall|a: AccountId, k: Nonce|
            m2.contains_key(a) && #[trigger] m2[a].contains_key(k) implies qs.contains_key(a)
            && qs[a].contains_key(k) && qs[a][k] == m2[a][k] by {
            if a == t.from {
                if k != t.nonce {
                    assert(c.contains_key(k));
                    assert(m.contains_key(a) && m[a].contains_key(k));
                }
            }
        }
        assert forall|i: int| 0 <= i < rest.len() implies !slot_in(
            m2,
            (#[trigger] rest[i]).from,
            rest[i].nonce,
        ) by {
            assert(rest[i] == txs[i + 1]);
            assert(!(txs[0].from == txs[i + 1].from && txs[0].nonce == txs[i + 1].nonce));
            if rest[i].from == t.from {
                assert(!c.insert(t.nonce, t).contains_key(rest[i].nonce) == !slot_in(
                    m2,
                    rest[i].from,
                    rest[i].nonce,
                ));
            }
        }
        assert(lists_entries_of(rest, qs)) by {
            assert forall|i: int| 0 <= i < rest.len() implies {
                let x = #[trigger] rest[i];
                &&& qs.contains_key(x.from)
                &&& qs[x.from].contains_key(x.nonce)
                &&& qs[x.from][x.nonce] == x
            } by {
                assert(rest[i] == txs[i + 1]);
            }
        }
        assert(distinct_slots(rest)) by {
            assert forall|i: int, j: int|
                0 <= i < j < rest.len() implies !((#[trigger] rest[i]).from
                == (#[trigger] rest[j]).from && rest[i].nonce == rest[j].nonce) by {
                assert(rest[i] == txs[i + 1] && rest[j] == txs[j + 1]);
            }
        }
        assert forall|a: AccountId, k: Nonce|
            qs.contains_key(a) && #[trigger] qs[a].contains_key(k) implies slot_in(m2, a, k)
            || exists|i: int|
            0 <= i < rest.len() && (#[trigger] rest[i]).from == a && rest[i].nonce == k by {
            if slot_in(m, a, k) {
                assert(slot_in(m2, a, k));
            } else {
                let i = choose|i: int|
                    0 <= i < txs.len() && (#[trigger] txs[i]).from == a && txs[i].nonce == k;
                if i == 0 {
                    assert(slot_in(m2, a, k));
                } else {
                    assert(rest[i - 1] == txs[i]);
                    assert(0 <= i - 1 < rest.len() && rest[i - 1].from == a && rest[i - 1].nonce
                        == k);
                }
            }
        }
        lemma_rebuild_step(qs, m2, rest);
    }
}

/// Reinserting a full drain of a pending set into an empty pending set
/// rebuilds exactly the same per-account queues, whatever order the drain
/// listed them in; extraction from the rebuilt set therefore proceeds as from
/// the original, up to ties among accounts with equal fees.
pub proof fn lemma_drain_rebuild(qs: PendingModel, txs: Seq<TransferTx>)
    requires
        forall|a: AccountId| #[trigger] qs.contains_key(a) ==> exists|k: Nonce|
            qs[a].contains_key(k),
        lists_entries_of(txs, qs),
        distinct_slots(txs),
        covers_entries(txs, qs),
    ensures
        tq_batch_model(Map::<AccountId, Map<Nonce, TransferTx>>::empty(), txs) == qs,
{
    lemma_rebuild_step(qs, Map::<AccountId, Map<Nonce, TransferTx>>::empty(), txs);
}

impl Default for TxQueue {
    /// A fresh pending set holds nothing.
    fn default() -> (r: Self)
        ensures
            r.inv(),
            r.queues_model() == Map::<AccountId, Map<Nonce, TransferTx>>::empty(),
            r.len_model() == 0,
    {
        let r = TxQueue::new();
        proof {
            assert(r.queues_model() =~= Map::<AccountId, Map<Nonce, TransferTx>>::empty());
        }
        r
    }
}

} // verus!
