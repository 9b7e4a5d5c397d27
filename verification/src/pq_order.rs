//! Trusted surface over the max-priority queue that orders accounts by their
//! best available fee. Each wrapper's contract states what the wrapped call
//! does over `pqueue_entries`, the mathematical item-to-priority map.
use vstd::prelude::*;
use crate::transfer::{AccountId, Fee};

verus! {

#[verifier::external_type_specification]
#[verifier::external_body]
#[verifier::reject_recursive_types(I)]
#[verifier::reject_recursive_types(P)]
#[verifier::reject_recursive_types(H)]
pub struct ExPriorityQueue<I, P, H>(priority_queue::PriorityQueue<I, P, H>);

/// The items a priority queue holds, each with its priority.
pub uninterp spec fn pqueue_entries(q: priority_queue::PriorityQueue<AccountId, Fee>) -> Map<
    AccountId,
    Fee,
>;

/// Relies on priority_queue::PriorityQueue::push: inserts the item with the
/// priority; an item already present has its priority updated instead.
#[verifier::external_body]
pub(crate) fn pqueue_push(q: &mut priority_queue::PriorityQueue<AccountId, Fee>, id: AccountId, p: Fee)
    ensures
        pqueue_entries(*final(q)) == pqueue_entries(*old(q)).insert(id, p),
{
    q.push(id, p);
}

/// Relies on priority_queue::PriorityQueue::peek: an item of greatest
/// priority, or None exactly when the queue is empty. Which of several items
/// of equal greatest priority is returned is not stated.
#[verifier::external_body]
pub(crate) fn pqueue_peek(q: &priority_queue::PriorityQueue<AccountId, Fee>) -> (r: Option<
    (AccountId, Fee),
>)
    ensures
        match r {
            Some(ip) => pqueue_entries(*q).contains_key(ip.0) && pqueue_entries(*q)[ip.0] == ip.1
                && forall|o: AccountId|
                    pqueue_entries(*q).contains_key(o) ==> pqueue_entries(*q)[o] <= ip.1,
            None => forall|o: AccountId| !pqueue_entries(*q).contains_key(o),
        },
{
    q.peek().map(|ip| (*ip.0, *ip.1))
}

/// Relies on priority_queue::PriorityQueue::change_priority: sets the priority
/// of an item already present; a missing item leaves the queue unchanged.
#[verifier::external_body]
pub(crate) fn pqueue_change_priority(
    q: &mut priority_queue::PriorityQueue<AccountId, Fee>,
    id: AccountId,
    p: Fee,
)
    ensures
        pqueue_entries(*final(q)) == if pqueue_entries(*old(q)).contains_key(id) {
            pqueue_entries(*old(q)).insert(id, p)
        } else {
            pqueue_entries(*old(q))
        },
{
    q.change_priority(&id, p);
}

/// Relies on priority_queue::PriorityQueue::remove: takes the item out of the
/// queue; a missing item leaves the queue unchanged.
#[verifier::external_body]
pub(crate) fn pqueue_remove(q: &mut priority_queue::PriorityQueue<AccountId, Fee>, id: AccountId)
    ensures
        pqueue_entries(*final(q)) == pqueue_entries(*old(q)).remove(id),
{
    q.remove(&id);
}

} // verus!
