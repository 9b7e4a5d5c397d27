//! The per-account pending queue: a nonce-ordered map of transfers with
//! lookup of the pending nonce, the best (lowest-nonce) fee, and extraction
//! of the transfer at an expected nonce.
use vstd::prelude::*;
use crate::im_ordmap::{
    ord_map_entries, keys_below, keys_above, ordmap_contains, ordmap_insert, ordmap_len,
    ordmap_get_min, ordmap_split, ordmap_pairs,
};
use crate::transfer::{Fee, Nonce, TransferTx};

verus! {

/// Nonce-ordered pending transfers of one account.
pub struct AccountTxQueue {
    queue: im::ordmap::OrdMap<Nonce, TransferTx>,
}

impl View for AccountTxQueue {
    type V = Map<Nonce, TransferTx>;

    closed spec fn view(&self) -> Map<Nonce, TransferTx> {
        ord_map_entries(self.queue)
    }
}

/// A well-formed account queue keys every transfer by its own nonce.
pub open spec fn aq_wf(c: Map<Nonce, TransferTx>) -> bool {
    &&& c.dom().finite()
    &&& forall|k: Nonce| #[trigger] c.contains_key(k) ==> c[k].nonce == k
}

/// Whether the queue holds any entry.
pub open spec fn aq_has_any(c: Map<Nonce, TransferTx>) -> bool {
    exists|k: Nonce| c.contains_key(k)
}

/// `k` is the smallest key present.
pub open spec fn is_min_key(c: Map<Nonce, TransferTx>, k: Nonce) -> bool {
    &&& c.contains_key(k)
    &&& forall|j: Nonce| c.contains_key(j) ==> k <= j
}

/// The smallest key present (meaningful only when some entry exists).
pub open spec fn min_key_of(c: Map<Nonce, TransferTx>) -> Nonce {
    choose|k: Nonce| is_min_key(c, k)
}

/// The smallest nonce present, or 0 for an empty queue.
pub open spec fn aq_min_nonce(c: Map<Nonce, TransferTx>) -> Nonce {
    if aq_has_any(c) {
        min_key_of(c)
    } else {
        0
    }
}

/// The fee of the lowest-nonce entry, or None for an empty queue.
pub open spec fn aq_next_fee(c: Map<Nonce, TransferTx>) -> Option<Fee> {
    if aq_has_any(c) {
        Some(c[min_key_of(c)].fee)
    } else {
        None
    }
}

/// The fee of the lowest-nonce entry of a non-empty queue.
pub open spec fn aq_next_fee_val(c: Map<Nonce, TransferTx>) -> Fee {
    c[min_key_of(c)].fee
}

/// The smallest nonce `>= n` that is not a key of `c`, walking consecutive
/// keys upward.
pub open spec fn pending_from(c: Map<Nonce, TransferTx>, n: int) -> int
    decreases 0x1_0000_0000 - n,
    when 0 <= n <= 0x1_0000_0000
{
    if n < 0x1_0000_0000 && c.contains_key(n as Nonce) {
        pending_from(c, n + 1)
    } else {
        n
    }
}

/// The smallest nonce the account can submit next without a gap: start at the
/// smallest key (0 for an empty queue) and walk consecutive keys upward to
/// the first gap.
pub open spec fn pending_nonce_of(c: Map<Nonce, TransferTx>) -> int {
    if aq_has_any(c) {
        pending_from(c, min_key_of(c) as int)
    } else {
        0
    }
}

/// The pending nonce is representable as a nonce; only a queue whose keys run
/// consecutively up to the largest nonce value breaks this.
pub open spec fn pending_fits(c: Map<Nonce, TransferTx>) -> bool {
    pending_nonce_of(c) <= u32::MAX as int
}

/// What remains in the queue after extraction at `e`.
pub open spec fn pop_stays(c: Map<Nonce, TransferTx>, e: Nonce) -> Map<Nonce, TransferTx> {
    if c.contains_key(e) {
        if aq_min_nonce(c) == e {
            keys_above(c, e)
        } else {
            c.restrict(Set::new(|k: Nonce| k >= e))
        }
    } else {
        Map::empty()
    }
}

/// The transfer extraction at `e` returns, if any.
pub open spec fn pop_taken(c: Map<Nonce, TransferTx>, e: Nonce) -> Option<TransferTx> {
    if c.contains_key(e) && aq_min_nonce(c) == e {
        Some(c[e])
    } else {
        None
    }
}

/// The entries extraction at `e` rejects as stale or unreachable.
pub open spec fn pop_dropped(c: Map<Nonce, TransferTx>, e: Nonce) -> Map<Nonce, TransferTx> {
    if c.contains_key(e) {
        keys_below(c, e)
    } else {
        c
    }
}

/// `s` lists exactly the entries of `c`, in ascending nonce order.
pub open spec fn is_entry_seq(s: Seq<TransferTx>, c: Map<Nonce, TransferTx>) -> bool {
    &&& s.len() == c.dom().len()
    &&& forall|i: int|
        0 <= i < s.len() ==> c.contains_key((#[trigger] s[i]).nonce) && c[s[i].nonce] == s[i]
    &&& forall|i: int, j: int| 0 <= i < j < s.len() ==> s[i].nonce < s[j].nonce
    &&& forall|k: Nonce|
        #[trigger] c.contains_key(k) ==> exists|i: int| 0 <= i < s.len() && s[i].nonce == k
}

/// Two smallest keys are the same key.
pub proof fn lemma_min_key_unique(c: Map<Nonce, TransferTx>, a: Nonce, b: Nonce)
    requires
        is_min_key(c, a),
        is_min_key(c, b),
    ensures
        a == b,
{
}

/// A finite set grows by exactly the size of a finite set disjoint from it.
pub proof fn lemma_disjoint_union_len<A>(s1: Set<A>, s2: Set<A>)
    requires
        s1.finite(),
        s2.finite(),
        forall|x: A| !(s1.contains(x) && s2.contains(x)),
    ensures
        s1.union(s2).finite(),
        s1.union(s2).len() == s1.len() + s2.len(),
    decreases s1.len(),
{
    if s1.len() == 0 {
        assert(s1.union(s2) =~= s2);
    } else {
        let a = s1.choose();
        assert(s1.contains(a));
        assert(s1.union(s2).remove(a) =~= s1.remove(a).union(s2));
        lemma_disjoint_union_len(s1.remove(a), s2);
        assert(s1.union(s2) =~= s1.remove(a).union(s2).insert(a));
    }
}

/// The keys below `e`, at `e`, and above `e` partition the queue.
pub proof fn lemma_split_sizes(c: Map<Nonce, TransferTx>, e: Nonce)
    requires
        c.dom().finite(),
    ensures
        keys_below(c, e).dom().finite(),
        keys_above(c, e).dom().finite(),
        c.contains_key(e) ==> keys_below(c, e).dom().len() + 1 + keys_above(c, e).dom().len()
            == c.dom().len(),
        !c.contains_key(e) ==> keys_below(c, e).dom().len() + keys_above(c, e).dom().len()
            == c.dom().len(),
{
    let b = keys_below(c, e).dom();
    let a = keys_above(c, e).dom();
    assert(b.subset_of(c.dom()));
    assert(a.subset_of(c.dom()));
    vstd::set_lib::lemma_len_subset(b, c.dom());
    vstd::set_lib::lemma_len_subset(a, c.dom());
    lemma_disjoint_union_len(b, a);
    if c.contains_key(e) {
        assert(!b.union(a).contains(e));
        assert(b.union(a).insert(e) =~= c.dom());
    } else {
        assert(b.union(a) =~= c.dom());
    }
}

/// The rejected, extracted and remaining parts of an extraction at `e`
/// partition the queue.
pub proof fn lemma_pop_sizes(c: Map<Nonce, TransferTx>, e: Nonce)
    requires
        c.dom().finite(),
    ensures
        pop_dropped(c, e).dom().finite(),
        pop_stays(c, e).dom().finite(),
        pop_dropped(c, e).dom().len() + (if pop_taken(c, e).is_some() {
            1int
        } else {
            0int
        }) + pop_stays(c, e).dom().len() == c.dom().len(),
{
    lemma_split_sizes(c, e);
    if c.contains_key(e) {
        if aq_min_nonce(c) == e {
        } else {
            assert(c.restrict(Set::new(|k: Nonce| k >= e)).dom() =~= keys_above(
                c,
                e,
            ).dom().insert(e));
            assert(!keys_above(c, e).dom().contains(e));
        }
    } else {
        assert(pop_stays(c, e).dom() =~= Set::<Nonce>::empty());
    }
}

/// Walking consecutive keys never goes backwards.
pub proof fn lemma_pending_from_lower_bound(c: Map<Nonce, TransferTx>, n: int)
    requires
        0 <= n <= 0x1_0000_0000,
    ensures
        pending_from(c, n) >= n,
    decreases 0x1_0000_0000 - n,
{
    if n < 0x1_0000_0000 && c.contains_key(n as Nonce) {
        lemma_pending_from_lower_bound(c, n + 1);
    }
}

/// The walk stops at a nonce that is free (or at the end of the nonce range).
pub proof fn lemma_pending_from_free(c: Map<Nonce, TransferTx>, n: int)
    requires
        0 <= n <= 0x1_0000_0000,
    ensures
        pending_from(c, n) < 0x1_0000_0000 ==> !c.contains_key(pending_from(c, n) as Nonce),
    decreases 0x1_0000_0000 - n,
{
    if n < 0x1_0000_0000 && c.contains_key(n as Nonce) {
        lemma_pending_from_free(c, n + 1);
    }
}

/// The pending nonce is never itself pending: no entry sits at it.
pub proof fn lemma_pending_not_present(c: Map<Nonce, TransferTx>)
    ensures
        pending_nonce_of(c) <= u32::MAX as int ==> !c.contains_key(pending_nonce_of(c) as Nonce),
{
    if aq_has_any(c) {
        lemma_pending_from_free(c, min_key_of(c) as int);
    }
}

/// Relies on im::OrdMap::new: the new map holds no entries.
#[verifier::external_body]
fn aq_empty() -> (r: AccountTxQueue)
    ensures
        r@.dom() == Set::<Nonce>::empty(),
{
    AccountTxQueue { queue: im::ordmap::OrdMap::new() }
}

impl Default for AccountTxQueue {
    /// A fresh queue holds nothing.
    fn default() -> (r: Self)
        ensures
            r@ == Map::<Nonce, TransferTx>::empty(),
            r.wf(),
    {
        let r = aq_empty();
        proof {
            assert(r@ =~= Map::<Nonce, TransferTx>::empty());
        }
        r
    }
}

impl AccountTxQueue {
    pub open spec fn wf(self) -> bool {
        aq_wf(self@)
    }

    /// Inserts `tx` keyed by its nonce. Returns true if the nonce was new;
    /// an entry already at that nonce is retained unchanged.
    pub fn insert(&mut self, tx: TransferTx) -> (r: bool)
        requires
            old(self).wf(),
        ensures
            final(self).wf(),
            r == !old(self)@.contains_key(tx.nonce),
            final(self)@ == if r {
                old(self)@.insert(tx.nonce, tx)
            } else {
                old(self)@
            },
    {
        if ordmap_contains(&self.queue, tx.nonce) {
            false
        } else {
            ordmap_insert(&mut self.queue, tx.nonce, tx);
            true
        }
    }

    /// The smallest nonce present, or 0 when the queue is empty.
    fn min_nonce(&self) -> (r: Nonce)
        ensures
            r == aq_min_nonce(self@),
            aq_has_any(self@) ==> is_min_key(self@, r),
    {
        match ordmap_get_min(&self.queue) {
            Some(kv) => {
                proof {
                    lemma_min_key_unique(self@, kv.0, min_key_of(self@));
                }
                kv.0
            },
            None => 0,
        }
    }

    /// The fee of the lowest-nonce pending transfer, or None when empty.
    pub fn next_fee(&self) -> (r: Option<Fee>)
        ensures
            r == aq_next_fee(self@),
    {
        match ordmap_get_min(&self.queue) {
            Some(kv) => {
                proof {
                    lemma_min_key_unique(self@, kv.0, min_key_of(self@));
                }
                Some(kv.1.fee)
            },
            None => None,
        }
    }

    /// The smallest nonce the account can submit next without creating a gap:
    /// the first gap in the run of consecutive nonces starting at the
    /// smallest key, or 0 when the queue is empty.
    pub fn pending_nonce(&self) -> (r: Nonce)
        requires
            pending_fits(self@),
        ensures
            r as int == pending_nonce_of(self@),
    {
        let ghost c = self@;
        let pairs = ordmap_pairs(&self.queue);
        if pairs.len() == 0 {
            proof {
                assert(!aq_has_any(c)) by {
                    if aq_has_any(c) {
                        let k = choose|k: Nonce| c.contains_key(k);
                        assert(exists|i: int| 0 <= i < pairs@.len() && pairs@[i].0 == k);
                    }
                }
            }
            return 0;
        }
        proof {
            assert(c.contains_key(pairs@[0].0));
            assert(is_min_key(c, pairs@[0].0)) by {
                assert forall|j: Nonce| c.contains_key(j) implies pairs@[0].0 <= j by {
                    let i = choose|i: int| 0 <= i < pairs@.len() && pairs@[i].0 == j;
                    assert(0 < i ==> pairs@[0].0 < pairs@[i].0);
                }
            }
            lemma_min_key_unique(c, pairs@[0].0, min_key_of(c));
        }
        let ghost m0 = pairs@[0].0 as int;
        let mut next: Nonce = pairs[0].0;
        let mut i: usize = 0;
        #[verifier::loop_isolation(false)]
        while i < pairs.len() && pairs[i].0 == next
            invariant
                0 <= i <= pairs@.len(),
                next as int == m0 + i,
                pending_from(c, m0) == pending_from(c, next as int),
                forall|j: int| 0 <= j < i ==> (#[trigger] pairs@[j]).0 == m0 + j,
            decreases pairs@.len() - i,
        {
            proof {
                assert(c.contains_key(next));
                assert(pending_from(c, next as int) == pending_from(c, next as int + 1));
                lemma_pending_from_lower_bound(c, next as int + 1);
                assert(next as int + 1 <= pending_nonce_of(c));
                assert(next < u32::MAX);
            }
            next = next + 1;
            i = i + 1;
        }
        proof {
            assert(!c.contains_key(next)) by {
                if c.contains_key(next) {
                    let j = choose|j: int| 0 <= j < pairs@.len() && pairs@[j].0 == next;
                    assert(j >= i);
                    if i < pairs@.len() {
                        if i > 0 {
                            assert(pairs@[i as int - 1].0 == m0 + i - 1);
                            assert(i as int - 1 < j ==> pairs@[i as int - 1].0 < pairs@[j].0);
                            assert(i < j ==> pairs@[i as int].0 < pairs@[j].0);
                        }
                        assert(false);
                    }
                }
            }
            assert(pending_from(c, next as int) == next as int);
        }
        next
    }

    /// Relies on im::OrdMap::new: the new map holds no entries.
    #[verifier::external_body]
    fn clear(&mut self)
        ensures
            final(self)@.dom() == Set::<Nonce>::empty(),
    {
        self.queue = im::ordmap::OrdMap::new();
    }

    /// Extracts the transfer at `expected_nonce`. Entries below it are stale
    /// and rejected. If stale entries existed, the entry at the nonce is kept
    /// for a later call (the aggregate queue re-evaluates the account's
    /// priority first) and nothing is extracted. If no entry sits at the
    /// nonce, the whole queue is rejected.
    pub fn pop(&mut self, expected_nonce: Nonce) -> (r: (Vec<TransferTx>, Option<TransferTx>))
        requires
            old(self).wf(),
        ensures
            final(self).wf(),
            final(self)@ == pop_stays(old(self)@, expected_nonce),
            r.1 == pop_taken(old(self)@, expected_nonce),
            is_entry_seq(r.0@, pop_dropped(old(self)@, expected_nonce)),
    {
        let ghost c = self@;
        let exact_match = self.min_nonce() == expected_nonce;
        let (lesser, at, greater) = ordmap_split(&self.queue, expected_nonce);
        let ghost lo = ord_map_entries(lesser);
        let ghost hi = ord_map_entries(greater);
        let lpairs = ordmap_pairs(&lesser);
        let mut rejected: Vec<TransferTx> = Vec::new();
        let mut i: usize = 0;
        #[verifier::loop_isolation(false)]
        while i < lpairs.len()
            invariant
                0 <= i <= lpairs@.len(),
                rejected@.len() == i,
                forall|j: int| 0 <= j < i ==> rejected@[j] == (#[trigger] lpairs@[j]).1,
            decreases lpairs@.len() - i,
        {
            rejected.push(lpairs[i].1);
            i = i + 1;
        }
        proof {
            assert forall|j: int| 0 <= j < rejected@.len() implies (#[trigger] rejected@[j]).nonce
                == lpairs@[j].0 && lo.contains_key(lpairs@[j].0) && lo[lpairs@[j].0]
                == rejected@[j] by {
                assert(lo.contains_key(lpairs@[j].0));
                assert(c.contains_key(lpairs@[j].0) && c[lpairs@[j].0] == lo[lpairs@[j].0]);
            }
            assert(is_entry_seq(rejected@, lo)) by {
                assert forall|a: int, b: int|
                    0 <= a < b < rejected@.len() implies rejected@[a].nonce
                    < rejected@[b].nonce by {
                    assert(rejected@[a].nonce == lpairs@[a].0);
                    assert(rejected@[b].nonce == lpairs@[b].0);
                }
                assert forall|k: Nonce| #[trigger] lo.contains_key(k) implies exists|j: int|
                    0 <= j < rejected@.len() && rejected@[j].nonce == k by {
                    let j = choose|j: int| 0 <= j < lpairs@.len() && lpairs@[j].0 == k;
                    assert(rejected@[j].nonce == k);
                }
            }
        }
        match at {
            Some(tx) => {
                if exact_match {
                    self.queue = greater;
                    (rejected, Some(tx))
                } else {
                    let mut kept = greater;
                    ordmap_insert(&mut kept, expected_nonce, tx);
                    self.queue = kept;
                    proof {
                        assert(c.contains_key(expected_nonce));
                        assert(aq_min_nonce(c) != expected_nonce);
                        assert(keys_above(c, expected_nonce).insert(expected_nonce, c[expected_nonce])
                            =~= c.restrict(Set::new(|k: Nonce| k >= expected_nonce)));
                    }
                    (rejected, None)
                }
            },
            None => {
                let gpairs = ordmap_pairs(&greater);
                let ghost base = rejected@.len() as int;
                let mut j: usize = 0;
                #[verifier::loop_isolation(false)]
                while j < gpairs.len()
                    invariant
                        0 <= j <= gpairs@.len(),
                        rejected@.len() == base + j,
                        forall|t: int| 0 <= t < base ==> rejected@[t] == (#[trigger] lpairs@[t]).1,
                        forall|t: int|
                            0 <= t < j ==> rejected@[base + t] == (#[trigger] gpairs@[t]).1,
                    decreases gpairs@.len() - j,
                {
                    rejected.push(gpairs[j].1);
                    j = j + 1;
                }
                self.clear();
                proof {
                    assert(self@ =~= Map::<Nonce, TransferTx>::empty());
                    assert(pop_stays(c, expected_nonce) == Map::<Nonce, TransferTx>::empty());
                    lemma_split_sizes(c, expected_nonce);
                    assert forall|t: int| 0 <= t < rejected@.len() implies {
                        &&& c.contains_key((#[trigger] rejected@[t]).nonce)
                        &&& c[rejected@[t].nonce] == rejected@[t]
                        &&& (t < base ==> rejected@[t].nonce == lpairs@[t].0)
                        &&& (t >= base ==> rejected@[t].nonce == gpairs@[t - base].0)
                    } by {
                        if t < base {
                            assert(rejected@[t] == lpairs@[t].1);
                            assert(lo.contains_key(lpairs@[t].0));
                            assert(c.contains_key(lpairs@[t].0) && c[lpairs@[t].0]
                                == lo[lpairs@[t].0]);
                        } else {
                            assert(rejected@[t] == gpairs@[t - base].1);
                            assert(hi.contains_key(gpairs@[t - base].0));
                            assert(c.contains_key(gpairs@[t - base].0) && c[gpairs@[t - base].0]
                                == hi[gpairs@[t - base].0]);
                        }
                    }
                    assert(is_entry_seq(rejected@, c)) by {
                        assert(rejected@.len() == lo.dom().len() + hi.dom().len());
                        assert forall|a: int, b: int|
                            0 <= a < b < rejected@.len() implies rejected@[a].nonce
                            < rejected@[b].nonce by {
                            if a < base && b >= base {
                                assert(lo.contains_key(lpairs@[a].0));
                                assert(hi.contains_key(gpairs@[b - base].0));
                                assert(lpairs@[a].0 < expected_nonce);
                                assert(gpairs@[b - base].0 > expected_nonce);
                            }
                        }
                        assert forall|k: Nonce| #[trigger] c.contains_key(k) implies exists|t: int|
                            0 <= t < rejected@.len() && rejected@[t].nonce == k by {
                            if k < expected_nonce {
                                assert(lo.contains_key(k));
                                let t = choose|t: int| 0 <= t < lpairs@.len() && lpairs@[t].0 == k;
                                assert(rejected@[t].nonce == k);
                            } else {
                                assert(k > expected_nonce);
                                assert(hi.contains_key(k));
                                let t = choose|t: int| 0 <= t < gpairs@.len() && gpairs@[t].0 == k;
                                assert(rejected@[base + t].nonce == k);
                            }
                        }
                    }
                }
                (rejected, None)
            },
        }
    }

    /// The number of pending transfers.
    pub fn len(&self) -> (r: usize)
        requires
            self.wf(),
        ensures
            r == self@.dom().len(),
    {
        ordmap_len(&self.queue)
    }
}

} // verus!
