//! The transaction mempool of a payment rollup: admission of user transfers
//! against per-account pending state, ordering of accounts by best available
//! fee, batching, and reconciliation when a batch comes back.
//!
//! `account_queue` holds one account's transfers in nonce order; `tx_queue`
//! aggregates the accounts under a fee-keyed priority ordering; `mem_pool`
//! makes the admission and handoff decisions the event loop acts on. The
//! ordered map and the priority queue come from outside crates and are used
//! through the trusted surfaces in `im_ordmap` and `pq_order`.
pub mod transfer;
pub mod im_ordmap;
pub mod account_queue;
pub mod pq_order;
pub mod tx_queue;
pub mod mem_pool;
