use vstd::prelude::*;

verus! {

/// Stable identifier of a sending account.
pub type AccountId = u32;

/// Per-account transaction sequence number, starting at 0 for a fresh account.
pub type Nonce = u32;

/// Transaction fee, counted in indivisible fee units.
pub type Fee = u128;

/// A transfer as the mempool sees it: the fields that admission, ordering and
/// batching read, plus the transfer payload. Compared by value.
#[derive(Clone, Copy, Debug, PartialEq, Eq, Structural)]
pub struct TransferTx {
    pub from: AccountId,
    pub to: AccountId,
    pub amount: u128,
    pub nonce: Nonce,
    pub fee: Fee,
}

} // verus!
