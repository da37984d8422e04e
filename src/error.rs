use vstd::prelude::*;

verus! {

/// Why an operation on the store was refused.
#[derive(Clone, Copy, Debug, PartialEq, Eq)]
pub enum AuctionError {
    /// The referenced item does not exist.
    NotFound,
    /// The caller does not own the item.
    NotOwner,
    /// The item's auction has been stopped.
    InactiveAuction,
    /// The listing was stopped before.
    AlreadyStopped,
    /// The owner tried to bid on their own item.
    SelfBid,
    /// The bid does not exceed the current highest bid.
    BidTooLow,
    /// A snapshot is present but cannot be turned back into a store.
    PersistenceDecodeFailure,
}

} // verus!
