//! The kinds of refusal.

use vstd::prelude::*;

verus! {

/// Why an operation was refused. Every kind ends the operation that met it.
#[derive(Clone, Copy, Debug, PartialEq, Eq, Structural)]
pub enum IPMarketplaceError {
    /// No record has the identifier that was given.
    NotFound,
    /// The caller is not the one the operation is reserved for.
    Unauthorized,
    /// The record to be created is already there.
    AlreadyExists,
    /// A value was given that the operation does not take.
    InvalidInput,
    /// Funds do not cover the operation.
    InsufficientFunds,
    /// The operation came too late to be carried out.
    OperationFailed,
    /// The operation is not offered.
    NotImplemented,
    /// A file is of a kind that is not taken.
    InvalidFileFormat,
    /// A file is larger than is taken.
    FileTooLarge,
    /// The auction no longer takes bids.
    AuctionEnded,
    /// The bid is below the current bid plus the smallest increment.
    BidTooLow,
    /// The token may not change hands.
    NFTNotTransferable,
}

/// The outcome of an operation with the record it hands back taken by its view.
pub open spec fn view_result<T: View>(r: Result<T, IPMarketplaceError>) -> Result<
    T::V,
    IPMarketplaceError,
> {
    match r {
        Ok(v) => Ok(v@),
        Err(e) => Err(e),
    }
}

} // verus!
