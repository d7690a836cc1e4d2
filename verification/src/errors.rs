//! The failures that the components of the network report.

use vstd::prelude::*;
use vstd::std_specs::cmp::PartialEqSpecImpl;

verus! {

/// Everything that can go wrong while handling stock, orders, stores and
/// links. Equality is by variant: two errors are equal exactly when they are
/// the same kind of failure, whichever kind that is.
#[derive(Debug, Clone, Copy)]
pub enum Errors {
    FileDoesNotExist,
    ErrorReadingFile,
    CouldNotParse,
    CouldNotReserve,
    LockedError,
    NotEnoughStockError,
    ProductNotFoundError,
    SystemRunFail,
    ConnectionError,
    JoinError,
    ChannelError,
    WriteError,
    ActorMsgError,
    NoActiveStoresError,
    StoreNotConnectedError,
    NoActiveLeader,
    NoStockError,
}

impl PartialEq for Errors {
    /// Whether `self` and `other` are the same variant.
    fn eq(&self, other: &Self) -> (r: bool) {
        match (self, other) {
            (Errors::FileDoesNotExist, Errors::FileDoesNotExist) => true,
            (Errors::ErrorReadingFile, Errors::ErrorReadingFile) => true,
            (Errors::CouldNotParse, Errors::CouldNotParse) => true,
            (Errors::CouldNotReserve, Errors::CouldNotReserve) => true,
            (Errors::LockedError, Errors::LockedError) => true,
            (Errors::NotEnoughStockError, Errors::NotEnoughStockError) => true,
            (Errors::ProductNotFoundError, Errors::ProductNotFoundError) => true,
            (Errors::SystemRunFail, Errors::SystemRunFail) => true,
            (Errors::ConnectionError, Errors::ConnectionError) => true,
            (Errors::JoinError, Errors::JoinError) => true,
            (Errors::ChannelError, Errors::ChannelError) => true,
            (Errors::WriteError, Errors::WriteError) => true,
            (Errors::ActorMsgError, Errors::ActorMsgError) => true,
            (Errors::NoActiveStoresError, Errors::NoActiveStoresError) => true,
            (Errors::StoreNotConnectedError, Errors::StoreNotConnectedError) => true,
            (Errors::NoActiveLeader, Errors::NoActiveLeader) => true,
            (Errors::NoStockError, Errors::NoStockError) => true,
            _ => false,
        }
    }
}

impl PartialEqSpecImpl for Errors {
    open spec fn obeys_eq_spec() -> bool {
        true
    }

    open spec fn eq_spec(&self, other: &Self) -> bool {
        *self == *other
    }
}

} // verus!
