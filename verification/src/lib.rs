//! Verified bookkeeping and settlement core of an NFT marketplace.
//!
//! The library tracks which account owns which listed item, keeps an
//! enumerable per-owner index of items, manages one-shot per-item approvals,
//! stores per-item sale records, and runs the transactional state change that
//! accompanies a sale.  The surrounding host environment (persistent storage,
//! the payment purse subsystem and caller identity) is an external
//! collaborator: callers inject its answers as plain values, and every state
//! transition in here is verified.

use vstd::prelude::*;

mod table;

pub mod data;
pub mod event;
pub mod market;

pub use market::Error;
pub use market::MarketLedger;

verus! {

/// Identifier of a marketplace listing, assigned by the caller at creation
/// time and never reused while the item is live.
pub type MarketItemId = u64;

/// Identifier of the backing token on the external asset ledger.
pub type TokenId = u64;

/// An account taking part in the market (an owner, spender, buyer or seller).
pub type AccountId = u64;

/// Address of the external contract that manages the backing assets.
pub type NFTContractAddress = u64;

/// An amount of currency.
pub type Amount = u64;

/// Free-form metadata attached to the market, kept as key/value pairs.
pub type Meta = Vec<(String, String)>;

/// Sale state of a listed item.
#[derive(Clone, Copy, PartialEq, Eq, Structural, Debug)]
pub enum ItemStatus {
    /// The item is listed and can be sold.
    Available,
    /// The item has been sold.
    Sold,
    /// The listing was withdrawn.
    Cancelled,
}

} // verus!
