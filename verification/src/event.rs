//! Domain events recorded by the ledger for external observers.

use vstd::prelude::*;

use crate::AccountId;
use crate::MarketItemId;

verus! {

/// A domain event: one is recorded for every successful mutation of the
/// ledger.
pub enum MarketEvent {
    /// Items were created and handed to `recipient`.
    CreateItem { recipient: AccountId, item_ids: Vec<MarketItemId> },
    /// Items moved from `owner` to `recipient`.
    TransferItem { owner: AccountId, recipient: AccountId, item_ids: Vec<MarketItemId> },
    /// Items of `owner` were burned.
    BurnItem { owner: AccountId, item_ids: Vec<MarketItemId> },
    /// `owner` approved `spender` to move the items.
    ApproveItem { owner: AccountId, spender: AccountId, item_ids: Vec<MarketItemId> },
    /// The item was sold and handed to `recipient`.
    SoldItem { recipient: AccountId, item_id: MarketItemId },
}

} // verus!
