//! The market ledger: orchestration, validation and settlement.
//!
//! `MarketLedger` owns the leaf stores, validates ownership and approvals
//! before every mutation, and keeps the cross-store invariants: every live
//! item is indexed under its owner, approvals only stand for live items
//! under their current owner, sale records come and go together, and the
//! total supply counts the live items.

use vstd::prelude::*;

use crate::data::ids_under;
use crate::data::lemma_owned_index_dense;
use crate::data::Allowances;
use crate::data::ItemAskingPriceData;
use crate::data::ItemStatusData;
use crate::data::ItemTokenIdData;
use crate::data::NFTContractAddresses;
use crate::data::NFTMarketItemIds;
use crate::data::OwnedTokens;
use crate::data::Owners;
use crate::event::MarketEvent;
use crate::AccountId;
use crate::Amount;
use crate::ItemStatus;
use crate::MarketItemId;
use crate::Meta;
use crate::NFTContractAddress;
use crate::TokenId;

verus! {

/// The reasons a ledger operation can be refused.  Every operation either
/// succeeds with all its effects applied or returns one of these with no
/// effect at all.
#[derive(Clone, Copy, PartialEq, Eq, Structural, Debug)]
pub enum Error {
    /// The caller is neither the owner nor an approved spender.
    PermissionDenied,
    /// Parallel input arrays of a batch differ in length.
    ArityMismatch,
    /// An item id to be created is already live, or repeated in its batch.
    AlreadyExists,
    /// An item id has no owner, or does not belong to the stated owner.
    NotFound,
    /// A sale was attempted on an item that is not available.
    NotAvailable,
    /// The funds collaborator reports no balance for the payment handle.
    FundsNotFound,
    /// The reported balance differs from the asking price.
    FundsMismatch,
}

impl Error {
    /// The stable numeric code of the error, for host environments that
    /// surface errors as numbers.
    pub fn code(&self) -> (c: u16)
        ensures
            c == (match self {
                Error::PermissionDenied => 1u16,
                Error::ArityMismatch => 2u16,
                Error::AlreadyExists => 3u16,
                Error::NotFound => 4u16,
                Error::NotAvailable => 5u16,
                Error::FundsNotFound => 6u16,
                Error::FundsMismatch => 7u16,
            }),
    {
        match self {
            Error::PermissionDenied => 1,
            Error::ArityMismatch => 2,
            Error::AlreadyExists => 3,
            Error::NotFound => 4,
            Error::NotAvailable => 5,
            Error::FundsNotFound => 6,
            Error::FundsMismatch => 7,
        }
    }
}

/// A sequence of pairwise-distinct ids.
pub open spec fn distinct_seq(s: Seq<u64>) -> bool {
    forall|i: int, j: int| 0 <= i < j < s.len() ==> s[i] != s[j]
}

/// The (token, item) pairs that listing the batch appends to the journal.
pub open spec fn zip_listing(tids: Seq<TokenId>, ids: Seq<MarketItemId>) -> Seq<
    (TokenId, MarketItemId),
> {
    Seq::new(ids.len(), |j: int| (tids[j], ids[j]))
}

/// Whether `id` occurs among the first `k` elements of `ids`.
pub open spec fn in_prefix(ids: Seq<MarketItemId>, k: int, id: MarketItemId) -> bool {
    exists|j: int| 0 <= j < k && (#[trigger] ids[j]) == id
}

/// An id outside the first `i + 1` elements is outside the first `i` and
/// differs from the element at `i`.
proof fn lemma_prefix_step(ids: Seq<MarketItemId>, i: int, id: MarketItemId)
    requires
        0 <= i,
        !in_prefix(ids, i + 1, id),
    ensures
        !in_prefix(ids, i, id),
        i < ids.len() ==> id != ids[i],
{
    if in_prefix(ids, i, id) {
        let j = choose|j: int| 0 <= j < i && (#[trigger] ids[j]) == id;
        assert(0 <= j < i + 1 && ids[j] == id);
    }
    if i < ids.len() && id == ids[i] {
        assert(0 <= i < i + 1 && ids[i] == id);
    }
}

/// The view of metadata as key/value pairs of character sequences.
pub open spec fn meta_view(m: Meta) -> Seq<(Seq<char>, Seq<char>)> {
    Seq::new(m@.len(), |i: int| (m@[i].0@, m@[i].1@))
}

/// What a settlement requires of the external collaborators: which asset
/// to move from the seller to the buyer, and which amount to pay the
/// seller afterwards.
#[derive(Clone, Copy, PartialEq, Eq, Structural, Debug)]
pub struct SaleOrder {
    /// The current owner of the item, who receives the payment.
    pub seller: AccountId,
    /// The account buying the item.
    pub buyer: AccountId,
    /// The item being sold.
    pub item_id: MarketItemId,
    /// The external contract holding the backing asset.
    pub nft_contract_address: NFTContractAddress,
    /// The backing token to move on that contract.
    pub token_id: TokenId,
    /// The exact amount owed to the seller.
    pub asking_price: Amount,
}

/// The terminal outcome of a sale.
#[derive(Clone, Copy, PartialEq, Eq, Structural, Debug)]
pub enum SaleOutcome {
    /// The sale went through: the asset moved, the seller was paid, and
    /// the item is now sold.
    Settled(SaleOrder),
    /// Validation refused the sale; nothing changed.
    Rejected(Error),
    /// An external transfer failed after validation; nothing changed.
    Aborted,
}

/// The bookkeeping core of the marketplace.  It composes the leaf stores
/// and is the only component that mutates them.
pub struct MarketLedger {
    name: String,
    symbol: String,
    meta: Meta,
    total_supply: u64,
    owners: Owners,
    owned_tokens: OwnedTokens,
    nft_contract_addresses: NFTContractAddresses,
    nft_market_item_ids: NFTMarketItemIds,
    item_asking_prices: ItemAskingPriceData,
    item_token_ids: ItemTokenIdData,
    item_statuses: ItemStatusData,
    allowances: Allowances,
    events: Vec<MarketEvent>,
}

impl MarketLedger {
    /// The owner of `id`, or `None` if the item is not live.  This is the
    /// canonical "does not exist" test.
    pub closed spec fn spec_owner_of(self, id: MarketItemId) -> Option<AccountId> {
        if self.owners@.dom().contains(id) {
            Some(self.owners@[id])
        } else {
            None
        }
    }

    /// Whether `id` is live.
    pub open spec fn spec_live(self, id: MarketItemId) -> bool {
        self.spec_owner_of(id) is Some
    }

    /// The backing contract address recorded for `id`.
    pub closed spec fn spec_nft_contract_address(self, id: MarketItemId) -> Option<
        NFTContractAddress,
    > {
        if self.nft_contract_addresses@.dom().contains(id) {
            Some(self.nft_contract_addresses@[id])
        } else {
            None
        }
    }

    /// The asking price recorded for `id`.
    pub closed spec fn spec_asking_price(self, id: MarketItemId) -> Option<Amount> {
        if self.item_asking_prices@.dom().contains(id) {
            Some(self.item_asking_prices@[id])
        } else {
            None
        }
    }

    /// The backing token id recorded for `id`.
    pub closed spec fn spec_token_id(self, id: MarketItemId) -> Option<TokenId> {
        if self.item_token_ids@.dom().contains(id) {
            Some(self.item_token_ids@[id])
        } else {
            None
        }
    }

    /// The sale status recorded for `id`.
    pub closed spec fn spec_status(self, id: MarketItemId) -> Option<ItemStatus> {
        if self.item_statuses@.dom().contains(id) {
            Some(self.item_statuses@[id])
        } else {
            None
        }
    }

    /// The spender approved by `owner` for `id`, if any.
    pub closed spec fn spec_allowance(self, owner: AccountId, id: MarketItemId) -> Option<
        AccountId,
    > {
        if self.allowances@.dom().contains((owner, id)) {
            Some(self.allowances@[(owner, id)])
        } else {
            None
        }
    }

    /// The number of items `owner` holds.
    pub closed spec fn spec_balance_of(self, owner: AccountId) -> u64 {
        self.owned_tokens.balance(owner)
    }

    /// The item at slot `index` of `owner`'s enumeration.
    pub closed spec fn spec_item_at(self, owner: AccountId, index: u64) -> Option<MarketItemId> {
        self.owned_tokens.item_at(owner, index)
    }

    /// The total count of live items.
    pub closed spec fn spec_total_supply(self) -> u64 {
        self.total_supply
    }

    /// The market's name.
    pub closed spec fn spec_name(self) -> Seq<char> {
        self.name@
    }

    /// The market's symbol.
    pub closed spec fn spec_symbol(self) -> Seq<char> {
        self.symbol@
    }

    /// The market's metadata.
    pub closed spec fn spec_meta(self) -> Seq<(Seq<char>, Seq<char>)> {
        meta_view(self.meta)
    }

    /// The journal of (token, item) listing pairs.
    pub closed spec fn spec_market_journal(self) -> Seq<(TokenId, MarketItemId)> {
        self.nft_market_item_ids@
    }

    /// The market items listed under the backing token `token`, in listing
    /// order.
    pub open spec fn spec_market_items(self, token: TokenId) -> Seq<MarketItemId> {
        ids_under(self.spec_market_journal(), token)
    }

    /// The events recorded so far, oldest first.
    pub closed spec fn spec_events(self) -> Seq<MarketEvent> {
        self.events@
    }

    /// The recorded events, for external observers.
    pub fn events(&self) -> (r: &Vec<MarketEvent>)
        ensures
            r@ == self.spec_events(),
    {
        &self.events
    }

    /// The ledger's invariant: the stores are well-formed, every live item
    /// is indexed under its owner and vice versa, approvals stand only for
    /// live items under their current owner, every live item has a backing
    /// asset address, the three sale-record stores hold exactly the same
    /// items, all live, and the total supply counts the live items.
    pub closed spec fn wf(self) -> bool {
        &&& self.owners.inv()
        &&& self.owned_tokens.wf()
        &&& self.nft_contract_addresses.inv()
        &&& self.item_asking_prices.inv()
        &&& self.item_token_ids.inv()
        &&& self.item_statuses.inv()
        &&& self.allowances.inv()
        &&& self.owners@.dom().finite()
        &&& self.total_supply == self.owners@.dom().len()
        &&& forall|id: MarketItemId| #[trigger]
            self.owners@.dom().contains(id) ==> self.owned_tokens.contains(self.owners@[id], id)
        &&& forall|o: AccountId, id: MarketItemId| #[trigger]
            self.owned_tokens.contains(o, id) ==> self.owners@.dom().contains(id)
                && self.owners@[id] == o
        &&& forall|o: AccountId, id: MarketItemId| #[trigger]
            self.allowances@.dom().contains((o, id)) ==> self.owners@.dom().contains(id)
                && self.owners@[id] == o
        &&& forall|id: MarketItemId| #[trigger]
            self.nft_contract_addresses@.dom().contains(id) ==> self.owners@.dom().contains(id)
        &&& forall|id: MarketItemId| #[trigger]
            self.owners@.dom().contains(id) ==> self.nft_contract_addresses@.dom().contains(id)
        &&& forall|id: MarketItemId| #[trigger]
            self.item_statuses@.dom().contains(id) ==> self.owners@.dom().contains(id)
        &&& forall|id: MarketItemId|
            self.item_asking_prices@.dom().contains(id) <==> #[trigger]
                self.item_statuses@.dom().contains(id)
        &&& forall|id: MarketItemId|
            self.item_token_ids@.dom().contains(id) <==> #[trigger] self.item_statuses@.dom().contains(
                id,
            )
    }

    /// Sets an empty market up under the given name, symbol and metadata.
    pub fn init(name: String, symbol: String, meta: Meta) -> (s: Self)
        ensures
            s.wf(),
            s.spec_name() == name@,
            s.spec_symbol() == symbol@,
            s.spec_meta() == meta_view(meta),
            s.spec_total_supply() == 0,
            s.spec_events() == Seq::<MarketEvent>::empty(),
            s.spec_market_journal() == Seq::<(TokenId, MarketItemId)>::empty(),
            forall|id: MarketItemId| (#[trigger] s.spec_owner_of(id)) is None,
            forall|id: MarketItemId| (#[trigger] s.spec_nft_contract_address(id)) is None,
            forall|id: MarketItemId| (#[trigger] s.spec_asking_price(id)) is None,
            forall|id: MarketItemId| (#[trigger] s.spec_token_id(id)) is None,
            forall|id: MarketItemId| (#[trigger] s.spec_status(id)) is None,
            forall|o: AccountId, id: MarketItemId| (#[trigger] s.spec_allowance(o, id)) is None,
            forall|o: AccountId| #[trigger] s.spec_balance_of(o) == 0,
            forall|o: AccountId, i: u64| (#[trigger] s.spec_item_at(o, i)) is None,
    {
        MarketLedger {
            name,
            symbol,
            meta,
            total_supply: 0,
            owners: Owners::init(),
            owned_tokens: OwnedTokens::init(),
            nft_contract_addresses: NFTContractAddresses::init(),
            nft_market_item_ids: NFTMarketItemIds::init(),
            item_asking_prices: ItemAskingPriceData::init(),
            item_token_ids: ItemTokenIdData::init(),
            item_statuses: ItemStatusData::init(),
            allowances: Allowances::init(),
            events: Vec::new(),
        }
    }

    /// The market's name.
    pub fn name(&self) -> (r: String)
        ensures
            r@ == self.spec_name(),
    {
        self.name.clone()
    }

    /// The market's symbol.
    pub fn symbol(&self) -> (r: String)
        ensures
            r@ == self.spec_symbol(),
    {
        self.symbol.clone()
    }

    /// The market's metadata.
    pub fn meta(&self) -> (r: Meta)
        ensures
            meta_view(r) == self.spec_meta(),
    {
        let mut r: Meta = Vec::new();
        let n: usize = self.meta.len();
        let mut i: usize = 0;
        while i < n
            invariant
                n == self.meta@.len(),
                i <= n,
                r@.len() == i,
                forall|j: int|
                    0 <= j < i ==> (#[trigger] r@[j]).0@ == self.meta@[j].0@ && r@[j].1@
                        == self.meta@[j].1@,
            decreases n - i,
        {
            let k = self.meta[i].0.clone();
            let v = self.meta[i].1.clone();
            r.push((k, v));
            i = i + 1;
        }
        proof {
            assert(meta_view(r) =~= self.spec_meta());
        }
        r
    }

    /// The total count of live items.
    pub fn total_supply(&self) -> (r: u64)
        ensures
            r == self.spec_total_supply(),
    {
        self.total_supply
    }

    /// The number of items `owner` holds.
    pub fn balance_of(&self, owner: AccountId) -> (r: u64)
        requires
            self.wf(),
        ensures
            r == self.spec_balance_of(owner),
    {
        self.owned_tokens.get_balances(&owner)
    }

    /// The owner of `item_id`, or `None` if the item is not live.
    pub fn owner_of(&self, item_id: MarketItemId) -> (r: Option<AccountId>)
        requires
            self.wf(),
        ensures
            r == self.spec_owner_of(item_id),
    {
        self.owners.get(&item_id)
    }

    /// The backing contract address recorded for `item_id`.
    pub fn item_nft_contract_address(&self, item_id: MarketItemId) -> (r: Option<
        NFTContractAddress,
    >)
        requires
            self.wf(),
        ensures
            r == self.spec_nft_contract_address(item_id),
    {
        self.nft_contract_addresses.get(&item_id)
    }

    /// The asking price recorded for `item_id`.
    pub fn item_asking_price(&self, item_id: MarketItemId) -> (r: Option<Amount>)
        requires
            self.wf(),
        ensures
            r == self.spec_asking_price(item_id),
    {
        self.item_asking_prices.get(&item_id)
    }

    /// The backing token id recorded for `item_id`.
    pub fn item_token_id(&self, item_id: MarketItemId) -> (r: Option<TokenId>)
        requires
            self.wf(),
        ensures
            r == self.spec_token_id(item_id),
    {
        self.item_token_ids.get(&item_id)
    }

    /// The sale status recorded for `item_id`.
    pub fn item_status(&self, item_id: MarketItemId) -> (r: Option<ItemStatus>)
        requires
            self.wf(),
        ensures
            r == self.spec_status(item_id),
    {
        self.item_statuses.get(&item_id)
    }

    /// The spender approved by `owner` for `item_id`, if any.
    pub fn allowance_of(&self, owner: AccountId, item_id: MarketItemId) -> (r: Option<AccountId>)
        requires
            self.wf(),
        ensures
            r == self.spec_allowance(owner, item_id),
    {
        self.allowances.get(&owner, &item_id)
    }

    /// The item at slot `index` of `owner`'s enumeration.
    pub fn get_item_by_index(&self, owner: AccountId, index: u64) -> (r: Option<MarketItemId>)
        requires
            self.wf(),
        ensures
            r == self.spec_item_at(owner, index),
    {
        self.owned_tokens.get_item_by_index(&owner, &index)
    }

    /// The sale status of the market item most recently listed under the
    /// backing token `item_token_id`.  At least one item must have been
    /// listed for that token.
    pub fn token_market_status(&self, item_token_id: TokenId) -> (r: Option<ItemStatus>)
        requires
            self.wf(),
            self.spec_market_items(item_token_id).len() > 0,
        ensures
            r == self.spec_status(self.spec_market_items(item_token_id).last()),
    {
        let market_item_ids = self.nft_market_item_ids.get(item_token_id).unwrap();
        let last = market_item_ids[market_item_ids.len() - 1];
        self.item_status(last)
    }

    /// Records a new backing contract address for the live item `item_id`;
    /// fails with `NotFound` when the item is not live.
    pub fn set_item_nft_contract_address(
        &mut self,
        item_id: MarketItemId,
        nft_contract_hash: NFTContractAddress,
    ) -> (r: Result<(), Error>)
        requires
            old(self).wf(),
        ensures
            final(self).wf(),
            old(self).spec_owner_of(item_id) is None ==> r == Err::<(), Error>(Error::NotFound)
                && *final(self) == *old(self),
            old(self).spec_owner_of(item_id) is Some ==> r == Ok::<(), Error>(())
                && final(self).spec_nft_contract_address(item_id) == Some(nft_contract_hash)
                && (forall|id: MarketItemId|
                    id != item_id ==> final(self).spec_nft_contract_address(id) == old(self).spec_nft_contract_address(id))
                && (forall|id: MarketItemId|
                    final(self).spec_owner_of(id) == old(self).spec_owner_of(id))
                && (forall|id: MarketItemId|
                    final(self).spec_asking_price(id) == old(self).spec_asking_price(id))
                && (forall|id: MarketItemId|
                    final(self).spec_token_id(id) == old(self).spec_token_id(id))
                && (forall|id: MarketItemId|
                    final(self).spec_status(id) == old(self).spec_status(id))
                && (forall|o: AccountId, id: MarketItemId|
                    final(self).spec_allowance(o, id) == old(self).spec_allowance(o, id))
                && (forall|o: AccountId|
                    final(self).spec_balance_of(o) == old(self).spec_balance_of(o))
                && (forall|o: AccountId, i: u64|
                    final(self).spec_item_at(o, i) == old(self).spec_item_at(o, i))
                && final(self).spec_total_supply() == old(self).spec_total_supply()
                && final(self).spec_name() == old(self).spec_name()
                && final(self).spec_symbol() == old(self).spec_symbol()
                && final(self).spec_meta() == old(self).spec_meta()
                && final(self).spec_market_journal() == old(self).spec_market_journal()
                && final(self).spec_events() == old(self).spec_events(),
    {
        if self.owners.get(&item_id).is_none() {
            return Err(Error::NotFound);
        }
        self.nft_contract_addresses.set(&item_id, nft_contract_hash);
        Ok(())
    }

    /// Records a new sale status for the live item `item_id`; fails with
    /// `PermissionDenied` when the item is not live.  A live item can only
    /// change status once it carries a sale record, so that the record
    /// stores stay aligned.
    pub fn set_item_status(&mut self, item_id: MarketItemId, value: ItemStatus) -> (r: Result<
        (),
        Error,
    >)
        requires
            old(self).wf(),
            old(self).spec_owner_of(item_id) is Some ==> old(self).spec_status(item_id) is Some,
        ensures
            final(self).wf(),
            old(self).spec_owner_of(item_id) is None ==> r == Err::<(), Error>(
                Error::PermissionDenied,
            ) && *final(self) == *old(self),
            old(self).spec_owner_of(item_id) is Some ==> r == Ok::<(), Error>(())
                && final(self).spec_status(item_id) == Some(value)
                && (forall|id: MarketItemId|
                    id != item_id ==> final(self).spec_status(id) == old(self).spec_status(id))
                && (forall|id: MarketItemId|
                    final(self).spec_owner_of(id) == old(self).spec_owner_of(id))
                && (forall|id: MarketItemId|
                    final(self).spec_nft_contract_address(id) == old(self).spec_nft_contract_address(id))
                && (forall|id: MarketItemId|
                    final(self).spec_asking_price(id) == old(self).spec_asking_price(id))
                && (forall|id: MarketItemId|
                    final(self).spec_token_id(id) == old(self).spec_token_id(id))
                && (forall|o: AccountId, id: MarketItemId|
                    final(self).spec_allowance(o, id) == old(self).spec_allowance(o, id))
                && (forall|o: AccountId|
                    final(self).spec_balance_of(o) == old(self).spec_balance_of(o))
                && (forall|o: AccountId, i: u64|
                    final(self).spec_item_at(o, i) == old(self).spec_item_at(o, i))
                && final(self).spec_total_supply() == old(self).spec_total_supply()
                && final(self).spec_name() == old(self).spec_name()
                && final(self).spec_symbol() == old(self).spec_symbol()
                && final(self).spec_meta() == old(self).spec_meta()
                && final(self).spec_market_journal() == old(self).spec_market_journal()
                && final(self).spec_events() == old(self).spec_events(),
    {
        if self.owners.get(&item_id).is_none() {
            return Err(Error::PermissionDenied);
        }
        self.item_statuses.set(&item_id, value);
        Ok(())
    }

    /// No id of the batch is live yet, and the batch repeats no id.
    pub open spec fn spec_ids_fresh(self, ids: Seq<MarketItemId>) -> bool {
        &&& distinct_seq(ids)
        &&& forall|j: int| 0 <= j < ids.len() ==> (#[trigger] self.spec_owner_of(ids[j])) is None
    }

    /// The error that listing a batch returns, if any: the four input
    /// arrays must share one length, and no id may be live already or
    /// repeated within the batch.
    pub open spec fn spec_create_err(
        self,
        ids: Seq<MarketItemId>,
        refs: Seq<NFTContractAddress>,
        prices: Seq<Amount>,
        tids: Seq<TokenId>,
    ) -> Option<Error> {
        if ids.len() != refs.len() || ids.len() != prices.len() || ids.len() != tids.len() {
            Some(Error::ArityMismatch)
        } else if !self.spec_ids_fresh(ids) {
            Some(Error::AlreadyExists)
        } else {
            None
        }
    }

    /// Whether the batch is fresh: no id live, no id repeated.
    fn ids_fresh_check(&self, item_ids: &Vec<MarketItemId>) -> (r: bool)
        requires
            self.wf(),
        ensures
            r == self.spec_ids_fresh(item_ids@),
    {
        let n: usize = item_ids.len();
        let mut i: usize = 0;
        while i < n
            invariant
                self.wf(),
                n == item_ids@.len(),
                i <= n,
                forall|j: int|
                    0 <= j < i ==> (#[trigger] self.spec_owner_of(item_ids@[j])) is None,
                forall|a: int, b: int| 0 <= a < b < i ==> item_ids@[a] != item_ids@[b],
            decreases n - i,
        {
            if self.owners.get(&item_ids[i]).is_some() {
                proof {
                    assert((self.spec_owner_of(item_ids@[i as int])) is Some);
                }
                return false;
            }
            let mut j: usize = 0;
            while j < i
                invariant
                    n == item_ids@.len(),
                    j <= i < n,
                    forall|k: int| 0 <= k < j ==> item_ids@[k] != item_ids@[i as int],
                decreases i - j,
            {
                if item_ids[j] == item_ids[i] {
                    proof {
                        assert(0 <= j < i < item_ids@.len());
                        assert(item_ids@[j as int] == item_ids@[i as int]);
                        assert(!distinct_seq(item_ids@));
                    }
                    return false;
                }
                j = j + 1;
            }
            i = i + 1;
        }
        true
    }

    /// A copy of a vector of ids.
    fn clone_ids(v: &Vec<MarketItemId>) -> (r: Vec<MarketItemId>)
        ensures
            r@ == v@,
    {
        let mut r: Vec<MarketItemId> = Vec::new();
        let n: usize = v.len();
        let mut i: usize = 0;
        while i < n
            invariant
                n == v@.len(),
                i <= n,
                r@ == v@.subrange(0, i as int),
            decreases n - i,
        {
            r.push(v[i]);
            proof {
                assert(v@.subrange(0, (i + 1) as int) =~= v@.subrange(0, i as int).push(
                    v@[i as int],
                ));
            }
            i = i + 1;
        }
        proof {
            assert(v@.subrange(0, n as int) =~= v@);
        }
        r
    }

    /// Whether none of `item_ids` is live yet.
    pub fn validate_item_ids(&self, item_ids: Vec<MarketItemId>) -> (r: bool)
        requires
            self.wf(),
        ensures
            r == forall|j: int|
                0 <= j < item_ids@.len() ==> (#[trigger] self.spec_owner_of(item_ids@[j])) is None,
    {
        let n: usize = item_ids.len();
        let mut i: usize = 0;
        while i < n
            invariant
                self.wf(),
                n == item_ids@.len(),
                i <= n,
                forall|j: int|
                    0 <= j < i ==> (#[trigger] self.spec_owner_of(item_ids@[j])) is None,
            decreases n - i,
        {
            if self.owners.get(&item_ids[i]).is_some() {
                proof {
                    assert((self.spec_owner_of(item_ids@[i as int])) is Some);
                }
                return false;
            }
            i = i + 1;
        }
        true
    }

    /// Creates and lists a batch of market items for `recipient`.  The four
    /// arrays run in parallel: id, backing contract address, asking price
    /// and backing token id of each new item.  The whole batch is validated
    /// first and the ledger is only changed when every tuple is admissible,
    /// so a batch either fully commits or fully aborts.
    #[verifier::rlimit(60)]
    #[verifier::spinoff_prover]
    pub fn create_market_item(
        &mut self,
        recipient: AccountId,
        item_ids: Vec<MarketItemId>,
        nft_contract_addresses: Vec<NFTContractAddress>,
        item_asking_prices: Vec<Amount>,
        item_token_ids: Vec<TokenId>,
    ) -> (r: Result<Vec<MarketItemId>, Error>)
        requires
            old(self).wf(),
            old(self).spec_total_supply() + item_ids@.len() <= u64::MAX,
        ensures
            final(self).wf(),
            match old(self).spec_create_err(
                item_ids@,
                nft_contract_addresses@,
                item_asking_prices@,
                item_token_ids@,
            ) {
                Some(e) => r == Err::<Vec<MarketItemId>, Error>(e) && *final(self) == *old(self),
                None => {
                    &&& r matches Ok(v) && v@ == item_ids@
                    &&& forall|j: int|
                        0 <= j < item_ids@.len() ==> final(self).spec_owner_of(
                            #[trigger] item_ids@[j],
                        ) == Some(recipient)
                    &&& forall|j: int|
                        0 <= j < item_ids@.len() ==> final(self).spec_nft_contract_address(
                            #[trigger] item_ids@[j],
                        ) == Some(nft_contract_addresses@[j])
                    &&& forall|j: int|
                        0 <= j < item_ids@.len() ==> final(self).spec_asking_price(
                            #[trigger] item_ids@[j],
                        ) == Some(item_asking_prices@[j])
                    &&& forall|j: int|
                        0 <= j < item_ids@.len() ==> final(self).spec_token_id(
                            #[trigger] item_ids@[j],
                        ) == Some(item_token_ids@[j])
                    &&& forall|j: int|
                        0 <= j < item_ids@.len() ==> final(self).spec_status(
                            #[trigger] item_ids@[j],
                        ) == Some(ItemStatus::Available)
                    &&& forall|id: MarketItemId|
                        !item_ids@.contains(id) ==> #[trigger] final(self).spec_owner_of(id) == old(self).spec_owner_of(id)
                    &&& forall|id: MarketItemId|
                        !item_ids@.contains(id) ==> #[trigger] final(self).spec_nft_contract_address(id) == old(self).spec_nft_contract_address(id)
                    &&& forall|id: MarketItemId|
                        !item_ids@.contains(id) ==> #[trigger] final(self).spec_asking_price(id)
                            == old(self).spec_asking_price(id)
                    &&& forall|id: MarketItemId|
                        !item_ids@.contains(id) ==> #[trigger] final(self).spec_token_id(id) == old(self).spec_token_id(id)
                    &&& forall|id: MarketItemId|
                        !item_ids@.contains(id) ==> #[trigger] final(self).spec_status(id) == old(self).spec_status(id)
                    &&& forall|o: AccountId, id: MarketItemId|
                        #[trigger] final(self).spec_allowance(o, id) == old(self).spec_allowance(
                            o,
                            id,
                        )
                    &&& final(self).spec_balance_of(recipient) == old(self).spec_balance_of(
                        recipient,
                    ) + item_ids@.len()
                    &&& forall|o: AccountId|
                        o != recipient ==> #[trigger] final(self).spec_balance_of(o) == old(self).spec_balance_of(o)
                    &&& forall|j: int|
                        0 <= j < item_ids@.len() ==> final(self).spec_item_at(
                            recipient,
                            ((old(self).spec_balance_of(recipient) + j) as u64),
                        ) == Some(#[trigger] item_ids@[j])
                    &&& forall|i: u64|
                        i < old(self).spec_balance_of(recipient) ==> #[trigger] final(self).spec_item_at(recipient, i) == old(self).spec_item_at(recipient, i)
                    &&& forall|o: AccountId, i: u64|
                        o != recipient ==> #[trigger] final(self).spec_item_at(o, i) == old(self).spec_item_at(o, i)
                    &&& final(self).spec_total_supply() == old(self).spec_total_supply()
                        + item_ids@.len()
                    &&& final(self).spec_market_journal() == old(self).spec_market_journal()
                        + zip_listing(item_token_ids@, item_ids@)
                    &&& final(self).spec_events().len() == old(self).spec_events().len() + 1
                    &&& (final(self).spec_events().last() matches MarketEvent::CreateItem {
                        recipient: r2,
                        item_ids: ids2,
                    } && r2 == recipient && ids2@ == item_ids@)
                    &&& final(self).spec_name() == old(self).spec_name()
                    &&& final(self).spec_symbol() == old(self).spec_symbol()
                    &&& final(self).spec_meta() == old(self).spec_meta()
                },
            },
    {
        if item_ids.len() != nft_contract_addresses.len() {
            return Err(Error::ArityMismatch);
        }
        if item_ids.len() != item_asking_prices.len() {
            return Err(Error::ArityMismatch);
        }
        if item_ids.len() != item_token_ids.len() {
            return Err(Error::ArityMismatch);
        }
        if !self.ids_fresh_check(&item_ids) {
            return Err(Error::AlreadyExists);
        }

        let ghost pre = *self;
        let ghost ids = item_ids@;
        let ghost refs = nft_contract_addresses@;
        let ghost prices = item_asking_prices@;
        let ghost tids = item_token_ids@;
        let ghost pre_bal = pre.spec_balance_of(recipient);

        proof {
            lemma_owned_index_dense(pre.owned_tokens, recipient);
            assert forall|t: MarketItemId|
                pre.owned_tokens.owned_items(recipient).contains(t)
                implies pre.owners@.dom().contains(t) by {
                assert(pre.owned_tokens.contains(recipient, t));
            }
            vstd::set_lib::lemma_len_subset(
                pre.owned_tokens.owned_items(recipient),
                pre.owners@.dom(),
            );
        }

        let n: usize = item_ids.len();
        let mut i: usize = 0;
        while i < n
            invariant
                n == ids.len(),
                refs.len() == n,
                prices.len() == n,
                tids.len() == n,
                i <= n,
                item_ids@ == ids,
                nft_contract_addresses@ == refs,
                item_asking_prices@ == prices,
                item_token_ids@ == tids,
                distinct_seq(ids),
                forall|j: int| 0 <= j < ids.len() ==> (#[trigger] pre.spec_owner_of(ids[j])) is None,
                pre.wf(),
                pre_bal == pre.spec_balance_of(recipient),
                pre_bal + n <= u64::MAX,
                pre.spec_total_supply() + n <= u64::MAX,
                self.name == pre.name,
                self.symbol == pre.symbol,
                self.meta == pre.meta,
                self.events@ == pre.events@,
                self.total_supply == pre.total_supply,
                self.allowances@ == pre.allowances@,
                self.owners.inv(),
                self.nft_contract_addresses.inv(),
                self.item_asking_prices.inv(),
                self.item_token_ids.inv(),
                self.item_statuses.inv(),
                self.allowances.inv(),
                self.owned_tokens.wf(),
                self.owners@.dom().finite(),
                self.owners@.dom().len() == pre.owners@.dom().len() + i,
                forall|j: int|
                    0 <= j < i ==> self.owners@.dom().contains(#[trigger] ids[j])
                        && self.owners@[ids[j]] == recipient,
                forall|j: int|
                    0 <= j < i ==> self.nft_contract_addresses@.dom().contains(#[trigger] ids[j])
                        && self.nft_contract_addresses@[ids[j]] == refs[j],
                forall|j: int|
                    0 <= j < i ==> self.item_asking_prices@.dom().contains(#[trigger] ids[j])
                        && self.item_asking_prices@[ids[j]] == prices[j],
                forall|j: int|
                    0 <= j < i ==> self.item_token_ids@.dom().contains(#[trigger] ids[j])
                        && self.item_token_ids@[ids[j]] == tids[j],
                forall|j: int|
                    0 <= j < i ==> self.item_statuses@.dom().contains(#[trigger] ids[j])
                        && self.item_statuses@[ids[j]] == ItemStatus::Available,
                forall|id: MarketItemId|
                    !in_prefix(ids, i as int, id) ==> #[trigger] self.owners@.dom().contains(id)
                        == pre.owners@.dom().contains(id) && (pre.owners@.dom().contains(id)
                        ==> self.owners@[id] == pre.owners@[id]),
                forall|id: MarketItemId|
                    !in_prefix(ids, i as int, id) ==> #[trigger] self.nft_contract_addresses@.dom().contains(
                        id,
                    ) == pre.nft_contract_addresses@.dom().contains(id) && (
                    pre.nft_contract_addresses@.dom().contains(id)
                        ==> self.nft_contract_addresses@[id] == pre.nft_contract_addresses@[id]),
                forall|id: MarketItemId|
                    !in_prefix(ids, i as int, id) ==> #[trigger] self.item_asking_prices@.dom().contains(
                        id,
                    ) == pre.item_asking_prices@.dom().contains(id) && (
                    pre.item_asking_prices@.dom().contains(id) ==> self.item_asking_prices@[id]
                        == pre.item_asking_prices@[id]),
                forall|id: MarketItemId|
                    !in_prefix(ids, i as int, id) ==> #[trigger] self.item_token_ids@.dom().contains(
                        id,
                    ) == pre.item_token_ids@.dom().contains(id) && (
                    pre.item_token_ids@.dom().contains(id) ==> self.item_token_ids@[id]
                        == pre.item_token_ids@[id]),
                forall|id: MarketItemId|
                    !in_prefix(ids, i as int, id) ==> #[trigger] self.item_statuses@.dom().contains(
                        id,
                    ) == pre.item_statuses@.dom().contains(id) && (
                    pre.item_statuses@.dom().contains(id) ==> self.item_statuses@[id]
                        == pre.item_statuses@[id]),
                self.owned_tokens.balance(recipient) == pre_bal + i,
                forall|o: AccountId|
                    o != recipient ==> #[trigger] self.owned_tokens.balance(o)
                        == pre.owned_tokens.balance(o),
                forall|j: int|
                    0 <= j < i ==> self.owned_tokens.item_at(recipient, ((pre_bal + j) as u64))
                        == Some(#[trigger] ids[j]),
                forall|j: int|
                    0 <= j < i ==> self.owned_tokens.index_of(recipient, #[trigger] ids[j])
                        == Some(((pre_bal + j) as u64)),
                forall|i2: u64|
                    i2 < pre_bal ==> #[trigger] self.owned_tokens.item_at(recipient, i2)
                        == pre.owned_tokens.item_at(recipient, i2),
                forall|o: AccountId, i2: u64|
                    o != recipient ==> #[trigger] self.owned_tokens.item_at(o, i2)
                        == pre.owned_tokens.item_at(o, i2),
                forall|o: AccountId, t: MarketItemId|
                    o != recipient ==> #[trigger] self.owned_tokens.index_of(o, t)
                        == pre.owned_tokens.index_of(o, t),
                forall|t: MarketItemId|
                    !in_prefix(ids, i as int, t) ==> #[trigger] self.owned_tokens.index_of(
                        recipient,
                        t,
                    ) == pre.owned_tokens.index_of(recipient, t),
                self.nft_market_item_ids@ == pre.nft_market_item_ids@ + zip_listing(
                    tids,
                    ids,
                ).subrange(0, i as int),
            decreases n - i,
        {
            let id = item_ids[i];
            let ghost cur = *self;
            proof {
                assert(!in_prefix(ids, i as int, id)) by {
                    if in_prefix(ids, i as int, id) {
                        let j = choose|j: int| 0 <= j < i && (#[trigger] ids[j]) == id;
                        assert(ids[j] == ids[i as int]);
                    }
                }
                assert((pre.spec_owner_of(ids[i as int])) is None);
                assert(!self.owners@.dom().contains(id));
                assert(!self.owned_tokens.contains(recipient, id)) by {
                    if self.owned_tokens.index_of(recipient, id) is Some {
                        assert(pre.owned_tokens.contains(recipient, id));
                        assert(pre.owners@.dom().contains(id));
                    }
                }
            }
            self.nft_contract_addresses.set(&id, nft_contract_addresses[i]);
            self.owners.set(&id, recipient);
            self.owned_tokens.set_token(&recipient, &id);
            self.item_statuses.set(&id, ItemStatus::Available);
            self.item_token_ids.set(&id, item_token_ids[i]);
            self.item_asking_prices.set(&id, item_asking_prices[i]);
            self.nft_market_item_ids.set(&item_token_ids[i], id);
            proof {
                assert(zip_listing(tids, ids).subrange(0, (i + 1) as int) =~= zip_listing(
                    tids,
                    ids,
                ).subrange(0, i as int).push((tids[i as int], ids[i as int])));
                assert forall|id2: MarketItemId|
                    !in_prefix(ids, (i + 1) as int, id2) implies !in_prefix(ids, i as int, id2)
                    && id2 != ids[i as int] by {
                    if in_prefix(ids, i as int, id2) {
                        let j = choose|j: int| 0 <= j < i && (#[trigger] ids[j]) == id2;
                        assert(0 <= j < i + 1 && ids[j] == id2);
                    }
                    if id2 == ids[i as int] {
                        assert(0 <= i < i + 1 && ids[i as int] == id2);
                    }
                }
                assert forall|id2: MarketItemId|
                    !in_prefix(ids, (i + 1) as int, id2) implies #[trigger] self.owners@.dom().contains(
                        id2,
                    ) == pre.owners@.dom().contains(id2) && (pre.owners@.dom().contains(id2)
                        ==> self.owners@[id2] == pre.owners@[id2]) by {
                    lemma_prefix_step(ids, i as int, id2);
                    assert(cur.owners@.dom().contains(id2) == pre.owners@.dom().contains(id2) && (
                    pre.owners@.dom().contains(id2) ==> cur.owners@[id2] == pre.owners@[id2]));
                }
                assert forall|id2: MarketItemId|
                    !in_prefix(ids, (i + 1) as int, id2) implies #[trigger] self.nft_contract_addresses@.dom().contains(
                        id2,
                    ) == pre.nft_contract_addresses@.dom().contains(id2) && (
                    pre.nft_contract_addresses@.dom().contains(id2)
                        ==> self.nft_contract_addresses@[id2]
                        == pre.nft_contract_addresses@[id2]) by {
                    lemma_prefix_step(ids, i as int, id2);
                    assert(cur.nft_contract_addresses@.dom().contains(id2)
                        == pre.nft_contract_addresses@.dom().contains(id2) && (
                    pre.nft_contract_addresses@.dom().contains(id2)
                        ==> cur.nft_contract_addresses@[id2]
                        == pre.nft_contract_addresses@[id2]));
                }
                assert forall|id2: MarketItemId|
                    !in_prefix(ids, (i + 1) as int, id2) implies #[trigger] self.item_asking_prices@.dom().contains(
                        id2,
                    ) == pre.item_asking_prices@.dom().contains(id2) && (
                    pre.item_asking_prices@.dom().contains(id2) ==> self.item_asking_prices@[id2]
                        == pre.item_asking_prices@[id2]) by {
                    lemma_prefix_step(ids, i as int, id2);
                    assert(cur.item_asking_prices@.dom().contains(id2)
                        == pre.item_asking_prices@.dom().contains(id2) && (
                    pre.item_asking_prices@.dom().contains(id2) ==> cur.item_asking_prices@[id2]
                        == pre.item_asking_prices@[id2]));
                }
                assert forall|id2: MarketItemId|
                    !in_prefix(ids, (i + 1) as int, id2) implies #[trigger] self.item_token_ids@.dom().contains(
                        id2,
                    ) == pre.item_token_ids@.dom().contains(id2) && (
                    pre.item_token_ids@.dom().contains(id2) ==> self.item_token_ids@[id2]
                        == pre.item_token_ids@[id2]) by {
                    lemma_prefix_step(ids, i as int, id2);
                    assert(cur.item_token_ids@.dom().contains(id2)
                        == pre.item_token_ids@.dom().contains(id2) && (
                    pre.item_token_ids@.dom().contains(id2) ==> cur.item_token_ids@[id2]
                        == pre.item_token_ids@[id2]));
                }
                assert forall|id2: MarketItemId|
                    !in_prefix(ids, (i + 1) as int, id2) implies #[trigger] self.item_statuses@.dom().contains(
                        id2,
                    ) == pre.item_statuses@.dom().contains(id2) && (
                    pre.item_statuses@.dom().contains(id2) ==> self.item_statuses@[id2]
                        == pre.item_statuses@[id2]) by {
                    lemma_prefix_step(ids, i as int, id2);
                    assert(cur.item_statuses@.dom().contains(id2)
                        == pre.item_statuses@.dom().contains(id2) && (
                    pre.item_statuses@.dom().contains(id2) ==> cur.item_statuses@[id2]
                        == pre.item_statuses@[id2]));
                }
                assert forall|t2: MarketItemId|
                    !in_prefix(ids, (i + 1) as int, t2) implies #[trigger] self.owned_tokens.index_of(
                        recipient,
                        t2,
                    ) == pre.owned_tokens.index_of(recipient, t2) by {
                    lemma_prefix_step(ids, i as int, t2);
                    assert(cur.owned_tokens.index_of(recipient, t2)
                        == pre.owned_tokens.index_of(recipient, t2));
                    assert(t2 != ids[i as int]);
                }
            }
            i = i + 1;
        }
        let created: u64 = n as u64;
        self.total_supply = self.total_supply + created;
        let event_ids = Self::clone_ids(&item_ids);
        self.events.push(MarketEvent::CreateItem { recipient, item_ids: event_ids });
        proof {
            let post = *self;
            assert(post.spec_market_journal() =~= pre.spec_market_journal() + zip_listing(
                tids,
                ids,
            )) by {
                assert(zip_listing(tids, ids).subrange(0, n as int) =~= zip_listing(tids, ids));
            }
            assert forall|id: MarketItemId| #[trigger]
                post.owners@.dom().contains(id) implies post.owned_tokens.contains(
                post.owners@[id],
                id,
            ) by {
                if in_prefix(ids, n as int, id) {
                    let j = choose|j: int| 0 <= j < n && (#[trigger] ids[j]) == id;
                    assert(post.owned_tokens.index_of(recipient, ids[j]) == Some(
                        ((pre_bal + j) as u64),
                    ));
                } else {
                    assert(pre.owners@.dom().contains(id));
                    assert(pre.owned_tokens.contains(pre.owners@[id], id));
                    if pre.owners@[id] == recipient {
                        assert(post.owned_tokens.index_of(recipient, id)
                            == pre.owned_tokens.index_of(recipient, id));
                    }
                }
            }
            assert forall|o: AccountId, id: MarketItemId| #[trigger]
                post.owned_tokens.contains(o, id) implies post.owners@.dom().contains(id)
                && post.owners@[id] == o by {
                if in_prefix(ids, n as int, id) {
                    let j = choose|j: int| 0 <= j < n && (#[trigger] ids[j]) == id;
                    if o == recipient {
                        assert(post.owners@.dom().contains(ids[j]) && post.owners@[ids[j]]
                            == recipient);
                    } else {
                        assert(post.owned_tokens.index_of(o, id) == pre.owned_tokens.index_of(
                            o,
                            id,
                        ));
                        assert(pre.owned_tokens.contains(o, id));
                        assert(pre.owners@.dom().contains(id));
                        assert((pre.spec_owner_of(ids[j])) is None);
                    }
                } else {
                    if o == recipient {
                        assert(post.owned_tokens.index_of(recipient, id)
                            == pre.owned_tokens.index_of(recipient, id));
                    } else {
                        assert(post.owned_tokens.index_of(o, id) == pre.owned_tokens.index_of(
                            o,
                            id,
                        ));
                    }
                    assert(pre.owned_tokens.contains(o, id));
                    assert(pre.owners@.dom().contains(id) && pre.owners@[id] == o);
                    assert(post.owners@.dom().contains(id));
                    assert(post.owners@[id] == pre.owners@[id]);
                }
            }
            assert forall|o: AccountId, id: MarketItemId| #[trigger]
                post.allowances@.dom().contains((o, id)) implies post.owners@.dom().contains(id)
                && post.owners@[id] == o by {
                assert(pre.allowances@.dom().contains((o, id)));
                assert(pre.owners@.dom().contains(id) && pre.owners@[id] == o);
                assert(!in_prefix(ids, n as int, id)) by {
                    if in_prefix(ids, n as int, id) {
                        let j = choose|j: int| 0 <= j < n && (#[trigger] ids[j]) == id;
                        assert(pre.spec_owner_of(ids[j]) is None);
                    }
                }
            }
            assert forall|id: MarketItemId| #[trigger]
                post.nft_contract_addresses@.dom().contains(id)
                implies post.owners@.dom().contains(id) by {
                if !in_prefix(ids, n as int, id) {
                    assert(pre.nft_contract_addresses@.dom().contains(id));
                }
            }
            assert forall|id: MarketItemId| #[trigger]
                post.owners@.dom().contains(id)
                implies post.nft_contract_addresses@.dom().contains(id) by {
                if !in_prefix(ids, n as int, id) {
                    assert(pre.owners@.dom().contains(id));
                }
            }
            assert forall|id: MarketItemId| #[trigger]
                post.item_statuses@.dom().contains(id) implies post.owners@.dom().contains(id) by {
                if !in_prefix(ids, n as int, id) {
                    assert(pre.item_statuses@.dom().contains(id));
                }
            }
            assert forall|id: MarketItemId|
                post.item_asking_prices@.dom().contains(id) <==> #[trigger]
                post.item_statuses@.dom().contains(id) by {
                if !in_prefix(ids, n as int, id) {
                    assert(post.item_asking_prices@.dom().contains(id)
                        == pre.item_asking_prices@.dom().contains(id));
                    assert(post.item_statuses@.dom().contains(id)
                        == pre.item_statuses@.dom().contains(id));
                }
            }
            assert forall|id: MarketItemId|
                post.item_token_ids@.dom().contains(id) <==> #[trigger]
                post.item_statuses@.dom().contains(id) by {
                if !in_prefix(ids, n as int, id) {
                    assert(post.item_token_ids@.dom().contains(id)
                        == pre.item_token_ids@.dom().contains(id));
                    assert(post.item_statuses@.dom().contains(id)
                        == pre.item_statuses@.dom().contains(id));
                }
            }
            assert forall|id: MarketItemId|
                !ids.contains(id) implies !in_prefix(ids, n as int, id) by {
                if in_prefix(ids, n as int, id) {
                    let j = choose|j: int| 0 <= j < n && (#[trigger] ids[j]) == id;
                    assert(ids[j] == id);
                }
            }
            assert forall|j: int|
                0 <= j < ids.len() implies in_prefix(ids, n as int, #[trigger] ids[j]) by {
            }
        }
        Ok(item_ids)
    }

    /// The error that minting a batch returns, if any: the two input
    /// arrays must share one length, and no id may be live already or
    /// repeated within the batch.
    pub open spec fn spec_mint_err(
        self,
        ids: Seq<MarketItemId>,
        refs: Seq<NFTContractAddress>,
    ) -> Option<Error> {
        if ids.len() != refs.len() {
            Some(Error::ArityMismatch)
        } else if !self.spec_ids_fresh(ids) {
            Some(Error::AlreadyExists)
        } else {
            None
        }
    }

    /// Creates a batch of items for `recipient` without market fields: each
    /// new item has an owner and a backing contract address, but no asking
    /// price, backing token id or status until it is listed.  The batch is
    /// all-or-nothing, as for `create_market_item`.
    #[verifier::rlimit(60)]
    #[verifier::spinoff_prover]
    pub fn mint(
        &mut self,
        recipient: AccountId,
        item_ids: Vec<MarketItemId>,
        nft_contract_addresses: Vec<NFTContractAddress>,
    ) -> (r: Result<Vec<MarketItemId>, Error>)
        requires
            old(self).wf(),
            old(self).spec_total_supply() + item_ids@.len() <= u64::MAX,
        ensures
            final(self).wf(),
            match old(self).spec_mint_err(item_ids@, nft_contract_addresses@) {
                Some(e) => r == Err::<Vec<MarketItemId>, Error>(e) && *final(self) == *old(self),
                None => {
                    &&& r matches Ok(v) && v@ == item_ids@
                    &&& forall|j: int|
                        0 <= j < item_ids@.len() ==> final(self).spec_owner_of(
                            #[trigger] item_ids@[j],
                        ) == Some(recipient)
                    &&& forall|j: int|
                        0 <= j < item_ids@.len() ==> final(self).spec_nft_contract_address(
                            #[trigger] item_ids@[j],
                        ) == Some(nft_contract_addresses@[j])
                    &&& forall|id: MarketItemId|
                        !item_ids@.contains(id) ==> #[trigger] final(self).spec_owner_of(id) == old(self).spec_owner_of(id)
                    &&& forall|id: MarketItemId|
                        !item_ids@.contains(id) ==> #[trigger] final(self).spec_nft_contract_address(id) == old(self).spec_nft_contract_address(id)
                    &&& forall|id: MarketItemId|
                        #[trigger] final(self).spec_asking_price(id) == old(self).spec_asking_price(id)
                    &&& forall|id: MarketItemId|
                        #[trigger] final(self).spec_token_id(id) == old(self).spec_token_id(id)
                    &&& forall|id: MarketItemId|
                        #[trigger] final(self).spec_status(id) == old(self).spec_status(id)
                    &&& forall|o: AccountId, id: MarketItemId|
                        #[trigger] final(self).spec_allowance(o, id) == old(self).spec_allowance(
                            o,
                            id,
                        )
                    &&& final(self).spec_balance_of(recipient) == old(self).spec_balance_of(
                        recipient,
                    ) + item_ids@.len()
                    &&& forall|o: AccountId|
                        o != recipient ==> #[trigger] final(self).spec_balance_of(o) == old(self).spec_balance_of(o)
                    &&& forall|j: int|
                        0 <= j < item_ids@.len() ==> final(self).spec_item_at(
                            recipient,
                            ((old(self).spec_balance_of(recipient) + j) as u64),
                        ) == Some(#[trigger] item_ids@[j])
                    &&& forall|i: u64|
                        i < old(self).spec_balance_of(recipient) ==> #[trigger] final(self).spec_item_at(recipient, i) == old(self).spec_item_at(recipient, i)
                    &&& forall|o: AccountId, i: u64|
                        o != recipient ==> #[trigger] final(self).spec_item_at(o, i) == old(self).spec_item_at(o, i)
                    &&& final(self).spec_total_supply() == old(self).spec_total_supply()
                        + item_ids@.len()
                    &&& final(self).spec_market_journal() == old(self).spec_market_journal()
                    &&& final(self).spec_events().len() == old(self).spec_events().len() + 1
                    &&& (final(self).spec_events().last() matches MarketEvent::CreateItem {
                        recipient: r2,
                        item_ids: ids2,
                    } && r2 == recipient && ids2@ == item_ids@)
                    &&& final(self).spec_name() == old(self).spec_name()
                    &&& final(self).spec_symbol() == old(self).spec_symbol()
                    &&& final(self).spec_meta() == old(self).spec_meta()
                },
            },
    {
        if item_ids.len() != nft_contract_addresses.len() {
            return Err(Error::ArityMismatch);
        }
        if !self.ids_fresh_check(&item_ids) {
            return Err(Error::AlreadyExists);
        }

        let ghost pre = *self;
        let ghost ids = item_ids@;
        let ghost refs = nft_contract_addresses@;
        let ghost pre_bal = pre.spec_balance_of(recipient);

        proof {
            lemma_owned_index_dense(pre.owned_tokens, recipient);
            assert forall|t: MarketItemId|
                pre.owned_tokens.owned_items(recipient).contains(t)
                implies pre.owners@.dom().contains(t) by {
                assert(pre.owned_tokens.contains(recipient, t));
            }
            vstd::set_lib::lemma_len_subset(
                pre.owned_tokens.owned_items(recipient),
                pre.owners@.dom(),
            );
        }

        let n: usize = item_ids.len();
        let mut i: usize = 0;
        while i < n
            invariant
                n == ids.len(),
                refs.len() == n,
                i <= n,
                item_ids@ == ids,
                nft_contract_addresses@ == refs,
                distinct_seq(ids),
                forall|j: int| 0 <= j < ids.len() ==> (#[trigger] pre.spec_owner_of(ids[j])) is None,
                pre.wf(),
                pre_bal == pre.spec_balance_of(recipient),
                pre_bal + n <= u64::MAX,
                pre.spec_total_supply() + n <= u64::MAX,
                self.name == pre.name,
                self.symbol == pre.symbol,
                self.meta == pre.meta,
                self.events@ == pre.events@,
                self.total_supply == pre.total_supply,
                self.allowances@ == pre.allowances@,
                self.item_asking_prices@ == pre.item_asking_prices@,
                self.item_token_ids@ == pre.item_token_ids@,
                self.item_statuses@ == pre.item_statuses@,
                self.nft_market_item_ids@ == pre.nft_market_item_ids@,
                self.owners.inv(),
                self.nft_contract_addresses.inv(),
                self.item_asking_prices.inv(),
                self.item_token_ids.inv(),
                self.item_statuses.inv(),
                self.allowances.inv(),
                self.owned_tokens.wf(),
                self.owners@.dom().finite(),
                self.owners@.dom().len() == pre.owners@.dom().len() + i,
                forall|j: int|
                    0 <= j < i ==> self.owners@.dom().contains(#[trigger] ids[j])
                        && self.owners@[ids[j]] == recipient,
                forall|j: int|
                    0 <= j < i ==> self.nft_contract_addresses@.dom().contains(#[trigger] ids[j])
                        && self.nft_contract_addresses@[ids[j]] == refs[j],
                forall|id: MarketItemId|
                    !in_prefix(ids, i as int, id) ==> #[trigger] self.owners@.dom().contains(id)
                        == pre.owners@.dom().contains(id) && (pre.owners@.dom().contains(id)
                        ==> self.owners@[id] == pre.owners@[id]),
                forall|id: MarketItemId|
                    !in_prefix(ids, i as int, id) ==> #[trigger] self.nft_contract_addresses@.dom().contains(
                        id,
                    ) == pre.nft_contract_addresses@.dom().contains(id) && (
                    pre.nft_contract_addresses@.dom().contains(id)
                        ==> self.nft_contract_addresses@[id] == pre.nft_contract_addresses@[id]),
                self.owned_tokens.balance(recipient) == pre_bal + i,
                forall|o: AccountId|
                    o != recipient ==> #[trigger] self.owned_tokens.balance(o)
                        == pre.owned_tokens.balance(o),
                forall|j: int|
                    0 <= j < i ==> self.owned_tokens.item_at(recipient, ((pre_bal + j) as u64))
                        == Some(#[trigger] ids[j]),
                forall|j: int|
                    0 <= j < i ==> self.owned_tokens.index_of(recipient, #[trigger] ids[j])
                        == Some(((pre_bal + j) as u64)),
                forall|i2: u64|
                    i2 < pre_bal ==> #[trigger] self.owned_tokens.item_at(recipient, i2)
                        == pre.owned_tokens.item_at(recipient, i2),
                forall|o: AccountId, i2: u64|
                    o != recipient ==> #[trigger] self.owned_tokens.item_at(o, i2)
                        == pre.owned_tokens.item_at(o, i2),
                forall|o: AccountId, t: MarketItemId|
                    o != recipient ==> #[trigger] self.owned_tokens.index_of(o, t)
                        == pre.owned_tokens.index_of(o, t),
                forall|t: MarketItemId|
                    !in_prefix(ids, i as int, t) ==> #[trigger] self.owned_tokens.index_of(
                        recipient,
                        t,
                    ) == pre.owned_tokens.index_of(recipient, t),
            decreases n - i,
        {
            let id = item_ids[i];
            let ghost cur = *self;
            proof {
                assert(!in_prefix(ids, i as int, id)) by {
                    if in_prefix(ids, i as int, id) {
                        let j = choose|j: int| 0 <= j < i && (#[trigger] ids[j]) == id;
                        assert(ids[j] == ids[i as int]);
                    }
                }
                assert((pre.spec_owner_of(ids[i as int])) is None);
                assert(!self.owners@.dom().contains(id));
                assert(!self.owned_tokens.contains(recipient, id)) by {
                    if self.owned_tokens.index_of(recipient, id) is Some {
                        assert(pre.owned_tokens.contains(recipient, id));
                        assert(pre.owners@.dom().contains(id));
                    }
                }
            }
            self.nft_contract_addresses.set(&id, nft_contract_addresses[i]);
            self.owners.set(&id, recipient);
            self.owned_tokens.set_token(&recipient, &id);
            proof {
                assert forall|id2: MarketItemId|
                    !in_prefix(ids, (i + 1) as int, id2) implies !in_prefix(ids, i as int, id2)
                    && id2 != ids[i as int] by {
                    if in_prefix(ids, i as int, id2) {
                        let j = choose|j: int| 0 <= j < i && (#[trigger] ids[j]) == id2;
                        assert(0 <= j < i + 1 && ids[j] == id2);
                    }
                    if id2 == ids[i as int] {
                        assert(0 <= i < i + 1 && ids[i as int] == id2);
                    }
                }
                assert forall|id2: MarketItemId|
                    !in_prefix(ids, (i + 1) as int, id2) implies #[trigger] self.owners@.dom().contains(
                        id2,
                    ) == pre.owners@.dom().contains(id2) && (pre.owners@.dom().contains(id2)
                        ==> self.owners@[id2] == pre.owners@[id2]) by {
                    lemma_prefix_step(ids, i as int, id2);
                    assert(cur.owners@.dom().contains(id2) == pre.owners@.dom().contains(id2) && (
                    pre.owners@.dom().contains(id2) ==> cur.owners@[id2] == pre.owners@[id2]));
                }
                assert forall|id2: MarketItemId|
                    !in_prefix(ids, (i + 1) as int, id2) implies #[trigger] self.nft_contract_addresses@.dom().contains(
                        id2,
                    ) == pre.nft_contract_addresses@.dom().contains(id2) && (
                    pre.nft_contract_addresses@.dom().contains(id2)
                        ==> self.nft_contract_addresses@[id2]
                        == pre.nft_contract_addresses@[id2]) by {
                    lemma_prefix_step(ids, i as int, id2);
                    assert(cur.nft_contract_addresses@.dom().contains(id2)
                        == pre.nft_contract_addresses@.dom().contains(id2) && (
                    pre.nft_contract_addresses@.dom().contains(id2)
                        ==> cur.nft_contract_addresses@[id2]
                        == pre.nft_contract_addresses@[id2]));
                }
                assert forall|t2: MarketItemId|
                    !in_prefix(ids, (i + 1) as int, t2) implies #[trigger] self.owned_tokens.index_of(
                        recipient,
                        t2,
                    ) == pre.owned_tokens.index_of(recipient, t2) by {
                    lemma_prefix_step(ids, i as int, t2);
                    assert(cur.owned_tokens.index_of(recipient, t2)
                        == pre.owned_tokens.index_of(recipient, t2));
                    assert(t2 != ids[i as int]);
                }
            }
            i = i + 1;
        }
        let created: u64 = n as u64;
        self.total_supply = self.total_supply + created;
        let event_ids = Self::clone_ids(&item_ids);
        self.events.push(MarketEvent::CreateItem { recipient, item_ids: event_ids });
        proof {
            let post = *self;
            assert forall|id: MarketItemId| #[trigger]
                post.owners@.dom().contains(id) implies post.owned_tokens.contains(
                post.owners@[id],
                id,
            ) by {
                if in_prefix(ids, n as int, id) {
                    let j = choose|j: int| 0 <= j < n && (#[trigger] ids[j]) == id;
                    assert(post.owned_tokens.index_of(recipient, ids[j]) == Some(
                        ((pre_bal + j) as u64),
                    ));
                } else {
                    assert(pre.owners@.dom().contains(id));
                    assert(pre.owned_tokens.contains(pre.owners@[id], id));
                    if pre.owners@[id] == recipient {
                        assert(post.owned_tokens.index_of(recipient, id)
                            == pre.owned_tokens.index_of(recipient, id));
                    }
                }
            }
            assert forall|o: AccountId, id: MarketItemId| #[trigger]
                post.owned_tokens.contains(o, id) implies post.owners@.dom().contains(id)
                && post.owners@[id] == o by {
                if in_prefix(ids, n as int, id) {
                    let j = choose|j: int| 0 <= j < n && (#[trigger] ids[j]) == id;
                    if o == recipient {
                        assert(post.owners@.dom().contains(ids[j]) && post.owners@[ids[j]]
                            == recipient);
                    } else {
                        assert(post.owned_tokens.index_of(o, id) == pre.owned_tokens.index_of(
                            o,
                            id,
                        ));
                        assert(pre.owned_tokens.contains(o, id));
                        assert(pre.owners@.dom().contains(id));
                        assert((pre.spec_owner_of(ids[j])) is None);
                    }
                } else {
                    if o == recipient {
                        assert(post.owned_tokens.index_of(recipient, id)
                            == pre.owned_tokens.index_of(recipient, id));
                    } else {
                        assert(post.owned_tokens.index_of(o, id) == pre.owned_tokens.index_of(
                            o,
                            id,
                        ));
                    }
                    assert(pre.owned_tokens.contains(o, id));
                    assert(pre.owners@.dom().contains(id) && pre.owners@[id] == o);
                    assert(post.owners@.dom().contains(id));
                    assert(post.owners@[id] == pre.owners@[id]);
                }
            }
            assert forall|o: AccountId, id: MarketItemId| #[trigger]
                post.allowances@.dom().contains((o, id)) implies post.owners@.dom().contains(id)
                && post.owners@[id] == o by {
                assert(pre.allowances@.dom().contains((o, id)));
                assert(pre.owners@.dom().contains(id) && pre.owners@[id] == o);
                assert(!in_prefix(ids, n as int, id)) by {
                    if in_prefix(ids, n as int, id) {
                        let j = choose|j: int| 0 <= j < n && (#[trigger] ids[j]) == id;
                        assert((pre.spec_owner_of(ids[j])) is None);
                    }
                }
            }
            assert forall|id: MarketItemId| #[trigger]
                post.nft_contract_addresses@.dom().contains(id)
                implies post.owners@.dom().contains(id) by {
                if !in_prefix(ids, n as int, id) {
                    assert(pre.nft_contract_addresses@.dom().contains(id));
                }
            }
            assert forall|id: MarketItemId| #[trigger]
                post.owners@.dom().contains(id)
                implies post.nft_contract_addresses@.dom().contains(id) by {
                if !in_prefix(ids, n as int, id) {
                    assert(pre.owners@.dom().contains(id));
                }
            }
            assert forall|id: MarketItemId| #[trigger]
                post.item_statuses@.dom().contains(id) implies post.owners@.dom().contains(id) by {
                assert(pre.item_statuses@.dom().contains(id));
                assert(pre.owners@.dom().contains(id));
                assert(!in_prefix(ids, n as int, id)) by {
                    if in_prefix(ids, n as int, id) {
                        let j = choose|j: int| 0 <= j < n && (#[trigger] ids[j]) == id;
                        assert((pre.spec_owner_of(ids[j])) is None);
                    }
                }
            }
            assert forall|id: MarketItemId|
                !ids.contains(id) implies !in_prefix(ids, n as int, id) by {
                if in_prefix(ids, n as int, id) {
                    let j = choose|j: int| 0 <= j < n && (#[trigger] ids[j]) == id;
                    assert(ids[j] == id);
                }
            }
            assert forall|j: int|
                0 <= j < ids.len() implies in_prefix(ids, n as int, #[trigger] ids[j]) by {
            }
        }
        Ok(item_ids)
    }

    /// Every id of the batch is live and belongs to `owner`.
    pub open spec fn spec_all_owned_by(self, owner: AccountId, ids: Seq<MarketItemId>) -> bool {
        forall|j: int|
            0 <= j < ids.len() ==> (#[trigger] self.spec_owner_of(ids[j])) == Some(owner)
    }

    /// For every id of the batch, `owner` has approved `spender`.
    pub open spec fn spec_all_approved(
        self,
        owner: AccountId,
        spender: AccountId,
        ids: Seq<MarketItemId>,
    ) -> bool {
        forall|j: int|
            0 <= j < ids.len() ==> (#[trigger] self.spec_allowance(owner, ids[j])) == Some(spender)
    }

    /// The error that burning a batch returns, if any: every id must be
    /// live, belong to `owner` and occur only once, and a caller other than
    /// the owner must hold an approval for every id.
    pub open spec fn spec_burn_err(
        self,
        caller: AccountId,
        owner: AccountId,
        ids: Seq<MarketItemId>,
    ) -> Option<Error> {
        if !(distinct_seq(ids) && self.spec_all_owned_by(owner, ids)) {
            Some(Error::NotFound)
        } else if caller != owner && !self.spec_all_approved(owner, caller, ids) {
            Some(Error::PermissionDenied)
        } else {
            None
        }
    }

    /// Whether every id of the batch belongs to `owner` and none repeats.
    fn owned_batch_check(&self, owner: AccountId, item_ids: &Vec<MarketItemId>) -> (r: bool)
        requires
            self.wf(),
        ensures
            r == (distinct_seq(item_ids@) && self.spec_all_owned_by(owner, item_ids@)),
    {
        let n: usize = item_ids.len();
        let mut i: usize = 0;
        while i < n
            invariant
                self.wf(),
                n == item_ids@.len(),
                i <= n,
                forall|j: int|
                    0 <= j < i ==> (#[trigger] self.spec_owner_of(item_ids@[j])) == Some(owner),
                forall|a: int, b: int| 0 <= a < b < i ==> item_ids@[a] != item_ids@[b],
            decreases n - i,
        {
            let got = self.owners.get(&item_ids[i]);
            if !(got.is_some() && got.unwrap() == owner) {
                proof {
                    assert((self.spec_owner_of(item_ids@[i as int])) != Some(owner));
                }
                return false;
            }
            let mut j: usize = 0;
            while j < i
                invariant
                    n == item_ids@.len(),
                    j <= i < n,
                    forall|k: int| 0 <= k < j ==> item_ids@[k] != item_ids@[i as int],
                decreases i - j,
            {
                if item_ids[j] == item_ids[i] {
                    proof {
                        assert(0 <= j < i < item_ids@.len());
                        assert(item_ids@[j as int] == item_ids@[i as int]);
                        assert(!distinct_seq(item_ids@));
                    }
                    return false;
                }
                j = j + 1;
            }
            i = i + 1;
        }
        true
    }

    /// Whether `owner` has approved `spender` for every id of the batch.
    fn approved_batch_check(
        &self,
        owner: AccountId,
        spender: AccountId,
        item_ids: &Vec<MarketItemId>,
    ) -> (r: bool)
        requires
            self.wf(),
        ensures
            r == self.spec_all_approved(owner, spender, item_ids@),
    {
        let n: usize = item_ids.len();
        let mut i: usize = 0;
        while i < n
            invariant
                self.wf(),
                n == item_ids@.len(),
                i <= n,
                forall|j: int|
                    0 <= j < i ==> (#[trigger] self.spec_allowance(owner, item_ids@[j])) == Some(
                        spender,
                    ),
            decreases n - i,
        {
            let got = self.allowances.get(&owner, &item_ids[i]);
            if !(got.is_some() && got.unwrap() == spender) {
                proof {
                    assert((self.spec_allowance(owner, item_ids@[i as int])) != Some(spender));
                }
                return false;
            }
            i = i + 1;
        }
        true
    }

    /// Burns a batch of `owner`'s items: afterwards the ids have no owner,
    /// no sale record, no backing address and no approval, and the total
    /// supply has dropped by the batch size.  The caller must be the owner
    /// or hold an approval for every id.  The batch is all-or-nothing.
    #[verifier::rlimit(60)]
    #[verifier::spinoff_prover]
    pub fn burn(
        &mut self,
        caller: AccountId,
        owner: AccountId,
        item_ids: Vec<MarketItemId>,
    ) -> (r: Result<(), Error>)
        requires
            old(self).wf(),
        ensures
            final(self).wf(),
            match old(self).spec_burn_err(caller, owner, item_ids@) {
                Some(e) => r == Err::<(), Error>(e) && *final(self) == *old(self),
                None => {
                    &&& r == Ok::<(), Error>(())
                    &&& forall|j: int|
                        0 <= j < item_ids@.len() ==> final(self).spec_owner_of(
                            #[trigger] item_ids@[j],
                        ) is None
                    &&& forall|j: int|
                        0 <= j < item_ids@.len() ==> final(self).spec_nft_contract_address(
                            #[trigger] item_ids@[j],
                        ) is None
                    &&& forall|j: int|
                        0 <= j < item_ids@.len() ==> final(self).spec_asking_price(
                            #[trigger] item_ids@[j],
                        ) is None
                    &&& forall|j: int|
                        0 <= j < item_ids@.len() ==> final(self).spec_token_id(
                            #[trigger] item_ids@[j],
                        ) is None
                    &&& forall|j: int|
                        0 <= j < item_ids@.len() ==> final(self).spec_status(
                            #[trigger] item_ids@[j],
                        ) is None
                    &&& forall|j: int|
                        0 <= j < item_ids@.len() ==> final(self).spec_allowance(
                            owner,
                            #[trigger] item_ids@[j],
                        ) is None
                    &&& forall|id: MarketItemId|
                        !item_ids@.contains(id) ==> #[trigger] final(self).spec_owner_of(id) == old(self).spec_owner_of(id)
                    &&& forall|id: MarketItemId|
                        !item_ids@.contains(id) ==> #[trigger] final(self).spec_nft_contract_address(
                            id,
                        ) == old(self).spec_nft_contract_address(id)
                    &&& forall|id: MarketItemId|
                        !item_ids@.contains(id) ==> #[trigger] final(self).spec_asking_price(id)
                            == old(self).spec_asking_price(id)
                    &&& forall|id: MarketItemId|
                        !item_ids@.contains(id) ==> #[trigger] final(self).spec_token_id(id) == old(self).spec_token_id(id)
                    &&& forall|id: MarketItemId|
                        !item_ids@.contains(id) ==> #[trigger] final(self).spec_status(id) == old(self).spec_status(id)
                    &&& forall|o: AccountId, id: MarketItemId|
                        !(o == owner && item_ids@.contains(id)) ==> #[trigger] final(self).spec_allowance(o, id) == old(self).spec_allowance(o, id)
                    &&& final(self).spec_balance_of(owner) == old(self).spec_balance_of(owner)
                        - item_ids@.len()
                    &&& forall|o: AccountId|
                        o != owner ==> #[trigger] final(self).spec_balance_of(o) == old(self).spec_balance_of(o)
                    &&& forall|o: AccountId, i: u64|
                        o != owner ==> #[trigger] final(self).spec_item_at(o, i) == old(self).spec_item_at(o, i)
                    &&& final(self).spec_total_supply() == old(self).spec_total_supply()
                        - item_ids@.len()
                    &&& final(self).spec_market_journal() == old(self).spec_market_journal()
                    &&& final(self).spec_events().len() == old(self).spec_events().len() + 1
                    &&& (final(self).spec_events().last() matches MarketEvent::BurnItem {
                        owner: o2,
                        item_ids: ids2,
                    } && o2 == owner && ids2@ == item_ids@)
                    &&& final(self).spec_name() == old(self).spec_name()
                    &&& final(self).spec_symbol() == old(self).spec_symbol()
                    &&& final(self).spec_meta() == old(self).spec_meta()
                },
            },
    {
        if !self.owned_batch_check(owner, &item_ids) {
            return Err(Error::NotFound);
        }
        if caller != owner {
            if !self.approved_batch_check(owner, caller, &item_ids) {
                return Err(Error::PermissionDenied);
            }
        }

        let ghost pre = *self;
        let ghost ids = item_ids@;
        let ghost pre_bal = pre.spec_balance_of(owner);

        let n: usize = item_ids.len();
        let mut i: usize = 0;
        while i < n
            invariant
                n == ids.len(),
                i <= n,
                item_ids@ == ids,
                distinct_seq(ids),
                forall|j: int|
                    0 <= j < ids.len() ==> (#[trigger] pre.spec_owner_of(ids[j])) == Some(owner),
                pre.wf(),
                pre_bal == pre.spec_balance_of(owner),
                self.name == pre.name,
                self.symbol == pre.symbol,
                self.meta == pre.meta,
                self.events@ == pre.events@,
                self.total_supply == pre.total_supply,
                self.nft_market_item_ids@ == pre.nft_market_item_ids@,
                self.owners.inv(),
                self.nft_contract_addresses.inv(),
                self.item_asking_prices.inv(),
                self.item_token_ids.inv(),
                self.item_statuses.inv(),
                self.allowances.inv(),
                self.owned_tokens.wf(),
                self.owners@.dom().finite(),
                self.owners@.dom().len() == pre.owners@.dom().len() - i,
                forall|j: int| 0 <= j < i ==> !self.owners@.dom().contains(#[trigger] ids[j]),
                forall|j: int|
                    0 <= j < i ==> !self.nft_contract_addresses@.dom().contains(#[trigger] ids[j]),
                forall|j: int|
                    0 <= j < i ==> !self.item_asking_prices@.dom().contains(#[trigger] ids[j]),
                forall|j: int|
                    0 <= j < i ==> !self.item_token_ids@.dom().contains(#[trigger] ids[j]),
                forall|j: int|
                    0 <= j < i ==> !self.item_statuses@.dom().contains(#[trigger] ids[j]),
                forall|j: int|
                    0 <= j < i ==> !self.allowances@.dom().contains((owner, #[trigger] ids[j])),
                forall|j: int|
                    0 <= j < i ==> !(#[trigger] self.owned_tokens.contains(owner, ids[j])),
                forall|id: MarketItemId|
                    !in_prefix(ids, i as int, id) ==> #[trigger] self.owners@.dom().contains(id)
                        == pre.owners@.dom().contains(id) && (pre.owners@.dom().contains(id)
                        ==> self.owners@[id] == pre.owners@[id]),
                forall|id: MarketItemId|
                    !in_prefix(ids, i as int, id) ==> #[trigger] self.nft_contract_addresses@.dom().contains(
                        id,
                    ) == pre.nft_contract_addresses@.dom().contains(id) && (
                    pre.nft_contract_addresses@.dom().contains(id)
                        ==> self.nft_contract_addresses@[id] == pre.nft_contract_addresses@[id]),
                forall|id: MarketItemId|
                    !in_prefix(ids, i as int, id) ==> #[trigger] self.item_asking_prices@.dom().contains(
                        id,
                    ) == pre.item_asking_prices@.dom().contains(id) && (
                    pre.item_asking_prices@.dom().contains(id) ==> self.item_asking_prices@[id]
                        == pre.item_asking_prices@[id]),
                forall|id: MarketItemId|
                    !in_prefix(ids, i as int, id) ==> #[trigger] self.item_token_ids@.dom().contains(
                        id,
                    ) == pre.item_token_ids@.dom().contains(id) && (
                    pre.item_token_ids@.dom().contains(id) ==> self.item_token_ids@[id]
                        == pre.item_token_ids@[id]),
                forall|id: MarketItemId|
                    !in_prefix(ids, i as int, id) ==> #[trigger] self.item_statuses@.dom().contains(
                        id,
                    ) == pre.item_statuses@.dom().contains(id) && (
                    pre.item_statuses@.dom().contains(id) ==> self.item_statuses@[id]
                        == pre.item_statuses@[id]),
                forall|o: AccountId, id: MarketItemId|
                    o != owner ==> #[trigger] self.allowances@.dom().contains((o, id))
                        == pre.allowances@.dom().contains((o, id)) && (
                    pre.allowances@.dom().contains((o, id)) ==> self.allowances@[(o, id)]
                        == pre.allowances@[(o, id)]),
                forall|id: MarketItemId|
                    !in_prefix(ids, i as int, id) ==> #[trigger] self.allowances@.dom().contains(
                        (owner, id),
                    ) == pre.allowances@.dom().contains((owner, id)) && (
                    pre.allowances@.dom().contains((owner, id)) ==> self.allowances@[(owner, id)]
                        == pre.allowances@[(owner, id)]),
                self.owned_tokens.balance(owner) == pre_bal - i,
                forall|o: AccountId|
                    o != owner ==> #[trigger] self.owned_tokens.balance(o)
                        == pre.owned_tokens.balance(o),
                forall|o: AccountId, i2: u64|
                    o != owner ==> #[trigger] self.owned_tokens.item_at(o, i2)
                        == pre.owned_tokens.item_at(o, i2),
                forall|o: AccountId, t: MarketItemId|
                    o != owner ==> #[trigger] self.owned_tokens.index_of(o, t)
                        == pre.owned_tokens.index_of(o, t),
                forall|t: MarketItemId|
                    !in_prefix(ids, i as int, t) ==> (#[trigger] self.owned_tokens.contains(
                        owner,
                        t,
                    )) == pre.owned_tokens.contains(owner, t),
            decreases n - i,
        {
            let id = item_ids[i];
            let ghost cur = *self;
            proof {
                assert(!in_prefix(ids, i as int, id)) by {
                    if in_prefix(ids, i as int, id) {
                        let j = choose|j: int| 0 <= j < i && (#[trigger] ids[j]) == id;
                        assert(ids[j] == ids[i as int]);
                    }
                }
                assert((pre.spec_owner_of(ids[i as int])) == Some(owner));
                assert(pre.owners@.dom().contains(id));
                assert(pre.owned_tokens.contains(owner, id));
                assert(self.owned_tokens.contains(owner, id));
            }
            self.owned_tokens.remove_token(&owner, &id);
            self.owners.remove(&id);
            self.nft_contract_addresses.remove(&id);
            self.item_asking_prices.remove(&id);
            self.item_token_ids.remove(&id);
            self.item_statuses.remove(&id);
            self.allowances.remove(&owner, &id);
            proof {
                assert forall|id2: MarketItemId|
                    !in_prefix(ids, (i + 1) as int, id2) implies !in_prefix(ids, i as int, id2)
                    && id2 != ids[i as int] by {
                    if in_prefix(ids, i as int, id2) {
                        let j = choose|j: int| 0 <= j < i && (#[trigger] ids[j]) == id2;
                        assert(0 <= j < i + 1 && ids[j] == id2);
                    }
                    if id2 == ids[i as int] {
                        assert(0 <= i < i + 1 && ids[i as int] == id2);
                    }
                }
                assert forall|j: int|
                    0 <= j < i + 1 implies !(#[trigger] self.owned_tokens.contains(
                    owner,
                    ids[j],
                )) by {
                    if j < i {
                        assert(ids[j] != ids[i as int]);
                        assert(!cur.owned_tokens.contains(owner, ids[j]));
                        assert(cur.owned_tokens.index_of(owner, ids[j]) is None);
                        assert(self.owned_tokens.index_of(owner, ids[j]) is None);
                    }
                }
                assert forall|t2: MarketItemId|
                    !in_prefix(ids, (i + 1) as int, t2) implies (
                #[trigger] self.owned_tokens.contains(owner, t2)) == pre.owned_tokens.contains(
                    owner,
                    t2,
                ) by {
                    lemma_prefix_step(ids, i as int, t2);
                    assert(cur.owned_tokens.contains(owner, t2) == pre.owned_tokens.contains(
                        owner,
                        t2,
                    ));
                    assert(cur.owned_tokens.index_of(owner, t2) is Some
                        <==> self.owned_tokens.index_of(owner, t2) is Some);
                }
                assert forall|id2: MarketItemId|
                    !in_prefix(ids, (i + 1) as int, id2) implies #[trigger] self.owners@.dom().contains(
                        id2,
                    ) == pre.owners@.dom().contains(id2) && (pre.owners@.dom().contains(id2)
                        ==> self.owners@[id2] == pre.owners@[id2]) by {
                    lemma_prefix_step(ids, i as int, id2);
                    assert(cur.owners@.dom().contains(id2) == pre.owners@.dom().contains(id2) && (
                    pre.owners@.dom().contains(id2) ==> cur.owners@[id2] == pre.owners@[id2]));
                }
                assert forall|id2: MarketItemId|
                    !in_prefix(ids, (i + 1) as int, id2) implies #[trigger] self.nft_contract_addresses@.dom().contains(
                        id2,
                    ) == pre.nft_contract_addresses@.dom().contains(id2) && (
                    pre.nft_contract_addresses@.dom().contains(id2)
                        ==> self.nft_contract_addresses@[id2]
                        == pre.nft_contract_addresses@[id2]) by {
                    lemma_prefix_step(ids, i as int, id2);
                    assert(cur.nft_contract_addresses@.dom().contains(id2)
                        == pre.nft_contract_addresses@.dom().contains(id2) && (
                    pre.nft_contract_addresses@.dom().contains(id2)
                        ==> cur.nft_contract_addresses@[id2]
                        == pre.nft_contract_addresses@[id2]));
                }
                assert forall|id2: MarketItemId|
                    !in_prefix(ids, (i + 1) as int, id2) implies #[trigger] self.item_asking_prices@.dom().contains(
                        id2,
                    ) == pre.item_asking_prices@.dom().contains(id2) && (
                    pre.item_asking_prices@.dom().contains(id2) ==> self.item_asking_prices@[id2]
                        == pre.item_asking_prices@[id2]) by {
                    lemma_prefix_step(ids, i as int, id2);
                    assert(cur.item_asking_prices@.dom().contains(id2)
                        == pre.item_asking_prices@.dom().contains(id2) && (
                    pre.item_asking_prices@.dom().contains(id2) ==> cur.item_asking_prices@[id2]
                        == pre.item_asking_prices@[id2]));
                }
                assert forall|id2: MarketItemId|
                    !in_prefix(ids, (i + 1) as int, id2) implies #[trigger] self.item_token_ids@.dom().contains(
                        id2,
                    ) == pre.item_token_ids@.dom().contains(id2) && (
                    pre.item_token_ids@.dom().contains(id2) ==> self.item_token_ids@[id2]
                        == pre.item_token_ids@[id2]) by {
                    lemma_prefix_step(ids, i as int, id2);
                    assert(cur.item_token_ids@.dom().contains(id2)
                        == pre.item_token_ids@.dom().contains(id2) && (
                    pre.item_token_ids@.dom().contains(id2) ==> cur.item_token_ids@[id2]
                        == pre.item_token_ids@[id2]));
                }
                assert forall|id2: MarketItemId|
                    !in_prefix(ids, (i + 1) as int, id2) implies #[trigger] self.item_statuses@.dom().contains(
                        id2,
                    ) == pre.item_statuses@.dom().contains(id2) && (
                    pre.item_statuses@.dom().contains(id2) ==> self.item_statuses@[id2]
                        == pre.item_statuses@[id2]) by {
                    lemma_prefix_step(ids, i as int, id2);
                    assert(cur.item_statuses@.dom().contains(id2)
                        == pre.item_statuses@.dom().contains(id2) && (
                    pre.item_statuses@.dom().contains(id2) ==> cur.item_statuses@[id2]
                        == pre.item_statuses@[id2]));
                }
                assert forall|id2: MarketItemId|
                    !in_prefix(ids, (i + 1) as int, id2) implies #[trigger] self.allowances@.dom().contains(
                        (owner, id2),
                    ) == pre.allowances@.dom().contains((owner, id2)) && (
                    pre.allowances@.dom().contains((owner, id2)) ==> self.allowances@[
                        (owner, id2)
                    ] == pre.allowances@[(owner, id2)]) by {
                    lemma_prefix_step(ids, i as int, id2);
                    assert(cur.allowances@.dom().contains((owner, id2))
                        == pre.allowances@.dom().contains((owner, id2)));
                    assert(pre.allowances@.dom().contains((owner, id2)) ==> cur.allowances@[
                        (owner, id2)
                    ] == pre.allowances@[(owner, id2)]);
                    assert((owner, id2) != (owner, ids[i as int]));
                    assert(self.allowances@ == cur.allowances@.remove((owner, ids[i as int])));
                }
            }
            i = i + 1;
        }
        let burned: u64 = n as u64;
        proof {
            assert(self.owners@.dom().len() >= 0);
        }
        self.total_supply = self.total_supply - burned;
        let event_ids = Self::clone_ids(&item_ids);
        self.events.push(MarketEvent::BurnItem { owner, item_ids: event_ids });
        proof {
            let post = *self;
            assert forall|id: MarketItemId|
                !ids.contains(id) implies !in_prefix(ids, n as int, id) by {
                if in_prefix(ids, n as int, id) {
                    let j = choose|j: int| 0 <= j < n && (#[trigger] ids[j]) == id;
                    assert(ids[j] == id);
                }
            }
            assert forall|j: int|
                0 <= j < ids.len() implies in_prefix(ids, n as int, #[trigger] ids[j]) by {
            }
            assert forall|id: MarketItemId| #[trigger]
                post.owners@.dom().contains(id) implies post.owned_tokens.contains(
                post.owners@[id],
                id,
            ) by {
                assert(!in_prefix(ids, n as int, id));
                assert(pre.owners@.dom().contains(id) && post.owners@[id] == pre.owners@[id]);
                assert(pre.owned_tokens.contains(pre.owners@[id], id));
                if pre.owners@[id] == owner {
                    assert(post.owned_tokens.contains(owner, id) == pre.owned_tokens.contains(
                        owner,
                        id,
                    ));
                } else {
                    assert(post.owned_tokens.index_of(pre.owners@[id], id)
                        == pre.owned_tokens.index_of(pre.owners@[id], id));
                }
            }
            assert forall|o: AccountId, id: MarketItemId| #[trigger]
                post.owned_tokens.contains(o, id) implies post.owners@.dom().contains(id)
                && post.owners@[id] == o by {
                if o == owner {
                    assert(!in_prefix(ids, n as int, id)) by {
                        if in_prefix(ids, n as int, id) {
                            let j = choose|j: int| 0 <= j < n && (#[trigger] ids[j]) == id;
                            assert(!post.owned_tokens.contains(owner, ids[j]));
                        }
                    }
                    assert(post.owned_tokens.contains(owner, id) == pre.owned_tokens.contains(
                        owner,
                        id,
                    ));
                    assert(pre.owners@.dom().contains(id) && pre.owners@[id] == owner);
                    assert(post.owners@.dom().contains(id));
                    assert(post.owners@[id] == pre.owners@[id]);
                } else {
                    assert(post.owned_tokens.index_of(o, id) == pre.owned_tokens.index_of(o, id));
                    assert(pre.owned_tokens.contains(o, id));
                    assert(pre.owners@.dom().contains(id) && pre.owners@[id] == o);
                    assert(!in_prefix(ids, n as int, id)) by {
                        if in_prefix(ids, n as int, id) {
                            let j = choose|j: int| 0 <= j < n && (#[trigger] ids[j]) == id;
                            assert((pre.spec_owner_of(ids[j])) == Some(owner));
                        }
                    }
                    assert(post.owners@.dom().contains(id));
                    assert(post.owners@[id] == pre.owners@[id]);
                }
            }
            assert forall|o: AccountId, id: MarketItemId| #[trigger]
                post.allowances@.dom().contains((o, id)) implies post.owners@.dom().contains(id)
                && post.owners@[id] == o by {
                if o == owner {
                    assert(!in_prefix(ids, n as int, id)) by {
                        if in_prefix(ids, n as int, id) {
                            let j = choose|j: int| 0 <= j < n && (#[trigger] ids[j]) == id;
                            assert(!post.allowances@.dom().contains((owner, ids[j])));
                        }
                    }
                    assert(post.allowances@.dom().contains((owner, id))
                        == pre.allowances@.dom().contains((owner, id)));
                    assert(pre.allowances@.dom().contains((owner, id)));
                    assert(pre.owners@.dom().contains(id) && pre.owners@[id] == owner);
                    assert(post.owners@.dom().contains(id));
                    assert(post.owners@[id] == pre.owners@[id]);
                } else {
                    assert(post.allowances@.dom().contains((o, id))
                        == pre.allowances@.dom().contains((o, id)));
                    assert(pre.allowances@.dom().contains((o, id)));
                    assert(pre.owners@.dom().contains(id) && pre.owners@[id] == o);
                    assert(!in_prefix(ids, n as int, id)) by {
                        if in_prefix(ids, n as int, id) {
                            let j = choose|j: int| 0 <= j < n && (#[trigger] ids[j]) == id;
                            assert((pre.spec_owner_of(ids[j])) == Some(owner));
                        }
                    }
                    assert(post.owners@.dom().contains(id));
                    assert(post.owners@[id] == pre.owners@[id]);
                }
            }
            assert forall|id: MarketItemId| #[trigger]
                post.nft_contract_addresses@.dom().contains(id)
                implies post.owners@.dom().contains(id) by {
                assert(!in_prefix(ids, n as int, id));
                assert(pre.nft_contract_addresses@.dom().contains(id));
            }
            assert forall|id: MarketItemId| #[trigger]
                post.owners@.dom().contains(id)
                implies post.nft_contract_addresses@.dom().contains(id) by {
                assert(!in_prefix(ids, n as int, id));
                assert(pre.owners@.dom().contains(id));
            }
            assert forall|id: MarketItemId| #[trigger]
                post.item_statuses@.dom().contains(id) implies post.owners@.dom().contains(id) by {
                assert(!in_prefix(ids, n as int, id));
                assert(pre.item_statuses@.dom().contains(id));
            }
            assert forall|id: MarketItemId|
                post.item_asking_prices@.dom().contains(id) <==> #[trigger]
                post.item_statuses@.dom().contains(id) by {
                if !in_prefix(ids, n as int, id) {
                    assert(post.item_asking_prices@.dom().contains(id)
                        == pre.item_asking_prices@.dom().contains(id));
                    assert(post.item_statuses@.dom().contains(id)
                        == pre.item_statuses@.dom().contains(id));
                }
            }
            assert forall|id: MarketItemId|
                post.item_token_ids@.dom().contains(id) <==> #[trigger]
                post.item_statuses@.dom().contains(id) by {
                if !in_prefix(ids, n as int, id) {
                    assert(post.item_token_ids@.dom().contains(id)
                        == pre.item_token_ids@.dom().contains(id));
                    assert(post.item_statuses@.dom().contains(id)
                        == pre.item_statuses@.dom().contains(id));
                }
            }
        }
        Ok(())
    }

    /// Every id of the batch is live.
    pub open spec fn spec_all_live(self, ids: Seq<MarketItemId>) -> bool {
        forall|j: int| 0 <= j < ids.len() ==> self.spec_live(#[trigger] ids[j])
    }

    /// The error that approving a batch returns, if any: every id must be
    /// live and belong to the caller.
    pub open spec fn spec_approve_err(
        self,
        caller: AccountId,
        ids: Seq<MarketItemId>,
    ) -> Option<Error> {
        if !self.spec_all_live(ids) {
            Some(Error::NotFound)
        } else if !self.spec_all_owned_by(caller, ids) {
            Some(Error::PermissionDenied)
        } else {
            None
        }
    }

    /// Approves `spender` to move each id of the batch on the caller's
    /// behalf, replacing any earlier approval; only one spender at a time
    /// holds an approval for an item.  The caller must own every id.
    #[verifier::rlimit(60)]
    #[verifier::spinoff_prover]
    pub fn approve(
        &mut self,
        caller: AccountId,
        spender: AccountId,
        item_ids: Vec<MarketItemId>,
    ) -> (r: Result<(), Error>)
        requires
            old(self).wf(),
        ensures
            final(self).wf(),
            match old(self).spec_approve_err(caller, item_ids@) {
                Some(e) => r == Err::<(), Error>(e) && *final(self) == *old(self),
                None => {
                    &&& r == Ok::<(), Error>(())
                    &&& forall|j: int|
                        0 <= j < item_ids@.len() ==> final(self).spec_allowance(
                            caller,
                            #[trigger] item_ids@[j],
                        ) == Some(spender)
                    &&& forall|o: AccountId, id: MarketItemId|
                        !(o == caller && item_ids@.contains(id)) ==> #[trigger] final(self).spec_allowance(o, id) == old(self).spec_allowance(o, id)
                    &&& forall|id: MarketItemId|
                        #[trigger] final(self).spec_owner_of(id) == old(self).spec_owner_of(id)
                    &&& forall|id: MarketItemId|
                        #[trigger] final(self).spec_nft_contract_address(id) == old(self).spec_nft_contract_address(id)
                    &&& forall|id: MarketItemId|
                        #[trigger] final(self).spec_asking_price(id) == old(self).spec_asking_price(id)
                    &&& forall|id: MarketItemId|
                        #[trigger] final(self).spec_token_id(id) == old(self).spec_token_id(id)
                    &&& forall|id: MarketItemId|
                        #[trigger] final(self).spec_status(id) == old(self).spec_status(id)
                    &&& forall|o: AccountId|
                        #[trigger] final(self).spec_balance_of(o) == old(self).spec_balance_of(o)
                    &&& forall|o: AccountId, i: u64|
                        #[trigger] final(self).spec_item_at(o, i) == old(self).spec_item_at(o, i)
                    &&& final(self).spec_total_supply() == old(self).spec_total_supply()
                    &&& final(self).spec_market_journal() == old(self).spec_market_journal()
                    &&& final(self).spec_events().len() == old(self).spec_events().len() + 1
                    &&& (final(self).spec_events().last() matches MarketEvent::ApproveItem {
                        owner: o2,
                        spender: s2,
                        item_ids: ids2,
                    } && o2 == caller && s2 == spender && ids2@ == item_ids@)
                    &&& final(self).spec_name() == old(self).spec_name()
                    &&& final(self).spec_symbol() == old(self).spec_symbol()
                    &&& final(self).spec_meta() == old(self).spec_meta()
                },
            },
    {
        let n: usize = item_ids.len();
        let mut i: usize = 0;
        while i < n
            invariant
                self == old(self),
                old(self).wf(),
                n == item_ids@.len(),
                i <= n,
                forall|j: int|
                    0 <= j < i ==> (#[trigger] self.spec_owner_of(item_ids@[j])) is Some,
            decreases n - i,
        {
            if self.owners.get(&item_ids[i]).is_none() {
                proof {
                    assert((self.spec_owner_of(item_ids@[i as int])) is None);
                }
                return Err(Error::NotFound);
            }
            i = i + 1;
        }
        if !self.owned_batch_check_owners_only(caller, &item_ids) {
            return Err(Error::PermissionDenied);
        }

        let ghost pre = *self;
        let ghost ids = item_ids@;

        let mut k: usize = 0;
        while k < n
            invariant
                n == ids.len(),
                k <= n,
                item_ids@ == ids,
                pre.wf(),
                forall|j: int|
                    0 <= j < ids.len() ==> (#[trigger] pre.spec_owner_of(ids[j])) == Some(caller),
                self.name == pre.name,
                self.symbol == pre.symbol,
                self.meta == pre.meta,
                self.events@ == pre.events@,
                self.total_supply == pre.total_supply,
                self.nft_market_item_ids@ == pre.nft_market_item_ids@,
                self.owners == pre.owners,
                self.owned_tokens == pre.owned_tokens,
                self.nft_contract_addresses == pre.nft_contract_addresses,
                self.item_asking_prices == pre.item_asking_prices,
                self.item_token_ids == pre.item_token_ids,
                self.item_statuses == pre.item_statuses,
                self.allowances.inv(),
                forall|j: int|
                    0 <= j < k ==> self.allowances@.dom().contains((caller, #[trigger] ids[j]))
                        && self.allowances@[(caller, ids[j])] == spender,
                forall|o: AccountId, id: MarketItemId|
                    !(o == caller && in_prefix(ids, k as int, id)) ==> #[trigger] self.allowances@.dom().contains(
                        (o, id),
                    ) == pre.allowances@.dom().contains((o, id)) && (
                    pre.allowances@.dom().contains((o, id)) ==> self.allowances@[(o, id)]
                        == pre.allowances@[(o, id)]),
            decreases n - k,
        {
            let id = item_ids[k];
            let ghost cur = *self;
            self.allowances.set(&caller, &id, spender);
            proof {
                assert forall|o: AccountId, id2: MarketItemId|
                    !(o == caller && in_prefix(ids, (k + 1) as int, id2)) implies #[trigger] self.allowances@.dom().contains(
                        (o, id2),
                    ) == pre.allowances@.dom().contains((o, id2)) && (
                    pre.allowances@.dom().contains((o, id2)) ==> self.allowances@[(o, id2)]
                        == pre.allowances@[(o, id2)]) by {
                    if o == caller {
                        lemma_prefix_step(ids, k as int, id2);
                        assert((o, id2) != (caller, ids[k as int]));
                    } else {
                        assert((o, id2) != (caller, ids[k as int]));
                    }
                    assert(cur.allowances@.dom().contains((o, id2))
                        == pre.allowances@.dom().contains((o, id2)));
                    assert(pre.allowances@.dom().contains((o, id2)) ==> cur.allowances@[(o, id2)]
                        == pre.allowances@[(o, id2)]);
                }
            }
            k = k + 1;
        }
        let event_ids = Self::clone_ids(&item_ids);
        self.events.push(
            MarketEvent::ApproveItem { owner: caller, spender, item_ids: event_ids },
        );
        proof {
            let post = *self;
            assert forall|id: MarketItemId|
                !ids.contains(id) implies !in_prefix(ids, n as int, id) by {
                if in_prefix(ids, n as int, id) {
                    let j = choose|j: int| 0 <= j < n && (#[trigger] ids[j]) == id;
                    assert(ids[j] == id);
                }
            }
            assert forall|o: AccountId, id: MarketItemId| #[trigger]
                post.allowances@.dom().contains((o, id)) implies post.owners@.dom().contains(id)
                && post.owners@[id] == o by {
                if o == caller && in_prefix(ids, n as int, id) {
                    let j = choose|j: int| 0 <= j < n && (#[trigger] ids[j]) == id;
                    assert((pre.spec_owner_of(ids[j])) == Some(caller));
                } else {
                    assert(pre.allowances@.dom().contains((o, id)));
                }
            }
        }
        Ok(())
    }

    /// The error that transferring a batch returns, if any: every id must
    /// be live (`NotFound`); every id must belong to `owner`, occur only
    /// once, and a caller other than the owner must hold an approval for
    /// every id (`PermissionDenied`).
    pub open spec fn spec_transfer_err(
        self,
        caller: AccountId,
        owner: AccountId,
        ids: Seq<MarketItemId>,
    ) -> Option<Error> {
        if !self.spec_all_live(ids) {
            Some(Error::NotFound)
        } else if !(self.spec_all_owned_by(owner, ids) && distinct_seq(ids)) {
            Some(Error::PermissionDenied)
        } else if caller != owner && !self.spec_all_approved(owner, caller, ids) {
            Some(Error::PermissionDenied)
        } else {
            None
        }
    }

    /// Moves a batch of `owner`'s items to `recipient`.  The caller must be
    /// the owner or hold an approval for every id; each approval is
    /// consumed by the move.  Sale records are untouched: a transfer
    /// changes neither status nor price.  The batch is all-or-nothing.
    #[verifier::rlimit(60)]
    #[verifier::spinoff_prover]
    pub fn transfer_from(
        &mut self,
        caller: AccountId,
        owner: AccountId,
        recipient: AccountId,
        item_ids: Vec<MarketItemId>,
    ) -> (r: Result<(), Error>)
        requires
            old(self).wf(),
        ensures
            final(self).wf(),
            match old(self).spec_transfer_err(caller, owner, item_ids@) {
                Some(e) => r == Err::<(), Error>(e) && *final(self) == *old(self),
                None => {
                    &&& r == Ok::<(), Error>(())
                    &&& forall|j: int|
                        0 <= j < item_ids@.len() ==> final(self).spec_owner_of(
                            #[trigger] item_ids@[j],
                        ) == Some(recipient)
                    &&& forall|j: int|
                        0 <= j < item_ids@.len() ==> final(self).spec_allowance(
                            owner,
                            #[trigger] item_ids@[j],
                        ) is None
                    &&& forall|id: MarketItemId|
                        !item_ids@.contains(id) ==> #[trigger] final(self).spec_owner_of(id) == old(self).spec_owner_of(id)
                    &&& forall|o: AccountId, id: MarketItemId|
                        !(o == owner && item_ids@.contains(id)) ==> #[trigger] final(self).spec_allowance(o, id) == old(self).spec_allowance(o, id)
                    &&& forall|id: MarketItemId|
                        #[trigger] final(self).spec_nft_contract_address(id) == old(self).spec_nft_contract_address(id)
                    &&& forall|id: MarketItemId|
                        #[trigger] final(self).spec_asking_price(id) == old(self).spec_asking_price(id)
                    &&& forall|id: MarketItemId|
                        #[trigger] final(self).spec_token_id(id) == old(self).spec_token_id(id)
                    &&& forall|id: MarketItemId|
                        #[trigger] final(self).spec_status(id) == old(self).spec_status(id)
                    &&& final(self).spec_balance_of(owner) == (if recipient == owner {
                        old(self).spec_balance_of(owner) as int
                    } else {
                        old(self).spec_balance_of(owner) - item_ids@.len()
                    })
                    &&& final(self).spec_balance_of(recipient) == (if recipient == owner {
                        old(self).spec_balance_of(owner) as int
                    } else {
                        old(self).spec_balance_of(recipient) + item_ids@.len()
                    })
                    &&& forall|o: AccountId|
                        o != owner && o != recipient ==> #[trigger] final(self).spec_balance_of(o)
                            == old(self).spec_balance_of(o)
                    &&& forall|o: AccountId, i: u64|
                        o != owner && o != recipient ==> #[trigger] final(self).spec_item_at(o, i)
                            == old(self).spec_item_at(o, i)
                    &&& final(self).spec_total_supply() == old(self).spec_total_supply()
                    &&& final(self).spec_market_journal() == old(self).spec_market_journal()
                    &&& final(self).spec_events().len() == old(self).spec_events().len() + 1
                    &&& (final(self).spec_events().last() matches MarketEvent::TransferItem {
                        owner: o2,
                        recipient: r2,
                        item_ids: ids2,
                    } && o2 == owner && r2 == recipient && ids2@ == item_ids@)
                    &&& final(self).spec_name() == old(self).spec_name()
                    &&& final(self).spec_symbol() == old(self).spec_symbol()
                    &&& final(self).spec_meta() == old(self).spec_meta()
                },
            },
    {
        let n: usize = item_ids.len();
        let mut i: usize = 0;
        while i < n
            invariant
                self == old(self),
                old(self).wf(),
                n == item_ids@.len(),
                i <= n,
                forall|j: int|
                    0 <= j < i ==> (#[trigger] self.spec_owner_of(item_ids@[j])) is Some,
            decreases n - i,
        {
            if self.owners.get(&item_ids[i]).is_none() {
                proof {
                    assert((self.spec_owner_of(item_ids@[i as int])) is None);
                }
                return Err(Error::NotFound);
            }
            i = i + 1;
        }
        if !self.owned_batch_check(owner, &item_ids) {
            return Err(Error::PermissionDenied);
        }
        if caller != owner {
            if !self.approved_batch_check(owner, caller, &item_ids) {
                return Err(Error::PermissionDenied);
            }
        }

        let ghost pre = *self;
        let ghost ids = item_ids@;
        let ghost pre_bal_o = pre.spec_balance_of(owner);
        let ghost pre_bal_r = pre.spec_balance_of(recipient);

        proof {
            lemma_owned_index_dense(pre.owned_tokens, owner);
            lemma_owned_index_dense(pre.owned_tokens, recipient);
            let oa = pre.owned_tokens.owned_items(owner);
            let ob = pre.owned_tokens.owned_items(recipient);
            assert forall|t: MarketItemId| oa.contains(t) implies pre.owners@.dom().contains(t) by {
                assert(pre.owned_tokens.contains(owner, t));
            }
            assert forall|t: MarketItemId| ob.contains(t) implies pre.owners@.dom().contains(t) by {
                assert(pre.owned_tokens.contains(recipient, t));
            }
            if recipient != owner {
                assert(oa.disjoint(ob)) by {
                    assert forall|t: MarketItemId| oa.contains(t) implies !ob.contains(t) by {
                        assert(pre.owned_tokens.contains(owner, t));
                        if ob.contains(t) {
                            assert(pre.owned_tokens.contains(recipient, t));
                        }
                    }
                }
                vstd::set_lib::lemma_set_disjoint_lens(oa, ob);
                assert forall|t: MarketItemId| (oa + ob).contains(t)
                    implies pre.owners@.dom().contains(t) by {
                }
                vstd::set_lib::lemma_len_subset(oa + ob, pre.owners@.dom());
            }
            // the batch fits inside the owner's items
            let idset = ids.to_set();
            ids.unique_seq_to_set();
            assert forall|t: MarketItemId| idset.contains(t) implies oa.contains(t) by {
                let j = choose|j: int| 0 <= j < ids.len() && ids[j] == t;
                assert((pre.spec_owner_of(ids[j])) == Some(owner));
                assert(pre.owners@.dom().contains(t));
                assert(pre.owned_tokens.contains(pre.owners@[t], t));
            }
            vstd::seq_lib::seq_to_set_is_finite(ids);
            vstd::set_lib::lemma_len_subset(idset, oa);
            assert forall|j: int|
                0 <= j < ids.len() implies pre.owned_tokens.contains(
                owner,
                #[trigger] ids[j],
            ) by {
                assert((pre.spec_owner_of(ids[j])) == Some(owner));
                assert(pre.owners@.dom().contains(ids[j]));
                assert(pre.owned_tokens.contains(pre.owners@[ids[j]], ids[j]));
            }
        }

        let mut k: usize = 0;
        while k < n
            invariant
                n == ids.len(),
                k <= n,
                item_ids@ == ids,
                distinct_seq(ids),
                pre.wf(),
                forall|j: int|
                    0 <= j < ids.len() ==> (#[trigger] pre.spec_owner_of(ids[j])) == Some(owner),
                pre_bal_o == pre.spec_balance_of(owner),
                pre_bal_r == pre.spec_balance_of(recipient),
                n <= pre_bal_o,
                recipient != owner ==> pre_bal_o + pre_bal_r <= pre.spec_total_supply(),
                pre.spec_total_supply() <= u64::MAX,
                self.name == pre.name,
                self.symbol == pre.symbol,
                self.meta == pre.meta,
                self.events@ == pre.events@,
                self.total_supply == pre.total_supply,
                self.nft_market_item_ids == pre.nft_market_item_ids,
                self.nft_contract_addresses == pre.nft_contract_addresses,
                self.item_asking_prices == pre.item_asking_prices,
                self.item_token_ids == pre.item_token_ids,
                self.item_statuses == pre.item_statuses,
                self.owners.inv(),
                self.allowances.inv(),
                self.owned_tokens.wf(),
                self.owners@.dom() == pre.owners@.dom(),
                self.owners@.dom().finite(),
                self.owners@.dom().len() == pre.owners@.dom().len(),
                forall|j: int|
                    0 <= j < k ==> self.owners@.dom().contains(#[trigger] ids[j])
                        && self.owners@[ids[j]] == recipient,
                forall|id: MarketItemId|
                    !in_prefix(ids, k as int, id) && pre.owners@.dom().contains(id)
                        ==> #[trigger] self.owners@[id] == pre.owners@[id],
                forall|j: int|
                    0 <= j < k ==> !self.allowances@.dom().contains((owner, #[trigger] ids[j])),
                forall|o: AccountId, id: MarketItemId|
                    !(o == owner && in_prefix(ids, k as int, id)) ==> #[trigger] self.allowances@.dom().contains(
                        (o, id),
                    ) == pre.allowances@.dom().contains((o, id)) && (
                    pre.allowances@.dom().contains((o, id)) ==> self.allowances@[(o, id)]
                        == pre.allowances@[(o, id)]),
                self.owned_tokens.balance(owner) == (if recipient == owner {
                    pre_bal_o as int
                } else {
                    pre_bal_o - k
                }),
                self.owned_tokens.balance(recipient) == (if recipient == owner {
                    pre_bal_o as int
                } else {
                    pre_bal_r + k
                }),
                forall|o: AccountId|
                    o != owner && o != recipient ==> #[trigger] self.owned_tokens.balance(o)
                        == pre.owned_tokens.balance(o),
                forall|o: AccountId, i2: u64|
                    o != owner && o != recipient ==> #[trigger] self.owned_tokens.item_at(o, i2)
                        == pre.owned_tokens.item_at(o, i2),
                forall|o: AccountId, t: MarketItemId|
                    o != owner && o != recipient ==> #[trigger] self.owned_tokens.index_of(o, t)
                        == pre.owned_tokens.index_of(o, t),
                forall|j: int|
                    0 <= j < k ==> (#[trigger] self.owned_tokens.contains(recipient, ids[j])),
                forall|j: int|
                    recipient != owner && 0 <= j < k ==> !(#[trigger] self.owned_tokens.contains(
                        owner,
                        ids[j],
                    )),
                forall|j: int|
                    k <= j < n ==> (#[trigger] self.owned_tokens.contains(owner, ids[j])),
                forall|t: MarketItemId|
                    !in_prefix(ids, k as int, t) ==> (#[trigger] self.owned_tokens.contains(
                        owner,
                        t,
                    )) == pre.owned_tokens.contains(owner, t),
                forall|t: MarketItemId|
                    !in_prefix(ids, k as int, t) ==> (#[trigger] self.owned_tokens.contains(
                        recipient,
                        t,
                    )) == pre.owned_tokens.contains(recipient, t),
            decreases n - k,
        {
            let id = item_ids[k];
            let ghost cur = *self;
            proof {
                assert(!in_prefix(ids, k as int, id)) by {
                    if in_prefix(ids, k as int, id) {
                        let j = choose|j: int| 0 <= j < k && (#[trigger] ids[j]) == id;
                        assert(ids[j] == ids[k as int]);
                    }
                }
                assert(self.owned_tokens.contains(owner, id));
                if recipient != owner {
                    assert(!self.owned_tokens.contains(recipient, id)) by {
                        if self.owned_tokens.contains(recipient, id) {
                            assert(pre.owned_tokens.contains(recipient, id));
                            assert(pre.owners@.dom().contains(id) && pre.owners@[id]
                                == recipient);
                            assert((pre.spec_owner_of(ids[k as int])) == Some(owner));
                        }
                    }
                }
            }
            self.owned_tokens.remove_token(&owner, &id);
            self.owned_tokens.set_token(&recipient, &id);
            self.owners.set(&id, recipient);
            self.allowances.remove(&owner, &id);
            proof {
                assert(self.owners@.dom() =~= pre.owners@.dom()) by {
                    assert(cur.owners@.dom() == pre.owners@.dom());
                    assert(pre.owners@.dom().contains(ids[k as int]));
                }
                assert forall|id2: MarketItemId|
                    !in_prefix(ids, (k + 1) as int, id2) && pre.owners@.dom().contains(id2)
                    implies #[trigger] self.owners@[id2] == pre.owners@[id2] by {
                    lemma_prefix_step(ids, k as int, id2);
                }
                assert forall|j: int|
                    0 <= j < k + 1 implies !self.allowances@.dom().contains(
                    (owner, #[trigger] ids[j]),
                ) by {
                    if j < k {
                        assert(!cur.allowances@.dom().contains((owner, ids[j])));
                        assert(ids[j] != ids[k as int]);
                    }
                }
                assert forall|o: AccountId, id2: MarketItemId|
                    !(o == owner && in_prefix(ids, (k + 1) as int, id2)) implies #[trigger] self.allowances@.dom().contains(
                        (o, id2),
                    ) == pre.allowances@.dom().contains((o, id2)) && (
                    pre.allowances@.dom().contains((o, id2)) ==> self.allowances@[(o, id2)]
                        == pre.allowances@[(o, id2)]) by {
                    if o == owner {
                        lemma_prefix_step(ids, k as int, id2);
                    }
                    assert(cur.allowances@.dom().contains((o, id2))
                        == pre.allowances@.dom().contains((o, id2)));
                    assert(pre.allowances@.dom().contains((o, id2)) ==> cur.allowances@[(o, id2)]
                        == pre.allowances@[(o, id2)]);
                    if (o, id2) != (owner, ids[k as int]) {
                    }
                }
                assert forall|j: int|
                    0 <= j < k + 1 implies (#[trigger] self.owned_tokens.contains(
                    recipient,
                    ids[j],
                )) by {
                    if j < k {
                        assert(ids[j] != ids[k as int]);
                        assert(cur.owned_tokens.contains(recipient, ids[j]));
                    }
                }
                assert forall|j: int|
                    recipient != owner && 0 <= j < k + 1 implies !(
                #[trigger] self.owned_tokens.contains(owner, ids[j])) by {
                    if j < k {
                        assert(ids[j] != ids[k as int]);
                        assert(!cur.owned_tokens.contains(owner, ids[j]));
                        assert(cur.owned_tokens.index_of(owner, ids[j]) is None);
                    }
                }
                assert forall|j: int|
                    k + 1 <= j < n implies (#[trigger] self.owned_tokens.contains(
                    owner,
                    ids[j],
                )) by {
                    assert(ids[j] != ids[k as int]);
                    assert(cur.owned_tokens.contains(owner, ids[j]));
                    assert(cur.owned_tokens.index_of(owner, ids[j]) is Some);
                }
                assert forall|t2: MarketItemId|
                    !in_prefix(ids, (k + 1) as int, t2) implies (
                #[trigger] self.owned_tokens.contains(owner, t2)) == pre.owned_tokens.contains(
                    owner,
                    t2,
                ) && (#[trigger] self.owned_tokens.contains(recipient, t2))
                    == pre.owned_tokens.contains(recipient, t2) by {
                    lemma_prefix_step(ids, k as int, t2);
                    assert(cur.owned_tokens.contains(owner, t2) == pre.owned_tokens.contains(
                        owner,
                        t2,
                    ));
                    assert(cur.owned_tokens.contains(recipient, t2) == pre.owned_tokens.contains(
                        recipient,
                        t2,
                    ));
                }
            }
            k = k + 1;
        }
        let event_ids = Self::clone_ids(&item_ids);
        self.events.push(
            MarketEvent::TransferItem { owner, recipient, item_ids: event_ids },
        );
        proof {
            let post = *self;
            assert forall|id: MarketItemId|
                !ids.contains(id) implies !in_prefix(ids, n as int, id) by {
                if in_prefix(ids, n as int, id) {
                    let j = choose|j: int| 0 <= j < n && (#[trigger] ids[j]) == id;
                    assert(ids[j] == id);
                }
            }
            assert forall|j: int|
                0 <= j < ids.len() implies in_prefix(ids, n as int, #[trigger] ids[j]) by {
            }
            assert forall|id: MarketItemId| #[trigger]
                post.owners@.dom().contains(id) implies post.owned_tokens.contains(
                post.owners@[id],
                id,
            ) by {
                if in_prefix(ids, n as int, id) {
                    let j = choose|j: int| 0 <= j < n && (#[trigger] ids[j]) == id;
                    assert(post.owners@[ids[j]] == recipient);
                    assert(post.owned_tokens.contains(recipient, ids[j]));
                } else {
                    assert(pre.owners@.dom().contains(id));
                    assert(post.owners@[id] == pre.owners@[id]);
                    assert(pre.owned_tokens.contains(pre.owners@[id], id));
                    if pre.owners@[id] == owner {
                        assert(post.owned_tokens.contains(owner, id) == pre.owned_tokens.contains(
                            owner,
                            id,
                        ));
                    } else if pre.owners@[id] == recipient {
                        assert(post.owned_tokens.contains(recipient, id)
                            == pre.owned_tokens.contains(recipient, id));
                    } else {
                        assert(post.owned_tokens.index_of(pre.owners@[id], id)
                            == pre.owned_tokens.index_of(pre.owners@[id], id));
                    }
                }
            }
            assert forall|o: AccountId, id: MarketItemId| #[trigger]
                post.owned_tokens.contains(o, id) implies post.owners@.dom().contains(id)
                && post.owners@[id] == o by {
                if in_prefix(ids, n as int, id) {
                    let j = choose|j: int| 0 <= j < n && (#[trigger] ids[j]) == id;
                    assert(post.owners@.dom().contains(ids[j]) && post.owners@[ids[j]]
                        == recipient);
                    if o != recipient {
                        if o == owner {
                            assert(!post.owned_tokens.contains(owner, ids[j]));
                        } else {
                            assert(post.owned_tokens.index_of(o, id)
                                == pre.owned_tokens.index_of(o, id));
                            assert(pre.owned_tokens.contains(o, id));
                            assert(pre.owners@[id] == o);
                            assert((pre.spec_owner_of(ids[j])) == Some(owner));
                        }
                    }
                } else {
                    if o == owner || o == recipient {
                        assert(post.owned_tokens.contains(o, id) == pre.owned_tokens.contains(
                            o,
                            id,
                        ));
                    } else {
                        assert(post.owned_tokens.index_of(o, id) == pre.owned_tokens.index_of(
                            o,
                            id,
                        ));
                    }
                    assert(pre.owned_tokens.contains(o, id));
                    assert(pre.owners@.dom().contains(id) && pre.owners@[id] == o);
                    assert(post.owners@[id] == pre.owners@[id]);
                }
            }
            assert forall|o: AccountId, id: MarketItemId| #[trigger]
                post.allowances@.dom().contains((o, id)) implies post.owners@.dom().contains(id)
                && post.owners@[id] == o by {
                if o == owner && in_prefix(ids, n as int, id) {
                    let j = choose|j: int| 0 <= j < n && (#[trigger] ids[j]) == id;
                    assert(!post.allowances@.dom().contains((owner, ids[j])));
                } else {
                    assert(post.allowances@.dom().contains((o, id))
                        == pre.allowances@.dom().contains((o, id)));
                    assert(pre.allowances@.dom().contains((o, id)));
                    assert(pre.owners@.dom().contains(id) && pre.owners@[id] == o);
                    assert(!in_prefix(ids, n as int, id)) by {
                        if in_prefix(ids, n as int, id) {
                            let j = choose|j: int| 0 <= j < n && (#[trigger] ids[j]) == id;
                            assert((pre.spec_owner_of(ids[j])) == Some(owner));
                        }
                    }
                    assert(post.owners@[id] == pre.owners@[id]);
                }
            }
            assert forall|id: MarketItemId| #[trigger]
                post.item_statuses@.dom().contains(id) implies post.owners@.dom().contains(id) by {
                assert(pre.item_statuses@.dom().contains(id));
                assert(pre.owners@.dom().contains(id));
            }
        }
        Ok(())
    }

    /// Moves a batch of the caller's items to `recipient`; the same as
    /// `transfer_from` with the caller as owner.
    pub fn transfer(
        &mut self,
        caller: AccountId,
        recipient: AccountId,
        item_ids: Vec<MarketItemId>,
    ) -> (r: Result<(), Error>)
        requires
            old(self).wf(),
        ensures
            final(self).wf(),
            match old(self).spec_transfer_err(caller, caller, item_ids@) {
                Some(e) => r == Err::<(), Error>(e) && *final(self) == *old(self),
                None => {
                    &&& r == Ok::<(), Error>(())
                    &&& forall|j: int|
                        0 <= j < item_ids@.len() ==> final(self).spec_owner_of(
                            #[trigger] item_ids@[j],
                        ) == Some(recipient)
                    &&& forall|j: int|
                        0 <= j < item_ids@.len() ==> final(self).spec_allowance(
                            caller,
                            #[trigger] item_ids@[j],
                        ) is None
                    &&& forall|id: MarketItemId|
                        !item_ids@.contains(id) ==> #[trigger] final(self).spec_owner_of(id) == old(self).spec_owner_of(id)
                    &&& forall|id: MarketItemId|
                        #[trigger] final(self).spec_status(id) == old(self).spec_status(id)
                    &&& forall|id: MarketItemId|
                        #[trigger] final(self).spec_asking_price(id) == old(self).spec_asking_price(id)
                    &&& final(self).spec_balance_of(caller) == (if recipient == caller {
                        old(self).spec_balance_of(caller) as int
                    } else {
                        old(self).spec_balance_of(caller) - item_ids@.len()
                    })
                    &&& final(self).spec_balance_of(recipient) == (if recipient == caller {
                        old(self).spec_balance_of(caller) as int
                    } else {
                        old(self).spec_balance_of(recipient) + item_ids@.len()
                    })
                    &&& forall|o: AccountId|
                        o != caller && o != recipient ==> #[trigger] final(self).spec_balance_of(o)
                            == old(self).spec_balance_of(o)
                    &&& final(self).spec_total_supply() == old(self).spec_total_supply()
                },
            },
    {
        self.transfer_from(caller, caller, recipient, item_ids)
    }

    /// Renames the market.
    pub fn set_name(&mut self, name: String)
        ensures
            final(self).spec_name() == name@,
            final(self).spec_symbol() == old(self).spec_symbol(),
            final(self).spec_meta() == old(self).spec_meta(),
            final(self).wf() == old(self).wf(),
            final(self).spec_events() == old(self).spec_events(),
            final(self).spec_total_supply() == old(self).spec_total_supply(),
            forall|id: MarketItemId|
                #[trigger] final(self).spec_owner_of(id) == old(self).spec_owner_of(id),
            forall|id: MarketItemId|
                #[trigger] final(self).spec_status(id) == old(self).spec_status(id),
    {
        self.name = name;
    }

    /// Changes the market's symbol.
    pub fn set_symbol(&mut self, symbol: String)
        ensures
            final(self).spec_symbol() == symbol@,
            final(self).spec_name() == old(self).spec_name(),
            final(self).spec_meta() == old(self).spec_meta(),
            final(self).wf() == old(self).wf(),
            final(self).spec_events() == old(self).spec_events(),
            final(self).spec_total_supply() == old(self).spec_total_supply(),
            forall|id: MarketItemId|
                #[trigger] final(self).spec_owner_of(id) == old(self).spec_owner_of(id),
            forall|id: MarketItemId|
                #[trigger] final(self).spec_status(id) == old(self).spec_status(id),
    {
        self.symbol = symbol;
    }

    /// Replaces the market's metadata.
    pub fn set_meta(&mut self, meta: Meta)
        ensures
            final(self).spec_meta() == meta_view(meta),
            final(self).spec_name() == old(self).spec_name(),
            final(self).spec_symbol() == old(self).spec_symbol(),
            final(self).wf() == old(self).wf(),
            final(self).spec_events() == old(self).spec_events(),
            final(self).spec_total_supply() == old(self).spec_total_supply(),
            forall|id: MarketItemId|
                #[trigger] final(self).spec_owner_of(id) == old(self).spec_owner_of(id),
            forall|id: MarketItemId|
                #[trigger] final(self).spec_status(id) == old(self).spec_status(id),
    {
        self.meta = meta;
    }

    /// The error that settling a sale returns, if any: the item must be
    /// available, the funds collaborator must report a balance for the
    /// payment handle, and that balance must equal the asking price
    /// exactly — no partial payment and no change-making.
    pub open spec fn spec_sale_err(
        self,
        item_id: MarketItemId,
        purse_balance: Option<Amount>,
    ) -> Option<Error> {
        if self.spec_status(item_id) != Some(ItemStatus::Available) {
            Some(Error::NotAvailable)
        } else if purse_balance is None {
            Some(Error::FundsNotFound)
        } else if purse_balance != self.spec_asking_price(item_id) {
            Some(Error::FundsMismatch)
        } else {
            None
        }
    }

    /// The external work an admissible sale requires, read off the item's
    /// sale record.
    pub open spec fn spec_sale_order(self, buyer: AccountId, item_id: MarketItemId) -> SaleOrder {
        SaleOrder {
            seller: self.spec_owner_of(item_id)->0,
            buyer,
            item_id,
            nft_contract_address: self.spec_nft_contract_address(item_id)->0,
            token_id: self.spec_token_id(item_id)->0,
            asking_price: self.spec_asking_price(item_id)->0,
        }
    }

    /// Validates a sale of `item_id` to `recipient` against the reported
    /// balance of the payment purse, without changing any state.  On
    /// success it returns the order the driver must carry out: move the
    /// backing asset from the seller to the buyer first, and only then move
    /// the asking price from the purse to the seller.
    pub fn prepare_market_sale(
        &self,
        recipient: AccountId,
        item_id: MarketItemId,
        purse_balance: Option<Amount>,
    ) -> (r: Result<SaleOrder, Error>)
        requires
            self.wf(),
        ensures
            r == (match self.spec_sale_err(item_id, purse_balance) {
                Some(e) => Err::<SaleOrder, Error>(e),
                None => Ok::<SaleOrder, Error>(self.spec_sale_order(recipient, item_id)),
            }),
    {
        let status = self.item_status(item_id);
        if !(status.is_some() && status.unwrap() == ItemStatus::Available) {
            return Err(Error::NotAvailable);
        }
        let asking_price = self.item_asking_price(item_id).unwrap();
        let balance = match purse_balance {
            None => {
                return Err(Error::FundsNotFound);
            },
            Some(b) => b,
        };
        if balance != asking_price {
            return Err(Error::FundsMismatch);
        }
        let nft_contract_address = self.item_nft_contract_address(item_id).unwrap();
        let token_id = self.item_token_id(item_id).unwrap();
        let seller = self.owner_of(item_id).unwrap();
        Ok(
            SaleOrder {
                seller,
                buyer: recipient,
                item_id,
                nft_contract_address,
                token_id,
                asking_price,
            },
        )
    }

    /// Marks `item_id` sold and records the sale event; the last step of a
    /// settlement, to be taken only after the external asset and funds
    /// transfers have both succeeded.  Fails with `NotAvailable`, changing
    /// nothing, when the item is not available.
    pub fn finalize_market_sale(&mut self, recipient: AccountId, item_id: MarketItemId) -> (r:
        Result<(), Error>)
        requires
            old(self).wf(),
        ensures
            final(self).wf(),
            old(self).spec_status(item_id) != Some(ItemStatus::Available) ==> r == Err::<
                (),
                Error,
            >(Error::NotAvailable) && *final(self) == *old(self),
            old(self).spec_status(item_id) == Some(ItemStatus::Available) ==> {
                &&& r == Ok::<(), Error>(())
                &&& final(self).spec_status(item_id) == Some(ItemStatus::Sold)
                &&& forall|id: MarketItemId|
                    id != item_id ==> final(self).spec_status(id) == old(self).spec_status(id)
                &&& forall|id: MarketItemId|
                    final(self).spec_owner_of(id) == old(self).spec_owner_of(id)
                &&& forall|id: MarketItemId|
                    final(self).spec_nft_contract_address(id) == old(
                        self,
                    ).spec_nft_contract_address(id)
                &&& forall|id: MarketItemId|
                    final(self).spec_asking_price(id) == old(self).spec_asking_price(id)
                &&& forall|id: MarketItemId|
                    final(self).spec_token_id(id) == old(self).spec_token_id(id)
                &&& forall|o: AccountId, id: MarketItemId|
                    final(self).spec_allowance(o, id) == old(self).spec_allowance(o, id)
                &&& forall|o: AccountId|
                    final(self).spec_balance_of(o) == old(self).spec_balance_of(o)
                &&& forall|o: AccountId, i: u64|
                    final(self).spec_item_at(o, i) == old(self).spec_item_at(o, i)
                &&& final(self).spec_total_supply() == old(self).spec_total_supply()
                &&& final(self).spec_market_journal() == old(self).spec_market_journal()
                &&& final(self).spec_events().len() == old(self).spec_events().len() + 1
                &&& (final(self).spec_events().last() matches MarketEvent::SoldItem {
                    recipient: r2,
                    item_id: i2,
                } && r2 == recipient && i2 == item_id)
                &&& final(self).spec_name() == old(self).spec_name()
                &&& final(self).spec_symbol() == old(self).spec_symbol()
                &&& final(self).spec_meta() == old(self).spec_meta()
            },
    {
        let status = self.item_status(item_id);
        if !(status.is_some() && status.unwrap() == ItemStatus::Available) {
            return Err(Error::NotAvailable);
        }
        self.item_statuses.set(&item_id, ItemStatus::Sold);
        self.events.push(MarketEvent::SoldItem { recipient, item_id });
        Ok(())
    }

    /// Runs a whole sale of `item_id` to `recipient`.  The caller passes in
    /// what the external collaborators answered: the balance the funds
    /// service reports for the payment purse, whether the external asset
    /// transfer was accepted, and whether the funds transfer to the seller
    /// was accepted.  The item's status flips to sold exactly when the sale
    /// is validated and both external transfers succeed; any rejection or
    /// abort leaves the ledger exactly as it was.  The asset moves before
    /// the funds are released, so a failed asset transfer aborts the sale
    /// without paying anyone.
    pub fn process_market_sale(
        &mut self,
        recipient: AccountId,
        item_id: MarketItemId,
        purse_balance: Option<Amount>,
        nft_transfer_accepted: bool,
        funds_transfer_accepted: bool,
    ) -> (r: SaleOutcome)
        requires
            old(self).wf(),
        ensures
            final(self).wf(),
            !(r is Settled) ==> *final(self) == *old(self),
            match old(self).spec_sale_err(item_id, purse_balance) {
                Some(e) => r == SaleOutcome::Rejected(e),
                None => {
                    &&& !nft_transfer_accepted ==> r == SaleOutcome::Aborted
                    &&& nft_transfer_accepted && !funds_transfer_accepted ==> r
                        == SaleOutcome::Aborted
                    &&& nft_transfer_accepted && funds_transfer_accepted ==> {
                        &&& r == SaleOutcome::Settled(
                            old(self).spec_sale_order(recipient, item_id),
                        )
                        &&& final(self).spec_status(item_id) == Some(ItemStatus::Sold)
                        &&& forall|id: MarketItemId|
                            id != item_id ==> final(self).spec_status(id) == old(self).spec_status(
                                id,
                            )
                        &&& forall|id: MarketItemId|
                            final(self).spec_owner_of(id) == old(self).spec_owner_of(id)
                        &&& forall|o: AccountId|
                            final(self).spec_balance_of(o) == old(self).spec_balance_of(o)
                        &&& forall|o: AccountId, id: MarketItemId|
                            final(self).spec_allowance(o, id) == old(self).spec_allowance(o, id)
                        &&& forall|id: MarketItemId|
                            final(self).spec_asking_price(id) == old(self).spec_asking_price(id)
                        &&& final(self).spec_total_supply() == old(self).spec_total_supply()
                        &&& final(self).spec_events().len() == old(self).spec_events().len() + 1
                        &&& (final(self).spec_events().last()
                            matches MarketEvent::SoldItem { recipient: r2, item_id: i2 } && r2
                            == recipient && i2 == item_id)
                    }
                },
            },
    {
        let order = match self.prepare_market_sale(recipient, item_id, purse_balance) {
            Err(e) => {
                return SaleOutcome::Rejected(e);
            },
            Ok(o) => o,
        };
        if !nft_transfer_accepted {
            return SaleOutcome::Aborted;
        }
        if !funds_transfer_accepted {
            return SaleOutcome::Aborted;
        }
        match self.finalize_market_sale(recipient, item_id) {
            Ok(_) => SaleOutcome::Settled(order),
            Err(e) => SaleOutcome::Rejected(e),
        }
    }

    /// Whether every id of the batch belongs to `owner` (repeats allowed).
    fn owned_batch_check_owners_only(
        &self,
        owner: AccountId,
        item_ids: &Vec<MarketItemId>,
    ) -> (r: bool)
        requires
            self.wf(),
        ensures
            r == self.spec_all_owned_by(owner, item_ids@),
    {
        let n: usize = item_ids.len();
        let mut i: usize = 0;
        while i < n
            invariant
                self.wf(),
                n == item_ids@.len(),
                i <= n,
                forall|j: int|
                    0 <= j < i ==> (#[trigger] self.spec_owner_of(item_ids@[j])) == Some(owner),
            decreases n - i,
        {
            let got = self.owners.get(&item_ids[i]);
            if !(got.is_some() && got.unwrap() == owner) {
                proof {
                    assert((self.spec_owner_of(item_ids@[i as int])) != Some(owner));
                }
                return false;
            }
            i = i + 1;
        }
        true
    }
}

/// One-shot approvals: a transfer consumes the approval that authorized
/// it.  After a successful `transfer_from` of a batch from `owner` to a
/// different `recipient`, a second attempt with the same arguments is
/// refused with `PermissionDenied`: the items no longer belong to `owner`
/// and the approval entries are gone, exactly as the `transfer_from`
/// contract states of the resulting ledger.
pub proof fn lemma_approval_one_shot(
    post: MarketLedger,
    spender: AccountId,
    owner: AccountId,
    recipient: AccountId,
    ids: Seq<MarketItemId>,
)
    requires
        post.wf(),
        ids.len() > 0,
        recipient != owner,
        forall|j: int|
            0 <= j < ids.len() ==> (#[trigger] post.spec_owner_of(ids[j])) == Some(recipient),
        forall|j: int|
            0 <= j < ids.len() ==> (#[trigger] post.spec_allowance(owner, ids[j])) is None,
    ensures
        post.spec_transfer_err(spender, owner, ids) == Some(Error::PermissionDenied),
{
    assert(post.spec_all_live(ids)) by {
        assert forall|j: int|
            0 <= j < ids.len() implies (#[trigger] post.spec_owner_of(ids[j])) is Some by {
            assert(post.spec_owner_of(ids[j]) == Some(recipient));
        }
    }
    assert(!post.spec_all_owned_by(owner, ids)) by {
        assert(post.spec_owner_of(ids[0]) == Some(recipient));
    }
}

} // verus!
