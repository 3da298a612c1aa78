//! The market's leaf stores.
//!
//! Each store is a small verified table owned by the ledger: item owners,
//! backing-asset addresses, asking prices, backing token ids, sale statuses,
//! per-item approvals, the per-owner enumeration index, and the journal of
//! market items listed under each backing token.

use vstd::prelude::*;

use crate::event::MarketEvent;
use crate::table::PairTable;
use crate::table::Table;
use crate::AccountId;
use crate::Amount;
use crate::ItemStatus;
use crate::MarketItemId;
use crate::NFTContractAddress;
use crate::TokenId;

verus! {

/// Maps each live item to its current owner.
pub struct Owners {
    dict: Table<AccountId>,
}

impl View for Owners {
    type V = Map<MarketItemId, AccountId>;

    closed spec fn view(&self) -> Map<MarketItemId, AccountId> {
        self.dict@
    }
}

impl Owners {
    /// Internal well-formedness; constructors establish it and mutations
    /// preserve it.
    pub closed spec fn inv(self) -> bool {
        self.dict.wf()
    }

    /// A fresh, empty registry.
    pub fn instance() -> (s: Self)
        ensures
            s.inv(),
            s@ == Map::<MarketItemId, AccountId>::empty(),
            s@.dom().finite(),
    {
        Owners { dict: Table::new() }
    }

    /// Sets an empty registry up.
    pub fn init() -> (s: Self)
        ensures
            s.inv(),
            s@ == Map::<MarketItemId, AccountId>::empty(),
            s@.dom().finite(),
    {
        Self::instance()
    }

    /// The owner recorded for `key`, if the item is live.
    pub fn get(&self, key: &MarketItemId) -> (r: Option<AccountId>)
        requires
            self.inv(),
        ensures
            r == (if self@.dom().contains(*key) {
                Some(self@[*key])
            } else {
                None::<AccountId>
            }),
    {
        self.dict.get(*key)
    }

    /// Unconditionally records `value` as the owner of `key`; callers must
    /// have checked the ledger's invariants already.
    pub fn set(&mut self, key: &MarketItemId, value: AccountId)
        requires
            old(self).inv(),
        ensures
            final(self).inv(),
            final(self)@ == old(self)@.insert(*key, value),
            final(self)@.dom().finite(),
    {
        self.dict.insert(*key, value);
    }

    /// Deletes the entry for `key`; callers must clear the owner's
    /// enumeration index first, since this registry carries no back
    /// reference.
    pub fn remove(&mut self, key: &MarketItemId)
        requires
            old(self).inv(),
        ensures
            final(self).inv(),
            final(self)@ == old(self)@.remove(*key),
            final(self)@.dom().finite(),
    {
        self.dict.remove(*key);
    }
}

/// Maps each item to the address of the external contract holding its
/// backing asset.
pub struct NFTContractAddresses {
    dict: Table<NFTContractAddress>,
}

impl View for NFTContractAddresses {
    type V = Map<MarketItemId, NFTContractAddress>;

    closed spec fn view(&self) -> Map<MarketItemId, NFTContractAddress> {
        self.dict@
    }
}

impl NFTContractAddresses {
    /// Internal well-formedness; constructors establish it and mutations
    /// preserve it.
    pub closed spec fn inv(self) -> bool {
        self.dict.wf()
    }

    /// A fresh, empty store.
    pub fn instance() -> (s: Self)
        ensures
            s.inv(),
            s@ == Map::<MarketItemId, NFTContractAddress>::empty(),
    {
        NFTContractAddresses { dict: Table::new() }
    }

    /// Sets an empty store up.
    pub fn init() -> (s: Self)
        ensures
            s.inv(),
            s@ == Map::<MarketItemId, NFTContractAddress>::empty(),
    {
        Self::instance()
    }

    /// The backing contract address recorded for `key`.
    pub fn get(&self, key: &MarketItemId) -> (r: Option<NFTContractAddress>)
        requires
            self.inv(),
        ensures
            r == (if self@.dom().contains(*key) {
                Some(self@[*key])
            } else {
                None::<NFTContractAddress>
            }),
    {
        self.dict.get(*key)
    }

    /// Records `value` as the backing contract address of `key`.
    pub fn set(&mut self, key: &MarketItemId, value: NFTContractAddress)
        requires
            old(self).inv(),
        ensures
            final(self).inv(),
            final(self)@ == old(self)@.insert(*key, value),
    {
        self.dict.insert(*key, value);
    }

    /// Deletes the entry for `key`.
    pub fn remove(&mut self, key: &MarketItemId)
        requires
            old(self).inv(),
        ensures
            final(self).inv(),
            final(self)@ == old(self)@.remove(*key),
    {
        self.dict.remove(*key);
    }
}

/// Maps each listed item to its asking price.
pub struct ItemAskingPriceData {
    dict: Table<Amount>,
}

impl View for ItemAskingPriceData {
    type V = Map<MarketItemId, Amount>;

    closed spec fn view(&self) -> Map<MarketItemId, Amount> {
        self.dict@
    }
}

impl ItemAskingPriceData {
    /// Internal well-formedness; constructors establish it and mutations
    /// preserve it.
    pub closed spec fn inv(self) -> bool {
        self.dict.wf()
    }

    /// A fresh, empty store.
    pub fn instance() -> (s: Self)
        ensures
            s.inv(),
            s@ == Map::<MarketItemId, Amount>::empty(),
    {
        ItemAskingPriceData { dict: Table::new() }
    }

    /// Sets an empty store up.
    pub fn init() -> (s: Self)
        ensures
            s.inv(),
            s@ == Map::<MarketItemId, Amount>::empty(),
    {
        Self::instance()
    }

    /// The asking price recorded for `key`.
    pub fn get(&self, key: &MarketItemId) -> (r: Option<Amount>)
        requires
            self.inv(),
        ensures
            r == (if self@.dom().contains(*key) {
                Some(self@[*key])
            } else {
                None::<Amount>
            }),
    {
        self.dict.get(*key)
    }

    /// Records `value` as the asking price of `key`.
    pub fn set(&mut self, key: &MarketItemId, value: Amount)
        requires
            old(self).inv(),
        ensures
            final(self).inv(),
            final(self)@ == old(self)@.insert(*key, value),
    {
        self.dict.insert(*key, value);
    }

    /// Deletes the entry for `key`.
    pub fn remove(&mut self, key: &MarketItemId)
        requires
            old(self).inv(),
        ensures
            final(self).inv(),
            final(self)@ == old(self)@.remove(*key),
    {
        self.dict.remove(*key);
    }
}

/// Maps each listed item to the id of its backing token on the external
/// asset ledger.
pub struct ItemTokenIdData {
    dict: Table<TokenId>,
}

impl View for ItemTokenIdData {
    type V = Map<MarketItemId, TokenId>;

    closed spec fn view(&self) -> Map<MarketItemId, TokenId> {
        self.dict@
    }
}

impl ItemTokenIdData {
    /// Internal well-formedness; constructors establish it and mutations
    /// preserve it.
    pub closed spec fn inv(self) -> bool {
        self.dict.wf()
    }

    /// A fresh, empty store.
    pub fn instance() -> (s: Self)
        ensures
            s.inv(),
            s@ == Map::<MarketItemId, TokenId>::empty(),
    {
        ItemTokenIdData { dict: Table::new() }
    }

    /// Sets an empty store up.
    pub fn init() -> (s: Self)
        ensures
            s.inv(),
            s@ == Map::<MarketItemId, TokenId>::empty(),
    {
        Self::instance()
    }

    /// The backing token id recorded for `key`.
    pub fn get(&self, key: &MarketItemId) -> (r: Option<TokenId>)
        requires
            self.inv(),
        ensures
            r == (if self@.dom().contains(*key) {
                Some(self@[*key])
            } else {
                None::<TokenId>
            }),
    {
        self.dict.get(*key)
    }

    /// Records `value` as the backing token id of `key`.
    pub fn set(&mut self, key: &MarketItemId, value: TokenId)
        requires
            old(self).inv(),
        ensures
            final(self).inv(),
            final(self)@ == old(self)@.insert(*key, value),
    {
        self.dict.insert(*key, value);
    }

    /// Deletes the entry for `key`.
    pub fn remove(&mut self, key: &MarketItemId)
        requires
            old(self).inv(),
        ensures
            final(self).inv(),
            final(self)@ == old(self)@.remove(*key),
    {
        self.dict.remove(*key);
    }
}

/// Maps each listed item to its sale status.
pub struct ItemStatusData {
    dict: Table<ItemStatus>,
}

impl View for ItemStatusData {
    type V = Map<MarketItemId, ItemStatus>;

    closed spec fn view(&self) -> Map<MarketItemId, ItemStatus> {
        self.dict@
    }
}

impl ItemStatusData {
    /// Internal well-formedness; constructors establish it and mutations
    /// preserve it.
    pub closed spec fn inv(self) -> bool {
        self.dict.wf()
    }

    /// A fresh, empty store.
    pub fn instance() -> (s: Self)
        ensures
            s.inv(),
            s@ == Map::<MarketItemId, ItemStatus>::empty(),
    {
        ItemStatusData { dict: Table::new() }
    }

    /// Sets an empty store up.
    pub fn init() -> (s: Self)
        ensures
            s.inv(),
            s@ == Map::<MarketItemId, ItemStatus>::empty(),
    {
        Self::instance()
    }

    /// The sale status recorded for `key`.
    pub fn get(&self, key: &MarketItemId) -> (r: Option<ItemStatus>)
        requires
            self.inv(),
        ensures
            r == (if self@.dom().contains(*key) {
                Some(self@[*key])
            } else {
                None::<ItemStatus>
            }),
    {
        self.dict.get(*key)
    }

    /// Records `value` as the sale status of `key`.
    pub fn set(&mut self, key: &MarketItemId, value: ItemStatus)
        requires
            old(self).inv(),
        ensures
            final(self).inv(),
            final(self)@ == old(self)@.insert(*key, value),
    {
        self.dict.insert(*key, value);
    }

    /// Deletes the entry for `key`.
    pub fn remove(&mut self, key: &MarketItemId)
        requires
            old(self).inv(),
        ensures
            final(self).inv(),
            final(self)@ == old(self)@.remove(*key),
    {
        self.dict.remove(*key);
    }
}

/// Maps each pair of an owner and one of their items to the single spender
/// approved to move that item, if any.
pub struct Allowances {
    dict: PairTable<AccountId>,
}

impl View for Allowances {
    type V = Map<(AccountId, MarketItemId), AccountId>;

    closed spec fn view(&self) -> Map<(AccountId, MarketItemId), AccountId> {
        self.dict@
    }
}

impl Allowances {
    /// Internal well-formedness; constructors establish it and mutations
    /// preserve it.
    pub closed spec fn inv(self) -> bool {
        self.dict.wf()
    }

    /// A fresh, empty store.
    pub fn instance() -> (s: Self)
        ensures
            s.inv(),
            s@ == Map::<(AccountId, MarketItemId), AccountId>::empty(),
    {
        Allowances { dict: PairTable::new() }
    }

    /// Sets an empty store up.
    pub fn init() -> (s: Self)
        ensures
            s.inv(),
            s@ == Map::<(AccountId, MarketItemId), AccountId>::empty(),
    {
        Self::instance()
    }

    /// The spender approved by `owner` for `item_id`, if any.
    pub fn get(&self, owner: &AccountId, item_id: &MarketItemId) -> (r: Option<AccountId>)
        requires
            self.inv(),
        ensures
            r == (if self@.dom().contains((*owner, *item_id)) {
                Some(self@[(*owner, *item_id)])
            } else {
                None::<AccountId>
            }),
    {
        self.dict.get(*owner, *item_id)
    }

    /// Approves `value` for `item_id`, replacing any earlier approval; only
    /// one spender is approved at a time.
    pub fn set(&mut self, owner: &AccountId, item_id: &MarketItemId, value: AccountId)
        requires
            old(self).inv(),
        ensures
            final(self).inv(),
            final(self)@ == old(self)@.insert((*owner, *item_id), value),
    {
        self.dict.insert(*owner, *item_id, value);
    }

    /// Withdraws the approval for `item_id`, if one stands.
    pub fn remove(&mut self, owner: &AccountId, item_id: &MarketItemId)
        requires
            old(self).inv(),
        ensures
            final(self).inv(),
            final(self)@ == old(self)@.remove((*owner, *item_id)),
    {
        self.dict.remove(*owner, *item_id);
    }
}

/// The per-owner enumeration index: for every owner a dense array of their
/// items with a reverse lookup from item to slot, kept dense by
/// swap-with-last removal.
pub struct OwnedTokens {
    tokens: PairTable<MarketItemId>,
    indexes: PairTable<u64>,
    balances: Table<u64>,
}

impl OwnedTokens {
    /// Internal well-formedness of the backing tables; constructors
    /// establish it and mutations preserve it.
    pub closed spec fn inv(self) -> bool {
        self.tokens.wf() && self.indexes.wf() && self.balances.wf()
    }

    /// The number of items the index holds for `owner` (0 when the owner
    /// was never seen).
    pub closed spec fn balance(self, owner: AccountId) -> u64 {
        if self.balances@.dom().contains(owner) {
            self.balances@[owner]
        } else {
            0
        }
    }

    /// The item at slot `index` of `owner`'s enumeration, if that slot is
    /// filled.
    pub closed spec fn item_at(self, owner: AccountId, index: u64) -> Option<MarketItemId> {
        if self.tokens@.dom().contains((owner, index)) {
            Some(self.tokens@[(owner, index)])
        } else {
            None
        }
    }

    /// The slot holding `item` in `owner`'s enumeration, if the index holds
    /// the item.
    pub closed spec fn index_of(self, owner: AccountId, item: MarketItemId) -> Option<u64> {
        if self.indexes@.dom().contains((owner, item)) {
            Some(self.indexes@[(owner, item)])
        } else {
            None
        }
    }

    /// Whether `owner`'s enumeration holds `item`.
    pub open spec fn contains(self, owner: AccountId, item: MarketItemId) -> bool {
        self.index_of(owner, item) is Some
    }

    /// The set of items the index holds for `owner`.
    pub open spec fn owned_items(self, owner: AccountId) -> Set<MarketItemId> {
        Set::new(|t: MarketItemId| self.contains(owner, t))
    }

    /// The dense-index invariant: for every owner with balance `n` exactly
    /// the slots below `n` are filled, and slots and items are in bijection
    /// in both directions.
    pub open spec fn wf(self) -> bool {
        &&& self.inv()
        &&& forall|o: AccountId, i: u64|
            (#[trigger] self.item_at(o, i)) is Some <==> i < self.balance(o)
        &&& forall|o: AccountId, i: u64|
            i < self.balance(o) ==> ((#[trigger] self.item_at(o, i)) matches Some(t)
                && self.index_of(o, t) == Some(i))
        &&& forall|o: AccountId, t: MarketItemId|
            (#[trigger] self.index_of(o, t)) matches Some(i) ==> i < self.balance(o)
                && self.item_at(o, i) == Some(t)
    }

    /// A fresh, empty index.
    pub fn instance() -> (s: Self)
        ensures
            s.wf(),
            forall|o: AccountId| #[trigger] s.balance(o) == 0,
            forall|o: AccountId, i: u64| (#[trigger] s.item_at(o, i)) is None,
            forall|o: AccountId, t: MarketItemId| (#[trigger] s.index_of(o, t)) is None,
    {
        OwnedTokens {
            tokens: PairTable::new(),
            indexes: PairTable::new(),
            balances: Table::new(),
        }
    }

    /// Sets an empty index up.
    pub fn init() -> (s: Self)
        ensures
            s.wf(),
            forall|o: AccountId| #[trigger] s.balance(o) == 0,
            forall|o: AccountId, i: u64| (#[trigger] s.item_at(o, i)) is None,
            forall|o: AccountId, t: MarketItemId| (#[trigger] s.index_of(o, t)) is None,
    {
        Self::instance()
    }

    /// The item at slot `index` of `owner`'s enumeration.
    pub fn get_item_by_index(&self, owner: &AccountId, index: &u64) -> (r: Option<MarketItemId>)
        requires
            self.inv(),
        ensures
            r == self.item_at(*owner, *index),
    {
        self.tokens.get(*owner, *index)
    }

    /// The slot holding `value` in `owner`'s enumeration.
    pub fn get_index_by_token(&self, owner: &AccountId, value: &MarketItemId) -> (r: Option<u64>)
        requires
            self.inv(),
        ensures
            r == self.index_of(*owner, *value),
    {
        self.indexes.get(*owner, *value)
    }

    /// The number of items the index holds for `owner`.
    pub fn get_balances(&self, owner: &AccountId) -> (r: u64)
        requires
            self.inv(),
        ensures
            r == self.balance(*owner),
    {
        match self.balances.get(*owner) {
            Some(b) => b,
            None => 0,
        }
    }

    /// Unconditionally records `value` as `owner`'s balance; callers must
    /// keep the dense-index invariant themselves.
    pub fn set_balances(&mut self, owner: &AccountId, value: u64)
        requires
            old(self).inv(),
        ensures
            final(self).inv(),
            final(self).balance(*owner) == value,
            forall|o: AccountId|
                o != *owner ==> final(self).balance(o) == old(self).balance(o),
            forall|o: AccountId, i: u64|
                #[trigger] final(self).item_at(o, i) == old(self).item_at(o, i),
            forall|o: AccountId, t: MarketItemId|
                #[trigger] final(self).index_of(o, t) == old(self).index_of(o, t),
    {
        self.balances.insert(*owner, value);
    }

    /// Appends `value` at the end of `owner`'s enumeration.
    pub fn set_token(&mut self, owner: &AccountId, value: &MarketItemId)
        requires
            old(self).wf(),
            !old(self).contains(*owner, *value),
            old(self).balance(*owner) < u64::MAX,
        ensures
            final(self).wf(),
            final(self).balance(*owner) == old(self).balance(*owner) + 1,
            final(self).index_of(*owner, *value) == Some(old(self).balance(*owner)),
            final(self).item_at(*owner, old(self).balance(*owner)) == Some(*value),
            forall|i: u64|
                i != old(self).balance(*owner) ==> final(self).item_at(*owner, i) == old(
                    self,
                ).item_at(*owner, i),
            forall|t: MarketItemId|
                t != *value ==> final(self).index_of(*owner, t) == old(self).index_of(*owner, t),
            forall|o: AccountId|
                o != *owner ==> final(self).balance(o) == old(self).balance(o),
            forall|o: AccountId, i: u64|
                o != *owner ==> final(self).item_at(o, i) == old(self).item_at(o, i),
            forall|o: AccountId, t: MarketItemId|
                o != *owner ==> final(self).index_of(o, t) == old(self).index_of(o, t),
    {
        let length = self.get_balances(owner);
        self.indexes.insert(*owner, *value, length);
        self.tokens.insert(*owner, length, *value);
        self.set_balances(owner, length + 1);
        proof {
            let s0 = *old(self);
            let s3 = *self;
            let o0 = *owner;
            let v = *value;
            let n = s0.balance(o0);
            assert forall|o: AccountId, i: u64|
                (#[trigger] s3.item_at(o, i)) is Some <==> i < s3.balance(o) by {
                if o == o0 && i == n {
                } else {
                    assert(s3.item_at(o, i) == s0.item_at(o, i));
                    assert(s0.item_at(o, i) is Some <==> i < s0.balance(o));
                }
            }
            assert forall|o: AccountId, i: u64|
                i < s3.balance(o) implies ((#[trigger] s3.item_at(o, i)) matches Some(t)
                && s3.index_of(o, t) == Some(i)) by {
                if o == o0 && i == n {
                    assert(s3.item_at(o, i) == Some(v));
                } else {
                    assert(s3.item_at(o, i) == s0.item_at(o, i));
                    assert(i < s0.balance(o));
                    let t = s0.item_at(o, i)->0;
                    assert(s0.index_of(o, t) == Some(i));
                    if o == o0 && t == v {
                        assert(s0.contains(o0, v));
                    }
                    assert(s3.index_of(o, t) == s0.index_of(o, t));
                }
            }
            assert forall|o: AccountId, t: MarketItemId|
                (#[trigger] s3.index_of(o, t)) is Some implies s3.index_of(o, t)->0 < s3.balance(o)
                && s3.item_at(o, s3.index_of(o, t)->0) == Some(t) by {
                if o == o0 && t == v {
                    assert(s3.index_of(o, t) == Some(n));
                } else {
                    assert(s3.index_of(o, t) == s0.index_of(o, t));
                    let i = s0.index_of(o, t)->0;
                    if s0.index_of(o, t) is Some {
                        assert(i < s0.balance(o));
                        assert(s0.item_at(o, i) == Some(t));
                        if o == o0 && i == n {
                            assert(false);
                        }
                        assert(s3.item_at(o, i) == s0.item_at(o, i));
                    }
                }
            }
        }
    }

    /// Removes `value` from `owner`'s enumeration by moving the last item
    /// into its slot and shrinking the count by one.
    pub fn remove_token(&mut self, owner: &AccountId, value: &MarketItemId)
        requires
            old(self).wf(),
            old(self).contains(*owner, *value),
        ensures
            final(self).wf(),
            final(self).balance(*owner) == old(self).balance(*owner) - 1,
            final(self).index_of(*owner, *value) == None::<u64>,
            forall|i: u64|
                i < old(self).balance(*owner) - 1 ==> #[trigger] final(self).item_at(*owner, i)
                    == (if i == old(self).index_of(*owner, *value)->0 {
                    old(self).item_at(*owner, ((old(self).balance(*owner) - 1) as u64))
                } else {
                    old(self).item_at(*owner, i)
                }),
            forall|i: u64|
                i >= old(self).balance(*owner) - 1 ==> (#[trigger] final(self).item_at(
                    *owner,
                    i,
                )) is None,
            forall|t: MarketItemId|
                t != *value ==> #[trigger] final(self).index_of(*owner, t) == (if old(
                    self,
                ).index_of(*owner, t) == Some(((old(self).balance(*owner) - 1) as u64)) {
                    old(self).index_of(*owner, *value)
                } else {
                    old(self).index_of(*owner, t)
                }),
            forall|o: AccountId|
                o != *owner ==> final(self).balance(o) == old(self).balance(o),
            forall|o: AccountId, i: u64|
                o != *owner ==> final(self).item_at(o, i) == old(self).item_at(o, i),
            forall|o: AccountId, t: MarketItemId|
                o != *owner ==> final(self).index_of(o, t) == old(self).index_of(o, t),
    {
        let length = self.get_balances(owner);
        let index = self.get_index_by_token(owner, value).unwrap();
        let ghost s0 = *old(self);
        let ghost o0 = *owner;
        let ghost v = *value;
        let ghost n = s0.balance(o0);
        let ghost idx = s0.index_of(o0, v)->0;
        proof {
            assert(idx < n);
            assert(s0.item_at(o0, idx) == Some(v));
        }
        if length == index + 1 {
            let last_slot = length - 1;
            self.tokens.remove(*owner, last_slot);
            self.balances.insert(*owner, last_slot);
        } else if length > index + 1 {
            let last_slot = length - 1;
            let last = self.get_item_by_index(owner, &last_slot).unwrap();
            proof {
                assert(s0.index_of(o0, last) == Some(last_slot));
                assert(last != v);
            }
            self.indexes.insert(*owner, last, index);
            self.tokens.insert(*owner, index, last);
            self.tokens.remove(*owner, last_slot);
            self.balances.insert(*owner, last_slot);
        } else {
            // An index at or past the balance cannot occur in a well-formed
            // enumeration; kept as a defensive branch.
        }
        self.indexes.remove(*owner, *value);
        proof {
            let s5 = *self;
            let last = s0.item_at(o0, ((n - 1) as u64))->0;
            assert(s0.index_of(o0, last) == Some(((n - 1) as u64)));
            // Pointwise descriptions of the final maps.
            assert forall|i: u64| i < n - 1 implies #[trigger] s5.item_at(o0, i) == (if i == idx {
                s0.item_at(o0, ((n - 1) as u64))
            } else {
                s0.item_at(o0, i)
            }) by {
                assert(s0.item_at(o0, i) is Some);
            }
            assert forall|i: u64| i >= n - 1 implies (#[trigger] s5.item_at(o0, i)) is None by {
                if i > n - 1 {
                    assert(s0.item_at(o0, i) is None);
                }
            }
            assert forall|t: MarketItemId| t != v implies #[trigger] s5.index_of(o0, t) == (if
                s0.index_of(o0, t) == Some(((n - 1) as u64)) {
                Some(idx)
            } else {
                s0.index_of(o0, t)
            }) by {
                if s0.index_of(o0, t) == Some(((n - 1) as u64)) {
                    assert(s0.item_at(o0, ((n - 1) as u64)) == Some(t));
                    assert(t == last);
                } else {
                    if idx < n - 1 && t == last {
                        assert(s0.index_of(o0, last) == Some(((n - 1) as u64)));
                    }
                }
            }
            assert(s5.index_of(o0, v) is None);
            assert(s5.balance(o0) == n - 1);
            // The dense-index invariant for the final state.
            assert forall|o: AccountId, i: u64|
                (#[trigger] s5.item_at(o, i)) is Some <==> i < s5.balance(o) by {
                if o != o0 {
                    assert(s5.item_at(o, i) == s0.item_at(o, i));
                    assert(s5.balance(o) == s0.balance(o));
                } else {
                    if i < n - 1 {
                        assert(s5.item_at(o0, i) is Some);
                    } else {
                        assert(s5.item_at(o0, i) is None);
                    }
                }
            }
            assert forall|o: AccountId, i: u64|
                i < s5.balance(o) implies ((#[trigger] s5.item_at(o, i)) matches Some(t)
                && s5.index_of(o, t) == Some(i)) by {
                if o != o0 {
                    assert(s5.item_at(o, i) == s0.item_at(o, i));
                    assert(s5.index_of(o, s0.item_at(o, i)->0) == s0.index_of(
                        o,
                        s0.item_at(o, i)->0,
                    ));
                    assert(i < s0.balance(o));
                    assert(s0.item_at(o, i) matches Some(t) && s0.index_of(o, t) == Some(i));
                } else {
                    assert(i < n - 1);
                    if i == idx {
                        assert(s5.item_at(o0, i) == Some(last));
                        assert(s5.index_of(o0, last) == Some(idx));
                    } else {
                        assert(s5.item_at(o0, i) == s0.item_at(o0, i));
                        assert(i < s0.balance(o0));
                        let t = s0.item_at(o0, i)->0;
                        assert(s0.index_of(o0, t) == Some(i));
                        assert(t != v) by {
                            if t == v {
                                assert(s0.index_of(o0, v) == Some(i));
                            }
                        }
                        assert(t != last) by {
                            if t == last {
                                assert(s0.index_of(o0, t) == Some(((n - 1) as u64)));
                            }
                        }
                        assert(s5.index_of(o0, t) == s0.index_of(o0, t));
                    }
                }
            }
            assert forall|o: AccountId, t: MarketItemId|
                (#[trigger] s5.index_of(o, t)) is Some implies s5.index_of(o, t)->0 < s5.balance(o)
                && s5.item_at(o, s5.index_of(o, t)->0) == Some(t) by {
                if o != o0 {
                    assert(s5.index_of(o, t) == s0.index_of(o, t));
                    assert(s5.item_at(o, s0.index_of(o, t)->0) == s0.item_at(
                        o,
                        s0.index_of(o, t)->0,
                    ));
                    assert(s5.balance(o) == s0.balance(o));
                } else {
                    assert(t != v);
                    let i = s5.index_of(o0, t)->0;
                    if s0.index_of(o0, t) == Some(((n - 1) as u64)) {
                        assert(t == last);
                        assert(i == idx);
                        assert(idx < n - 1) by {
                            if idx == n - 1 {
                                assert(s0.item_at(o0, idx) == Some(v));
                                assert(s0.item_at(o0, ((n - 1) as u64)) == Some(last));
                            }
                        }
                        assert(s5.item_at(o0, idx) == Some(last));
                    } else {
                        assert(s5.index_of(o0, t) == s0.index_of(o0, t));
                        assert(i < s0.balance(o0));
                        assert(s0.item_at(o0, i) == Some(t));
                        assert(i != n - 1) by {
                            if i == n - 1 {
                                assert(s0.index_of(o0, t) == Some(((n - 1) as u64)));
                            }
                        }
                        assert(i != idx) by {
                            if i == idx {
                                assert(s0.item_at(o0, idx) == Some(v));
                            }
                        }
                        assert(s5.item_at(o0, i) == s0.item_at(o0, i));
                    }
                }
            }
        }
    }
}

/// The dense-index law: under the invariant, an owner's balance always
/// equals the number of items for which a slot is defined, and every filled
/// slot round-trips — the item found at slot `i` maps back to slot `i`.
/// Since every mutation of `OwnedTokens` preserves the invariant, this
/// holds after any sequence of insertions and removals.
pub proof fn lemma_owned_index_dense(s: OwnedTokens, owner: AccountId)
    requires
        s.wf(),
    ensures
        s.owned_items(owner).finite(),
        s.owned_items(owner).len() == s.balance(owner),
        forall|i: u64|
            i < s.balance(owner) ==> s.index_of(owner, (#[trigger] s.item_at(owner, i))->0)
                == Some(i),
{
    let n = s.balance(owner) as nat;
    let e = Seq::new(n, |i: int| s.item_at(owner, i as u64)->0);
    assert forall|i: u64|
        i < s.balance(owner) implies s.index_of(owner, (#[trigger] s.item_at(owner, i))->0)
        == Some(i) by {
        assert(s.item_at(owner, i) is Some);
    }
    assert(e.no_duplicates()) by {
        assert forall|i: int, j: int| 0 <= i < j < e.len() implies e[i] != e[j] by {
            assert(s.index_of(owner, s.item_at(owner, i as u64)->0) == Some(i as u64));
            assert(s.index_of(owner, s.item_at(owner, j as u64)->0) == Some(j as u64));
        }
    }
    assert(e.to_set() =~= s.owned_items(owner)) by {
        assert forall|t: MarketItemId|
            e.to_set().contains(t) implies s.owned_items(owner).contains(t) by {
            let i = choose|i: int| 0 <= i < e.len() && e[i] == t;
            assert(s.index_of(owner, s.item_at(owner, i as u64)->0) == Some(i as u64));
        }
        assert forall|t: MarketItemId|
            s.owned_items(owner).contains(t) implies e.to_set().contains(t) by {
            let i = s.index_of(owner, t)->0;
            assert(s.item_at(owner, i) == Some(t));
            assert(e[i as int] == t);
            assert(e.contains(t));
        }
    }
    e.unique_seq_to_set();
    vstd::seq_lib::seq_to_set_is_finite(e);
}

/// The market item ids listed in `journal` under the backing token `token`,
/// in listing order.
pub open spec fn ids_under(journal: Seq<(TokenId, MarketItemId)>, token: TokenId) -> Seq<
    MarketItemId,
>
    decreases journal.len(),
{
    if journal.len() == 0 {
        Seq::empty()
    } else {
        ids_under(journal.drop_last(), token) + (if journal.last().0 == token {
            seq![journal.last().1]
        } else {
            Seq::empty()
        })
    }
}

/// Records, for each backing token, the market items that have been listed
/// for it, as an append-only journal of (token, item) pairs.
pub struct NFTMarketItemIds {
    journal: Vec<(TokenId, MarketItemId)>,
}

impl View for NFTMarketItemIds {
    type V = Seq<(TokenId, MarketItemId)>;

    closed spec fn view(&self) -> Seq<(TokenId, MarketItemId)> {
        self.journal@
    }
}

impl NFTMarketItemIds {
    /// The market item ids listed under `token`, in listing order.
    pub open spec fn ids_for(self, token: TokenId) -> Seq<MarketItemId> {
        ids_under(self@, token)
    }

    /// A fresh, empty store.
    pub fn instance() -> (s: Self)
        ensures
            s@ == Seq::<(TokenId, MarketItemId)>::empty(),
    {
        NFTMarketItemIds { journal: Vec::new() }
    }

    /// Sets an empty store up.
    pub fn init() -> (s: Self)
        ensures
            s@ == Seq::<(TokenId, MarketItemId)>::empty(),
    {
        Self::instance()
    }

    /// The market item ids listed under `item_token_id`, or `None` if no
    /// item was ever listed for that token.
    pub fn get(&self, item_token_id: TokenId) -> (r: Option<Vec<MarketItemId>>)
        ensures
            match r {
                Some(v) => v@ == self.ids_for(item_token_id) && v@.len() > 0,
                None => self.ids_for(item_token_id).len() == 0,
            },
    {
        let mut acc: Vec<MarketItemId> = Vec::new();
        let n: usize = self.journal.len();
        let mut i: usize = 0;
        while i < n
            invariant
                n == self.journal@.len(),
                i <= n,
                acc@ == ids_under(self.journal@.subrange(0, i as int), item_token_id),
            decreases n - i,
        {
            let e = self.journal[i];
            proof {
                let pre = self.journal@.subrange(0, i as int);
                let cur = self.journal@.subrange(0, i + 1 as int);
                assert(cur.drop_last() =~= pre);
                assert(cur.last() == self.journal@[i as int]);
            }
            if e.0 == item_token_id {
                acc.push(e.1);
            }
            i = i + 1;
        }
        proof {
            assert(self.journal@.subrange(0, n as int) =~= self.journal@);
        }
        if acc.len() > 0 {
            Some(acc)
        } else {
            None
        }
    }

    /// Appends `value` to the items listed under `item_token_id`.
    pub fn set(&mut self, item_token_id: &TokenId, value: MarketItemId)
        ensures
            final(self)@ == old(self)@.push((*item_token_id, value)),
    {
        self.journal.push((*item_token_id, value));
    }
}

/// Hands a domain event to external observers.  No observer is attached
/// here, so this is a no-op; the ledger keeps its own event log.
pub fn emit(_event: &MarketEvent) {
}

} // verus!
