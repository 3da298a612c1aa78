use market::data::Allowances;
use market::data::ItemAskingPriceData;
use market::data::ItemStatusData;
use market::data::ItemTokenIdData;
use market::data::NFTContractAddresses;
use market::data::NFTMarketItemIds;
use market::data::OwnedTokens;
use market::data::Owners;
use market::ItemStatus;

const OWNER_A: u64 = 11;
const OWNER_B: u64 = 22;

#[test]
fn owners_store_round_trips() {
    let mut owners = Owners::init();
    assert_eq!(owners.get(&1), None);
    owners.set(&1, OWNER_A);
    owners.set(&2, OWNER_B);
    assert_eq!(owners.get(&1), Some(OWNER_A));
    assert_eq!(owners.get(&2), Some(OWNER_B));
    owners.set(&1, OWNER_B);
    assert_eq!(owners.get(&1), Some(OWNER_B));
    owners.remove(&1);
    assert_eq!(owners.get(&1), None);
    assert_eq!(owners.get(&2), Some(OWNER_B));
}

#[test]
fn record_stores_round_trip() {
    let mut refs = NFTContractAddresses::init();
    refs.set(&1, 7);
    assert_eq!(refs.get(&1), Some(7));
    refs.remove(&1);
    assert_eq!(refs.get(&1), None);

    let mut prices = ItemAskingPriceData::init();
    prices.set(&1, 2000000);
    assert_eq!(prices.get(&1), Some(2000000));
    prices.remove(&1);
    assert_eq!(prices.get(&1), None);

    let mut tids = ItemTokenIdData::init();
    tids.set(&1, 42);
    assert_eq!(tids.get(&1), Some(42));
    tids.remove(&1);
    assert_eq!(tids.get(&1), None);

    let mut statuses = ItemStatusData::init();
    statuses.set(&1, ItemStatus::Available);
    assert_eq!(statuses.get(&1), Some(ItemStatus::Available));
    statuses.set(&1, ItemStatus::Sold);
    assert_eq!(statuses.get(&1), Some(ItemStatus::Sold));
    statuses.remove(&1);
    assert_eq!(statuses.get(&1), None);
}

#[test]
fn allowances_are_per_owner_and_item() {
    let mut allowances = Allowances::init();
    allowances.set(&OWNER_A, &1, OWNER_B);
    assert_eq!(allowances.get(&OWNER_A, &1), Some(OWNER_B));
    assert_eq!(allowances.get(&OWNER_B, &1), None);
    assert_eq!(allowances.get(&OWNER_A, &2), None);
    allowances.set(&OWNER_A, &1, 99);
    assert_eq!(allowances.get(&OWNER_A, &1), Some(99));
    allowances.remove(&OWNER_A, &1);
    assert_eq!(allowances.get(&OWNER_A, &1), None);
}

#[test]
fn owned_tokens_keep_a_dense_index_under_inserts_and_removals() {
    let mut owned = OwnedTokens::init();
    assert_eq!(owned.get_balances(&OWNER_A), 0);

    owned.set_token(&OWNER_A, &10);
    owned.set_token(&OWNER_A, &20);
    owned.set_token(&OWNER_A, &30);
    owned.set_token(&OWNER_B, &40);
    assert_eq!(owned.get_balances(&OWNER_A), 3);
    assert_eq!(owned.get_balances(&OWNER_B), 1);

    // every filled slot round-trips through the reverse index
    for i in 0..3 {
        let item = owned.get_item_by_index(&OWNER_A, &i).unwrap();
        assert_eq!(owned.get_index_by_token(&OWNER_A, &item), Some(i));
    }

    // removing an interior slot moves the last item into it
    owned.remove_token(&OWNER_A, &10);
    assert_eq!(owned.get_balances(&OWNER_A), 2);
    assert_eq!(owned.get_item_by_index(&OWNER_A, &0), Some(30));
    assert_eq!(owned.get_item_by_index(&OWNER_A, &1), Some(20));
    assert_eq!(owned.get_item_by_index(&OWNER_A, &2), None);
    assert_eq!(owned.get_index_by_token(&OWNER_A, &10), None);
    assert_eq!(owned.get_index_by_token(&OWNER_A, &30), Some(0));

    // removing the last slot only shrinks the count
    owned.remove_token(&OWNER_A, &20);
    assert_eq!(owned.get_balances(&OWNER_A), 1);
    assert_eq!(owned.get_item_by_index(&OWNER_A, &0), Some(30));
    assert_eq!(owned.get_item_by_index(&OWNER_A, &1), None);

    // the balance always counts the defined slots
    owned.set_token(&OWNER_A, &50);
    assert_eq!(owned.get_balances(&OWNER_A), 2);
    for i in 0..2 {
        let item = owned.get_item_by_index(&OWNER_A, &i).unwrap();
        assert_eq!(owned.get_index_by_token(&OWNER_A, &item), Some(i));
    }
    assert_eq!(owned.get_balances(&OWNER_B), 1);
    assert_eq!(owned.get_item_by_index(&OWNER_B, &0), Some(40));
}

#[test]
fn nft_market_item_ids_accumulate_per_token() {
    let mut ids = NFTMarketItemIds::init();
    assert!(ids.get(5).is_none());
    ids.set(&5, 100);
    ids.set(&5, 200);
    ids.set(&6, 300);
    assert_eq!(ids.get(5), Some(vec![100, 200]));
    assert_eq!(ids.get(6), Some(vec![300]));
    assert!(ids.get(7).is_none());
}
