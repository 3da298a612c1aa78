use market::data::emit;
use market::event::MarketEvent;
use market::market::SaleOrder;
use market::market::SaleOutcome;
use market::Error;
use market::ItemStatus;
use market::MarketLedger;
use market::Meta;

const SELLER: u64 = 101;
const BUYER: u64 = 202;
const SPENDER: u64 = 303;

fn fresh_market() -> MarketLedger {
    MarketLedger::init(
        String::from("galactic market"),
        String::from("GAL"),
        Vec::new(),
    )
}

fn listed_market(asking_price: u64) -> MarketLedger {
    let mut m = fresh_market();
    m.create_market_item(SELLER, vec![1], vec![7], vec![asking_price], vec![0])
        .unwrap();
    m
}

#[test]
fn should_process_valid_nft_sale() {
    let mut m = fresh_market();
    let amount: u64 = 12345;
    m.create_market_item(SELLER, vec![0], vec![7], vec![amount], vec![0])
        .unwrap();
    assert_eq!(m.owner_of(0), Some(SELLER));
    m.approve(SELLER, SPENDER, vec![0]).unwrap();
    assert_eq!(m.allowance_of(SELLER, 0), Some(SPENDER));

    let outcome = m.process_market_sale(BUYER, 0, Some(amount), true, true);
    match outcome {
        SaleOutcome::Settled(order) => {
            assert_eq!(order.seller, SELLER);
            assert_eq!(order.buyer, BUYER);
            assert_eq!(order.asking_price, amount);
            assert_eq!(order.token_id, 0);
        }
        _ => panic!("the sale should settle"),
    }
    assert_eq!(m.item_status(0), Some(ItemStatus::Sold));
}

#[test]
fn list_items_records_the_full_sale_record() {
    let mut m = fresh_market();
    let created = m
        .create_market_item(SELLER, vec![10], vec![7], vec![2000000], vec![1])
        .unwrap();
    assert_eq!(created, vec![10]);
    assert_eq!(m.get_item_by_index(SELLER, 0), Some(10));
    assert_eq!(m.item_status(10), Some(ItemStatus::Available));
    assert_eq!(m.balance_of(SELLER), 1);
    assert_eq!(m.item_asking_price(10), Some(2000000));
    assert_eq!(m.item_token_id(10), Some(1));
    assert_eq!(m.item_nft_contract_address(10), Some(7));
    assert_eq!(m.total_supply(), 1);
}

#[test]
fn burn_of_first_item_swaps_the_last_into_its_slot() {
    let mut m = fresh_market();
    m.create_market_item(SELLER, vec![11, 22], vec![7, 7], vec![100, 200], vec![0, 1])
        .unwrap();
    assert_eq!(m.get_item_by_index(SELLER, 0), Some(11));
    assert_eq!(m.get_item_by_index(SELLER, 1), Some(22));
    m.burn(SELLER, SELLER, vec![11]).unwrap();
    assert_eq!(m.get_item_by_index(SELLER, 0), Some(22));
    assert_eq!(m.get_item_by_index(SELLER, 1), None);
    assert_eq!(m.balance_of(SELLER), 1);
}

#[test]
fn approved_transfer_succeeds_once_and_only_once() {
    let mut m = listed_market(500);
    m.approve(SELLER, SPENDER, vec![1]).unwrap();
    assert_eq!(m.allowance_of(SELLER, 1), Some(SPENDER));

    m.transfer_from(SPENDER, SELLER, BUYER, vec![1]).unwrap();
    assert_eq!(m.owner_of(1), Some(BUYER));
    assert_eq!(m.allowance_of(SELLER, 1), None);

    let again = m.transfer_from(SPENDER, SELLER, BUYER, vec![1]);
    assert_eq!(again, Err(Error::PermissionDenied));
    assert_eq!(m.owner_of(1), Some(BUYER));
}

#[test]
fn sale_with_wrong_balance_fails_funds_mismatch() {
    let mut m = listed_market(2000000);
    let outcome = m.process_market_sale(BUYER, 1, Some(1999999), true, true);
    assert_eq!(outcome, SaleOutcome::Rejected(Error::FundsMismatch));
    assert_eq!(m.item_status(1), Some(ItemStatus::Available));
    assert_eq!(m.owner_of(1), Some(SELLER));
}

#[test]
fn sale_with_missing_balance_fails_funds_not_found() {
    let mut m = listed_market(2000000);
    let outcome = m.process_market_sale(BUYER, 1, None, true, true);
    assert_eq!(outcome, SaleOutcome::Rejected(Error::FundsNotFound));
    assert_eq!(m.item_status(1), Some(ItemStatus::Available));
}

#[test]
fn sale_with_exact_balance_pays_the_seller_the_asking_price() {
    let mut m = listed_market(2000000);
    let outcome = m.process_market_sale(BUYER, 1, Some(2000000), true, true);
    assert_eq!(
        outcome,
        SaleOutcome::Settled(SaleOrder {
            seller: SELLER,
            buyer: BUYER,
            item_id: 1,
            nft_contract_address: 7,
            token_id: 0,
            asking_price: 2000000,
        })
    );
    assert_eq!(m.item_status(1), Some(ItemStatus::Sold));
}

#[test]
fn sale_is_all_or_nothing_under_failed_asset_transfer() {
    let mut m = listed_market(400);
    let before_events = m.events().len();
    let outcome = m.process_market_sale(BUYER, 1, Some(400), false, true);
    assert_eq!(outcome, SaleOutcome::Aborted);
    assert_eq!(m.item_status(1), Some(ItemStatus::Available));
    assert_eq!(m.owner_of(1), Some(SELLER));
    assert_eq!(m.events().len(), before_events);
}

#[test]
fn sale_is_all_or_nothing_under_failed_funds_transfer() {
    let mut m = listed_market(400);
    let outcome = m.process_market_sale(BUYER, 1, Some(400), true, false);
    assert_eq!(outcome, SaleOutcome::Aborted);
    assert_eq!(m.item_status(1), Some(ItemStatus::Available));
    assert_eq!(m.owner_of(1), Some(SELLER));
}

#[test]
fn sale_of_unavailable_item_is_rejected() {
    let mut m = listed_market(400);
    let first = m.process_market_sale(BUYER, 1, Some(400), true, true);
    assert!(matches!(first, SaleOutcome::Settled(_)));
    let second = m.process_market_sale(BUYER, 1, Some(400), true, true);
    assert_eq!(second, SaleOutcome::Rejected(Error::NotAvailable));
}

#[test]
fn cancelled_item_cannot_be_sold() {
    let mut m = listed_market(400);
    m.set_item_status(1, ItemStatus::Cancelled).unwrap();
    let outcome = m.process_market_sale(BUYER, 1, Some(400), true, true);
    assert_eq!(outcome, SaleOutcome::Rejected(Error::NotAvailable));
    assert_eq!(m.item_status(1), Some(ItemStatus::Cancelled));
}

#[test]
fn list_items_with_mismatched_arrays_fails_arity_mismatch() {
    let mut m = fresh_market();
    let r = m.create_market_item(SELLER, vec![1, 2], vec![7], vec![100, 200], vec![0, 1]);
    assert_eq!(r, Err(Error::ArityMismatch));
    assert_eq!(m.total_supply(), 0);
    assert_eq!(m.owner_of(1), None);
    assert_eq!(m.owner_of(2), None);
}

#[test]
fn listing_a_live_id_fails_already_exists() {
    let mut m = listed_market(100);
    let r = m.create_market_item(BUYER, vec![1], vec![8], vec![300], vec![2]);
    assert_eq!(r, Err(Error::AlreadyExists));
    assert_eq!(m.owner_of(1), Some(SELLER));
    assert_eq!(m.total_supply(), 1);
}

#[test]
fn listing_a_repeated_id_fails_already_exists() {
    let mut m = fresh_market();
    let r = m.create_market_item(SELLER, vec![5, 5], vec![7, 7], vec![1, 2], vec![0, 1]);
    assert_eq!(r, Err(Error::AlreadyExists));
    assert_eq!(m.total_supply(), 0);
    assert_eq!(m.owner_of(5), None);
}

#[test]
fn burn_of_unknown_id_fails_not_found() {
    let mut m = fresh_market();
    let r = m.burn(SELLER, SELLER, vec![99]);
    assert_eq!(r, Err(Error::NotFound));
}

#[test]
fn burn_clears_every_record_and_shrinks_the_supply() {
    let mut m = fresh_market();
    m.create_market_item(SELLER, vec![1, 2], vec![7, 7], vec![100, 200], vec![0, 1])
        .unwrap();
    m.approve(SELLER, SPENDER, vec![1]).unwrap();
    assert_eq!(m.total_supply(), 2);
    m.burn(SELLER, SELLER, vec![1, 2]).unwrap();
    assert_eq!(m.owner_of(1), None);
    assert_eq!(m.owner_of(2), None);
    assert_eq!(m.item_nft_contract_address(1), None);
    assert_eq!(m.item_status(1), None);
    assert_eq!(m.item_asking_price(1), None);
    assert_eq!(m.item_token_id(1), None);
    assert_eq!(m.allowance_of(SELLER, 1), None);
    assert_eq!(m.total_supply(), 0);
    assert_eq!(m.balance_of(SELLER), 0);
}

#[test]
fn burn_by_an_approved_spender_succeeds() {
    let mut m = listed_market(100);
    m.approve(SELLER, SPENDER, vec![1]).unwrap();
    m.burn(SPENDER, SELLER, vec![1]).unwrap();
    assert_eq!(m.owner_of(1), None);
}

#[test]
fn burn_by_a_stranger_fails_permission_denied() {
    let mut m = listed_market(100);
    let r = m.burn(BUYER, SELLER, vec![1]);
    assert_eq!(r, Err(Error::PermissionDenied));
    assert_eq!(m.owner_of(1), Some(SELLER));
}

#[test]
fn approve_by_a_non_owner_fails_permission_denied() {
    let mut m = listed_market(100);
    let r = m.approve(BUYER, SPENDER, vec![1]);
    assert_eq!(r, Err(Error::PermissionDenied));
    assert_eq!(m.allowance_of(SELLER, 1), None);
}

#[test]
fn approve_of_unknown_id_fails_not_found() {
    let mut m = fresh_market();
    let r = m.approve(SELLER, SPENDER, vec![42]);
    assert_eq!(r, Err(Error::NotFound));
}

#[test]
fn transfer_moves_balances_by_the_batch_size() {
    let mut m = fresh_market();
    m.create_market_item(SELLER, vec![1, 2, 3], vec![7, 7, 7], vec![1, 2, 3], vec![0, 1, 2])
        .unwrap();
    assert_eq!(m.balance_of(SELLER), 3);
    assert_eq!(m.balance_of(BUYER), 0);
    m.transfer(SELLER, BUYER, vec![1, 3]).unwrap();
    assert_eq!(m.balance_of(SELLER), 1);
    assert_eq!(m.balance_of(BUYER), 2);
    assert_eq!(m.owner_of(1), Some(BUYER));
    assert_eq!(m.owner_of(2), Some(SELLER));
    assert_eq!(m.owner_of(3), Some(BUYER));
    assert_eq!(m.total_supply(), 3);
    assert_eq!(m.item_status(1), Some(ItemStatus::Available));
    assert_eq!(m.item_asking_price(1), Some(1));
}

#[test]
fn transfer_of_anothers_item_fails_permission_denied() {
    let mut m = listed_market(100);
    let r = m.transfer(BUYER, SPENDER, vec![1]);
    assert_eq!(r, Err(Error::PermissionDenied));
    assert_eq!(m.owner_of(1), Some(SELLER));
}

#[test]
fn transfer_of_unknown_id_fails_not_found() {
    let mut m = fresh_market();
    let r = m.transfer(SELLER, BUYER, vec![9]);
    assert_eq!(r, Err(Error::NotFound));
}

#[test]
fn transfer_to_self_changes_nothing_observable() {
    let mut m = listed_market(100);
    m.transfer(SELLER, SELLER, vec![1]).unwrap();
    assert_eq!(m.owner_of(1), Some(SELLER));
    assert_eq!(m.balance_of(SELLER), 1);
    assert_eq!(m.total_supply(), 1);
}

#[test]
fn empty_batches_succeed_and_change_nothing() {
    let mut m = fresh_market();
    m.create_market_item(SELLER, vec![], vec![], vec![], vec![]).unwrap();
    m.mint(SELLER, vec![], vec![]).unwrap();
    m.approve(SELLER, SPENDER, vec![]).unwrap();
    m.transfer(SELLER, BUYER, vec![]).unwrap();
    m.burn(SELLER, SELLER, vec![]).unwrap();
    assert_eq!(m.total_supply(), 0);
}

#[test]
fn mint_creates_items_without_market_fields() {
    let mut m = fresh_market();
    m.mint(SELLER, vec![4], vec![9]).unwrap();
    assert_eq!(m.owner_of(4), Some(SELLER));
    assert_eq!(m.item_nft_contract_address(4), Some(9));
    assert_eq!(m.item_status(4), None);
    assert_eq!(m.item_asking_price(4), None);
    assert_eq!(m.item_token_id(4), None);
    assert_eq!(m.total_supply(), 1);
    let outcome = m.process_market_sale(BUYER, 4, Some(100), true, true);
    assert_eq!(outcome, SaleOutcome::Rejected(Error::NotAvailable));
}

#[test]
fn set_item_status_requires_a_live_item() {
    let mut m = fresh_market();
    let r = m.set_item_status(1, ItemStatus::Cancelled);
    assert_eq!(r, Err(Error::PermissionDenied));
}

#[test]
fn set_item_nft_contract_address_requires_a_live_item() {
    let mut m = fresh_market();
    let r = m.set_item_nft_contract_address(1, 12);
    assert_eq!(r, Err(Error::NotFound));
    let mut m2 = listed_market(100);
    m2.set_item_nft_contract_address(1, 12).unwrap();
    assert_eq!(m2.item_nft_contract_address(1), Some(12));
}

#[test]
fn token_market_status_follows_the_latest_listing() {
    let mut m = fresh_market();
    m.create_market_item(SELLER, vec![1, 2], vec![7, 7], vec![100, 200], vec![5, 5])
        .unwrap();
    assert_eq!(m.token_market_status(5), Some(ItemStatus::Available));
    let outcome = m.process_market_sale(BUYER, 2, Some(200), true, true);
    assert!(matches!(outcome, SaleOutcome::Settled(_)));
    assert_eq!(m.token_market_status(5), Some(ItemStatus::Sold));
}

#[test]
fn validate_item_ids_spots_live_ids() {
    let m = listed_market(100);
    assert!(m.validate_item_ids(vec![2, 3]));
    assert!(!m.validate_item_ids(vec![1, 2]));
}

#[test]
fn name_symbol_and_meta_round_trip() {
    let mut m = fresh_market();
    assert_eq!(m.name(), String::from("galactic market"));
    assert_eq!(m.symbol(), String::from("GAL"));
    assert!(m.meta().is_empty());
    m.set_name(String::from("renamed"));
    m.set_symbol(String::from("RNM"));
    let mut meta: Meta = Vec::new();
    meta.push((String::from("kind"), String::from("collectibles")));
    m.set_meta(meta);
    assert_eq!(m.name(), String::from("renamed"));
    assert_eq!(m.symbol(), String::from("RNM"));
    let got = m.meta();
    assert_eq!(got.len(), 1);
    assert_eq!(got[0].0, String::from("kind"));
    assert_eq!(got[0].1, String::from("collectibles"));
}

#[test]
fn error_codes_are_stable() {
    assert_eq!(Error::PermissionDenied.code(), 1);
    assert_eq!(Error::ArityMismatch.code(), 2);
    assert_eq!(Error::AlreadyExists.code(), 3);
    assert_eq!(Error::NotFound.code(), 4);
    assert_eq!(Error::NotAvailable.code(), 5);
    assert_eq!(Error::FundsNotFound.code(), 6);
    assert_eq!(Error::FundsMismatch.code(), 7);
}

#[test]
fn every_successful_operation_records_an_event() {
    let mut m = fresh_market();
    m.create_market_item(SELLER, vec![1], vec![7], vec![100], vec![0])
        .unwrap();
    m.approve(SELLER, SPENDER, vec![1]).unwrap();
    m.transfer_from(SPENDER, SELLER, BUYER, vec![1]).unwrap();
    m.burn(BUYER, BUYER, vec![1]).unwrap();
    let events = m.events();
    assert_eq!(events.len(), 4);
    assert!(matches!(events[0], MarketEvent::CreateItem { .. }));
    assert!(matches!(events[1], MarketEvent::ApproveItem { .. }));
    assert!(matches!(events[2], MarketEvent::TransferItem { .. }));
    assert!(matches!(events[3], MarketEvent::BurnItem { .. }));
    emit(&events[0]);
}

#[test]
fn prepare_and_finalize_split_the_settlement() {
    let mut m = listed_market(100);
    let order = m.prepare_market_sale(BUYER, 1, Some(100)).unwrap();
    assert_eq!(order.seller, SELLER);
    assert_eq!(m.item_status(1), Some(ItemStatus::Available));
    m.finalize_market_sale(BUYER, 1).unwrap();
    assert_eq!(m.item_status(1), Some(ItemStatus::Sold));
    let again = m.finalize_market_sale(BUYER, 1);
    assert_eq!(again, Err(Error::NotAvailable));
}
