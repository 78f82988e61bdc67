use seedlot_contracts::contract::Market;
use seedlot_contracts::errors::{CustodyError, Error, SeedlotContractsError};
use seedlot_contracts::initialize;
use seedlot_contracts::ledger::TokenLedger;
use seedlot_contracts::lots::prepare_lots;
use seedlot_contracts::offers::add_offer;
use seedlot_contracts::orders::place_order;
use seedlot_contracts::utils::MintMetadata;

const ADMIN: u64 = 1;
const AUTH: u64 = 2;
const MANAGER: u64 = 3;
const USER: u64 = 4;
const BANK: u64 = 5;

fn cert_descriptor() -> MintMetadata {
    MintMetadata {
        name: "Seedlot Certification".to_string(),
        symbol: "SC".to_string(),
        uri: String::new(),
        location_variety_price: None,
        manager_for_lot: None,
    }
}

fn offer_descriptor(price: &str) -> MintMetadata {
    MintMetadata {
        name: "Seedlot Offer".to_string(),
        symbol: "SO".to_string(),
        uri: String::new(),
        location_variety_price: Some([
            "Antioquia".to_string(),
            "Cedro".to_string(),
            price.to_string(),
        ]),
        manager_for_lot: None,
    }
}

/// A market with ten trees per lot and a funded buyer.
fn setup(user_funds: u64) -> Market {
    let mut ledger = TokenLedger::new();
    let usdc = ledger.create_class(BANK, false, None, Vec::new());
    ledger.ensure_holding(usdc, USER).unwrap();
    ledger.mint(usdc, USER, user_funds, BANK).unwrap();
    initialize(ledger, ADMIN, AUTH, 10, usdc, &cert_descriptor()).unwrap()
}

#[test]
fn place_order_pays_total_and_mints_locked_tokens() {
    // the literal example: ten trees per lot, $5.00 per tree, two lots
    let mut market = setup(100_000_000);
    let usdc = market.contract.usdc_mint;
    let idx = add_offer(&mut market, &offer_descriptor("500")).unwrap();
    let offer_mint = market.offers.get(idx).unwrap().mint;

    assert_eq!(place_order(&mut market, USER, idx, offer_mint, 2), Ok(()));
    // price_units = 500 * 10,000; total = 5,000,000 * 2 * 10
    assert_eq!(market.ledger.balance(usdc, USER), 0);
    assert_eq!(market.ledger.balance(usdc, AUTH), 100_000_000);
    assert_eq!(market.ledger.balance(offer_mint, USER), 2);
    assert_eq!(market.ledger.holding_frozen(offer_mint, USER), Some(true));
    assert_eq!(market.ledger.supply(offer_mint), Some(2));
}

#[test]
fn place_order_rejects_bad_index_and_mint() {
    let mut market = setup(100_000_000);
    let idx = add_offer(&mut market, &offer_descriptor("500")).unwrap();
    let offer_mint = market.offers.get(idx).unwrap().mint;
    assert_eq!(
        place_order(&mut market, USER, 9, offer_mint, 1),
        Err(Error::Program(SeedlotContractsError::InvalidOfferIndex))
    );
    assert_eq!(
        place_order(&mut market, USER, idx, offer_mint + 1, 1),
        Err(Error::Program(SeedlotContractsError::OrderMintNotFound))
    );
}

#[test]
fn place_order_rejects_malformed_price() {
    let mut market = setup(100_000_000);
    let idx = add_offer(&mut market, &offer_descriptor("five hundred")).unwrap();
    let offer_mint = market.offers.get(idx).unwrap().mint;
    assert_eq!(
        place_order(&mut market, USER, idx, offer_mint, 1),
        Err(Error::Program(SeedlotContractsError::InvalidPrice))
    );
}

#[test]
fn place_order_rejects_offer_without_price() {
    let mut market = setup(100_000_000);
    let idx = add_offer(&mut market, &cert_descriptor()).unwrap();
    let offer_mint = market.offers.get(idx).unwrap().mint;
    assert_eq!(
        place_order(&mut market, USER, idx, offer_mint, 1),
        Err(Error::Program(SeedlotContractsError::AdditionalMetadataIllFormed))
    );
}

#[test]
fn place_order_rejects_insufficient_funds() {
    let mut market = setup(99_999_999);
    let idx = add_offer(&mut market, &offer_descriptor("500")).unwrap();
    let offer_mint = market.offers.get(idx).unwrap().mint;
    assert_eq!(
        place_order(&mut market, USER, idx, offer_mint, 2),
        Err(Error::Custody(CustodyError::InsufficientBalance))
    );
    // nothing moved
    assert_eq!(market.ledger.balance(market.contract.usdc_mint, USER), 99_999_999);
    assert_eq!(market.ledger.balance(offer_mint, USER), 0);
}

#[test]
fn place_order_rejects_unfunded_buyer() {
    let mut ledger = TokenLedger::new();
    let usdc = ledger.create_class(BANK, false, None, Vec::new());
    let mut market = initialize(ledger, ADMIN, AUTH, 10, usdc, &cert_descriptor()).unwrap();
    let idx = add_offer(&mut market, &offer_descriptor("500")).unwrap();
    let offer_mint = market.offers.get(idx).unwrap().mint;
    assert_eq!(
        place_order(&mut market, USER, idx, offer_mint, 1),
        Err(Error::Custody(CustodyError::UninitializedHolder))
    );
}

#[test]
fn prepare_lots_burns_orders_and_pays_advance() {
    let mut market = setup(100_000_000);
    let usdc = market.contract.usdc_mint;
    let idx = add_offer(&mut market, &offer_descriptor("500")).unwrap();
    let offer_mint = market.offers.get(idx).unwrap().mint;
    place_order(&mut market, USER, idx, offer_mint, 2).unwrap();

    let lot_idx = prepare_lots(&mut market, USER, MANAGER, idx, offer_mint, 2, MANAGER).unwrap();
    assert_eq!(lot_idx, 0);
    let lot = market.lots.get(lot_idx).unwrap();
    assert_eq!(lot.original_price_per_tree, 500);
    // the buyer's order tokens were burned and replaced by locked lot tokens
    assert_eq!(market.ledger.balance(offer_mint, USER), 0);
    assert_eq!(market.ledger.supply(offer_mint), Some(0));
    assert_eq!(market.ledger.balance(lot.mint, USER), 2);
    assert_eq!(market.ledger.holding_frozen(lot.mint, USER), Some(true));
    // the manager's advance is a tenth of the lot total
    assert_eq!(market.ledger.balance(usdc, MANAGER), 10_000_000);
    assert_eq!(market.ledger.balance(usdc, AUTH), 90_000_000);
}

#[test]
fn prepare_lots_rejects_short_order_balance() {
    let mut market = setup(100_000_000);
    let idx = add_offer(&mut market, &offer_descriptor("500")).unwrap();
    let offer_mint = market.offers.get(idx).unwrap().mint;
    place_order(&mut market, USER, idx, offer_mint, 1).unwrap();
    assert_eq!(
        prepare_lots(&mut market, USER, MANAGER, idx, offer_mint, 2, MANAGER),
        Err(Error::Custody(CustodyError::InsufficientBalance))
    );
}

#[test]
fn place_order_rejects_frozen_settlement_holding() {
    let mut market = setup(100_000_000);
    let usdc = market.contract.usdc_mint;
    let idx = add_offer(&mut market, &offer_descriptor("500")).unwrap();
    let offer_mint = market.offers.get(idx).unwrap().mint;
    market.ledger.freeze(usdc, USER, BANK).unwrap();
    assert_eq!(
        place_order(&mut market, USER, idx, offer_mint, 1),
        Err(Error::Custody(CustodyError::HoldingFrozen))
    );
}
