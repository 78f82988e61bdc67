use seedlot_contracts::certify::{certify, CertificationTier};
use seedlot_contracts::confirm::confirm_lots;
use seedlot_contracts::contract::Market;
use seedlot_contracts::errors::{CustodyError, Error, SeedlotContractsError};
use seedlot_contracts::harvest::pay_harvest;
use seedlot_contracts::initialize;
use seedlot_contracts::ledger::{MetaKey, TokenLedger};
use seedlot_contracts::lots::prepare_lots;
use seedlot_contracts::offers::add_offer;
use seedlot_contracts::orders::place_order;
use seedlot_contracts::utils::MintMetadata;

const ADMIN: u64 = 1;
const AUTH: u64 = 2;
const MANAGER: u64 = 3;
const USER: u64 = 4;
const BANK: u64 = 5;
const PAYER: u64 = 6;

fn cert_descriptor() -> MintMetadata {
    MintMetadata {
        name: "Seedlot Certification".to_string(),
        symbol: "SC".to_string(),
        uri: String::new(),
        location_variety_price: None,
        manager_for_lot: None,
    }
}

fn offer_descriptor(price: &str) -> MintMetadata {
    MintMetadata {
        name: "Seedlot Offer".to_string(),
        symbol: "SO".to_string(),
        uri: String::new(),
        location_variety_price: Some([
            "Antioquia".to_string(),
            "Cedro".to_string(),
            price.to_string(),
        ]),
        manager_for_lot: None,
    }
}

/// A market after the whole order flow: ten trees per lot, a $5.00 offer,
/// two lots ordered and prepared. Returns the market and the offer and lot
/// indices.
fn prepared_market() -> (Market, u64, u64) {
    let mut ledger = TokenLedger::new();
    let usdc = ledger.create_class(BANK, false, None, Vec::new());
    ledger.ensure_holding(usdc, USER).unwrap();
    ledger.mint(usdc, USER, 100_000_000, BANK).unwrap();
    let mut market = initialize(ledger, ADMIN, AUTH, 10, usdc, &cert_descriptor()).unwrap();
    certify(&mut market, MANAGER, CertificationTier::Tier1).unwrap();
    let idx = add_offer(&mut market, &offer_descriptor("500")).unwrap();
    let offer_mint = market.offers.get(idx).unwrap().mint;
    place_order(&mut market, USER, idx, offer_mint, 2).unwrap();
    let lot_idx = prepare_lots(&mut market, USER, MANAGER, idx, offer_mint, 2, MANAGER).unwrap();
    (market, idx, lot_idx)
}

#[test]
fn confirm_pays_remainder_and_unlocks_lot() {
    let (mut market, idx, lot_idx) = prepared_market();
    let usdc = market.contract.usdc_mint;
    let offer_mint = market.offers.get(idx).unwrap().mint;
    let lot_mint = market.lots.get(lot_idx).unwrap().mint;

    assert_eq!(
        confirm_lots(&mut market, true, idx, lot_idx, lot_mint, offer_mint, USER, MANAGER),
        Ok(())
    );
    // advance plus remainder is the whole lot total
    assert_eq!(market.ledger.balance(usdc, MANAGER), 100_000_000);
    assert_eq!(market.ledger.balance(usdc, AUTH), 0);
    // the buyer's lot tokens are now transferable, and the record remains
    assert_eq!(market.ledger.holding_frozen(lot_mint, USER), Some(false));
    assert_eq!(market.ledger.balance(lot_mint, USER), 2);
    assert_eq!(market.lots.tail(), 1);
}

#[test]
fn confirm_rejects_mismatched_lot_mint() {
    let (mut market, idx, lot_idx) = prepared_market();
    let offer_mint = market.offers.get(idx).unwrap().mint;
    let lot_mint = market.lots.get(lot_idx).unwrap().mint;
    assert_eq!(
        confirm_lots(&mut market, true, idx, lot_idx, lot_mint + 1, offer_mint, USER, MANAGER),
        Err(Error::Program(SeedlotContractsError::LotMintMismatch))
    );
    assert_eq!(
        confirm_lots(&mut market, true, idx, 3, lot_mint, offer_mint, USER, MANAGER),
        Err(Error::Program(SeedlotContractsError::InvalidLotIndex))
    );
}

#[test]
fn rejection_reverses_the_preparation() {
    let (mut market, idx, lot_idx) = prepared_market();
    let usdc = market.contract.usdc_mint;
    let offer_mint = market.offers.get(idx).unwrap().mint;
    let lot_mint = market.lots.get(lot_idx).unwrap().mint;
    let cert = market.contract.certification_mint;
    // the admin funds the return of the advance
    market.ledger.ensure_holding(usdc, ADMIN).unwrap();
    market.ledger.mint(usdc, ADMIN, 10_000_000, BANK).unwrap();

    assert_eq!(
        confirm_lots(&mut market, false, idx, lot_idx, lot_mint, offer_mint, USER, MANAGER),
        Ok(())
    );
    // the manager ends decertified
    assert_eq!(market.ledger.balance(cert, MANAGER), 5);
    // the buyer's order tokens are restored, the lot tokens are gone
    assert_eq!(market.ledger.balance(offer_mint, USER), 2);
    assert_eq!(market.ledger.balance(lot_mint, USER), 0);
    assert_eq!(market.ledger.supply(lot_mint), Some(0));
    // the lot record is removed
    assert_eq!(market.lots.tail(), 0);
    assert_eq!(
        market.lots.get(lot_idx),
        Err(SeedlotContractsError::InvalidLotIndex)
    );
    // the contract's settlement balance is restored by the advance, paid by
    // the admin
    assert_eq!(market.ledger.balance(usdc, AUTH), 100_000_000);
    assert_eq!(market.ledger.balance(usdc, ADMIN), 0);
    // the manager keeps the advance
    assert_eq!(market.ledger.balance(usdc, MANAGER), 10_000_000);
}

#[test]
fn rejection_requires_admin_funds() {
    let (mut market, idx, lot_idx) = prepared_market();
    let offer_mint = market.offers.get(idx).unwrap().mint;
    let lot_mint = market.lots.get(lot_idx).unwrap().mint;
    // the admin has no settlement holding at all, and the custody service's
    // own error comes through unchanged
    assert_eq!(
        confirm_lots(&mut market, false, idx, lot_idx, lot_mint, offer_mint, USER, MANAGER),
        Err(Error::Custody(CustodyError::UninitializedHolder))
    );
    // nothing moved
    assert_eq!(market.lots.tail(), 1);
    assert_eq!(market.ledger.balance(lot_mint, USER), 2);
}

#[test]
fn harvest_splits_profit_half_quarter_quarter() {
    let (mut market, idx, lot_idx) = prepared_market();
    let usdc = market.contract.usdc_mint;
    let offer_mint = market.offers.get(idx).unwrap().mint;
    let lot_mint = market.lots.get(lot_idx).unwrap().mint;
    confirm_lots(&mut market, true, idx, lot_idx, lot_mint, offer_mint, USER, MANAGER).unwrap();
    market.ledger.ensure_holding(usdc, PAYER).unwrap();
    market.ledger.mint(usdc, PAYER, 5_000_000, BANK).unwrap();
    market.ledger.ensure_holding(usdc, ADMIN).unwrap();

    // profit of 100 cents: one million settlement units split 50/25/25
    assert_eq!(
        pay_harvest(&mut market, PAYER, USER, MANAGER, lot_idx, lot_mint, 0, 100),
        Ok(())
    );
    assert_eq!(market.ledger.balance(usdc, USER), 500_000);
    assert_eq!(market.ledger.balance(usdc, ADMIN), 250_000);
    assert_eq!(market.ledger.balance(usdc, MANAGER), 100_250_000);
    assert_eq!(market.ledger.balance(usdc, PAYER), 4_000_000);
}

#[test]
fn harvest_split_loses_nothing_after_conversion() {
    let (mut market, idx, lot_idx) = prepared_market();
    let usdc = market.contract.usdc_mint;
    let offer_mint = market.offers.get(idx).unwrap().mint;
    let lot_mint = market.lots.get(lot_idx).unwrap().mint;
    confirm_lots(&mut market, true, idx, lot_idx, lot_mint, offer_mint, USER, MANAGER).unwrap();
    market.ledger.ensure_holding(usdc, PAYER).unwrap();
    market.ledger.mint(usdc, PAYER, 5_000_000, BANK).unwrap();
    market.ledger.ensure_holding(usdc, ADMIN).unwrap();

    // an odd profit in cents still converts to a multiple of four units, so
    // the three shares add back up to the converted profit exactly
    assert_eq!(
        pay_harvest(&mut market, PAYER, USER, MANAGER, lot_idx, lot_mint, 3, 101),
        Ok(())
    );
    assert_eq!(market.ledger.balance(usdc, USER), 505_000);
    assert_eq!(market.ledger.balance(usdc, ADMIN), 252_500);
    // a quarter of the profit plus the thirty-thousand-unit harvest fee
    assert_eq!(market.ledger.balance(usdc, MANAGER), 100_282_500);
    assert_eq!(market.ledger.balance(usdc, PAYER), 5_000_000 - 1_010_000 - 30_000);
}

#[test]
fn harvest_rejects_wrong_manager_and_user() {
    let (mut market, idx, lot_idx) = prepared_market();
    let usdc = market.contract.usdc_mint;
    let offer_mint = market.offers.get(idx).unwrap().mint;
    let lot_mint = market.lots.get(lot_idx).unwrap().mint;
    confirm_lots(&mut market, true, idx, lot_idx, lot_mint, offer_mint, USER, MANAGER).unwrap();
    market.ledger.ensure_holding(usdc, PAYER).unwrap();
    market.ledger.mint(usdc, PAYER, 5_000_000, BANK).unwrap();

    assert_eq!(
        pay_harvest(&mut market, PAYER, USER, USER, lot_idx, lot_mint, 0, 100),
        Err(Error::Program(SeedlotContractsError::ManagerMismatch))
    );
    assert_eq!(
        pay_harvest(&mut market, PAYER, ADMIN, MANAGER, lot_idx, lot_mint, 0, 100),
        Err(Error::Program(SeedlotContractsError::UserMismatch))
    );
}

#[test]
fn confirmation_tags_the_lot_as_growing() {
    let (mut market, idx, lot_idx) = prepared_market();
    let offer_mint = market.offers.get(idx).unwrap().mint;
    let lot_mint = market.lots.get(lot_idx).unwrap().mint;
    let before = market.ledger.class_metadata(lot_mint).unwrap();
    assert!(before
        .iter()
        .any(|e| e.key == MetaKey::State && e.value == "0"));
    confirm_lots(&mut market, true, idx, lot_idx, lot_mint, offer_mint, USER, MANAGER).unwrap();
    let after = market.ledger.class_metadata(lot_mint).unwrap();
    assert!(after
        .iter()
        .any(|e| e.key == MetaKey::State && e.value == "1"));
    assert!(after
        .iter()
        .any(|e| e.key == MetaKey::Location && e.value == "Antioquia"));
}

#[test]
fn initialize_requires_a_settlement_class() {
    let ledger = TokenLedger::new();
    assert!(initialize(ledger, ADMIN, AUTH, 10, 0, &cert_descriptor()).is_err());
}
