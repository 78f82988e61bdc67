use seedlot_contracts::contract::Market;
use seedlot_contracts::errors::{Error, SeedlotContractsError};
use seedlot_contracts::initialize;
use seedlot_contracts::ledger::TokenLedger;
use seedlot_contracts::lots::{Lot, Lots};
use seedlot_contracts::offers::{add_offer, Offer, Offers};
use seedlot_contracts::utils::MintMetadata;

const ADMIN: u64 = 1;
const AUTH: u64 = 2;
const BANK: u64 = 5;

fn cert_descriptor() -> MintMetadata {
    MintMetadata {
        name: "Seedlot Certification".to_string(),
        symbol: "SC".to_string(),
        uri: String::new(),
        location_variety_price: None,
        manager_for_lot: None,
    }
}

fn offer_descriptor(price: &str) -> MintMetadata {
    MintMetadata {
        name: "Seedlot Offer".to_string(),
        symbol: "SO".to_string(),
        uri: String::new(),
        location_variety_price: Some([
            "Antioquia".to_string(),
            "Cedro".to_string(),
            price.to_string(),
        ]),
        manager_for_lot: None,
    }
}

fn setup() -> Market {
    let mut ledger = TokenLedger::new();
    let usdc = ledger.create_class(BANK, false, None, Vec::new());
    initialize(ledger, ADMIN, AUTH, 10, usdc, &cert_descriptor()).unwrap()
}

#[test]
fn offers_fill_to_capacity_and_then_refuse() {
    let mut market = setup();
    for i in 0..300u64 {
        assert_eq!(add_offer(&mut market, &offer_descriptor("500")), Ok(i));
    }
    assert_eq!(
        add_offer(&mut market, &offer_descriptor("500")),
        Err(Error::Program(SeedlotContractsError::OffersFull))
    );
    assert_eq!(market.offers.tail(), 300);
    // every earlier offer is still retrievable under its returned index
    for i in 0..300u64 {
        let offer = market.offers.get(i).unwrap();
        assert_eq!(market.offers.verify_order(i, offer.mint), Ok(()));
    }
}

#[test]
fn lots_fill_to_capacity_and_then_refuse() {
    let mut lots = Lots::new();
    for i in 0..10_000u64 {
        assert_eq!(
            lots.push(Lot { mint: i as usize, original_price_per_tree: i }),
            Ok(i)
        );
    }
    assert_eq!(
        lots.push(Lot { mint: 10_000, original_price_per_tree: 1 }),
        Err(SeedlotContractsError::LotsFull)
    );
    assert_eq!(lots.tail(), 10_000);
    for i in (0..10_000u64).step_by(997) {
        assert_eq!(lots.get(i).unwrap().original_price_per_tree, i);
    }
}

#[test]
fn offers_push_reports_capacity() {
    let mut offers = Offers::new();
    for i in 0..300u64 {
        assert_eq!(offers.push(Offer { mint: i as usize }), Ok(i));
    }
    assert_eq!(
        offers.push(Offer { mint: 300 }),
        Err(SeedlotContractsError::OffersFull)
    );
}

#[test]
fn lots_remove_swaps_last_into_slot() {
    let mut lots = Lots::new();
    lots.push(Lot { mint: 10, original_price_per_tree: 100 }).unwrap();
    lots.push(Lot { mint: 11, original_price_per_tree: 200 }).unwrap();
    lots.push(Lot { mint: 12, original_price_per_tree: 300 }).unwrap();
    assert_eq!(lots.remove(0), Ok(()));
    assert_eq!(lots.tail(), 2);
    assert_eq!(lots.get(0).unwrap().mint, 12);
    assert_eq!(lots.get(1).unwrap().mint, 11);
    assert_eq!(
        lots.get(2),
        Err(SeedlotContractsError::InvalidLotIndex)
    );
    assert_eq!(
        lots.remove(2),
        Err(SeedlotContractsError::InvalidLotIndex)
    );
}

#[test]
fn verify_order_checks_index_and_mint() {
    let mut market = setup();
    let idx = add_offer(&mut market, &offer_descriptor("500")).unwrap();
    let mint = market.offers.get(idx).unwrap().mint;
    assert_eq!(market.offers.verify_order(idx, mint), Ok(()));
    assert_eq!(
        market.offers.verify_order(idx, mint + 1),
        Err(SeedlotContractsError::OrderMintNotFound)
    );
    assert_eq!(
        market.offers.verify_order(7, mint),
        Err(SeedlotContractsError::InvalidOfferIndex)
    );
}
