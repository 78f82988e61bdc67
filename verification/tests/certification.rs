use seedlot_contracts::certify::{certify, decertify, CertificationTier};
use seedlot_contracts::contract::Market;
use seedlot_contracts::errors::{Error, SeedlotContractsError};
use seedlot_contracts::initialize;
use seedlot_contracts::ledger::TokenLedger;
use seedlot_contracts::utils::MintMetadata;

const ADMIN: u64 = 1;
const AUTH: u64 = 2;
const MANAGER: u64 = 3;
const BANK: u64 = 5;

fn cert_descriptor() -> MintMetadata {
    MintMetadata {
        name: "Seedlot Certification".to_string(),
        symbol: "SC".to_string(),
        uri: String::new(),
        location_variety_price: None,
        manager_for_lot: None,
    }
}

fn setup() -> Market {
    let mut ledger = TokenLedger::new();
    let usdc = ledger.create_class(BANK, false, None, Vec::new());
    initialize(ledger, ADMIN, AUTH, 10, usdc, &cert_descriptor()).unwrap()
}

fn tier_balance(market: &Market, manager: u64) -> u64 {
    market.ledger.balance(market.contract.certification_mint, manager)
}

#[test]
fn certify_steps_one_tier_at_a_time() {
    let mut market = setup();
    assert_eq!(
        certify(&mut market, MANAGER, CertificationTier::Tier2),
        Err(Error::Program(
            SeedlotContractsError::CertificationsMustIncreaseByOneTier
        ))
    );
    assert_eq!(certify(&mut market, MANAGER, CertificationTier::Tier1), Ok(()));
    assert_eq!(certify(&mut market, MANAGER, CertificationTier::Tier2), Ok(()));
    assert_eq!(tier_balance(&market, MANAGER), 2);
    assert_eq!(
        certify(&mut market, MANAGER, CertificationTier::Tier4),
        Err(Error::Program(
            SeedlotContractsError::CertificationsMustIncreaseByOneTier
        ))
    );
}

#[test]
fn certify_rejects_undefined_and_decertified_targets() {
    let mut market = setup();
    assert_eq!(
        certify(&mut market, MANAGER, CertificationTier::Undefined),
        Err(Error::Program(SeedlotContractsError::NoCertificationTierZero))
    );
    assert_eq!(
        certify(&mut market, MANAGER, CertificationTier::Decertified),
        Err(Error::Program(SeedlotContractsError::CannotCertifyAboveTierFour))
    );
}

#[test]
fn certify_rejects_admin_self_certification() {
    let mut market = setup();
    assert_eq!(
        certify(&mut market, ADMIN, CertificationTier::Tier1),
        Err(Error::Program(SeedlotContractsError::AdminCannotBeCertified))
    );
    assert_eq!(
        decertify(&mut market, ADMIN),
        Err(Error::Program(SeedlotContractsError::AdminCannotBeCertified))
    );
}

#[test]
fn decertify_jumps_to_sentinel_from_every_tier() {
    for start in 0u64..=4 {
        let mut market = setup();
        for step in 1..=start {
            let tier = CertificationTier::from_ordinal(step).unwrap();
            assert_eq!(certify(&mut market, MANAGER, tier), Ok(()));
        }
        assert_eq!(tier_balance(&market, MANAGER), start);
        assert_eq!(decertify(&mut market, MANAGER), Ok(()));
        assert_eq!(tier_balance(&market, MANAGER), 5);
        assert_eq!(
            decertify(&mut market, MANAGER),
            Err(Error::Program(SeedlotContractsError::ManagerAlreadyDecertified))
        );
    }
}

#[test]
fn certify_rejects_decertified_manager() {
    let mut market = setup();
    assert_eq!(certify(&mut market, MANAGER, CertificationTier::Tier1), Ok(()));
    assert_eq!(decertify(&mut market, MANAGER), Ok(()));
    assert_eq!(
        certify(&mut market, MANAGER, CertificationTier::Tier1),
        Err(Error::Program(SeedlotContractsError::ManagerAlreadyDecertified))
    );
}

#[test]
fn tier_ordinals_round_trip() {
    for n in 0u64..=5 {
        let tier = CertificationTier::from_ordinal(n).unwrap();
        assert_eq!(tier.ordinal(), n);
    }
    assert_eq!(CertificationTier::from_ordinal(6), None);
}
