use seedlot_contracts::errors::{Error, SeedlotContractsError};
use seedlot_contracts::utils::{price_cents_2_usdc, price_string_2_cents};

#[test]
fn parses_plain_price() {
    assert_eq!(price_string_2_cents(&"500".to_string()), Ok(500));
    assert_eq!(price_string_2_cents(&"0".to_string()), Ok(0));
    assert_eq!(price_string_2_cents(&"007".to_string()), Ok(7));
}

#[test]
fn parses_leading_plus() {
    assert_eq!(price_string_2_cents(&"+7".to_string()), Ok(7));
}

#[test]
fn parses_largest_value() {
    assert_eq!(
        price_string_2_cents(&"18446744073709551615".to_string()),
        Ok(u64::MAX)
    );
}

#[test]
fn rejects_overflowing_value() {
    assert_eq!(
        price_string_2_cents(&"18446744073709551616".to_string()),
        Err(Error::Program(SeedlotContractsError::InvalidPrice))
    );
}

#[test]
fn rejects_empty_and_sign_only() {
    assert_eq!(
        price_string_2_cents(&String::new()),
        Err(Error::Program(SeedlotContractsError::InvalidPrice))
    );
    assert_eq!(
        price_string_2_cents(&"+".to_string()),
        Err(Error::Program(SeedlotContractsError::InvalidPrice))
    );
}

#[test]
fn rejects_non_digits() {
    assert_eq!(
        price_string_2_cents(&"abc".to_string()),
        Err(Error::Program(SeedlotContractsError::InvalidPrice))
    );
    assert_eq!(
        price_string_2_cents(&"12x3".to_string()),
        Err(Error::Program(SeedlotContractsError::InvalidPrice))
    );
    assert_eq!(
        price_string_2_cents(&"-5".to_string()),
        Err(Error::Program(SeedlotContractsError::InvalidPrice))
    );
    assert_eq!(
        price_string_2_cents(&"1 2".to_string()),
        Err(Error::Program(SeedlotContractsError::InvalidPrice))
    );
}

#[test]
fn converts_cents_to_settlement_units() {
    assert_eq!(price_cents_2_usdc(&500), 5_000_000);
    assert_eq!(price_cents_2_usdc(&0), 0);
    assert_eq!(price_cents_2_usdc(&1), 10_000);
}
