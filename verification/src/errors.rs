use vstd::prelude::*;

verus! {

/// Errors raised by the marketplace's own checks: registry capacity and
/// bounds, certification state-machine violations, malformed offer metadata,
/// and identity mismatches between a caller's claim and the recorded state.
#[derive(Clone, Copy, Debug, PartialEq, Eq, Structural)]
pub enum SeedlotContractsError {
    AdminCannotBeCertified,
    CertificationsMustIncreaseByOneTier,
    CannotCertifyAboveTierFour,
    NoCertificationTierZero,
    ManagerAlreadyDecertified,
    OffersFull,
    InvalidOfferIndex,
    OrderMintNotFound,
    AdditionalMetadataIllFormed,
    InvalidPrice,
    LotsFull,
    ManagerNotCertified,
    InvalidLotIndex,
    LotMintMismatch,
    ManagerMismatch,
    UserMismatch,
}

/// Errors raised by the custody ledger model: every failure an asset-custody
/// operation can report. The marketplace propagates these unchanged.
#[derive(Clone, Copy, Debug, PartialEq, Eq, Structural)]
pub enum CustodyError {
    /// The asset class does not exist or has been closed.
    InvalidClass,
    /// The supplied authority is not the class's controlling authority.
    UnauthorizedController,
    /// The named holder has no balance record for the class.
    UninitializedHolder,
    /// A mint, burn or transfer touched a transfer-locked balance.
    HoldingFrozen,
    /// A freeze of an already-frozen balance, or a thaw of an unfrozen one.
    InvalidState,
    /// The holder's balance is smaller than the amount to remove.
    InsufficientBalance,
    /// A balance or a supply would exceed its representable range.
    ArithmeticOverflow,
    /// A class with outstanding supply cannot be closed.
    SupplyNotZero,
}

/// The error type of every marketplace operation: either one of the
/// marketplace's own checks failed, or a custody operation did.
#[derive(Clone, Copy, Debug, PartialEq, Eq, Structural)]
pub enum Error {
    Program(SeedlotContractsError),
    Custody(CustodyError),
}

} // verus!
