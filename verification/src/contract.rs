//! The contract singleton: the admin's configuration of the marketplace, and
//! the assembled marketplace state every operation runs against.

use vstd::prelude::*;

use crate::ledger::{AccountId, ClassId, TokenLedger};
use crate::lots::Lots;
use crate::offers::Offers;

verus! {

/// The marketplace's configuration, created once at setup: the admin
/// identity, the contract's own derived authority (which controls every
/// representation asset class and holds the contract's settlement balance),
/// the trees-per-lot conversion unit, and the certification and settlement
/// asset classes.
pub struct Contract {
    pub admin: AccountId,
    pub authority: AccountId,
    pub trees_per_lot: u64,
    pub certification_mint: ClassId,
    pub usdc_mint: ClassId,
}

/// The marketplace: its configuration, the two registries, and the custody
/// ledger it settles against.
pub struct Market {
    pub contract: Contract,
    pub offers: Offers,
    pub lots: Lots,
    pub ledger: TokenLedger,
}

impl Market {
    /// The marketplace's invariant: the ledger is consistent, the registries
    /// are within capacity, and the representation asset classes the
    /// registries name exist and are distinct from the certification class
    /// and from each other across the two registries — offers and lots are
    /// each minted as a fresh class when they are listed or prepared.
    pub open spec fn wf(self) -> bool {
        &&& self.ledger.wf()
        &&& self.offers.wf()
        &&& self.lots.wf()
        &&& self.ledger.spec_valid_class(self.contract.certification_mint as int)
        &&& forall|i: int|
            0 <= i < self.offers@.len() ==> ((#[trigger] self.offers@[i]).mint as int)
                < self.ledger.class_count() && self.offers@[i].mint
                != self.contract.certification_mint
        &&& forall|i: int|
            0 <= i < self.lots@.len() ==> ((#[trigger] self.lots@[i]).mint as int)
                < self.ledger.class_count() && self.lots@[i].mint
                != self.contract.certification_mint
        &&& forall|i: int, j: int|
            0 <= i < self.lots@.len() && 0 <= j < self.offers@.len() ==> (
            #[trigger] self.lots@[i]).mint != (#[trigger] self.offers@[j]).mint
        &&& forall|i: int, j: int|
            0 <= i < j < self.lots@.len() ==> (#[trigger] self.lots@[i]).mint != (
            #[trigger] self.lots@[j]).mint
    }
}

} // verus!
