//! A marketplace settlement and certification engine for tree lots sold
//! through certified managers to end users.
//!
//! The engine runs atop a distributed ledger whose runtime supplies atomic
//! execution, signer authorization and keyed storage; those collaborators are
//! outside this crate. What the crate holds is the accounting core, stated in
//! contracts and proved: a manager certification tier machine whose tier is a
//! token balance, two fixed-capacity registries (catalog offers and in-flight
//! lots), the order / prepare / confirm lifecycle with its fee splits and
//! reversal, and the harvest payout split. The ledger state the core reads
//! and writes — asset classes, balances and their transfer locks — is modeled
//! explicitly in [`ledger::TokenLedger`].

use vstd::prelude::*;

pub mod certify;
pub mod confirm;
pub mod contract;
pub mod errors;
pub mod harvest;
pub mod ledger;
pub mod lots;
pub mod offers;
pub mod orders;
pub mod utils;

use crate::contract::{Contract, Market};
use crate::errors::{CustodyError, Error};
use crate::ledger::{
    classes_eq_except, holdings_eq_except, AccountId, ClassId, TokenLedger,
};
use crate::lots::Lots;
use crate::offers::Offers;
use crate::utils::{init_mint, mint_metadata_entries, MintMetadata};

verus! {

/// Sets the marketplace up: creates the certification asset class under the
/// contract's derived authority, opens the contract's settlement balance, and
/// returns the assembled marketplace with empty registries. The authority is
/// the ledger environment's deterministic derivation from the admin identity,
/// handed in by the caller. Fails only when the settlement asset class is
/// unknown or closed, leaving the ledger untouched.
pub fn initialize(
    ledger: TokenLedger,
    admin: AccountId,
    authority: AccountId,
    trees_per_lot: u64,
    usdc_mint: ClassId,
    certification_mint_metadata: &MintMetadata,
) -> (r: Result<Market, Error>)
    requires
        ledger.wf(),
    ensures
        r is Ok <==> ledger.spec_valid_class(usdc_mint as int) && !ledger.spec_closed(
            usdc_mint as int,
        ),
        r is Err ==> r == Err::<Market, Error>(Error::Custody(CustodyError::InvalidClass)),
        r matches Ok(m) ==> {
            let cert = ledger.class_count() as int;
            &&& m.wf()
            &&& m.contract.admin == admin
            &&& m.contract.authority == authority
            &&& m.contract.trees_per_lot == trees_per_lot
            &&& m.contract.usdc_mint == usdc_mint
            &&& m.contract.certification_mint as int == cert
            &&& m.offers@ == Seq::<crate::offers::Offer>::empty()
            &&& m.lots@ == Seq::<crate::lots::Lot>::empty()
            &&& m.ledger.class_count() == ledger.class_count() + 1
            &&& m.ledger.spec_valid_class(cert)
            &&& m.ledger.spec_authority(cert) == authority
            &&& m.ledger.spec_default_frozen(cert)
            &&& m.ledger.spec_supply(cert) == 0
            &&& !m.ledger.spec_closed(cert)
            &&& m.ledger.spec_metadata(cert) == mint_metadata_entries(
                *certification_mint_metadata,
            )
            &&& m.ledger.spec_has_holding(usdc_mint as int, authority as int)
            &&& m.ledger.spec_balance(usdc_mint as int, authority as int)
                == ledger.spec_balance(usdc_mint as int, authority as int)
            &&& m.ledger.spec_frozen(usdc_mint as int, authority as int) == (if
            ledger.spec_has_holding(usdc_mint as int, authority as int) {
                ledger.spec_frozen(usdc_mint as int, authority as int)
            } else {
                ledger.spec_default_frozen(usdc_mint as int)
            })
            &&& holdings_eq_except(ledger, m.ledger, usdc_mint as int, authority as int)
            &&& classes_eq_except(ledger, m.ledger, cert)
        },
{
    let mut ledger = ledger;
    let ghost l0 = ledger;
    if !ledger.class_open(usdc_mint) {
        return Err(Error::Custody(CustodyError::InvalidClass));
    }
    let certification_mint = init_mint(&mut ledger, authority, certification_mint_metadata);
    let ghost l1 = ledger;
    proof {
        assert(crate::ledger::class_eq(l0, l1, usdc_mint as int));
        assert(crate::ledger::holding_eq(l0, l1, usdc_mint as int, authority as int));
    }
    match ledger.ensure_holding(usdc_mint, authority) {
        Ok(()) => {},
        Err(_) => {
            proof {
                assert(false);
            }
            return Err(Error::Custody(CustodyError::InvalidClass));
        },
    }
    proof {
        assert(crate::ledger::class_eq(l1, ledger, certification_mint as int));
        assert forall|c2: int| c2 != certification_mint as int implies
            #[trigger] crate::ledger::class_eq(l0, ledger, c2) by {
            assert(crate::ledger::class_eq(l0, l1, c2));
            assert(crate::ledger::class_eq(l1, ledger, c2));
        }
        assert forall|c2: int, o2: int|
            !(c2 == usdc_mint as int && o2 == authority as int) implies
            #[trigger] crate::ledger::holding_eq(l0, ledger, c2, o2) by {
            assert(crate::ledger::holding_eq(l0, l1, c2, o2));
            assert(crate::ledger::holding_eq(l1, ledger, c2, o2));
        }
    }
    let contract = Contract {
        admin,
        authority,
        trees_per_lot,
        certification_mint,
        usdc_mint,
    };
    Ok(Market { contract, offers: Offers::new(), lots: Lots::new(), ledger })
}

} // verus!
