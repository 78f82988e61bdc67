//! The certification state machine. A manager's tier is the balance of a
//! non-transferable certification token: certifying mints one token per step,
//! decertifying jumps the balance straight to the terminal sentinel. The
//! admin cannot certify itself, and a decertified manager is terminal.

use vstd::prelude::*;

use crate::contract::Market;
use crate::errors::{CustodyError, Error, SeedlotContractsError};
use crate::ledger::{
    class_eq, class_eq_except_supply, classes_eq_except, holding_eq, AccountId,
};
use crate::utils::mint_frozen_tokens_to;

verus! {

/// A manager's certification tier, ordered by its ordinal. `Undefined` is the
/// starting state; `Decertified` is terminal — it can no longer be used for
/// certification.
#[derive(Clone, Copy, Debug, PartialEq, Eq, Structural)]
pub enum CertificationTier {
    Undefined,
    Tier1,
    Tier2,
    Tier3,
    Tier4,
    Decertified,
}

impl CertificationTier {
    /// The tier's ordinal, which is also the certification-token balance that
    /// represents it.
    pub open spec fn spec_ordinal(self) -> u64 {
        match self {
            CertificationTier::Undefined => 0,
            CertificationTier::Tier1 => 1,
            CertificationTier::Tier2 => 2,
            CertificationTier::Tier3 => 3,
            CertificationTier::Tier4 => 4,
            CertificationTier::Decertified => 5,
        }
    }

    /// The tier's ordinal.
    pub fn ordinal(&self) -> (n: u64)
        ensures
            n == self.spec_ordinal(),
    {
        match self {
            CertificationTier::Undefined => 0,
            CertificationTier::Tier1 => 1,
            CertificationTier::Tier2 => 2,
            CertificationTier::Tier3 => 3,
            CertificationTier::Tier4 => 4,
            CertificationTier::Decertified => 5,
        }
    }

    /// The tier a certification-token balance represents, when it is one.
    pub fn from_ordinal(n: u64) -> (r: Option<CertificationTier>)
        ensures
            r matches Some(t) ==> t.spec_ordinal() == n,
            r is None <==> n > 5,
    {
        match n {
            0 => Some(CertificationTier::Undefined),
            1 => Some(CertificationTier::Tier1),
            2 => Some(CertificationTier::Tier2),
            3 => Some(CertificationTier::Tier3),
            4 => Some(CertificationTier::Tier4),
            5 => Some(CertificationTier::Decertified),
            _ => None,
        }
    }
}

/// When the certification mint can issue `amount` tokens to `manager`'s
/// transfer-locked record: the class exists, is open and is the contract's,
/// the record is locked (or will be created locked), and the supply fits.
pub open spec fn cert_mint_ok(m: Market, manager: AccountId, amount: u64) -> bool {
    let cert = m.contract.certification_mint as int;
    &&& m.ledger.spec_valid_class(cert)
    &&& !m.ledger.spec_closed(cert)
    &&& m.ledger.spec_authority(cert) == m.contract.authority
    &&& (if m.ledger.spec_has_holding(cert, manager as int) {
        m.ledger.spec_frozen(cert, manager as int)
    } else {
        m.ledger.spec_default_frozen(cert)
    })
    &&& m.ledger.spec_supply(cert) + amount <= u64::MAX
}

/// The custody error a failing certification mint reports, in the order the
/// custody service checks: an unknown or closed class, a foreign controller,
/// an unlocked resting holding, and finally a supply that would overflow.
/// Meaningful only when `cert_mint_ok` fails.
pub open spec fn cert_mint_error(m: Market, manager: AccountId, amount: u64) -> CustodyError {
    let cert = m.contract.certification_mint as int;
    if !(m.ledger.spec_valid_class(cert) && !m.ledger.spec_closed(cert)) {
        CustodyError::InvalidClass
    } else if m.ledger.spec_authority(cert) != m.contract.authority {
        CustodyError::UnauthorizedController
    } else if !(if m.ledger.spec_has_holding(cert, manager as int) {
        m.ledger.spec_frozen(cert, manager as int)
    } else {
        m.ledger.spec_default_frozen(cert)
    }) {
        CustodyError::InvalidState
    } else {
        CustodyError::ArithmeticOverflow
    }
}

/// When a certification succeeds: the manager is not the admin, the target
/// tier is a real tier (not `Undefined`, not `Decertified`), the manager is
/// not already decertified, the step raises the balance by exactly one, and
/// the certification mint can issue the token.
pub open spec fn certify_accepts(m: Market, manager: AccountId, new_tier: CertificationTier) -> bool {
    let bal = m.ledger.spec_balance(m.contract.certification_mint as int, manager as int);
    &&& manager != m.contract.admin
    &&& new_tier != CertificationTier::Undefined
    &&& new_tier != CertificationTier::Decertified
    &&& bal != CertificationTier::Decertified.spec_ordinal()
    &&& bal + 1 == new_tier.spec_ordinal()
    &&& cert_mint_ok(m, manager, 1)
}

/// Certifies `manager` to `new_tier`: mints one transfer-locked certification
/// token, so the balance equals the new tier's ordinal. Fails unless the new
/// tier is exactly one step above the current balance; a failing call leaves
/// the marketplace untouched.
pub fn certify(market: &mut Market, manager: AccountId, new_tier: CertificationTier) -> (r: Result<
    (),
    Error,
>)
    requires
        old(market).wf(),
    ensures
        final(market).wf(),
        r is Ok <==> certify_accepts(*old(market), manager, new_tier),
        r is Err ==> *final(market) == *old(market),
        r == Err::<(), Error>(Error::Program(SeedlotContractsError::AdminCannotBeCertified))
            <==> manager == old(market).contract.admin,
        r == Err::<(), Error>(Error::Program(SeedlotContractsError::NoCertificationTierZero))
            <==> manager != old(market).contract.admin && new_tier
            == CertificationTier::Undefined,
        r == Err::<(), Error>(Error::Program(SeedlotContractsError::CannotCertifyAboveTierFour))
            <==> manager != old(market).contract.admin && new_tier
            == CertificationTier::Decertified,
        r == Err::<(), Error>(Error::Program(SeedlotContractsError::ManagerAlreadyDecertified))
            <==> manager != old(market).contract.admin && new_tier
            != CertificationTier::Undefined && new_tier != CertificationTier::Decertified && old(
            market,
        ).ledger.spec_balance(old(market).contract.certification_mint as int, manager as int)
            == CertificationTier::Decertified.spec_ordinal(),
        r == Err::<(), Error>(
            Error::Program(SeedlotContractsError::CertificationsMustIncreaseByOneTier),
        ) <==> {
            let bal = old(market).ledger.spec_balance(
                old(market).contract.certification_mint as int,
                manager as int,
            );
            &&& manager != old(market).contract.admin
            &&& new_tier != CertificationTier::Undefined
            &&& new_tier != CertificationTier::Decertified
            &&& bal != CertificationTier::Decertified.spec_ordinal()
            &&& bal + 1 != new_tier.spec_ordinal()
        },
        r matches Err(Error::Custody(_)) <==> {
            let bal = old(market).ledger.spec_balance(
                old(market).contract.certification_mint as int,
                manager as int,
            );
            &&& manager != old(market).contract.admin
            &&& new_tier != CertificationTier::Undefined
            &&& new_tier != CertificationTier::Decertified
            &&& bal != CertificationTier::Decertified.spec_ordinal()
            &&& bal + 1 == new_tier.spec_ordinal()
            &&& !cert_mint_ok(*old(market), manager, 1)
        },
        r matches Err(Error::Custody(e)) ==> e == cert_mint_error(*old(market), manager, 1),
        r is Ok ==> {
            let cert = old(market).contract.certification_mint as int;
            &&& final(market).ledger.spec_balance(cert, manager as int)
                == new_tier.spec_ordinal()
            &&& final(market).ledger.spec_frozen(cert, manager as int)
            &&& final(market).ledger.spec_supply(cert) == old(market).ledger.spec_supply(cert)
                + 1
            &&& forall|c2: int, o2: int|
                !(c2 == cert && o2 == manager as int) ==> #[trigger] holding_eq(
                    old(market).ledger,
                    final(market).ledger,
                    c2,
                    o2,
                )
            &&& classes_eq_except(old(market).ledger, final(market).ledger, cert)
            &&& class_eq_except_supply(old(market).ledger, final(market).ledger, cert)
            &&& final(market).ledger.class_count() == old(market).ledger.class_count()
            &&& final(market).offers == old(market).offers
            &&& final(market).lots == old(market).lots
            &&& final(market).contract == old(market).contract
        },
{
    if manager == market.contract.admin {
        return Err(Error::Program(SeedlotContractsError::AdminCannotBeCertified));
    }
    if new_tier == CertificationTier::Undefined {
        return Err(Error::Program(SeedlotContractsError::NoCertificationTierZero));
    }
    if new_tier == CertificationTier::Decertified {
        return Err(Error::Program(SeedlotContractsError::CannotCertifyAboveTierFour));
    }
    let cert = market.contract.certification_mint;
    let auth = market.contract.authority;
    let current_certification = market.ledger.balance(cert, manager);
    if current_certification == CertificationTier::Decertified.ordinal() {
        return Err(Error::Program(SeedlotContractsError::ManagerAlreadyDecertified));
    }
    let new_tier_number = new_tier.ordinal();
    if current_certification != new_tier_number - 1 {
        return Err(Error::Program(SeedlotContractsError::CertificationsMustIncreaseByOneTier));
    }
    mint_one_tier_step(market, manager, 1)
}

/// When a decertification succeeds: the manager is not the admin, is not
/// already decertified, and the certification mint can issue the tokens that
/// jump the balance to the sentinel.
pub open spec fn decertify_accepts(m: Market, manager: AccountId) -> bool {
    let bal = m.ledger.spec_balance(m.contract.certification_mint as int, manager as int);
    &&& manager != m.contract.admin
    &&& bal != CertificationTier::Decertified.spec_ordinal()
    &&& cert_mint_ok(m, manager, (CertificationTier::Decertified.spec_ordinal() - bal) as u64)
}

/// Decertifies `manager`: mints exactly the certification tokens needed to
/// set the balance to the terminal sentinel's ordinal, whatever the starting
/// tier. Fails when the manager is already decertified; a failing call leaves
/// the marketplace untouched. A certification balance is a tier ordinal, so
/// it never exceeds the sentinel's.
pub fn decertify(market: &mut Market, manager: AccountId) -> (r: Result<(), Error>)
    requires
        old(market).wf(),
        old(market).ledger.spec_balance(
            old(market).contract.certification_mint as int,
            manager as int,
        ) <= CertificationTier::Decertified.spec_ordinal(),
    ensures
        final(market).wf(),
        r is Ok <==> decertify_accepts(*old(market), manager),
        r is Err ==> *final(market) == *old(market),
        r == Err::<(), Error>(Error::Program(SeedlotContractsError::AdminCannotBeCertified))
            <==> manager == old(market).contract.admin,
        r == Err::<(), Error>(Error::Program(SeedlotContractsError::ManagerAlreadyDecertified))
            <==> manager != old(market).contract.admin && old(market).ledger.spec_balance(
            old(market).contract.certification_mint as int,
            manager as int,
        ) == CertificationTier::Decertified.spec_ordinal(),
        r matches Err(Error::Custody(e)) ==> e == cert_mint_error(
            *old(market),
            manager,
            (CertificationTier::Decertified.spec_ordinal() - old(market).ledger.spec_balance(
                old(market).contract.certification_mint as int,
                manager as int,
            )) as u64,
        ),
        r is Ok ==> {
            let cert = old(market).contract.certification_mint as int;
            &&& final(market).ledger.spec_balance(cert, manager as int)
                == CertificationTier::Decertified.spec_ordinal()
            &&& final(market).ledger.spec_frozen(cert, manager as int)
            &&& final(market).ledger.spec_supply(cert) == old(market).ledger.spec_supply(cert)
                + (CertificationTier::Decertified.spec_ordinal() - old(market).ledger.spec_balance(
                cert,
                manager as int,
            ))
            &&& forall|c2: int, o2: int|
                !(c2 == cert && o2 == manager as int) ==> #[trigger] holding_eq(
                    old(market).ledger,
                    final(market).ledger,
                    c2,
                    o2,
                )
            &&& classes_eq_except(old(market).ledger, final(market).ledger, cert)
            &&& class_eq_except_supply(old(market).ledger, final(market).ledger, cert)
            &&& final(market).ledger.class_count() == old(market).ledger.class_count()
            &&& final(market).offers == old(market).offers
            &&& final(market).lots == old(market).lots
            &&& final(market).contract == old(market).contract
        },
{
    if manager == market.contract.admin {
        return Err(Error::Program(SeedlotContractsError::AdminCannotBeCertified));
    }
    let cert = market.contract.certification_mint;
    let decertified_tier_as_u64 = CertificationTier::Decertified.ordinal();
    let current_number_of_certification_tokens = market.ledger.balance(cert, manager);
    if current_number_of_certification_tokens == decertified_tier_as_u64 {
        return Err(Error::Program(SeedlotContractsError::ManagerAlreadyDecertified));
    }
    let number_of_tokens_needed_to_decertify = decertified_tier_as_u64
        - current_number_of_certification_tokens;
    mint_one_tier_step(market, manager, number_of_tokens_needed_to_decertify)
}

/// Issues `amount` certification tokens to `manager`'s transfer-locked
/// record, creating the record if the manager holds none yet.
fn mint_one_tier_step(market: &mut Market, manager: AccountId, amount: u64) -> (r: Result<
    (),
    Error,
>)
    requires
        old(market).wf(),
    ensures
        final(market).wf(),
        r is Ok <==> cert_mint_ok(*old(market), manager, amount),
        r is Err ==> *final(market) == *old(market) && r == Err::<(), Error>(
            Error::Custody(cert_mint_error(*old(market), manager, amount)),
        ),
        r is Ok ==> {
            let cert = old(market).contract.certification_mint as int;
            &&& final(market).ledger.spec_balance(cert, manager as int) == old(
                market,
            ).ledger.spec_balance(cert, manager as int) + amount
            &&& final(market).ledger.spec_frozen(cert, manager as int)
            &&& final(market).ledger.spec_supply(cert) == old(market).ledger.spec_supply(cert)
                + amount
            &&& forall|c2: int, o2: int|
                !(c2 == cert && o2 == manager as int) ==> #[trigger] holding_eq(
                    old(market).ledger,
                    final(market).ledger,
                    c2,
                    o2,
                )
            &&& classes_eq_except(old(market).ledger, final(market).ledger, cert)
            &&& class_eq_except_supply(old(market).ledger, final(market).ledger, cert)
            &&& final(market).ledger.class_count() == old(market).ledger.class_count()
            &&& final(market).offers == old(market).offers
            &&& final(market).lots == old(market).lots
            &&& final(market).contract == old(market).contract
        },
{
    let cert = market.contract.certification_mint;
    let auth = market.contract.authority;
    if !market.ledger.class_open(cert) {
        return Err(Error::Custody(CustodyError::InvalidClass));
    }
    match market.ledger.class_authority(cert) {
        Some(a) => {
            if a != auth {
                return Err(Error::Custody(CustodyError::UnauthorizedController));
            }
        },
        None => {
            return Err(Error::Custody(CustodyError::InvalidClass));
        },
    }
    let frozen_ok = match market.ledger.holding_frozen(cert, manager) {
        Some(f) => f,
        None => match market.ledger.class_default_frozen(cert) {
            Some(d) => d,
            None => false,
        },
    };
    if !frozen_ok {
        return Err(Error::Custody(CustodyError::InvalidState));
    }
    let sup = match market.ledger.supply(cert) {
        Some(s) => s,
        None => {
            return Err(Error::Custody(CustodyError::InvalidClass));
        },
    };
    if amount > u64::MAX - sup {
        return Err(Error::Custody(CustodyError::ArithmeticOverflow));
    }
    let ghost l0 = market.ledger;
    match market.ledger.ensure_holding(cert, manager) {
        Ok(()) => {},
        Err(_) => {
            proof {
                assert(false);
            }
            return Err(Error::Custody(CustodyError::InvalidClass));
        },
    }
    let ghost l1 = market.ledger;
    match mint_frozen_tokens_to(&mut market.ledger, cert, manager, amount, auth) {
        Ok(()) => {},
        Err(_) => {
            proof {
                assert(class_eq(l0, l1, cert as int));
                assert(false);
            }
            return Err(Error::Custody(CustodyError::InvalidClass));
        },
    }
    proof {
        assert(class_eq(l0, l1, cert as int));
        assert forall|c2: int, o2: int|
            !(c2 == cert as int && o2 == manager as int) implies #[trigger] holding_eq(
            l0,
            market.ledger,
            c2,
            o2,
        ) by {
            assert(holding_eq(l0, l1, c2, o2));
            assert(holding_eq(l1, market.ledger, c2, o2));
        }
        assert forall|c2: int| c2 != cert as int implies #[trigger] class_eq(
            l0,
            market.ledger,
            c2,
        ) by {
            assert(class_eq(l0, l1, c2));
            assert(class_eq(l1, market.ledger, c2));
        }
    }
    Ok(())
}

} // verus!
