//! The confirmation flow. Confirming a prepared lot releases the remaining
//! nine tenths of the lot total to the manager and permanently unlocks the
//! buyer's lot tokens — the only path that ever leaves a representation
//! holding transferable. Rejecting a lot decertifies the manager, refunds the
//! buyer in kind with freshly minted order tokens, burns the lot tokens,
//! closes the lot's asset class, and removes the lot record; the admin funds
//! the return of the advance to the contract.

use vstd::prelude::*;

use crate::certify::CertificationTier;
use crate::contract::Market;
use crate::errors::{CustodyError, Error, SeedlotContractsError};
use crate::ledger::{
    class_eq, class_eq_except_supply, holding_eq, meta_update, AccountId, ClassId, MetaKey,
};
use crate::lots::LotState;
use crate::orders::order_total;
use crate::utils::{
    advance_fee, burn_frozen_tokens_from, mint_frozen_tokens_to, price_cents_2_usdc, price_units,
    remaining_fee,
};

verus! {

/// Whether confirmation's preliminary checks pass: the lot record exists and
/// names the caller's lot class, the originating offer is verified against
/// the catalog, and the lot class is readable.
pub open spec fn confirm_lots_checks(
    m: Market,
    offer_index: u64,
    lot_index: u64,
    lot_mint: ClassId,
    order_mint: ClassId,
) -> bool {
    &&& lot_index < m.lots@.len()
    &&& m.lots@[lot_index as int].mint == lot_mint
    &&& offer_index < m.offers@.len()
    &&& m.offers@[offer_index as int].mint == order_mint
    &&& m.ledger.spec_valid_class(lot_mint as int)
    &&& !m.ledger.spec_closed(lot_mint as int)
}

/// The lot total a confirmation settles: the price per tree captured at
/// preparation, in settlement units, times the trees per lot, times the lot
/// class's outstanding supply.
pub open spec fn confirm_total(m: Market, lot_index: u64, lot_mint: ClassId) -> int {
    order_total(
        m.lots@[lot_index as int].original_price_per_tree,
        m.ledger.spec_supply(lot_mint as int),
        m.contract.trees_per_lot,
    )
}

/// When a confirmation succeeds: the preliminary checks pass, the contract's
/// settlement balance covers the manager's remainder, and the buyer's locked
/// lot holding can be released.
pub open spec fn confirm_lots_accepts_confirmed(
    m: Market,
    offer_index: u64,
    lot_index: u64,
    lot_mint: ClassId,
    order_mint: ClassId,
    user: AccountId,
    manager: AccountId,
) -> bool {
    &&& confirm_lots_checks(m, offer_index, lot_index, lot_mint, order_mint)
    &&& {
        let total = confirm_total(m, lot_index, lot_mint) as u64;
        let rem = remaining_fee(total) as u64;
        let usdc = m.contract.usdc_mint as int;
        let auth = m.contract.authority;
        &&& m.ledger.spec_authority(lot_mint as int) == auth
        &&& m.ledger.spec_has_holding(lot_mint as int, user as int)
        &&& m.ledger.spec_frozen(lot_mint as int, user as int)
        &&& m.ledger.spec_valid_class(usdc)
        &&& !m.ledger.spec_closed(usdc)
        &&& m.ledger.spec_has_holding(usdc, auth as int)
        &&& !m.ledger.spec_frozen(usdc, auth as int)
        &&& rem <= m.ledger.spec_balance(usdc, auth as int)
        &&& m.ledger.spec_has_holding(usdc, manager as int)
        &&& !m.ledger.spec_frozen(usdc, manager as int)
        &&& (manager != auth ==> m.ledger.spec_balance(usdc, manager as int) + rem <= u64::MAX)
    }
}

/// When a rejection succeeds: the preliminary checks pass, the manager is not
/// already decertified and can be jumped to the sentinel, the admin can fund
/// the return of the advance, the buyer's order tokens can be minted back,
/// and the buyer's locked lot holding covers the burn.
pub open spec fn confirm_lots_accepts_rejected(
    m: Market,
    offer_index: u64,
    lot_index: u64,
    lot_mint: ClassId,
    order_mint: ClassId,
    user: AccountId,
    manager: AccountId,
) -> bool {
    &&& confirm_lots_checks(m, offer_index, lot_index, lot_mint, order_mint)
    &&& {
        let total = confirm_total(m, lot_index, lot_mint) as u64;
        let fee = advance_fee(total) as u64;
        let prepared = m.ledger.spec_supply(lot_mint as int);
        let usdc = m.contract.usdc_mint as int;
        let cert = m.contract.certification_mint as int;
        let auth = m.contract.authority;
        let admin = m.contract.admin;
        let bal = m.ledger.spec_balance(cert, manager as int);
        &&& bal != CertificationTier::Decertified.spec_ordinal()
        &&& !m.ledger.spec_closed(cert)
        &&& m.ledger.spec_authority(cert) == auth
        &&& m.ledger.spec_has_holding(cert, manager as int)
        &&& m.ledger.spec_frozen(cert, manager as int)
        &&& m.ledger.spec_supply(cert) + (CertificationTier::Decertified.spec_ordinal() - bal)
            <= u64::MAX
        &&& m.ledger.spec_valid_class(usdc)
        &&& !m.ledger.spec_closed(usdc)
        &&& m.ledger.spec_has_holding(usdc, admin as int)
        &&& !m.ledger.spec_frozen(usdc, admin as int)
        &&& fee <= m.ledger.spec_balance(usdc, admin as int)
        &&& m.ledger.spec_has_holding(usdc, auth as int)
        &&& !m.ledger.spec_frozen(usdc, auth as int)
        &&& (admin != auth ==> m.ledger.spec_balance(usdc, auth as int) + fee <= u64::MAX)
        &&& m.ledger.spec_valid_class(order_mint as int)
        &&& !m.ledger.spec_closed(order_mint as int)
        &&& m.ledger.spec_authority(order_mint as int) == auth
        &&& m.ledger.spec_has_holding(order_mint as int, user as int)
        &&& m.ledger.spec_frozen(order_mint as int, user as int)
        &&& m.ledger.spec_supply(order_mint as int) + prepared <= u64::MAX
        &&& m.ledger.spec_authority(lot_mint as int) == auth
        &&& m.ledger.spec_has_holding(lot_mint as int, user as int)
        &&& m.ledger.spec_frozen(lot_mint as int, user as int)
        &&& prepared <= m.ledger.spec_balance(lot_mint as int, user as int)
    }
}

/// The custody error a failing settlement reports, in the order the checks
/// run. Confirming needs a readable, contract-controlled lot class with the
/// buyer's record locked, then a feasible remainder transfer. Rejecting needs
/// the certification mint, the admin's funding transfer, the order re-mint
/// and the lot burn to be feasible in that order. Meaningful only when the
/// settlement's custody stage fails.
pub open spec fn confirm_lots_custody_error(
    m: Market,
    confirmed: bool,
    lot_index: u64,
    lot_mint: ClassId,
    order_mint: ClassId,
    user: AccountId,
    manager: AccountId,
) -> CustodyError {
    let auth = m.contract.authority;
    let usdc = m.contract.usdc_mint as int;
    let cert = m.contract.certification_mint as int;
    let admin = m.contract.admin;
    let total = confirm_total(m, lot_index, lot_mint) as u64;
    let prepared = m.ledger.spec_supply(lot_mint as int);
    let needed = CertificationTier::Decertified.spec_ordinal() - m.ledger.spec_balance(
        cert,
        manager as int,
    );
    if !(m.ledger.spec_valid_class(lot_mint as int) && !m.ledger.spec_closed(lot_mint as int)) {
        CustodyError::InvalidClass
    } else if confirmed {
        if m.ledger.spec_authority(lot_mint as int) != auth {
            CustodyError::UnauthorizedController
        } else if !m.ledger.spec_has_holding(lot_mint as int, user as int) {
            CustodyError::UninitializedHolder
        } else if !m.ledger.spec_frozen(lot_mint as int, user as int) {
            CustodyError::InvalidState
        } else if !(m.ledger.spec_valid_class(usdc) && !m.ledger.spec_closed(usdc)) {
            CustodyError::InvalidClass
        } else if !m.ledger.spec_has_holding(usdc, auth as int) {
            CustodyError::UninitializedHolder
        } else if m.ledger.spec_frozen(usdc, auth as int) {
            CustodyError::HoldingFrozen
        } else if remaining_fee(total) as u64 > m.ledger.spec_balance(usdc, auth as int) {
            CustodyError::InsufficientBalance
        } else if !m.ledger.spec_has_holding(usdc, manager as int) {
            CustodyError::UninitializedHolder
        } else if m.ledger.spec_frozen(usdc, manager as int) {
            CustodyError::HoldingFrozen
        } else {
            CustodyError::ArithmeticOverflow
        }
    } else {
        if !(m.ledger.spec_valid_class(cert) && !m.ledger.spec_closed(cert)) {
            CustodyError::InvalidClass
        } else if m.ledger.spec_authority(cert) != auth {
            CustodyError::UnauthorizedController
        } else if !m.ledger.spec_has_holding(cert, manager as int) {
            CustodyError::UninitializedHolder
        } else if !m.ledger.spec_frozen(cert, manager as int) {
            CustodyError::InvalidState
        } else if m.ledger.spec_supply(cert) + needed > u64::MAX {
            CustodyError::ArithmeticOverflow
        } else if !(m.ledger.spec_valid_class(usdc) && !m.ledger.spec_closed(usdc)) {
            CustodyError::InvalidClass
        } else if !m.ledger.spec_has_holding(usdc, admin as int) {
            CustodyError::UninitializedHolder
        } else if m.ledger.spec_frozen(usdc, admin as int) {
            CustodyError::HoldingFrozen
        } else if advance_fee(total) as u64 > m.ledger.spec_balance(usdc, admin as int) {
            CustodyError::InsufficientBalance
        } else if !m.ledger.spec_has_holding(usdc, auth as int) {
            CustodyError::UninitializedHolder
        } else if m.ledger.spec_frozen(usdc, auth as int) {
            CustodyError::HoldingFrozen
        } else if admin != auth && m.ledger.spec_balance(usdc, auth as int) + advance_fee(total)
            as u64 > u64::MAX {
            CustodyError::ArithmeticOverflow
        } else if !(m.ledger.spec_valid_class(order_mint as int) && !m.ledger.spec_closed(
            order_mint as int,
        )) {
            CustodyError::InvalidClass
        } else if m.ledger.spec_authority(order_mint as int) != auth {
            CustodyError::UnauthorizedController
        } else if !m.ledger.spec_has_holding(order_mint as int, user as int) {
            CustodyError::UninitializedHolder
        } else if !m.ledger.spec_frozen(order_mint as int, user as int) {
            CustodyError::InvalidState
        } else if m.ledger.spec_supply(order_mint as int) + prepared > u64::MAX {
            CustodyError::ArithmeticOverflow
        } else if m.ledger.spec_authority(lot_mint as int) != auth {
            CustodyError::UnauthorizedController
        } else if !m.ledger.spec_has_holding(lot_mint as int, user as int) {
            CustodyError::UninitializedHolder
        } else if !m.ledger.spec_frozen(lot_mint as int, user as int) {
            CustodyError::InvalidState
        } else {
            CustodyError::InsufficientBalance
        }
    }
}

/// The advance and the remainder of a lot total that divides evenly by ten
/// add up to the whole total: across preparation and confirmation the manager
/// is paid exactly the lot total.
pub proof fn lemma_advance_plus_remainder(total: u64)
    requires
        total % 10 == 0,
    ensures
        advance_fee(total) + remaining_fee(total) == total,
{
    let k = total as int / 10;
    vstd::arithmetic::div_mod::lemma_fundamental_div_mod(total as int, 10);
    assert(total as int == 10 * k);
    assert(total as int * 9 == 10 * (9 * k)) by (nonlinear_arith)
        requires
            total as int == 10 * k,
    ;
    vstd::arithmetic::div_mod::lemma_div_multiples_vanish(9 * k, 10);
}

/// Every lot total divides evenly by ten: the cents-to-units scale carries a
/// factor of ten, so the ten-percent advance never truncates.
pub proof fn lemma_lot_total_divisible(price_cents: u64, qty: u64, trees: u64)
    ensures
        order_total(price_cents, qty, trees) % 10 == 0,
{
    let x = price_cents as int * 1000;
    let q = qty as int;
    let t = trees as int;
    assert((x * 10) * q * t == (x * q * t) * 10) by (nonlinear_arith);
    assert(order_total(price_cents, qty, trees) == (x * q * t) * 10);
    vstd::arithmetic::div_mod::lemma_mod_multiples_basic(x * q * t, 10);
}

/// Across the two operations the manager is paid the whole lot total: the
/// advance preparation pays and the remainder confirmation pays add up to
/// exactly the total computed from the same price, quantity and conversion
/// unit.
pub proof fn lemma_manager_paid_in_full(price_cents: u64, qty: u64, trees: u64)
    requires
        order_total(price_cents, qty, trees) <= u64::MAX,
    ensures
        advance_fee(order_total(price_cents, qty, trees) as u64) + remaining_fee(
            order_total(price_cents, qty, trees) as u64,
        ) == order_total(price_cents, qty, trees),
{
    lemma_lot_total_divisible(price_cents, qty, trees);
    let t = order_total(price_cents, qty, trees) as u64;
    assert(order_total(price_cents, qty, trees) >= 0) by (nonlinear_arith);
    assert(t % 10 == 0) by {
        vstd::arithmetic::div_mod::lemma_mod_bound(order_total(price_cents, qty, trees), 10);
    }
    lemma_advance_plus_remainder(t);
}

/// Settles a prepared lot. With `confirmed` true: pays the manager the
/// remaining nine tenths of the lot total from the contract's settlement
/// balance, tags the lot class's metadata as growing, and permanently unlocks
/// the buyer's lot holding. With `confirmed` false: decertifies the manager,
/// returns a tenth of the total from the admin's settlement balance to the
/// contract's, mints the buyer's order tokens back, burns the buyer's lot
/// tokens, closes the lot class, and removes the lot record. A failing call
/// leaves the marketplace untouched. A certification balance is a tier
/// ordinal, so it never exceeds the sentinel's; the lot total and, when
/// confirming, nine times it must fit the settlement balance range.
pub fn confirm_lots(
    market: &mut Market,
    confirmed: bool,
    offer_index: u64,
    lot_index: u64,
    lot_mint: ClassId,
    order_mint: ClassId,
    user: AccountId,
    manager: AccountId,
) -> (r: Result<(), Error>)
    requires
        old(market).wf(),
        confirm_lots_checks(*old(market), offer_index, lot_index, lot_mint, order_mint) ==> {
            let p = old(market).lots@[lot_index as int].original_price_per_tree;
            let total = confirm_total(*old(market), lot_index, lot_mint);
            &&& price_units(p) <= u64::MAX
            &&& price_units(p) * old(market).contract.trees_per_lot <= u64::MAX
            &&& total <= u64::MAX
            &&& (confirmed ==> total * 9 <= u64::MAX)
        },
        !confirmed ==> old(market).ledger.spec_balance(
            old(market).contract.certification_mint as int,
            manager as int,
        ) <= CertificationTier::Decertified.spec_ordinal(),
    ensures
        final(market).wf(),
        r is Ok <==> (if confirmed {
            confirm_lots_accepts_confirmed(
                *old(market),
                offer_index,
                lot_index,
                lot_mint,
                order_mint,
                user,
                manager,
            )
        } else {
            confirm_lots_accepts_rejected(
                *old(market),
                offer_index,
                lot_index,
                lot_mint,
                order_mint,
                user,
                manager,
            )
        }),
        r is Err ==> *final(market) == *old(market),
        r == Err::<(), Error>(Error::Program(SeedlotContractsError::InvalidLotIndex))
            <==> lot_index >= old(market).lots@.len(),
        r == Err::<(), Error>(Error::Program(SeedlotContractsError::LotMintMismatch))
            <==> lot_index < old(market).lots@.len() && old(market).lots@[lot_index as int].mint
            != lot_mint,
        r == Err::<(), Error>(Error::Program(SeedlotContractsError::InvalidOfferIndex))
            <==> lot_index < old(market).lots@.len() && old(market).lots@[lot_index as int].mint
            == lot_mint && offer_index >= old(market).offers@.len(),
        r == Err::<(), Error>(Error::Program(SeedlotContractsError::OrderMintNotFound))
            <==> lot_index < old(market).lots@.len() && old(market).lots@[lot_index as int].mint
            == lot_mint && offer_index < old(market).offers@.len() && old(
            market,
        ).offers@[offer_index as int].mint != order_mint,
        r == Err::<(), Error>(Error::Program(SeedlotContractsError::ManagerAlreadyDecertified))
            <==> !confirmed && confirm_lots_checks(
            *old(market),
            offer_index,
            lot_index,
            lot_mint,
            order_mint,
        ) && old(market).ledger.spec_balance(
            old(market).contract.certification_mint as int,
            manager as int,
        ) == CertificationTier::Decertified.spec_ordinal(),
        r matches Err(Error::Custody(_)) <==> ({
            let m0 = *old(market);
            &&& lot_index < m0.lots@.len()
            &&& m0.lots@[lot_index as int].mint == lot_mint
            &&& offer_index < m0.offers@.len()
            &&& m0.offers@[offer_index as int].mint == order_mint
            &&& (!(m0.ledger.spec_valid_class(lot_mint as int) && !m0.ledger.spec_closed(
                lot_mint as int,
            )) || (if confirmed {
                !confirm_lots_accepts_confirmed(
                    m0,
                    offer_index,
                    lot_index,
                    lot_mint,
                    order_mint,
                    user,
                    manager,
                )
            } else {
                m0.ledger.spec_balance(m0.contract.certification_mint as int, manager as int)
                    != CertificationTier::Decertified.spec_ordinal()
                    && !confirm_lots_accepts_rejected(
                    m0,
                    offer_index,
                    lot_index,
                    lot_mint,
                    order_mint,
                    user,
                    manager,
                )
            }))
        }),
        r matches Err(Error::Custody(e)) ==> e == confirm_lots_custody_error(
            *old(market),
            confirmed,
            lot_index,
            lot_mint,
            order_mint,
            user,
            manager,
        ),
        r is Ok && confirmed ==> ({
            let m0 = *old(market);
            let total = confirm_total(m0, lot_index, lot_mint) as u64;
            let rem = remaining_fee(total);
            let usdc = m0.contract.usdc_mint as int;
            let auth = m0.contract.authority as int;
            &&& (manager as int != auth ==> final(market).ledger.spec_balance(usdc, auth)
                == m0.ledger.spec_balance(usdc, auth) - rem)
            &&& (manager as int != auth ==> final(market).ledger.spec_balance(
                usdc,
                manager as int,
            ) == m0.ledger.spec_balance(usdc, manager as int) + rem)
            &&& (manager as int == auth ==> final(market).ledger.spec_balance(usdc, auth)
                == m0.ledger.spec_balance(usdc, auth))
            &&& final(market).ledger.spec_has_holding(usdc, auth)
            &&& !final(market).ledger.spec_frozen(usdc, auth)
            &&& final(market).ledger.spec_has_holding(usdc, manager as int)
            &&& !final(market).ledger.spec_frozen(usdc, manager as int)
            &&& final(market).ledger.spec_metadata(lot_mint as int) == meta_update(
                m0.ledger.spec_metadata(lot_mint as int),
                MetaKey::State,
                LotState::Growing.spec_code(),
            )
            &&& final(market).ledger.spec_has_holding(lot_mint as int, user as int)
            &&& !final(market).ledger.spec_frozen(lot_mint as int, user as int)
            &&& final(market).ledger.spec_balance(lot_mint as int, user as int)
                == m0.ledger.spec_balance(lot_mint as int, user as int)
            &&& final(market).ledger.spec_supply(lot_mint as int) == m0.ledger.spec_supply(
                lot_mint as int,
            )
            &&& !final(market).ledger.spec_closed(lot_mint as int)
            &&& final(market).ledger.class_count() == m0.ledger.class_count()
            &&& final(market).lots == m0.lots
            &&& final(market).offers == m0.offers
            &&& final(market).contract == m0.contract
            &&& forall|c2: int, o2: int|
                !(c2 == lot_mint as int && o2 == user as int) && !(c2 == usdc && (o2 == auth || o2
                    == manager as int)) ==> #[trigger] holding_eq(
                    m0.ledger,
                    final(market).ledger,
                    c2,
                    o2,
                )
            &&& forall|c2: int|
                c2 != lot_mint as int ==> #[trigger] class_eq(m0.ledger, final(market).ledger, c2)
        }),
        r is Ok && !confirmed ==> ({
            let m0 = *old(market);
            let total = confirm_total(m0, lot_index, lot_mint) as u64;
            let fee = advance_fee(total);
            let prepared = m0.ledger.spec_supply(lot_mint as int);
            let usdc = m0.contract.usdc_mint as int;
            let cert = m0.contract.certification_mint as int;
            let auth = m0.contract.authority as int;
            let admin = m0.contract.admin as int;
            &&& final(market).ledger.spec_balance(cert, manager as int)
                == CertificationTier::Decertified.spec_ordinal()
            &&& final(market).ledger.spec_frozen(cert, manager as int)
            &&& final(market).ledger.spec_supply(cert) == m0.ledger.spec_supply(cert)
                + (CertificationTier::Decertified.spec_ordinal() - m0.ledger.spec_balance(
                cert,
                manager as int,
            ))
            &&& (admin != auth ==> final(market).ledger.spec_balance(usdc, admin)
                == m0.ledger.spec_balance(usdc, admin) - fee)
            &&& (admin != auth ==> final(market).ledger.spec_balance(usdc, auth)
                == m0.ledger.spec_balance(usdc, auth) + fee)
            &&& (admin == auth ==> final(market).ledger.spec_balance(usdc, auth)
                == m0.ledger.spec_balance(usdc, auth))
            &&& final(market).ledger.spec_balance(order_mint as int, user as int)
                == m0.ledger.spec_balance(order_mint as int, user as int) + prepared
            &&& final(market).ledger.spec_frozen(order_mint as int, user as int)
            &&& final(market).ledger.spec_supply(order_mint as int) == m0.ledger.spec_supply(
                order_mint as int,
            ) + prepared
            &&& final(market).ledger.spec_balance(lot_mint as int, user as int) == 0
            &&& final(market).ledger.spec_frozen(lot_mint as int, user as int)
            &&& final(market).ledger.spec_supply(lot_mint as int) == 0
            &&& final(market).ledger.spec_closed(lot_mint as int)
            &&& final(market).lots@ == m0.lots@.update(
                lot_index as int,
                m0.lots@.last(),
            ).drop_last()
            &&& forall|i: int|
                0 <= i < final(market).lots@.len()
                    ==> (#[trigger] final(market).lots@[i]).mint != lot_mint
            &&& final(market).ledger.spec_has_holding(usdc, admin)
            &&& !final(market).ledger.spec_frozen(usdc, admin)
            &&& final(market).ledger.spec_has_holding(usdc, auth)
            &&& !final(market).ledger.spec_frozen(usdc, auth)
            &&& final(market).offers == m0.offers
            &&& final(market).contract == m0.contract
            &&& final(market).ledger.class_count() == m0.ledger.class_count()
            &&& forall|c2: int, o2: int|
                !(c2 == cert && o2 == manager as int) && !(c2 == usdc && (o2 == admin || o2
                    == auth)) && !(c2 == order_mint as int && o2 == user as int) && !(c2
                    == lot_mint as int && o2 == user as int) ==> #[trigger] holding_eq(
                    m0.ledger,
                    final(market).ledger,
                    c2,
                    o2,
                )
            &&& forall|c2: int|
                c2 != cert && c2 != order_mint as int && c2 != lot_mint as int
                    ==> #[trigger] class_eq(m0.ledger, final(market).ledger, c2)
            &&& class_eq_except_supply(m0.ledger, final(market).ledger, cert)
            &&& class_eq_except_supply(m0.ledger, final(market).ledger, order_mint as int)
        }),
{
    let lot = match market.lots.get(lot_index) {
        Ok(l) => l,
        Err(e) => {
            return Err(Error::Program(e));
        },
    };
    if lot.mint != lot_mint {
        return Err(Error::Program(SeedlotContractsError::LotMintMismatch));
    }
    match market.offers.verify_order(offer_index, order_mint) {
        Ok(()) => {},
        Err(e) => {
            return Err(Error::Program(e));
        },
    }
    if !market.ledger.class_open(lot_mint) {
        return Err(Error::Custody(CustodyError::InvalidClass));
    }
    let prepared_lots = match market.ledger.supply(lot_mint) {
        Some(s) => s,
        None => {
            return Err(Error::Custody(CustodyError::InvalidClass));
        },
    };
    let price_in_usdc = price_cents_2_usdc(&lot.original_price_per_tree);
    let ghost spec_total = confirm_total(*market, lot_index, lot_mint);
    proof {
        assert(spec_total == price_in_usdc as int * prepared_lots * market.contract.trees_per_lot);
        assert(price_in_usdc as int * market.contract.trees_per_lot * prepared_lots == spec_total)
            by (nonlinear_arith)
            requires
                spec_total == price_in_usdc as int * prepared_lots
                    * market.contract.trees_per_lot,
        ;
    }
    let total_price = price_in_usdc * market.contract.trees_per_lot * prepared_lots;
    let auth = market.contract.authority;
    let usdc = market.contract.usdc_mint;

    if confirmed {
        let remaining = total_price * 9 / 10;
        // Every custody step is checked before the first of them runs, so a
        // failing confirmation has no partial effect.
        match market.ledger.class_authority(lot_mint) {
            Some(a) => {
                if a != auth {
                    return Err(Error::Custody(CustodyError::UnauthorizedController));
                }
            },
            None => {
                return Err(Error::Custody(CustodyError::InvalidClass));
            },
        }
        match market.ledger.holding_frozen(lot_mint, user) {
            None => {
                return Err(Error::Custody(CustodyError::UninitializedHolder));
            },
            Some(false) => {
                return Err(Error::Custody(CustodyError::InvalidState));
            },
            Some(true) => {},
        }
        if !market.ledger.class_open(usdc) {
            return Err(Error::Custody(CustodyError::InvalidClass));
        }
        match market.ledger.holding_frozen(usdc, auth) {
            None => {
                return Err(Error::Custody(CustodyError::UninitializedHolder));
            },
            Some(true) => {
                return Err(Error::Custody(CustodyError::HoldingFrozen));
            },
            Some(false) => {},
        }
        if remaining > market.ledger.balance(usdc, auth) {
            return Err(Error::Custody(CustodyError::InsufficientBalance));
        }
        match market.ledger.holding_frozen(usdc, manager) {
            None => {
                return Err(Error::Custody(CustodyError::UninitializedHolder));
            },
            Some(true) => {
                return Err(Error::Custody(CustodyError::HoldingFrozen));
            },
            Some(false) => {},
        }
        if manager != auth {
            let manager_bal = market.ledger.balance(usdc, manager);
            if remaining > u64::MAX - manager_bal {
                return Err(Error::Custody(CustodyError::ArithmeticOverflow));
            }
        }
        proof {
            // The buyer's lot holding is locked while the settlement holdings
            // in play are unlocked, so the classes cannot alias on a holder.
            if usdc == lot_mint && (user == auth || user == manager) {
                assert(false);
            }
        }
        let ghost l0 = market.ledger;
        match market.ledger.transfer(usdc, auth, manager, remaining) {
            Ok(()) => {},
            Err(_) => {
                proof {
                    assert(false);
                }
                return Err(Error::Custody(CustodyError::InvalidClass));
            },
        }
        let ghost l1 = market.ledger;
        proof {
            assert(class_eq(l0, l1, lot_mint as int));
            assert(holding_eq(l0, l1, lot_mint as int, user as int));
        }
        match market.ledger.update_metadata(lot_mint, MetaKey::State, LotState::Growing.code(), auth) {
            Ok(()) => {},
            Err(_) => {
                proof {
                    assert(false);
                }
                return Err(Error::Custody(CustodyError::InvalidClass));
            },
        }
        let ghost l2 = market.ledger;
        proof {
            assert(holding_eq(l1, l2, lot_mint as int, user as int));
        }
        match market.ledger.thaw(lot_mint, user, auth) {
            Ok(()) => {},
            Err(_) => {
                proof {
                    assert(false);
                }
                return Err(Error::Custody(CustodyError::InvalidClass));
            },
        }
        proof {
            assert forall|c2: int, o2: int|
                !(c2 == lot_mint as int && o2 == user as int) && !(c2 == usdc as int && (o2
                    == auth as int || o2 == manager as int)) implies #[trigger] holding_eq(
                l0,
                market.ledger,
                c2,
                o2,
            ) by {
                assert(holding_eq(l0, l1, c2, o2));
                assert(holding_eq(l1, l2, c2, o2));
                assert(holding_eq(l2, market.ledger, c2, o2));
            }
            assert forall|c2: int| c2 != lot_mint as int implies #[trigger] class_eq(
                l0,
                market.ledger,
                c2,
            ) by {
                assert(class_eq(l0, l1, c2));
                assert(class_eq(l1, l2, c2));
                assert(class_eq(l2, market.ledger, c2));
            }
            assert(holding_eq(l1, l2, lot_mint as int, user as int));
            assert(holding_eq(l1, l2, usdc as int, auth as int));
            assert(holding_eq(l1, l2, usdc as int, manager as int));
            assert(holding_eq(l2, market.ledger, usdc as int, auth as int));
            assert(holding_eq(l2, market.ledger, usdc as int, manager as int));
            assert(class_eq(l2, market.ledger, lot_mint as int));
        }
        Ok(())
    } else {
        let cert = market.contract.certification_mint;
        let admin = market.contract.admin;
        let decertified_tier_as_u64 = CertificationTier::Decertified.ordinal();
        let current_certification = market.ledger.balance(cert, manager);
        if current_certification == decertified_tier_as_u64 {
            return Err(Error::Program(SeedlotContractsError::ManagerAlreadyDecertified));
        }
        let needed = decertified_tier_as_u64 - current_certification;
        let return_manager_fee = total_price / 10;
        // Every custody step is checked before the first of them runs, so a
        // failing rejection has no partial effect.
        if !market.ledger.class_open(cert) {
            return Err(Error::Custody(CustodyError::InvalidClass));
        }
        match market.ledger.class_authority(cert) {
            Some(a) => {
                if a != auth {
                    return Err(Error::Custody(CustodyError::UnauthorizedController));
                }
            },
            None => {
                return Err(Error::Custody(CustodyError::InvalidClass));
            },
        }
        match market.ledger.holding_frozen(cert, manager) {
            None => {
                return Err(Error::Custody(CustodyError::UninitializedHolder));
            },
            Some(false) => {
                return Err(Error::Custody(CustodyError::InvalidState));
            },
            Some(true) => {},
        }
        let cert_sup = match market.ledger.supply(cert) {
            Some(s) => s,
            None => {
                return Err(Error::Custody(CustodyError::InvalidClass));
            },
        };
        if needed > u64::MAX - cert_sup {
            return Err(Error::Custody(CustodyError::ArithmeticOverflow));
        }
        if !market.ledger.class_open(usdc) {
            return Err(Error::Custody(CustodyError::InvalidClass));
        }
        match market.ledger.holding_frozen(usdc, admin) {
            None => {
                return Err(Error::Custody(CustodyError::UninitializedHolder));
            },
            Some(true) => {
                return Err(Error::Custody(CustodyError::HoldingFrozen));
            },
            Some(false) => {},
        }
        if return_manager_fee > market.ledger.balance(usdc, admin) {
            return Err(Error::Custody(CustodyError::InsufficientBalance));
        }
        match market.ledger.holding_frozen(usdc, auth) {
            None => {
                return Err(Error::Custody(CustodyError::UninitializedHolder));
            },
            Some(true) => {
                return Err(Error::Custody(CustodyError::HoldingFrozen));
            },
            Some(false) => {},
        }
        if admin != auth {
            let contract_bal = market.ledger.balance(usdc, auth);
            if return_manager_fee > u64::MAX - contract_bal {
                return Err(Error::Custody(CustodyError::ArithmeticOverflow));
            }
        }
        if !market.ledger.class_open(order_mint) {
            return Err(Error::Custody(CustodyError::InvalidClass));
        }
        match market.ledger.class_authority(order_mint) {
            Some(a) => {
                if a != auth {
                    return Err(Error::Custody(CustodyError::UnauthorizedController));
                }
            },
            None => {
                return Err(Error::Custody(CustodyError::InvalidClass));
            },
        }
        match market.ledger.holding_frozen(order_mint, user) {
            None => {
                return Err(Error::Custody(CustodyError::UninitializedHolder));
            },
            Some(false) => {
                return Err(Error::Custody(CustodyError::InvalidState));
            },
            Some(true) => {},
        }
        let order_sup = match market.ledger.supply(order_mint) {
            Some(s) => s,
            None => {
                return Err(Error::Custody(CustodyError::InvalidClass));
            },
        };
        if prepared_lots > u64::MAX - order_sup {
            return Err(Error::Custody(CustodyError::ArithmeticOverflow));
        }
        match market.ledger.class_authority(lot_mint) {
            Some(a) => {
                if a != auth {
                    return Err(Error::Custody(CustodyError::UnauthorizedController));
                }
            },
            None => {
                return Err(Error::Custody(CustodyError::InvalidClass));
            },
        }
        match market.ledger.holding_frozen(lot_mint, user) {
            None => {
                return Err(Error::Custody(CustodyError::UninitializedHolder));
            },
            Some(false) => {
                return Err(Error::Custody(CustodyError::InvalidState));
            },
            Some(true) => {},
        }
        if prepared_lots > market.ledger.balance(lot_mint, user) {
            return Err(Error::Custody(CustodyError::InsufficientBalance));
        }
        proof {
            // The registries' distinctness invariant separates the lot, order
            // and certification classes; locked and unlocked holdings
            // separate them from the settlement class per holder.
            assert(cert != lot_mint && cert != order_mint && order_mint != lot_mint);
            if usdc == cert && (manager == admin || manager == auth) {
                assert(false);
            }
            if usdc == order_mint && (user == admin || user == auth) {
                assert(false);
            }
            if usdc == lot_mint && (user == admin || user == auth) {
                assert(false);
            }
        }
        let ghost l0 = market.ledger;
        match mint_frozen_tokens_to(&mut market.ledger, cert, manager, needed, auth) {
            Ok(()) => {},
            Err(_) => {
                proof {
                    assert(false);
                }
                return Err(Error::Custody(CustodyError::InvalidClass));
            },
        }
        let ghost l1 = market.ledger;
        proof {
            assert(class_eq(l0, l1, usdc as int) || usdc == cert as int);
            assert(class_eq(l0, l1, order_mint as int));
            assert(class_eq(l0, l1, lot_mint as int));
            assert(holding_eq(l0, l1, usdc as int, admin as int));
            assert(holding_eq(l0, l1, usdc as int, auth as int));
            assert(holding_eq(l0, l1, order_mint as int, user as int));
            assert(holding_eq(l0, l1, lot_mint as int, user as int));
        }
        match market.ledger.transfer(usdc, admin, auth, return_manager_fee) {
            Ok(()) => {},
            Err(_) => {
                proof {
                    assert(false);
                }
                return Err(Error::Custody(CustodyError::InvalidClass));
            },
        }
        let ghost l2 = market.ledger;
        proof {
            assert(class_eq(l1, l2, order_mint as int));
            assert(holding_eq(l1, l2, order_mint as int, user as int));
            assert(class_eq(l1, l2, lot_mint as int));
            assert(holding_eq(l1, l2, lot_mint as int, user as int));
        }
        match mint_frozen_tokens_to(&mut market.ledger, order_mint, user, prepared_lots, auth) {
            Ok(()) => {},
            Err(_) => {
                proof {
                    assert(false);
                }
                return Err(Error::Custody(CustodyError::InvalidClass));
            },
        }
        let ghost l3 = market.ledger;
        proof {
            assert(class_eq(l2, l3, lot_mint as int));
            assert(holding_eq(l2, l3, lot_mint as int, user as int));
            l0.lemma_balance_le_supply(lot_mint as int, user as int);
        }
        match burn_frozen_tokens_from(&mut market.ledger, lot_mint, user, prepared_lots, auth) {
            Ok(()) => {},
            Err(_) => {
                proof {
                    assert(false);
                }
                return Err(Error::Custody(CustodyError::InvalidClass));
            },
        }
        let ghost l4 = market.ledger;
        match market.ledger.close_class(lot_mint, auth) {
            Ok(()) => {},
            Err(_) => {
                proof {
                    assert(false);
                }
                return Err(Error::Custody(CustodyError::InvalidClass));
            },
        }
        let ghost l5 = market.ledger;
        match market.lots.remove(lot_index) {
            Ok(()) => {},
            Err(_) => {
                proof {
                    assert(false);
                }
                return Err(Error::Program(SeedlotContractsError::InvalidLotIndex));
            },
        }
        proof {
            assert forall|c2: int, o2: int|
                !(c2 == cert as int && o2 == manager as int) && !(c2 == usdc as int && (o2
                    == admin as int || o2 == auth as int)) && !(c2 == order_mint as int && o2
                    == user as int) && !(c2 == lot_mint as int && o2 == user as int) implies
                #[trigger] holding_eq(l0, market.ledger, c2, o2) by {
                assert(holding_eq(l0, l1, c2, o2));
                assert(holding_eq(l1, l2, c2, o2));
                assert(holding_eq(l2, l3, c2, o2));
                assert(holding_eq(l3, l4, c2, o2));
                assert(holding_eq(l4, l5, c2, o2));
            }
            assert forall|c2: int|
                c2 != cert as int && c2 != order_mint as int && c2 != lot_mint as int implies
                #[trigger] class_eq(l0, market.ledger, c2) by {
                assert(class_eq(l0, l1, c2));
                assert(class_eq(l1, l2, c2));
                assert(class_eq(l2, l3, c2));
                assert(class_eq(l3, l4, c2));
                assert(class_eq(l4, l5, c2));
            }
            assert(holding_eq(l1, l2, cert as int, manager as int));
            assert(holding_eq(l2, l3, cert as int, manager as int));
            assert(holding_eq(l3, l4, cert as int, manager as int));
            assert(holding_eq(l4, l5, cert as int, manager as int));
            assert(class_eq(l1, l2, cert as int));
            assert(class_eq(l2, l3, cert as int));
            assert(class_eq(l3, l4, cert as int));
            assert(class_eq(l4, l5, cert as int));
            assert(holding_eq(l3, l4, order_mint as int, user as int));
            assert(holding_eq(l4, l5, order_mint as int, user as int));
            assert(class_eq(l3, l4, order_mint as int));
            assert(class_eq(l4, l5, order_mint as int));
            assert(holding_eq(l4, l5, lot_mint as int, user as int));
            assert(holding_eq(l0, l1, usdc as int, admin as int));
            assert(holding_eq(l2, l3, usdc as int, admin as int));
            assert(holding_eq(l3, l4, usdc as int, admin as int));
            assert(holding_eq(l4, l5, usdc as int, admin as int));
            assert(holding_eq(l2, l3, usdc as int, auth as int));
            assert(holding_eq(l3, l4, usdc as int, auth as int));
            assert(holding_eq(l4, l5, usdc as int, auth as int));
            let lots0 = old(market).lots@;
            assert forall|i: int| 0 <= i < market.lots@.len() implies (
            #[trigger] market.lots@[i]).mint != lot_mint by {
                if i == lot_index as int {
                    assert(market.lots@[i] == lots0[lots0.len() - 1]);
                    assert(lots0[lot_index as int].mint != lots0[lots0.len() - 1].mint);
                } else {
                    assert(market.lots@[i] == lots0[i]);
                    assert(lots0[lot_index as int].mint != lots0[i].mint);
                }
            }
        }
        Ok(())
    }
}

} // verus!
