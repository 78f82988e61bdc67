//! The harvest payout: after a sale, the profit is split half to the user
//! and a quarter each to the admin and the manager, the manager additionally
//! receiving the agreed harvest fee; a designated payer funds all three
//! transfers. Integer division truncates; what the three shares leave of the
//! profit is neither paid nor tracked — an accepted rounding loss.

use vstd::prelude::*;

use crate::contract::Market;
use crate::errors::{CustodyError, Error, SeedlotContractsError};
use crate::ledger::{class_eq, holding_eq, AccountId, ClassId};
use crate::utils::{price_cents_2_usdc, price_units};

verus! {

/// A settlement balance sheet after one transfer: the sender loses the
/// amount, the recipient gains it, a self-transfer moves nothing.
pub open spec fn shift_balances(
    b: spec_fn(int) -> int,
    from: int,
    to: int,
    amount: int,
) -> spec_fn(int) -> int {
    (|x: int|
        {
            if from == to {
                b(x)
            } else if x == from {
                b(x) - amount
            } else if x == to {
                b(x) + amount
            } else {
                b(x)
            }
        })
}

/// The settlement balances before the harvest payout's transfers run.
pub open spec fn harvest_balances_before(m: Market) -> spec_fn(int) -> int {
    (|x: int| m.ledger.spec_balance(m.contract.usdc_mint as int, x) as int)
}

/// The settlement balances after the payer has paid the user's, the admin's
/// and the manager's shares in that order.
pub open spec fn harvest_balances_after(
    m: Market,
    payer: AccountId,
    user: AccountId,
    manager: AccountId,
    user_amount: int,
    admin_amount: int,
    manager_amount: int,
) -> spec_fn(int) -> int {
    let b0 = harvest_balances_before(m);
    let b1 = shift_balances(b0, payer as int, user as int, user_amount);
    let b2 = shift_balances(b1, payer as int, m.contract.admin as int, admin_amount);
    shift_balances(b2, payer as int, manager as int, manager_amount)
}

/// When a harvest payout succeeds: the lot record names the caller's lot
/// class, the manager recorded on the lot matches the caller's claim, the
/// user holds the lot class's whole supply, every settlement holding in play
/// exists unlocked, and the three transfers are feasible in sequence.
pub open spec fn pay_harvest_accepts(
    m: Market,
    payer: AccountId,
    user: AccountId,
    manager: AccountId,
    lot_index: u64,
    lot_mint: ClassId,
    manager_payment_for_harvest: u64,
    profit: u64,
) -> bool {
    &&& lot_index < m.lots@.len()
    &&& m.lots@[lot_index as int].mint == lot_mint
    &&& m.ledger.spec_valid_class(lot_mint as int)
    &&& !m.ledger.spec_closed(lot_mint as int)
    &&& m.ledger.spec_manager(lot_mint as int) == Some(manager)
    &&& m.ledger.spec_balance(lot_mint as int, user as int) == m.ledger.spec_supply(
        lot_mint as int,
    )
    &&& {
        let usdc = m.contract.usdc_mint as int;
        let admin = m.contract.admin;
        let a1 = price_units(profit) / 2;
        let a2 = price_units(profit) / 4;
        let a3 = price_units(profit) / 4 + price_units(manager_payment_for_harvest);
        let b0 = harvest_balances_before(m);
        let b1 = shift_balances(b0, payer as int, user as int, a1);
        let b2 = shift_balances(b1, payer as int, admin as int, a2);
        &&& m.ledger.spec_valid_class(usdc)
        &&& !m.ledger.spec_closed(usdc)
        &&& m.ledger.spec_has_holding(usdc, payer as int)
        &&& !m.ledger.spec_frozen(usdc, payer as int)
        &&& m.ledger.spec_has_holding(usdc, user as int)
        &&& !m.ledger.spec_frozen(usdc, user as int)
        &&& m.ledger.spec_has_holding(usdc, admin as int)
        &&& !m.ledger.spec_frozen(usdc, admin as int)
        &&& m.ledger.spec_has_holding(usdc, manager as int)
        &&& !m.ledger.spec_frozen(usdc, manager as int)
        &&& a1 <= b0(payer as int)
        &&& (payer != user ==> b0(user as int) + a1 <= u64::MAX)
        &&& a2 <= b1(payer as int)
        &&& (payer != admin ==> b1(admin as int) + a2 <= u64::MAX)
        &&& a3 <= b2(payer as int)
        &&& (payer != manager ==> b2(manager as int) + a3 <= u64::MAX)
    }
}

/// The custody error a failing payout reports, in the order the checks run:
/// the lot and settlement classes must be readable, the four settlement
/// holdings must exist unlocked, and the three transfers must be feasible in
/// sequence. Meaningful only when the payout's custody stage fails.
pub open spec fn pay_harvest_custody_error(
    m: Market,
    payer: AccountId,
    user: AccountId,
    manager: AccountId,
    lot_mint: ClassId,
    manager_payment_for_harvest: u64,
    profit: u64,
) -> CustodyError {
    let usdc = m.contract.usdc_mint as int;
    let admin = m.contract.admin;
    let a1 = price_units(profit) / 2;
    let a2 = price_units(profit) / 4;
    let a3 = price_units(profit) / 4 + price_units(manager_payment_for_harvest);
    let b0 = harvest_balances_before(m);
    let b1 = shift_balances(b0, payer as int, user as int, a1);
    let b2 = shift_balances(b1, payer as int, admin as int, a2);
    if !(m.ledger.spec_valid_class(lot_mint as int) && !m.ledger.spec_closed(lot_mint as int)) {
        CustodyError::InvalidClass
    } else if !(m.ledger.spec_valid_class(usdc) && !m.ledger.spec_closed(usdc)) {
        CustodyError::InvalidClass
    } else if !m.ledger.spec_has_holding(usdc, payer as int) {
        CustodyError::UninitializedHolder
    } else if m.ledger.spec_frozen(usdc, payer as int) {
        CustodyError::HoldingFrozen
    } else if !m.ledger.spec_has_holding(usdc, user as int) {
        CustodyError::UninitializedHolder
    } else if m.ledger.spec_frozen(usdc, user as int) {
        CustodyError::HoldingFrozen
    } else if !m.ledger.spec_has_holding(usdc, admin as int) {
        CustodyError::UninitializedHolder
    } else if m.ledger.spec_frozen(usdc, admin as int) {
        CustodyError::HoldingFrozen
    } else if !m.ledger.spec_has_holding(usdc, manager as int) {
        CustodyError::UninitializedHolder
    } else if m.ledger.spec_frozen(usdc, manager as int) {
        CustodyError::HoldingFrozen
    } else if a1 > b0(payer as int) {
        CustodyError::InsufficientBalance
    } else if payer != user && b0(user as int) + a1 > u64::MAX {
        CustodyError::ArithmeticOverflow
    } else if a2 > b1(payer as int) {
        CustodyError::InsufficientBalance
    } else if payer != admin && b1(admin as int) + a2 > u64::MAX {
        CustodyError::ArithmeticOverflow
    } else if a3 > b2(payer as int) {
        CustodyError::InsufficientBalance
    } else {
        CustodyError::ArithmeticOverflow
    }
}

/// How a profit splits: half, a quarter and a quarter. The three shares never
/// exceed the profit; they recover it exactly when it is a multiple of four,
/// and in general leave exactly the truncated residue of its remainder — an
/// accepted rounding loss.
pub proof fn lemma_harvest_split(n: u64)
    ensures
        n / 2 + n / 4 + n / 4 == n - (n % 4 - n % 4 / 2),
        n / 2 + n / 4 + n / 4 <= n,
        n % 4 == 0 ==> n / 2 + n / 4 + n / 4 == n,
{
    let q = n as int / 4;
    let r = n as int % 4;
    vstd::arithmetic::div_mod::lemma_fundamental_div_mod(n as int, 4);
    assert(n as int == 4 * q + r);
    assert(n as int == 2 * (2 * q + r / 2) + (r % 2)) by {
        vstd::arithmetic::div_mod::lemma_fundamental_div_mod(r, 2);
    }
    assert(n as int / 2 == 2 * q + r / 2) by {
        vstd::arithmetic::div_mod::lemma_div_multiples_vanish_fancy(2 * q + r / 2, r % 2, 2);
        vstd::arithmetic::div_mod::lemma_mod_bound(r, 2);
    }
}

/// Every converted cent amount splits without loss: the cents-to-units scale
/// carries a factor of four, so the payout's division never truncates in
/// practice.
pub proof fn lemma_profit_units_split_exactly(profit: u64)
    requires
        price_units(profit) <= u64::MAX,
    ensures
        (price_units(profit) as u64) % 4 == 0,
{
    let u = profit as int * 2500;
    assert(price_units(profit) == 4 * u);
    vstd::arithmetic::div_mod::lemma_mod_multiples_basic(u, 4);
    assert((4 * u) % 4 == u * 4 % 4) by (nonlinear_arith);
}

/// Pays out a harvest: checks the lot against the registry, the recorded
/// manager against the caller's claim, and that the user holds the lot
/// class's whole supply; converts the profit and the manager's harvest fee
/// from cents to settlement units; and transfers half the profit to the
/// user, a quarter to the admin, and a quarter plus the fee to the manager,
/// all from the payer's settlement balance. A failing call leaves the
/// marketplace untouched. The converted profit and fee, and the manager's
/// combined share, must fit the settlement balance range.
pub fn pay_harvest(
    market: &mut Market,
    payer: AccountId,
    user: AccountId,
    manager: AccountId,
    lot_index: u64,
    lot_mint: ClassId,
    manager_payment_for_harvest: u64,
    profit: u64,
) -> (r: Result<(), Error>)
    requires
        old(market).wf(),
        (lot_index < old(market).lots@.len() && old(market).lots@[lot_index as int].mint
            == lot_mint && old(market).ledger.spec_valid_class(lot_mint as int) && !old(
            market,
        ).ledger.spec_closed(lot_mint as int)) ==> {
            &&& price_units(profit) <= u64::MAX
            &&& price_units(manager_payment_for_harvest) <= u64::MAX
            &&& price_units(profit) / 4 + price_units(manager_payment_for_harvest) <= u64::MAX
        },
    ensures
        final(market).wf(),
        r is Ok <==> pay_harvest_accepts(
            *old(market),
            payer,
            user,
            manager,
            lot_index,
            lot_mint,
            manager_payment_for_harvest,
            profit,
        ),
        r is Err ==> *final(market) == *old(market),
        r == Err::<(), Error>(Error::Program(SeedlotContractsError::InvalidLotIndex))
            <==> lot_index >= old(market).lots@.len(),
        r == Err::<(), Error>(Error::Program(SeedlotContractsError::LotMintMismatch))
            <==> lot_index < old(market).lots@.len() && old(market).lots@[lot_index as int].mint
            != lot_mint,
        r == Err::<(), Error>(Error::Program(SeedlotContractsError::AdditionalMetadataIllFormed))
            <==> lot_index < old(market).lots@.len() && old(market).lots@[lot_index as int].mint
            == lot_mint && old(market).ledger.spec_valid_class(lot_mint as int) && !old(
            market,
        ).ledger.spec_closed(lot_mint as int) && old(market).ledger.spec_manager(lot_mint as int)
            is None,
        r == Err::<(), Error>(Error::Program(SeedlotContractsError::ManagerMismatch)) <==> ({
            let m0 = *old(market);
            &&& lot_index < m0.lots@.len()
            &&& m0.lots@[lot_index as int].mint == lot_mint
            &&& m0.ledger.spec_valid_class(lot_mint as int)
            &&& !m0.ledger.spec_closed(lot_mint as int)
            &&& m0.ledger.spec_manager(lot_mint as int) matches Some(rec)
            &&& rec != manager
        }),
        r == Err::<(), Error>(Error::Program(SeedlotContractsError::UserMismatch)) <==> ({
            let m0 = *old(market);
            &&& lot_index < m0.lots@.len()
            &&& m0.lots@[lot_index as int].mint == lot_mint
            &&& m0.ledger.spec_valid_class(lot_mint as int)
            &&& !m0.ledger.spec_closed(lot_mint as int)
            &&& m0.ledger.spec_manager(lot_mint as int) == Some(manager)
            &&& m0.ledger.spec_balance(lot_mint as int, user as int) != m0.ledger.spec_supply(
                lot_mint as int,
            )
        }),
        r matches Err(Error::Custody(_)) <==> ({
            let m0 = *old(market);
            &&& lot_index < m0.lots@.len()
            &&& m0.lots@[lot_index as int].mint == lot_mint
            &&& (!(m0.ledger.spec_valid_class(lot_mint as int) && !m0.ledger.spec_closed(
                lot_mint as int,
            )) || (m0.ledger.spec_manager(lot_mint as int) == Some(manager)
                && m0.ledger.spec_balance(lot_mint as int, user as int) == m0.ledger.spec_supply(
                lot_mint as int,
            ) && !pay_harvest_accepts(
                m0,
                payer,
                user,
                manager,
                lot_index,
                lot_mint,
                manager_payment_for_harvest,
                profit,
            )))
        }),
        r matches Err(Error::Custody(e)) ==> e == pay_harvest_custody_error(
            *old(market),
            payer,
            user,
            manager,
            lot_mint,
            manager_payment_for_harvest,
            profit,
        ),
        r is Ok ==> ({
            let m0 = *old(market);
            let usdc = m0.contract.usdc_mint as int;
            let a1 = price_units(profit) / 2;
            let a2 = price_units(profit) / 4;
            let a3 = price_units(profit) / 4 + price_units(manager_payment_for_harvest);
            let after = harvest_balances_after(m0, payer, user, manager, a1, a2, a3);
            &&& forall|x: int| final(market).ledger.spec_balance(usdc, x) == #[trigger] after(x)
            &&& forall|x: int|
                #![trigger final(market).ledger.spec_has_holding(usdc, x)]
                final(market).ledger.spec_has_holding(usdc, x) == m0.ledger.spec_has_holding(
                    usdc,
                    x,
                ) && final(market).ledger.spec_frozen(usdc, x) == m0.ledger.spec_frozen(usdc, x)
            &&& forall|c2: int, o2: int|
                c2 != usdc ==> #[trigger] holding_eq(m0.ledger, final(market).ledger, c2, o2)
            &&& forall|c2: int| #[trigger] class_eq(m0.ledger, final(market).ledger, c2)
            &&& final(market).ledger.class_count() == m0.ledger.class_count()
            &&& final(market).lots == m0.lots
            &&& final(market).offers == m0.offers
            &&& final(market).contract == m0.contract
        }),
{
    let lot = match market.lots.get(lot_index) {
        Ok(l) => l,
        Err(e) => {
            return Err(Error::Program(e));
        },
    };
    if lot.mint != lot_mint {
        return Err(Error::Program(SeedlotContractsError::LotMintMismatch));
    }
    let recorded = match market.ledger.manager_of(lot_mint) {
        Ok(m) => m,
        Err(e) => {
            return Err(Error::Custody(e));
        },
    };
    match recorded {
        None => {
            return Err(Error::Program(SeedlotContractsError::AdditionalMetadataIllFormed));
        },
        Some(rec) => {
            if rec != manager {
                return Err(Error::Program(SeedlotContractsError::ManagerMismatch));
            }
        },
    }
    let supply = match market.ledger.supply(lot_mint) {
        Some(s) => s,
        None => {
            return Err(Error::Custody(CustodyError::InvalidClass));
        },
    };
    if market.ledger.balance(lot_mint, user) != supply {
        return Err(Error::Program(SeedlotContractsError::UserMismatch));
    }
    let admin = market.contract.admin;
    let usdc = market.contract.usdc_mint;
    let profit_in_usdc = price_cents_2_usdc(&profit);
    let manager_payment_for_harvest_in_usdc = price_cents_2_usdc(&manager_payment_for_harvest);
    let user_amount = profit_in_usdc / 2;
    let admin_amount = profit_in_usdc / 4;
    let manager_amount = profit_in_usdc / 4 + manager_payment_for_harvest_in_usdc;

    // Every transfer is checked, in sequence, before the first of them runs,
    // so a failing payout has no partial effect.
    if !market.ledger.class_open(usdc) {
        return Err(Error::Custody(CustodyError::InvalidClass));
    }
    match market.ledger.holding_frozen(usdc, payer) {
        None => {
            return Err(Error::Custody(CustodyError::UninitializedHolder));
        },
        Some(true) => {
            return Err(Error::Custody(CustodyError::HoldingFrozen));
        },
        Some(false) => {},
    }
    match market.ledger.holding_frozen(usdc, user) {
        None => {
            return Err(Error::Custody(CustodyError::UninitializedHolder));
        },
        Some(true) => {
            return Err(Error::Custody(CustodyError::HoldingFrozen));
        },
        Some(false) => {},
    }
    match market.ledger.holding_frozen(usdc, admin) {
        None => {
            return Err(Error::Custody(CustodyError::UninitializedHolder));
        },
        Some(true) => {
            return Err(Error::Custody(CustodyError::HoldingFrozen));
        },
        Some(false) => {},
    }
    match market.ledger.holding_frozen(usdc, manager) {
        None => {
            return Err(Error::Custody(CustodyError::UninitializedHolder));
        },
        Some(true) => {
            return Err(Error::Custody(CustodyError::HoldingFrozen));
        },
        Some(false) => {},
    }
    let payer_bal = market.ledger.balance(usdc, payer);
    let user_bal = market.ledger.balance(usdc, user);
    let admin_bal = market.ledger.balance(usdc, admin);
    let manager_bal = market.ledger.balance(usdc, manager);
    if user_amount > payer_bal {
        return Err(Error::Custody(CustodyError::InsufficientBalance));
    }
    if payer != user && user_amount > u64::MAX - user_bal {
        return Err(Error::Custody(CustodyError::ArithmeticOverflow));
    }
    let out1: u128 = if payer != user {
        user_amount as u128
    } else {
        0
    };
    if admin_amount as u128 > payer_bal as u128 - out1 {
        return Err(Error::Custody(CustodyError::InsufficientBalance));
    }
    let admin_bal_1: u128 = admin_bal as u128 + (if admin == user && payer != user {
        user_amount as u128
    } else {
        0
    });
    if payer != admin && admin_amount as u128 > u64::MAX as u128 - admin_bal_1 {
        return Err(Error::Custody(CustodyError::ArithmeticOverflow));
    }
    let out2: u128 = out1 + (if payer != admin {
        admin_amount as u128
    } else {
        0
    });
    if manager_amount as u128 > payer_bal as u128 - out2 {
        return Err(Error::Custody(CustodyError::InsufficientBalance));
    }
    let manager_bal_2: u128 = manager_bal as u128 + (if manager == user && payer != user {
        user_amount as u128
    } else {
        0
    }) + (if manager == admin && payer != admin {
        admin_amount as u128
    } else {
        0
    });
    if payer != manager && manager_amount as u128 > u64::MAX as u128 - manager_bal_2 {
        return Err(Error::Custody(CustodyError::ArithmeticOverflow));
    }

    let ghost m0 = *market;
    let ghost b0 = harvest_balances_before(m0);
    let ghost b1 = shift_balances(b0, payer as int, user as int, user_amount as int);
    let ghost b2 = shift_balances(b1, payer as int, admin as int, admin_amount as int);
    let ghost l0 = market.ledger;
    match market.ledger.transfer(usdc, payer, user, user_amount) {
        Ok(()) => {},
        Err(_) => {
            proof {
                assert(false);
            }
            return Err(Error::Custody(CustodyError::InvalidClass));
        },
    }
    let ghost l1 = market.ledger;
    proof {
        assert forall|x: int| l1.spec_balance(usdc as int, x) == #[trigger] b1(x) by {
            if !(x == payer as int || x == user as int) {
                assert(holding_eq(l0, l1, usdc as int, x));
            }
        }
        assert forall|x: int|
            #![trigger l1.spec_has_holding(usdc as int, x)]
            l1.spec_has_holding(usdc as int, x) == l0.spec_has_holding(usdc as int, x)
                && l1.spec_frozen(usdc as int, x) == l0.spec_frozen(usdc as int, x) by {
            if !(x == payer as int || x == user as int) {
                assert(holding_eq(l0, l1, usdc as int, x));
            }
        }
        assert(class_eq(l0, l1, usdc as int));
        assert(l1.spec_balance(usdc as int, payer as int) == b1(payer as int));
        assert(l1.spec_balance(usdc as int, admin as int) == b1(admin as int));
    }
    match market.ledger.transfer(usdc, payer, admin, admin_amount) {
        Ok(()) => {},
        Err(_) => {
            proof {
                assert(false);
            }
            return Err(Error::Custody(CustodyError::InvalidClass));
        },
    }
    let ghost l2 = market.ledger;
    proof {
        assert forall|x: int| l2.spec_balance(usdc as int, x) == #[trigger] b2(x) by {
            if !(x == payer as int || x == admin as int) {
                assert(holding_eq(l1, l2, usdc as int, x));
            }
        }
        assert forall|x: int|
            #![trigger l2.spec_has_holding(usdc as int, x)]
            l2.spec_has_holding(usdc as int, x) == l1.spec_has_holding(usdc as int, x)
                && l2.spec_frozen(usdc as int, x) == l1.spec_frozen(usdc as int, x) by {
            if !(x == payer as int || x == admin as int) {
                assert(holding_eq(l1, l2, usdc as int, x));
            }
        }
        assert(class_eq(l1, l2, usdc as int));
        assert(l2.spec_balance(usdc as int, payer as int) == b2(payer as int));
        assert(l2.spec_balance(usdc as int, manager as int) == b2(manager as int));
    }
    match market.ledger.transfer(usdc, payer, manager, manager_amount) {
        Ok(()) => {},
        Err(_) => {
            proof {
                assert(false);
            }
            return Err(Error::Custody(CustodyError::InvalidClass));
        },
    }
    proof {
        let lf = market.ledger;
        let ghost b3 = harvest_balances_after(
            m0,
            payer,
            user,
            manager,
            user_amount as int,
            admin_amount as int,
            manager_amount as int,
        );
        assert forall|x: int| lf.spec_balance(usdc as int, x) == #[trigger] b3(x) by {
            if !(x == payer as int || x == manager as int) {
                assert(holding_eq(l2, lf, usdc as int, x));
            }
            assert(b3(x) == shift_balances(b2, payer as int, manager as int, manager_amount as int)(x));
        }
        assert forall|x: int|
            #![trigger lf.spec_has_holding(usdc as int, x)]
            lf.spec_has_holding(usdc as int, x) == l0.spec_has_holding(usdc as int, x)
                && lf.spec_frozen(usdc as int, x) == l0.spec_frozen(usdc as int, x) by {
            if !(x == payer as int || x == manager as int) {
                assert(holding_eq(l2, lf, usdc as int, x));
            }
        }
        assert forall|c2: int, o2: int| c2 != usdc as int implies #[trigger] holding_eq(
            l0,
            market.ledger,
            c2,
            o2,
        ) by {
            assert(holding_eq(l0, l1, c2, o2));
            assert(holding_eq(l1, l2, c2, o2));
            assert(holding_eq(l2, market.ledger, c2, o2));
        }
        assert forall|c2: int| #[trigger] class_eq(l0, market.ledger, c2) by {
            assert(class_eq(l0, l1, c2));
            assert(class_eq(l1, l2, c2));
            assert(class_eq(l2, market.ledger, c2));
        }
    }
    Ok(())
}

} // verus!
