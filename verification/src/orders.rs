//! The order flow: a buyer pays for a quantity of an offer and receives that
//! many transfer-locked order tokens in return.

use vstd::prelude::*;

use crate::contract::Market;
use crate::errors::{CustodyError, Error, SeedlotContractsError};
use crate::ledger::{
    class_eq, class_eq_except_supply, classes_eq_except, holding_eq, meta_lookup, AccountId,
    ClassId, MetaKey,
};
use crate::offers::Offers;
use crate::utils::{
    get_token_metadata, get_value, parse_u64, price_cents_2_usdc, price_string_2_cents,
    price_units,
};

verus! {

impl Offers {
    /// Confirms that `offer_index` is below the tail and that the registry's
    /// record there names `order_mint_key`.
    pub fn verify_order(&self, offer_index: u64, order_mint_key: ClassId) -> (r: Result<
        (),
        SeedlotContractsError,
    >)
        ensures
            r is Ok <==> offer_index < self@.len() && self@[offer_index as int].mint
                == order_mint_key,
            r == Err::<(), SeedlotContractsError>(SeedlotContractsError::InvalidOfferIndex)
                <==> offer_index >= self@.len(),
            r == Err::<(), SeedlotContractsError>(SeedlotContractsError::OrderMintNotFound)
                <==> offer_index < self@.len() && self@[offer_index as int].mint
                != order_mint_key,
    {
        let offer = match self.get(offer_index) {
            Ok(o) => o,
            Err(e) => {
                return Err(e);
            },
        };
        if offer.mint != order_mint_key {
            return Err(SeedlotContractsError::OrderMintNotFound);
        }
        Ok(())
    }
}

/// The price string filed on the offer class `mint`, if any.
pub open spec fn offer_price_str(m: Market, mint: ClassId) -> Option<Seq<char>> {
    meta_lookup(m.ledger.spec_metadata(mint as int), MetaKey::Price)
}

/// The offer's price in cents: its filed price string, parsed.
pub open spec fn offer_price_cents(m: Market, mint: ClassId) -> Option<u64> {
    match offer_price_str(m, mint) {
        Some(s) => parse_u64(s),
        None => None,
    }
}

/// What an order of `qty` lots costs in settlement units: the per-tree price
/// times the quantity times the trees each lot carries.
pub open spec fn order_total(price_cents: u64, qty: u64, trees: u64) -> int {
    price_units(price_cents) * qty * trees
}

/// Whether the order's preliminary checks pass: the offer is verified against
/// the registry, its class is readable, and its price string parses.
pub open spec fn place_order_parses(
    m: Market,
    offer_index: u64,
    offer_mint: ClassId,
) -> bool {
    &&& offer_index < m.offers@.len()
    &&& m.offers@[offer_index as int].mint == offer_mint
    &&& m.ledger.spec_valid_class(offer_mint as int)
    &&& !m.ledger.spec_closed(offer_mint as int)
    &&& offer_price_cents(m, offer_mint) is Some
}

/// When an order is accepted: the preliminary checks pass, the buyer can pay
/// the total into the contract's settlement balance, and `qty` order tokens
/// can be minted to the buyer's transfer-locked record.
pub open spec fn place_order_accepts(
    m: Market,
    user: AccountId,
    offer_index: u64,
    offer_mint: ClassId,
    qty: u64,
) -> bool {
    &&& place_order_parses(m, offer_index, offer_mint)
    &&& {
        let total = order_total(
            offer_price_cents(m, offer_mint).unwrap(),
            qty,
            m.contract.trees_per_lot,
        ) as u64;
        &&& m.ledger.spec_authority(offer_mint as int) == m.contract.authority
        &&& (if m.ledger.spec_has_holding(offer_mint as int, user as int) {
            m.ledger.spec_frozen(offer_mint as int, user as int)
        } else {
            m.ledger.spec_default_frozen(offer_mint as int)
        })
        &&& m.ledger.spec_supply(offer_mint as int) + qty <= u64::MAX
        &&& m.ledger.can_transfer(
            m.contract.usdc_mint as int,
            user as int,
            m.contract.authority as int,
            total,
        )
    }
}

/// The custody error a failing order reports, in the order the checks run:
/// the offer class must be readable and contract-controlled with a locked (or
/// lockable) buyer record and room in its supply, and then the settlement
/// transfer must be feasible. Meaningful only when the order's custody stage
/// fails.
pub open spec fn place_order_custody_error(
    m: Market,
    user: AccountId,
    offer_mint: ClassId,
    qty: u64,
) -> CustodyError {
    let auth = m.contract.authority;
    let usdc = m.contract.usdc_mint as int;
    let total = order_total(
        offer_price_cents(m, offer_mint).unwrap(),
        qty,
        m.contract.trees_per_lot,
    ) as u64;
    if !(m.ledger.spec_valid_class(offer_mint as int) && !m.ledger.spec_closed(
        offer_mint as int,
    )) {
        CustodyError::InvalidClass
    } else if m.ledger.spec_authority(offer_mint as int) != auth {
        CustodyError::UnauthorizedController
    } else if !(if m.ledger.spec_has_holding(offer_mint as int, user as int) {
        m.ledger.spec_frozen(offer_mint as int, user as int)
    } else {
        m.ledger.spec_default_frozen(offer_mint as int)
    }) {
        CustodyError::InvalidState
    } else if m.ledger.spec_supply(offer_mint as int) + qty > u64::MAX {
        CustodyError::ArithmeticOverflow
    } else if !(m.ledger.spec_valid_class(usdc) && !m.ledger.spec_closed(usdc)) {
        CustodyError::InvalidClass
    } else if !m.ledger.spec_has_holding(usdc, user as int) {
        CustodyError::UninitializedHolder
    } else if m.ledger.spec_frozen(usdc, user as int) {
        CustodyError::HoldingFrozen
    } else if !m.ledger.spec_has_holding(usdc, auth as int) {
        CustodyError::UninitializedHolder
    } else if m.ledger.spec_frozen(usdc, auth as int) {
        CustodyError::HoldingFrozen
    } else if total > m.ledger.spec_balance(usdc, user as int) {
        CustodyError::InsufficientBalance
    } else {
        CustodyError::ArithmeticOverflow
    }
}

/// Places an order: verifies the offer against the catalog, reads and parses
/// its price, moves the total from the buyer's settlement balance to the
/// contract's, and mints the ordered quantity of transfer-locked order
/// tokens to the buyer. A failing order leaves the marketplace untouched.
pub fn place_order(
    market: &mut Market,
    user: AccountId,
    offer_index: u64,
    offer_mint: ClassId,
    order_quantity: u64,
) -> (r: Result<(), Error>)
    requires
        old(market).wf(),
        place_order_parses(*old(market), offer_index, offer_mint) ==> {
            let p = offer_price_cents(*old(market), offer_mint).unwrap();
            &&& price_units(p) <= u64::MAX
            &&& price_units(p) * order_quantity <= u64::MAX
            &&& price_units(p) * order_quantity * old(market).contract.trees_per_lot <= u64::MAX
        },
    ensures
        final(market).wf(),
        r is Ok <==> place_order_accepts(
            *old(market),
            user,
            offer_index,
            offer_mint,
            order_quantity,
        ),
        r is Err ==> *final(market) == *old(market),
        r == Err::<(), Error>(Error::Program(SeedlotContractsError::InvalidOfferIndex))
            <==> offer_index >= old(market).offers@.len(),
        r == Err::<(), Error>(Error::Program(SeedlotContractsError::OrderMintNotFound))
            <==> offer_index < old(market).offers@.len()
            && old(market).offers@[offer_index as int].mint != offer_mint,
        r == Err::<(), Error>(Error::Program(SeedlotContractsError::AdditionalMetadataIllFormed))
            <==> offer_index < old(market).offers@.len()
            && old(market).offers@[offer_index as int].mint == offer_mint
            && old(market).ledger.spec_valid_class(offer_mint as int)
            && !old(market).ledger.spec_closed(offer_mint as int)
            && offer_price_str(*old(market), offer_mint) is None,
        r == Err::<(), Error>(Error::Program(SeedlotContractsError::InvalidPrice))
            <==> ({
            &&& offer_index < old(market).offers@.len()
            &&& old(market).offers@[offer_index as int].mint == offer_mint
            &&& old(market).ledger.spec_valid_class(offer_mint as int)
            &&& !old(market).ledger.spec_closed(offer_mint as int)
            &&& offer_price_str(*old(market), offer_mint) matches Some(s)
            &&& parse_u64(s) is None
        }),
        r matches Err(Error::Custody(_)) <==> offer_index < old(market).offers@.len() && old(
            market,
        ).offers@[offer_index as int].mint == offer_mint && (!(old(market).ledger.spec_valid_class(
            offer_mint as int,
        ) && !old(market).ledger.spec_closed(offer_mint as int)) || (place_order_parses(
            *old(market),
            offer_index,
            offer_mint,
        ) && !place_order_accepts(*old(market), user, offer_index, offer_mint, order_quantity))),
        r matches Err(Error::Custody(e)) ==> e == place_order_custody_error(
            *old(market),
            user,
            offer_mint,
            order_quantity,
        ),
        r is Ok ==> {
            let m0 = *old(market);
            let p = offer_price_cents(m0, offer_mint).unwrap();
            let total = order_total(p, order_quantity, m0.contract.trees_per_lot);
            let usdc = m0.contract.usdc_mint as int;
            let auth = m0.contract.authority as int;
            &&& (user as int != auth ==> final(market).ledger.spec_balance(usdc, user as int)
                == m0.ledger.spec_balance(usdc, user as int) - total)
            &&& (user as int != auth ==> final(market).ledger.spec_balance(usdc, auth)
                == m0.ledger.spec_balance(usdc, auth) + total)
            &&& (user as int == auth ==> final(market).ledger.spec_balance(usdc, user as int)
                == m0.ledger.spec_balance(usdc, user as int))
            &&& final(market).ledger.spec_has_holding(usdc, user as int)
            &&& !final(market).ledger.spec_frozen(usdc, user as int)
            &&& final(market).ledger.spec_has_holding(usdc, auth)
            &&& !final(market).ledger.spec_frozen(usdc, auth)
            &&& final(market).ledger.spec_balance(offer_mint as int, user as int)
                == m0.ledger.spec_balance(offer_mint as int, user as int) + order_quantity
            &&& final(market).ledger.spec_frozen(offer_mint as int, user as int)
            &&& final(market).ledger.spec_supply(offer_mint as int) == m0.ledger.spec_supply(
                offer_mint as int,
            ) + order_quantity
            &&& forall|c2: int, o2: int|
                !(c2 == offer_mint as int && o2 == user as int) && !(c2 == usdc && (o2
                    == user as int || o2 == auth)) ==> #[trigger] holding_eq(
                    m0.ledger,
                    final(market).ledger,
                    c2,
                    o2,
                )
            &&& classes_eq_except(m0.ledger, final(market).ledger, offer_mint as int)
            &&& class_eq_except_supply(m0.ledger, final(market).ledger, offer_mint as int)
            &&& final(market).ledger.class_count() == m0.ledger.class_count()
            &&& final(market).offers == m0.offers
            &&& final(market).lots == m0.lots
            &&& final(market).contract == m0.contract
        },
{
    match market.offers.verify_order(offer_index, offer_mint) {
        Ok(()) => {},
        Err(e) => {
            return Err(Error::Program(e));
        },
    }
    let price = {
        let metadata = match get_token_metadata(&market.ledger, offer_mint) {
            Ok(v) => v,
            Err(e) => {
                return Err(e);
            },
        };
        match get_value(metadata, MetaKey::Price) {
            Ok(s) => s,
            Err(e) => {
                return Err(e);
            },
        }
    };
    let price_in_cents = match price_string_2_cents(&price) {
        Ok(v) => v,
        Err(e) => {
            return Err(e);
        },
    };
    proof {
        assert(offer_price_cents(*market, offer_mint) == Some(price_in_cents));
    }
    let price_in_usdc = price_cents_2_usdc(&price_in_cents);
    let total_price = price_in_usdc * order_quantity * market.contract.trees_per_lot;
    let auth = market.contract.authority;
    let usdc = market.contract.usdc_mint;

    // Every custody step is checked against the current state before the
    // first of them runs, so a failing order has no partial effect.
    match market.ledger.class_authority(offer_mint) {
        Some(a) => {
            if a != auth {
                return Err(Error::Custody(CustodyError::UnauthorizedController));
            }
        },
        None => {
            return Err(Error::Custody(CustodyError::InvalidClass));
        },
    }
    let frozen_ok = match market.ledger.holding_frozen(offer_mint, user) {
        Some(f) => f,
        None => match market.ledger.class_default_frozen(offer_mint) {
            Some(d) => d,
            None => false,
        },
    };
    if !frozen_ok {
        return Err(Error::Custody(CustodyError::InvalidState));
    }
    let sup = match market.ledger.supply(offer_mint) {
        Some(s) => s,
        None => {
            return Err(Error::Custody(CustodyError::InvalidClass));
        },
    };
    if order_quantity > u64::MAX - sup {
        return Err(Error::Custody(CustodyError::ArithmeticOverflow));
    }
    if !market.ledger.class_open(usdc) {
        return Err(Error::Custody(CustodyError::InvalidClass));
    }
    match market.ledger.holding_frozen(usdc, user) {
        Some(false) => {},
        Some(true) => {
            return Err(Error::Custody(CustodyError::HoldingFrozen));
        },
        None => {
            return Err(Error::Custody(CustodyError::UninitializedHolder));
        },
    }
    match market.ledger.holding_frozen(usdc, auth) {
        Some(false) => {},
        Some(true) => {
            return Err(Error::Custody(CustodyError::HoldingFrozen));
        },
        None => {
            return Err(Error::Custody(CustodyError::UninitializedHolder));
        },
    }
    if total_price > market.ledger.balance(usdc, user) {
        return Err(Error::Custody(CustodyError::InsufficientBalance));
    }
    if user != auth {
        let contract_bal = market.ledger.balance(usdc, auth);
        if total_price > u64::MAX - contract_bal {
            return Err(Error::Custody(CustodyError::ArithmeticOverflow));
        }
    }

    proof {
        // The order class requires a locked holding, the settlement class an
        // unlocked one, so the two classes cannot be the same here.
        if usdc == offer_mint {
            assert(false);
        }
    }
    let ghost l0 = market.ledger;
    match market.ledger.ensure_holding(offer_mint, user) {
        Ok(()) => {},
        Err(_) => {
            proof {
                assert(false);
            }
            return Err(Error::Custody(CustodyError::InvalidClass));
        },
    }
    let ghost l1 = market.ledger;
    proof {
        assert(class_eq(l0, l1, usdc as int));
        assert(class_eq(l0, l1, offer_mint as int));
        assert(holding_eq(l0, l1, usdc as int, user as int));
        assert(holding_eq(l0, l1, usdc as int, auth as int));
    }
    match market.ledger.transfer(usdc, user, auth, total_price) {
        Ok(()) => {},
        Err(_) => {
            proof {
                assert(false);
            }
            return Err(Error::Custody(CustodyError::InvalidClass));
        },
    }
    let ghost l2 = market.ledger;
    proof {
        assert(class_eq(l1, l2, offer_mint as int));
        assert(holding_eq(l1, l2, offer_mint as int, user as int));
    }
    match crate::utils::mint_frozen_tokens_to(
        &mut market.ledger,
        offer_mint,
        user,
        order_quantity,
        auth,
    ) {
        Ok(()) => {},
        Err(_) => {
            proof {
                assert(false);
            }
            return Err(Error::Custody(CustodyError::InvalidClass));
        },
    }
    proof {
        assert forall|c2: int, o2: int|
            !(c2 == offer_mint as int && o2 == user as int) && !(c2 == usdc as int && (o2
                == user as int || o2 == auth as int)) implies #[trigger] holding_eq(
            l0,
            market.ledger,
            c2,
            o2,
        ) by {
            assert(holding_eq(l0, l1, c2, o2));
            assert(holding_eq(l1, l2, c2, o2));
            assert(holding_eq(l2, market.ledger, c2, o2));
        }
        assert forall|c2: int| c2 != offer_mint as int implies #[trigger] crate::ledger::class_eq(
            l0,
            market.ledger,
            c2,
        ) by {
            assert(class_eq(l0, l1, c2));
            assert(class_eq(l1, l2, c2));
            assert(class_eq(l2, market.ledger, c2));
        }
        assert(holding_eq(l2, market.ledger, usdc as int, user as int));
        assert(holding_eq(l2, market.ledger, usdc as int, auth as int));
    }
    Ok(())
}

} // verus!
