//! The lot registry: a fixed-capacity list of in-flight lots. A lot is
//! appended when a manager prepares it and removed only when the buyer
//! rejects it; removal swaps the last record into the freed slot, so indices
//! below the tail stay valid but are not stable across removals.

use vstd::prelude::*;

use crate::contract::Market;
use crate::errors::{CustodyError, Error, SeedlotContractsError};
use crate::ledger::{
    class_eq, class_eq_except_supply, holding_eq, meta_lookup, AccountId, ClassId, MetaKey,
};
use crate::orders::{offer_price_cents, order_total};
use crate::utils::{
    advance_fee, burn_frozen_tokens_from, get_token_metadata, get_value, init_mint,
    mint_frozen_tokens_to, parse_u64, price_cents_2_usdc, price_string_2_cents, price_units,
    MintMetadata,
};

verus! {

/// The lifecycle tag a lot's representation asset carries in its metadata.
#[derive(Clone, Copy, Debug, PartialEq, Eq, Structural)]
pub enum LotState {
    Preparation,
    Growing,
    Ready,
    Shipped,
}

impl LotState {
    /// The tag's metadata encoding.
    pub open spec fn spec_code(self) -> Seq<char> {
        match self {
            LotState::Preparation => "0"@,
            LotState::Growing => "1"@,
            LotState::Ready => "2"@,
            LotState::Shipped => "3"@,
        }
    }

    /// The tag as it is written into a class's metadata.
    pub fn code(&self) -> (s: String)
        ensures
            s@ == self.spec_code(),
    {
        match self {
            LotState::Preparation => "0".to_owned(),
            LotState::Growing => "1".to_owned(),
            LotState::Ready => "2".to_owned(),
            LotState::Shipped => "3".to_owned(),
        }
    }
}

/// An in-flight lot: the asset class whose tokens represent it, and the
/// price per tree captured when it was prepared — immutable thereafter, so a
/// later catalog price edit cannot change what the buyer owes.
#[derive(Clone, Copy, Debug, PartialEq, Eq, Structural)]
pub struct Lot {
    pub mint: ClassId,
    pub original_price_per_tree: u64,
}

/// The lot registry: at most [`Lots::TOTAL_LOTS`] records, appended at the
/// tail and removed by swapping the last record into the freed slot.
pub struct Lots {
    lots: Vec<Lot>,
}

impl View for Lots {
    type V = Seq<Lot>;

    closed spec fn view(&self) -> Seq<Lot> {
        self.lots@
    }
}

impl Lots {
    /// The registry's capacity.
    pub const TOTAL_LOTS: u64 = 10000;

    /// The registry never grows past its capacity.
    pub open spec fn wf(self) -> bool {
        self@.len() <= Lots::TOTAL_LOTS
    }

    /// An empty registry.
    pub fn new() -> (r: Lots)
        ensures
            r@ == Seq::<Lot>::empty(),
            r.wf(),
    {
        Lots { lots: Vec::new() }
    }

    /// The tail pointer: the index the next lot will take.
    pub fn tail(&self) -> (t: u64)
        requires
            self@.len() <= u64::MAX,
        ensures
            t == self@.len(),
    {
        self.lots.len() as u64
    }

    /// Appends a lot and returns its index; fails with `LotsFull` at
    /// capacity, leaving the registry unchanged.
    pub fn push(&mut self, lot: Lot) -> (r: Result<u64, SeedlotContractsError>)
        requires
            old(self).wf(),
        ensures
            final(self).wf(),
            r is Ok <==> old(self)@.len() < Lots::TOTAL_LOTS,
            r matches Ok(i) ==> i == old(self)@.len() && final(self)@ == old(self)@.push(lot),
            r is Err ==> *final(self) == *old(self) && r == Err::<u64, SeedlotContractsError>(
                SeedlotContractsError::LotsFull,
            ),
    {
        let tail = self.lots.len() as u64;
        if tail == Lots::TOTAL_LOTS {
            return Err(SeedlotContractsError::LotsFull);
        }
        self.lots.push(lot);
        Ok(tail)
    }

    /// The lot at `index`, when the index is below the tail.
    pub fn get(&self, index: u64) -> (r: Result<Lot, SeedlotContractsError>)
        ensures
            r is Ok <==> index < self@.len(),
            r matches Ok(l) ==> l == self@[index as int],
            r is Err ==> r == Err::<Lot, SeedlotContractsError>(
                SeedlotContractsError::InvalidLotIndex,
            ),
    {
        if index >= self.lots.len() as u64 {
            return Err(SeedlotContractsError::InvalidLotIndex);
        }
        Ok(self.lots[index as usize])
    }

    /// Removes the lot at `index` by swapping the last record into its slot
    /// and dropping the tail by one; every index below the new tail stays
    /// valid. Fails with `InvalidLotIndex` out of range, with no effect.
    pub fn remove(&mut self, index: u64) -> (r: Result<(), SeedlotContractsError>)
        requires
            old(self).wf(),
        ensures
            final(self).wf(),
            r is Ok <==> index < old(self)@.len(),
            r is Ok ==> final(self)@ == old(self)@.update(
                index as int,
                old(self)@.last(),
            ).drop_last(),
            r is Err ==> *final(self) == *old(self) && r == Err::<(), SeedlotContractsError>(
                SeedlotContractsError::InvalidLotIndex,
            ),
    {
        if index >= self.lots.len() as u64 {
            return Err(SeedlotContractsError::InvalidLotIndex);
        }
        let _ = self.lots.swap_remove(index as usize);
        Ok(())
    }
}

/// Whether preparation's preliminary checks pass: the order is verified
/// against the catalog, its class is readable, and its location, variety and
/// price metadata are present with a price that parses.
pub open spec fn prepare_lots_parses(m: Market, order_index: u64, order_mint: ClassId) -> bool {
    &&& order_index < m.offers@.len()
    &&& m.offers@[order_index as int].mint == order_mint
    &&& m.ledger.spec_valid_class(order_mint as int)
    &&& !m.ledger.spec_closed(order_mint as int)
    &&& meta_lookup(m.ledger.spec_metadata(order_mint as int), MetaKey::Location) is Some
    &&& meta_lookup(m.ledger.spec_metadata(order_mint as int), MetaKey::Variety) is Some
    &&& offer_price_cents(m, order_mint) is Some
}

/// When a preparation succeeds: the preliminary checks pass, the lot registry
/// has room, the buyer holds enough locked order tokens to burn, and the
/// contract's settlement balance can pay the manager's advance.
pub open spec fn prepare_lots_accepts(
    m: Market,
    user: AccountId,
    manager: AccountId,
    order_index: u64,
    order_mint: ClassId,
    qty: u64,
) -> bool {
    &&& prepare_lots_parses(m, order_index, order_mint)
    &&& m.lots@.len() < Lots::TOTAL_LOTS
    &&& {
        let total = order_total(
            offer_price_cents(m, order_mint).unwrap(),
            qty,
            m.contract.trees_per_lot,
        ) as u64;
        let fee = advance_fee(total) as u64;
        let usdc = m.contract.usdc_mint as int;
        let auth = m.contract.authority;
        &&& m.ledger.spec_authority(order_mint as int) == auth
        &&& m.ledger.spec_has_holding(order_mint as int, user as int)
        &&& m.ledger.spec_frozen(order_mint as int, user as int)
        &&& qty <= m.ledger.spec_balance(order_mint as int, user as int)
        &&& m.ledger.spec_valid_class(usdc)
        &&& !m.ledger.spec_closed(usdc)
        &&& m.ledger.spec_has_holding(usdc, auth as int)
        &&& !m.ledger.spec_frozen(usdc, auth as int)
        &&& fee <= m.ledger.spec_balance(usdc, auth as int)
        &&& (if m.ledger.spec_has_holding(usdc, manager as int) {
            !m.ledger.spec_frozen(usdc, manager as int)
        } else {
            !m.ledger.spec_default_frozen(usdc)
        })
        &&& (manager != auth ==> m.ledger.spec_balance(usdc, manager as int) + fee <= u64::MAX)
    }
}

/// The custody error a failing preparation reports, in the order the checks
/// run: the order class must be contract-controlled with enough locked order
/// tokens to burn, and then the advance transfer to the manager must be
/// feasible. Meaningful only when the preparation's custody stage fails.
pub open spec fn prepare_lots_custody_error(
    m: Market,
    user: AccountId,
    manager: AccountId,
    order_mint: ClassId,
    qty: u64,
) -> CustodyError {
    let auth = m.contract.authority;
    let usdc = m.contract.usdc_mint as int;
    let total = order_total(
        offer_price_cents(m, order_mint).unwrap(),
        qty,
        m.contract.trees_per_lot,
    ) as u64;
    let fee = advance_fee(total) as u64;
    if !(m.ledger.spec_valid_class(order_mint as int) && !m.ledger.spec_closed(
        order_mint as int,
    )) {
        CustodyError::InvalidClass
    } else if m.ledger.spec_authority(order_mint as int) != auth {
        CustodyError::UnauthorizedController
    } else if !m.ledger.spec_has_holding(order_mint as int, user as int) {
        CustodyError::UninitializedHolder
    } else if !m.ledger.spec_frozen(order_mint as int, user as int) {
        CustodyError::InvalidState
    } else if qty > m.ledger.spec_balance(order_mint as int, user as int) {
        CustodyError::InsufficientBalance
    } else if !(m.ledger.spec_valid_class(usdc) && !m.ledger.spec_closed(usdc)) {
        CustodyError::InvalidClass
    } else if !m.ledger.spec_has_holding(usdc, auth as int) {
        CustodyError::UninitializedHolder
    } else if m.ledger.spec_frozen(usdc, auth as int) {
        CustodyError::HoldingFrozen
    } else if fee > m.ledger.spec_balance(usdc, auth as int) {
        CustodyError::InsufficientBalance
    } else if !(if m.ledger.spec_has_holding(usdc, manager as int) {
        !m.ledger.spec_frozen(usdc, manager as int)
    } else {
        !m.ledger.spec_default_frozen(usdc)
    }) {
        CustodyError::HoldingFrozen
    } else {
        CustodyError::ArithmeticOverflow
    }
}

/// Prepares lots for an order: burns the buyer's order tokens, creates the
/// lot's representation asset class — bound to the manager and carrying the
/// offer's location and variety, with the price per tree captured as the
/// lot's immutable original price — mints the same quantity of locked lot
/// tokens to the buyer, appends the lot record, and pays the manager a tenth
/// of the lot total as an advance from the contract's settlement balance.
/// Returns the new lot's registry index. A failing call leaves the
/// marketplace untouched.
pub fn prepare_lots(
    market: &mut Market,
    user: AccountId,
    manager: AccountId,
    order_index: u64,
    order_mint: ClassId,
    lot_quantity: u64,
    manager_for_lot: AccountId,
) -> (r: Result<u64, Error>)
    requires
        old(market).wf(),
        prepare_lots_parses(*old(market), order_index, order_mint) ==> {
            let p = offer_price_cents(*old(market), order_mint).unwrap();
            &&& price_units(p) <= u64::MAX
            &&& price_units(p) * lot_quantity <= u64::MAX
            &&& price_units(p) * lot_quantity * old(market).contract.trees_per_lot <= u64::MAX
        },
    ensures
        final(market).wf(),
        r is Ok <==> prepare_lots_accepts(
            *old(market),
            user,
            manager,
            order_index,
            order_mint,
            lot_quantity,
        ),
        r is Err ==> *final(market) == *old(market),
        r == Err::<u64, Error>(Error::Program(SeedlotContractsError::InvalidOfferIndex))
            <==> order_index >= old(market).offers@.len(),
        r == Err::<u64, Error>(Error::Program(SeedlotContractsError::OrderMintNotFound))
            <==> order_index < old(market).offers@.len()
            && old(market).offers@[order_index as int].mint != order_mint,
        r == Err::<u64, Error>(Error::Program(SeedlotContractsError::AdditionalMetadataIllFormed))
            <==> ({
            let meta = old(market).ledger.spec_metadata(order_mint as int);
            &&& order_index < old(market).offers@.len()
            &&& old(market).offers@[order_index as int].mint == order_mint
            &&& old(market).ledger.spec_valid_class(order_mint as int)
            &&& !old(market).ledger.spec_closed(order_mint as int)
            &&& (meta_lookup(meta, MetaKey::Location) is None || meta_lookup(
                meta,
                MetaKey::Variety,
            ) is None || meta_lookup(meta, MetaKey::Price) is None)
        }),
        r == Err::<u64, Error>(Error::Program(SeedlotContractsError::InvalidPrice)) <==> ({
            let meta = old(market).ledger.spec_metadata(order_mint as int);
            &&& order_index < old(market).offers@.len()
            &&& old(market).offers@[order_index as int].mint == order_mint
            &&& old(market).ledger.spec_valid_class(order_mint as int)
            &&& !old(market).ledger.spec_closed(order_mint as int)
            &&& meta_lookup(meta, MetaKey::Location) is Some
            &&& meta_lookup(meta, MetaKey::Variety) is Some
            &&& meta_lookup(meta, MetaKey::Price) matches Some(s)
            &&& parse_u64(s) is None
        }),
        r == Err::<u64, Error>(Error::Program(SeedlotContractsError::LotsFull))
            <==> prepare_lots_parses(*old(market), order_index, order_mint) && old(
            market,
        ).lots@.len() >= Lots::TOTAL_LOTS,
        r matches Err(Error::Custody(_)) <==> order_index < old(market).offers@.len() && old(
            market,
        ).offers@[order_index as int].mint == order_mint && (!(old(
            market,
        ).ledger.spec_valid_class(order_mint as int) && !old(market).ledger.spec_closed(
            order_mint as int,
        )) || (prepare_lots_parses(*old(market), order_index, order_mint) && old(
            market,
        ).lots@.len() < Lots::TOTAL_LOTS && !prepare_lots_accepts(
            *old(market),
            user,
            manager,
            order_index,
            order_mint,
            lot_quantity,
        ))),
        r matches Err(Error::Custody(e)) ==> e == prepare_lots_custody_error(
            *old(market),
            user,
            manager,
            order_mint,
            lot_quantity,
        ),
        r matches Ok(i) ==> {
            let m0 = *old(market);
            let p = offer_price_cents(m0, order_mint).unwrap();
            let total = order_total(p, lot_quantity, m0.contract.trees_per_lot) as u64;
            let fee = advance_fee(total);
            let usdc = m0.contract.usdc_mint as int;
            let auth = m0.contract.authority as int;
            let lotc = m0.ledger.class_count() as int;
            &&& i == m0.lots@.len()
            &&& final(market).lots@ == m0.lots@.push(
                Lot { mint: m0.ledger.class_count() as ClassId, original_price_per_tree: p },
            )
            &&& final(market).offers == m0.offers
            &&& final(market).contract == m0.contract
            &&& final(market).ledger.class_count() == m0.ledger.class_count() + 1
            &&& final(market).ledger.spec_balance(order_mint as int, user as int)
                == m0.ledger.spec_balance(order_mint as int, user as int) - lot_quantity
            &&& final(market).ledger.spec_frozen(order_mint as int, user as int)
            &&& final(market).ledger.spec_supply(order_mint as int) == m0.ledger.spec_supply(
                order_mint as int,
            ) - lot_quantity
            &&& class_eq_except_supply(m0.ledger, final(market).ledger, order_mint as int)
            &&& final(market).ledger.spec_valid_class(lotc)
            &&& !final(market).ledger.spec_closed(lotc)
            &&& final(market).ledger.spec_authority(lotc) == m0.contract.authority
            &&& final(market).ledger.spec_default_frozen(lotc)
            &&& final(market).ledger.spec_supply(lotc) == lot_quantity
            &&& final(market).ledger.spec_manager(lotc) == Some(manager_for_lot)
            &&& final(market).ledger.spec_metadata(lotc) == seq![
                (
                    MetaKey::Location,
                    meta_lookup(
                        m0.ledger.spec_metadata(order_mint as int),
                        MetaKey::Location,
                    ).unwrap(),
                ),
                (
                    MetaKey::Variety,
                    meta_lookup(m0.ledger.spec_metadata(order_mint as int), MetaKey::Variety).unwrap(),
                ),
                (MetaKey::State, LotState::Preparation.spec_code()),
            ]
            &&& final(market).ledger.spec_balance(lotc, user as int) == lot_quantity
            &&& final(market).ledger.spec_frozen(lotc, user as int)
            &&& (manager as int != auth ==> final(market).ledger.spec_balance(usdc, auth)
                == m0.ledger.spec_balance(usdc, auth) - fee)
            &&& (manager as int != auth ==> final(market).ledger.spec_balance(usdc, manager as int)
                == m0.ledger.spec_balance(usdc, manager as int) + fee)
            &&& (manager as int == auth ==> final(market).ledger.spec_balance(usdc, auth)
                == m0.ledger.spec_balance(usdc, auth))
            &&& final(market).ledger.spec_has_holding(usdc, manager as int)
            &&& !final(market).ledger.spec_frozen(usdc, manager as int)
            &&& final(market).ledger.spec_has_holding(usdc, auth)
            &&& !final(market).ledger.spec_frozen(usdc, auth)
            &&& forall|c2: int, o2: int|
                !(c2 == order_mint as int && o2 == user as int) && !(c2 == lotc && o2
                    == user as int) && !(c2 == usdc && (o2 == auth || o2 == manager as int))
                    ==> #[trigger] holding_eq(m0.ledger, final(market).ledger, c2, o2)
            &&& forall|c2: int|
                c2 != order_mint as int && c2 != lotc ==> #[trigger] class_eq(
                    m0.ledger,
                    final(market).ledger,
                    c2,
                )
        },
{
    match market.offers.verify_order(order_index, order_mint) {
        Ok(()) => {},
        Err(e) => {
            return Err(Error::Program(e));
        },
    }
    let (location, variety, price) = {
        let metadata = match get_token_metadata(&market.ledger, order_mint) {
            Ok(v) => v,
            Err(e) => {
                return Err(e);
            },
        };
        let location = match get_value(metadata, MetaKey::Location) {
            Ok(s) => s,
            Err(e) => {
                return Err(e);
            },
        };
        let variety = match get_value(metadata, MetaKey::Variety) {
            Ok(s) => s,
            Err(e) => {
                return Err(e);
            },
        };
        let price = match get_value(metadata, MetaKey::Price) {
            Ok(s) => s,
            Err(e) => {
                return Err(e);
            },
        };
        (location, variety, price)
    };
    let price_in_cents = match price_string_2_cents(&price) {
        Ok(v) => v,
        Err(e) => {
            return Err(e);
        },
    };
    proof {
        assert(offer_price_cents(*market, order_mint) == Some(price_in_cents));
    }
    if market.lots.tail() == Lots::TOTAL_LOTS {
        return Err(Error::Program(SeedlotContractsError::LotsFull));
    }
    let price_in_usdc = price_cents_2_usdc(&price_in_cents);
    let total_price = price_in_usdc * lot_quantity * market.contract.trees_per_lot;
    let manager_fee = total_price / 10;
    let auth = market.contract.authority;
    let usdc = market.contract.usdc_mint;

    // Every custody step is checked against the current state before the
    // first of them runs, so a failing preparation has no partial effect.
    match market.ledger.class_authority(order_mint) {
        Some(a) => {
            if a != auth {
                return Err(Error::Custody(CustodyError::UnauthorizedController));
            }
        },
        None => {
            return Err(Error::Custody(CustodyError::InvalidClass));
        },
    }
    match market.ledger.holding_frozen(order_mint, user) {
        None => {
            return Err(Error::Custody(CustodyError::UninitializedHolder));
        },
        Some(false) => {
            return Err(Error::Custody(CustodyError::InvalidState));
        },
        Some(true) => {},
    }
    if lot_quantity > market.ledger.balance(order_mint, user) {
        return Err(Error::Custody(CustodyError::InsufficientBalance));
    }
    if !market.ledger.class_open(usdc) {
        return Err(Error::Custody(CustodyError::InvalidClass));
    }
    match market.ledger.holding_frozen(usdc, auth) {
        None => {
            return Err(Error::Custody(CustodyError::UninitializedHolder));
        },
        Some(true) => {
            return Err(Error::Custody(CustodyError::HoldingFrozen));
        },
        Some(false) => {},
    }
    if manager_fee > market.ledger.balance(usdc, auth) {
        return Err(Error::Custody(CustodyError::InsufficientBalance));
    }
    let manager_ok = match market.ledger.holding_frozen(usdc, manager) {
        Some(f) => !f,
        None => match market.ledger.class_default_frozen(usdc) {
            Some(d) => !d,
            None => false,
        },
    };
    if !manager_ok {
        return Err(Error::Custody(CustodyError::HoldingFrozen));
    }
    if manager != auth {
        let manager_bal = market.ledger.balance(usdc, manager);
        if manager_fee > u64::MAX - manager_bal {
            return Err(Error::Custody(CustodyError::ArithmeticOverflow));
        }
    }
    proof {
        // The buyer's order holding is locked while every settlement holding
        // in play is unlocked, so the two classes cannot alias on a holder.
        if usdc == order_mint && (user == auth || user == manager) {
            assert(false);
        }
    }

    let ghost l0 = market.ledger;
    match burn_frozen_tokens_from(&mut market.ledger, order_mint, user, lot_quantity, auth) {
        Ok(()) => {},
        Err(_) => {
            proof {
                assert(false);
            }
            return Err(Error::Custody(CustodyError::InvalidClass));
        },
    }
    let ghost l1 = market.ledger;
    proof {
        if usdc != order_mint {
            assert(class_eq(l0, l1, usdc as int));
        }
        assert(l1.spec_valid_class(usdc as int) && !l1.spec_closed(usdc as int));
    }
    let lot_mint_metadata = MintMetadata {
        name: "Seedlot Lot".to_owned(),
        symbol: "SL".to_owned(),
        uri: String::new(),
        location_variety_price: Some([location, variety, String::new()]),
        manager_for_lot: Some(manager_for_lot),
    };
    let lot_mint = init_mint(&mut market.ledger, auth, &lot_mint_metadata);
    let ghost l2 = market.ledger;
    proof {
        assert(lot_mint as int == l0.class_count());
        assert(lot_mint != usdc && lot_mint != order_mint);
        assert(class_eq(l1, l2, usdc as int));
        assert(class_eq(l1, l2, order_mint as int));
    }
    match market.ledger.ensure_holding(lot_mint, user) {
        Ok(()) => {},
        Err(_) => {
            proof {
                assert(false);
            }
            return Err(Error::Custody(CustodyError::InvalidClass));
        },
    }
    let ghost l3 = market.ledger;
    proof {
        l2.lemma_balance_absent(lot_mint as int, user as int);
        assert(class_eq(l2, l3, lot_mint as int));
        assert(class_eq(l2, l3, usdc as int));
        assert(class_eq(l2, l3, order_mint as int));
    }
    match mint_frozen_tokens_to(&mut market.ledger, lot_mint, user, lot_quantity, auth) {
        Ok(()) => {},
        Err(_) => {
            proof {
                assert(false);
            }
            return Err(Error::Custody(CustodyError::InvalidClass));
        },
    }
    let ghost l4 = market.ledger;
    let lot_index = match market.lots.push(
        Lot { mint: lot_mint, original_price_per_tree: price_in_cents },
    ) {
        Ok(i) => i,
        Err(_) => {
            proof {
                assert(false);
            }
            return Err(Error::Program(SeedlotContractsError::LotsFull));
        },
    };
    proof {
        assert(class_eq(l3, l4, usdc as int));
        assert(class_eq(l3, l4, order_mint as int));
        assert(holding_eq(l1, l2, usdc as int, auth as int));
        assert(holding_eq(l2, l3, usdc as int, auth as int));
        assert(holding_eq(l3, l4, usdc as int, auth as int));
        assert(holding_eq(l0, l1, usdc as int, auth as int));
        assert(holding_eq(l0, l1, usdc as int, manager as int));
        assert(holding_eq(l1, l2, usdc as int, manager as int));
        assert(holding_eq(l2, l3, usdc as int, manager as int));
        assert(holding_eq(l3, l4, usdc as int, manager as int));
    }
    match market.ledger.ensure_holding(usdc, manager) {
        Ok(()) => {},
        Err(_) => {
            proof {
                assert(false);
            }
            return Err(Error::Custody(CustodyError::InvalidClass));
        },
    }
    let ghost l5 = market.ledger;
    proof {
        assert(class_eq(l4, l5, usdc as int));
        assert(class_eq(l4, l5, order_mint as int));
        assert(class_eq(l4, l5, lot_mint as int));
        assert(holding_eq(l4, l5, usdc as int, auth as int) || manager == auth);
    }
    match market.ledger.transfer(usdc, auth, manager, manager_fee) {
        Ok(()) => {},
        Err(_) => {
            proof {
                assert(false);
            }
            return Err(Error::Custody(CustodyError::InvalidClass));
        },
    }
    proof {
        let lotc = lot_mint as int;
        assert forall|c2: int, o2: int|
            !(c2 == order_mint as int && o2 == user as int) && !(c2 == lotc && o2 == user as int)
                && !(c2 == usdc as int && (o2 == auth as int || o2 == manager as int)) implies
            #[trigger] holding_eq(l0, market.ledger, c2, o2) by {
            assert(holding_eq(l0, l1, c2, o2));
            assert(holding_eq(l1, l2, c2, o2));
            assert(holding_eq(l2, l3, c2, o2));
            assert(holding_eq(l3, l4, c2, o2));
            assert(holding_eq(l4, l5, c2, o2));
            assert(holding_eq(l5, market.ledger, c2, o2));
        }
        assert forall|c2: int| c2 != order_mint as int && c2 != lotc implies #[trigger] class_eq(
            l0,
            market.ledger,
            c2,
        ) by {
            assert(class_eq(l0, l1, c2));
            assert(class_eq(l1, l2, c2));
            assert(class_eq(l2, l3, c2));
            assert(class_eq(l3, l4, c2));
            assert(class_eq(l4, l5, c2));
            assert(class_eq(l5, market.ledger, c2));
        }
        assert(class_eq(l4, l5, lotc));
        assert(class_eq(l5, market.ledger, lotc));
        assert(holding_eq(l4, l5, lotc, user as int));
        assert(holding_eq(l5, market.ledger, lotc, user as int));
        assert(holding_eq(l1, l2, order_mint as int, user as int));
        assert(holding_eq(l2, l3, order_mint as int, user as int));
        assert(holding_eq(l3, l4, order_mint as int, user as int));
        assert(holding_eq(l4, l5, order_mint as int, user as int));
        assert(holding_eq(l5, market.ledger, order_mint as int, user as int));
        assert(class_eq(l5, market.ledger, order_mint as int));
    }
    Ok(lot_index)
}

} // verus!
