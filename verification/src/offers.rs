//! The catalog registry: a fixed-capacity, append-only list of sellable
//! offers, each naming the representation asset class that stands for it.

use vstd::prelude::*;

use crate::contract::Market;
use crate::errors::{Error, SeedlotContractsError};
use crate::ledger::{classes_eq_except, holdings_eq, ClassId};
use crate::utils::{init_mint, mint_metadata_entries, MintMetadata};

verus! {

/// A catalog entry: the asset class whose tokens represent orders of this
/// offer.
#[derive(Clone, Copy, Debug, PartialEq, Eq, Structural)]
pub struct Offer {
    pub mint: ClassId,
}

/// The offers registry: append-only, at most [`Offers::TOTAL_OFFERS`]
/// entries, identified by insertion order. Offers are never removed.
pub struct Offers {
    offers: Vec<Offer>,
}

impl View for Offers {
    type V = Seq<Offer>;

    closed spec fn view(&self) -> Seq<Offer> {
        self.offers@
    }
}

impl Offers {
    /// The registry's capacity.
    pub const TOTAL_OFFERS: u64 = 300;

    /// The registry never grows past its capacity.
    pub open spec fn wf(self) -> bool {
        self@.len() <= Offers::TOTAL_OFFERS
    }

    /// An empty registry.
    pub fn new() -> (r: Offers)
        ensures
            r@ == Seq::<Offer>::empty(),
            r.wf(),
    {
        Offers { offers: Vec::new() }
    }

    /// The tail pointer: the index the next offer will take.
    pub fn tail(&self) -> (t: u64)
        requires
            self@.len() <= u64::MAX,
        ensures
            t == self@.len(),
    {
        self.offers.len() as u64
    }

    /// The offer at `index`, when the index is below the tail.
    pub fn get(&self, index: u64) -> (r: Result<Offer, SeedlotContractsError>)
        ensures
            r is Ok <==> index < self@.len(),
            r matches Ok(o) ==> o == self@[index as int],
            r is Err ==> r == Err::<Offer, SeedlotContractsError>(
                SeedlotContractsError::InvalidOfferIndex,
            ),
    {
        if index >= self.offers.len() as u64 {
            return Err(SeedlotContractsError::InvalidOfferIndex);
        }
        Ok(self.offers[index as usize])
    }

    /// Appends an offer and returns its index; fails with `OffersFull` at
    /// capacity, leaving the registry unchanged.
    pub fn push(&mut self, offer: Offer) -> (r: Result<u64, SeedlotContractsError>)
        requires
            old(self).wf(),
        ensures
            final(self).wf(),
            r is Ok <==> old(self)@.len() < Offers::TOTAL_OFFERS,
            r matches Ok(i) ==> i == old(self)@.len() && final(self)@ == old(self)@.push(offer),
            r is Err ==> *final(self) == *old(self) && r == Err::<u64, SeedlotContractsError>(
                SeedlotContractsError::OffersFull,
            ),
    {
        let tail = self.offers.len() as u64;
        if tail == Offers::TOTAL_OFFERS {
            return Err(SeedlotContractsError::OffersFull);
        }
        self.offers.push(offer);
        Ok(tail)
    }
}

/// Lists a new offer: creates its representation asset class under the
/// contract's authority, carrying the descriptor's location, variety and
/// price metadata, and appends the offer to the catalog. Fails with
/// `OffersFull` at capacity, with no other effect.
pub fn add_offer(market: &mut Market, offer_mint_metadata: &MintMetadata) -> (r: Result<u64, Error>)
    requires
        old(market).wf(),
    ensures
        final(market).wf(),
        r is Ok <==> old(market).offers@.len() < Offers::TOTAL_OFFERS,
        r is Err ==> *final(market) == *old(market) && r == Err::<u64, Error>(
            Error::Program(SeedlotContractsError::OffersFull),
        ),
        r matches Ok(i) ==> {
            &&& i == old(market).offers@.len()
            &&& final(market).offers@ == old(market).offers@.push(
                Offer { mint: old(market).ledger.class_count() as ClassId },
            )
            &&& final(market).ledger.class_count() == old(market).ledger.class_count() + 1
            &&& {
                let c = old(market).ledger.class_count() as int;
                &&& final(market).ledger.spec_valid_class(c)
                &&& final(market).ledger.spec_authority(c) == old(market).contract.authority
                &&& final(market).ledger.spec_default_frozen(c)
                &&& final(market).ledger.spec_supply(c) == 0
                &&& !final(market).ledger.spec_closed(c)
                &&& final(market).ledger.spec_metadata(c) == mint_metadata_entries(
                    *offer_mint_metadata,
                )
            }
            &&& classes_eq_except(
                old(market).ledger,
                final(market).ledger,
                old(market).ledger.class_count() as int,
            )
            &&& holdings_eq(old(market).ledger, final(market).ledger)
            &&& final(market).contract == old(market).contract
            &&& final(market).lots == old(market).lots
        },
{
    if market.offers.tail() == Offers::TOTAL_OFFERS {
        return Err(Error::Program(SeedlotContractsError::OffersFull));
    }
    let mint = init_mint(&mut market.ledger, market.contract.authority, offer_mint_metadata);
    match market.offers.push(Offer { mint }) {
        Ok(i) => Ok(i),
        Err(_) => {
            proof {
                assert(false);
            }
            Err(Error::Program(SeedlotContractsError::OffersFull))
        },
    }
}

} // verus!
