//! Shared helpers of the marketplace: reading and parsing offer metadata,
//! converting cent prices to settlement units, creating the representation
//! asset classes, and the freeze-sandwich custody adapters that mint and burn
//! while keeping a holding transfer-locked.

use vstd::prelude::*;

use crate::errors::{CustodyError, Error, SeedlotContractsError};
use crate::ledger::{
    find_meta, lemma_meta_first, meta_entry_view, meta_has, meta_lookup, AccountId, ClassId,
    MetaEntry, MetaKey, TokenLedger,
};

verus! {

/// Whether `c` is a decimal digit.
pub open spec fn is_dec_digit(c: char) -> bool {
    '0' <= c && c <= '9'
}

/// The numeric value of a decimal digit.
pub open spec fn dec_digit_value(c: char) -> int {
    c as u32 - '0' as u32
}

/// Whether every character of `s` is a decimal digit.
pub open spec fn all_dec_digits(s: Seq<char>) -> bool {
    forall|i: int| 0 <= i < s.len() ==> is_dec_digit(#[trigger] s[i])
}

/// The number a digit string denotes in base ten.
pub open spec fn dec_value(s: Seq<char>) -> int
    decreases s.len(),
{
    if s.len() == 0 {
        0
    } else {
        dec_value(s.drop_last()) * 10 + dec_digit_value(s.last())
    }
}

/// The digit part of an integer string: everything after an optional leading
/// plus sign.
pub open spec fn dec_digits_of(s: Seq<char>) -> Seq<char> {
    if s.len() > 0 && s[0] == '+' {
        s.subrange(1, s.len() as int)
    } else {
        s
    }
}

/// The unsigned reading of a string: the number it denotes when it is an
/// optional plus sign followed by one or more decimal digits whose value
/// fits, and nothing otherwise.
pub open spec fn parse_u64(s: Seq<char>) -> Option<u64> {
    let d = dec_digits_of(s);
    if d.len() > 0 && all_dec_digits(d) && dec_value(d) <= u64::MAX {
        Some(dec_value(d) as u64)
    } else {
        None
    }
}

proof fn lemma_dec_value_nonneg(s: Seq<char>)
    requires
        all_dec_digits(s),
    ensures
        dec_value(s) >= 0,
    decreases s.len(),
{
    if s.len() > 0 {
        assert(all_dec_digits(s.drop_last())) by {
            assert(forall|i: int|
                0 <= i < s.len() - 1 ==> #[trigger] s.drop_last()[i] == s[i]);
        }
        lemma_dec_value_nonneg(s.drop_last());
    }
}

/// A digit string denotes at least what any of its prefixes denotes.
proof fn lemma_dec_value_prefix_le(s: Seq<char>, i: int)
    requires
        all_dec_digits(s),
        0 <= i <= s.len(),
    ensures
        dec_value(s.take(i)) <= dec_value(s),
    decreases s.len() - i,
{
    if i == s.len() {
        assert(s.take(i) =~= s);
    } else {
        assert(all_dec_digits(s.take(i))) by {
            assert(forall|j: int| 0 <= j < i ==> #[trigger] s.take(i)[j] == s[j]);
        }
        lemma_dec_value_nonneg(s.take(i));
        assert(s.take(i + 1).drop_last() =~= s.take(i));
        assert(s.take(i + 1).last() == s[i]);
        assert(dec_value(s.take(i + 1)) == dec_value(s.take(i)) * 10 + dec_digit_value(s[i]));
        lemma_dec_value_prefix_le(s, i + 1);
    }
}

/// Reads a price string as a whole number of cents, as the catalog stores it
/// (`"100"` is one dollar). Fails on anything but a non-negative integer
/// string whose value fits.
pub fn price_string_2_cents(price: &String) -> (r: Result<u64, Error>)
    ensures
        r is Ok <==> parse_u64(price@) is Some,
        r matches Ok(v) ==> parse_u64(price@) == Some(v),
        r is Err ==> r == Err::<u64, Error>(
            Error::Program(SeedlotContractsError::InvalidPrice),
        ),
{
    let s = price.as_str();
    let n = s.unicode_len();
    let start: usize = if n > 0 && s.get_char(0) == '+' {
        1
    } else {
        0
    };
    let ghost d = dec_digits_of(price@);
    proof {
        assert(d =~= price@.subrange(start as int, n as int));
    }
    if n == start {
        return Err(Error::Program(SeedlotContractsError::InvalidPrice));
    }
    let mut value: u64 = 0;
    let mut i: usize = start;
    while i < n
        invariant
            start <= i <= n,
            n == price@.len(),
            s@ == price@,
            d == dec_digits_of(price@),
            d =~= price@.subrange(start as int, n as int),
            forall|j: int| 0 <= j < i - start ==> is_dec_digit(#[trigger] d[j]),
            value == dec_value(d.take(i - start)),
        decreases n - i,
    {
        let c = s.get_char(i);
        if c < '0' || c > '9' {
            assert(d[i - start] == price@[i as int]);
            assert(!all_dec_digits(d));
            return Err(Error::Program(SeedlotContractsError::InvalidPrice));
        }
        let dv: u64 = (c as u32 - 48) as u64;
        assert(dv == dec_digit_value(c) && dv <= 9) by {
            assert('0' as u32 == 48 && '9' as u32 == 57);
        }
        if value > (u64::MAX - dv) / 10 {
            proof {
                assert(d[i - start] == price@[i as int]);
                assert(d.take(i - start + 1).drop_last() =~= d.take(i - start));
                assert(d.take(i - start + 1).last() == d[i - start]);
                assert(dec_value(d.take(i - start + 1)) == value * 10 + dv);
                assert(value * 10 + dv > u64::MAX) by {
                    assert(value >= (u64::MAX - dv) / 10 + 1);
                    assert(((u64::MAX - dv) / 10 + 1) * 10 == ((u64::MAX - dv) / 10) * 10 + 10);
                    assert(((u64::MAX - dv) / 10) * 10 + ((u64::MAX - dv) as int % 10) == (
                    u64::MAX - dv) as int) by {
                        vstd::arithmetic::div_mod::lemma_fundamental_div_mod(
                            (u64::MAX - dv) as int,
                            10,
                        );
                    }
                    assert(value * 10 >= ((u64::MAX - dv) / 10 + 1) * 10) by (nonlinear_arith)
                        requires
                            value >= (u64::MAX - dv) / 10 + 1,
                    ;
                }
                if all_dec_digits(d) {
                    lemma_dec_value_prefix_le(d, i - start + 1);
                }
            }
            return Err(Error::Program(SeedlotContractsError::InvalidPrice));
        }
        proof {
            assert(value * 10 + dv <= u64::MAX) by {
                assert(value <= (u64::MAX - dv) / 10);
                assert(((u64::MAX - dv) / 10) * 10 <= u64::MAX - dv) by {
                    vstd::arithmetic::div_mod::lemma_fundamental_div_mod(
                        (u64::MAX - dv) as int,
                        10,
                    );
                }
                assert(value * 10 <= ((u64::MAX - dv) / 10) * 10) by (nonlinear_arith)
                    requires
                        value <= (u64::MAX - dv) / 10,
                ;
            }
            assert(d[i - start] == price@[i as int]);
            assert(d.take(i - start + 1).drop_last() =~= d.take(i - start));
            assert(d.take(i - start + 1).last() == d[i - start]);
        }
        value = value * 10 + dv;
        i = i + 1;
    }
    proof {
        assert(d.take(n - start) =~= d);
        assert(all_dec_digits(d));
        assert(parse_u64(price@) == Some(value));
    }
    Ok(value)
}

/// The settlement-unit worth of a cent price: the settlement asset keeps six
/// decimal places, so one cent is ten thousand units.
pub open spec fn price_units(cents: u64) -> int {
    cents * 10000
}

/// The manager's advance: a tenth of a lot total, paid at preparation.
pub open spec fn advance_fee(total: u64) -> int {
    total as int / 10
}

/// The manager's remainder: nine tenths of a lot total, paid at
/// confirmation.
pub open spec fn remaining_fee(total: u64) -> int {
    total as int * 9 / 10
}

/// Converts a cent price to settlement units.
pub fn price_cents_2_usdc(price: &u64) -> (r: u64)
    requires
        price_units(*price) <= u64::MAX,
    ensures
        r == price_units(*price),
{
    *price * 10000
}

/// The descriptive metadata of the representation asset `mint`, read back
/// from the custody service. Fails when the class is unknown or closed.
pub fn get_token_metadata(ledger: &TokenLedger, mint: ClassId) -> (r: Result<&Vec<MetaEntry>, Error>)
    ensures
        r is Ok <==> ledger.spec_valid_class(mint as int) && !ledger.spec_closed(mint as int),
        r matches Ok(v) ==> v@.map_values(|e: MetaEntry| meta_entry_view(e))
            == ledger.spec_metadata(mint as int),
        r is Err ==> r == Err::<&Vec<MetaEntry>, Error>(Error::Custody(CustodyError::InvalidClass)),
{
    match ledger.class_metadata(mint) {
        Ok(v) => Ok(v),
        Err(e) => Err(Error::Custody(e)),
    }
}

/// The value filed under `key` in `metadata`, reading the first entry. Fails
/// when the key is absent.
pub fn get_value(metadata: &Vec<MetaEntry>, key: MetaKey) -> (r: Result<String, Error>)
    ensures
        r is Ok <==> meta_has(metadata@.map_values(|e: MetaEntry| meta_entry_view(e)), key),
        r matches Ok(s) ==> meta_lookup(
            metadata@.map_values(|e: MetaEntry| meta_entry_view(e)),
            key,
        ) == Some(s@),
        r is Err ==> r == Err::<String, Error>(
            Error::Program(SeedlotContractsError::AdditionalMetadataIllFormed),
        ),
{
    let ghost m = metadata@.map_values(|e: MetaEntry| meta_entry_view(e));
    match find_meta(metadata, key) {
        None => {
            proof {
                if meta_has(m, key) {
                    let w = choose|i: int| 0 <= i < m.len() && (#[trigger] m[i]).0 == key;
                    assert(metadata@[w].key == key);
                    assert(false);
                }
            }
            Err(Error::Program(SeedlotContractsError::AdditionalMetadataIllFormed))
        },
        Some(i) => {
            proof {
                assert(m[i as int].0 == key);
                assert forall|j: int| 0 <= j < i implies (#[trigger] m[j]).0 != key by {
                    assert(metadata@[j].key != key);
                }
                lemma_meta_first(m, key, i as int);
            }
            Ok(metadata[i].value.clone())
        },
    }
}

/// The descriptor handed in when a representation asset class is created:
/// display fields held by the external metadata store, the catalog entry's
/// location, variety and price strings, and — for a lot class — the manager
/// the lot is bound to.
pub struct MintMetadata {
    pub name: String,
    pub symbol: String,
    pub uri: String,
    pub location_variety_price: Option<[String; 3]>,
    pub manager_for_lot: Option<AccountId>,
}

/// The metadata entries a descriptor files on a new class: location, variety
/// and a zero state tag for a lot class; location, variety and price for an
/// offer class; nothing without catalog fields.
pub open spec fn mint_metadata_entries(m: MintMetadata) -> Seq<(MetaKey, Seq<char>)> {
    match m.location_variety_price {
        Some(lvp) => {
            if m.manager_for_lot is Some {
                seq![
                    (MetaKey::Location, lvp[0]@),
                    (MetaKey::Variety, lvp[1]@),
                    (MetaKey::State, "0"@),
                ]
            } else {
                seq![
                    (MetaKey::Location, lvp[0]@),
                    (MetaKey::Variety, lvp[1]@),
                    (MetaKey::Price, lvp[2]@),
                ]
            }
        },
        None => Seq::empty(),
    }
}

/// Creates a representation asset class under the contract's authority: new
/// balance records start transfer-locked, the descriptor's catalog fields
/// become the class's metadata, and a lot descriptor's manager is recorded on
/// the class.
pub fn init_mint(
    ledger: &mut TokenLedger,
    authority: AccountId,
    mint_metadata: &MintMetadata,
) -> (c: ClassId)
    requires
        old(ledger).wf(),
    ensures
        final(ledger).wf(),
        c as int == old(ledger).class_count(),
        final(ledger).class_count() == old(ledger).class_count() + 1,
        final(ledger).spec_valid_class(c as int),
        final(ledger).spec_authority(c as int) == authority,
        final(ledger).spec_default_frozen(c as int),
        final(ledger).spec_supply(c as int) == 0,
        !final(ledger).spec_closed(c as int),
        final(ledger).spec_manager(c as int) == (if mint_metadata.location_variety_price
            is Some {
            mint_metadata.manager_for_lot
        } else {
            None::<AccountId>
        }),
        final(ledger).spec_metadata(c as int) == mint_metadata_entries(*mint_metadata),
        forall|o: int| !(#[trigger] final(ledger).spec_has_holding(c as int, o)),
        crate::ledger::classes_eq_except(*old(ledger), *final(ledger), c as int),
        crate::ledger::holdings_eq(*old(ledger), *final(ledger)),
{
    let mut entries: Vec<MetaEntry> = Vec::new();
    let mut manager: Option<AccountId> = None;
    match &mint_metadata.location_variety_price {
        Some(lvp) => {
            entries.push(MetaEntry { key: MetaKey::Location, value: lvp[0].clone() });
            entries.push(MetaEntry { key: MetaKey::Variety, value: lvp[1].clone() });
            match &mint_metadata.manager_for_lot {
                Some(m) => {
                    entries.push(MetaEntry { key: MetaKey::State, value: "0".to_owned() });
                    manager = Some(*m);
                },
                None => {
                    entries.push(MetaEntry { key: MetaKey::Price, value: lvp[2].clone() });
                },
            }
        },
        None => {},
    }
    proof {
        assert(entries@.map_values(|e: MetaEntry| meta_entry_view(e)) =~= mint_metadata_entries(
            *mint_metadata,
        ));
    }
    let c = ledger.create_class(authority, true, manager, entries);
    proof {
        assert forall|o: int| !ledger.spec_has_holding(c as int, o) by {}
    }
    c
}

/// When the freeze-sandwich mint succeeds: the class exists, is open and is
/// controlled by the supplied authority, the recipient's record exists and is
/// transfer-locked as every resting representation holding is, and the new
/// supply fits.
pub open spec fn can_mint_frozen(
    l: TokenLedger,
    c: int,
    o: int,
    amount: u64,
    authority: AccountId,
) -> bool {
    &&& l.spec_valid_class(c)
    &&& !l.spec_closed(c)
    &&& authority == l.spec_authority(c)
    &&& l.spec_has_holding(c, o)
    &&& l.spec_frozen(c, o)
    &&& l.spec_supply(c) + amount <= u64::MAX
}

/// When the freeze-sandwich burn succeeds: as the mint, except the holder's
/// balance must cover the amount.
pub open spec fn can_burn_frozen(
    l: TokenLedger,
    c: int,
    o: int,
    amount: u64,
    authority: AccountId,
) -> bool {
    &&& l.spec_valid_class(c)
    &&& !l.spec_closed(c)
    &&& authority == l.spec_authority(c)
    &&& l.spec_has_holding(c, o)
    &&& l.spec_frozen(c, o)
    &&& amount <= l.spec_balance(c, o)
}

/// Mints `amount` of `mint` to holder `to` under the freeze sandwich: the
/// transfer-locked record is thawed, minted to, and locked again, so it is
/// observably locked before and after the call. Feasibility is checked before
/// the thaw, so a failing call leaves the ledger untouched.
pub fn mint_frozen_tokens_to(
    ledger: &mut TokenLedger,
    mint: ClassId,
    to: AccountId,
    amount: u64,
    authority: AccountId,
) -> (r: Result<(), Error>)
    requires
        old(ledger).wf(),
    ensures
        final(ledger).wf(),
        r is Ok <==> can_mint_frozen(*old(ledger), mint as int, to as int, amount, authority),
        r is Err ==> *final(ledger) == *old(ledger) && r matches Err(Error::Custody(_)),
        r == Err::<(), Error>(Error::Custody(CustodyError::InvalidClass)) <==> !(old(
            ledger,
        ).spec_valid_class(mint as int) && !old(ledger).spec_closed(mint as int)),
        r == Err::<(), Error>(Error::Custody(CustodyError::UnauthorizedController)) <==> old(
            ledger,
        ).spec_valid_class(mint as int) && !old(ledger).spec_closed(mint as int) && authority
            != old(ledger).spec_authority(mint as int),
        r == Err::<(), Error>(Error::Custody(CustodyError::UninitializedHolder)) <==> old(
            ledger,
        ).spec_valid_class(mint as int) && !old(ledger).spec_closed(mint as int) && authority
            == old(ledger).spec_authority(mint as int) && !old(ledger).spec_has_holding(
            mint as int,
            to as int,
        ),
        r == Err::<(), Error>(Error::Custody(CustodyError::InvalidState)) <==> old(
            ledger,
        ).spec_valid_class(mint as int) && !old(ledger).spec_closed(mint as int) && authority
            == old(ledger).spec_authority(mint as int) && old(ledger).spec_has_holding(
            mint as int,
            to as int,
        ) && !old(ledger).spec_frozen(mint as int, to as int),
        r == Err::<(), Error>(Error::Custody(CustodyError::ArithmeticOverflow)) <==> old(
            ledger,
        ).spec_valid_class(mint as int) && !old(ledger).spec_closed(mint as int) && authority
            == old(ledger).spec_authority(mint as int) && old(ledger).spec_has_holding(
            mint as int,
            to as int,
        ) && old(ledger).spec_frozen(mint as int, to as int) && old(ledger).spec_supply(
            mint as int,
        ) + amount > u64::MAX,
        r is Ok ==> {
            &&& final(ledger).spec_has_holding(mint as int, to as int)
            &&& final(ledger).spec_balance(mint as int, to as int) == old(ledger).spec_balance(
                mint as int,
                to as int,
            ) + amount
            &&& final(ledger).spec_frozen(mint as int, to as int)
            &&& final(ledger).spec_supply(mint as int) == old(ledger).spec_supply(mint as int)
                + amount
            &&& crate::ledger::holdings_eq_except(
                *old(ledger),
                *final(ledger),
                mint as int,
                to as int,
            )
            &&& crate::ledger::classes_eq_except(*old(ledger), *final(ledger), mint as int)
            &&& crate::ledger::class_eq_except_supply(*old(ledger), *final(ledger), mint as int)
            &&& final(ledger).class_count() == old(ledger).class_count()
        },
{
    if !ledger.class_open(mint) {
        return Err(Error::Custody(CustodyError::InvalidClass));
    }
    match ledger.class_authority(mint) {
        Some(a) => {
            if a != authority {
                return Err(Error::Custody(CustodyError::UnauthorizedController));
            }
        },
        None => {
            return Err(Error::Custody(CustodyError::InvalidClass));
        },
    }
    match ledger.holding_frozen(mint, to) {
        None => {
            return Err(Error::Custody(CustodyError::UninitializedHolder));
        },
        Some(false) => {
            return Err(Error::Custody(CustodyError::InvalidState));
        },
        Some(true) => {},
    }
    let sup = match ledger.supply(mint) {
        Some(s) => s,
        None => {
            return Err(Error::Custody(CustodyError::InvalidClass));
        },
    };
    if amount > u64::MAX - sup {
        return Err(Error::Custody(CustodyError::ArithmeticOverflow));
    }
    let ghost l0 = *ledger;
    match ledger.thaw(mint, to, authority) {
        Ok(()) => {},
        Err(e) => {
            proof {
                assert(false);
            }
            return Err(Error::Custody(e));
        },
    }
    let ghost l1 = *ledger;
    match ledger.mint(mint, to, amount, authority) {
        Ok(()) => {},
        Err(e) => {
            proof {
                assert(crate::ledger::class_eq(l0, l1, mint as int));
                assert(false);
            }
            return Err(Error::Custody(e));
        },
    }
    let ghost l2 = *ledger;
    match ledger.freeze(mint, to, authority) {
        Ok(()) => {},
        Err(e) => {
            proof {
                assert(crate::ledger::class_eq(l0, l1, mint as int));
                assert(false);
            }
            return Err(Error::Custody(e));
        },
    }
    proof {
        assert(crate::ledger::class_eq(l0, l1, mint as int));
        assert(crate::ledger::class_eq(l2, *ledger, mint as int));
        assert forall|c2: int, o2: int|
            !(c2 == mint as int && o2 == to as int) implies crate::ledger::holding_eq(
            l0,
            *ledger,
            c2,
            o2,
        ) by {
            assert(crate::ledger::holding_eq(l0, l1, c2, o2));
            assert(crate::ledger::holding_eq(l1, l2, c2, o2));
            assert(crate::ledger::holding_eq(l2, *ledger, c2, o2));
        }
        assert forall|c2: int| c2 != mint as int implies crate::ledger::class_eq(
            l0,
            *ledger,
            c2,
        ) by {
            assert(crate::ledger::class_eq(l0, l1, c2));
            assert(crate::ledger::class_eq(l1, l2, c2));
            assert(crate::ledger::class_eq(l2, *ledger, c2));
        }
    }
    Ok(())
}

/// Burns `amount` of `mint` from holder `from` under the freeze sandwich:
/// thaw, burn, lock again. Feasibility is checked before the thaw, so a
/// failing call leaves the ledger untouched.
pub fn burn_frozen_tokens_from(
    ledger: &mut TokenLedger,
    mint: ClassId,
    from: AccountId,
    amount: u64,
    authority: AccountId,
) -> (r: Result<(), Error>)
    requires
        old(ledger).wf(),
    ensures
        final(ledger).wf(),
        r is Ok <==> can_burn_frozen(*old(ledger), mint as int, from as int, amount, authority),
        r is Err ==> *final(ledger) == *old(ledger) && r matches Err(Error::Custody(_)),
        r == Err::<(), Error>(Error::Custody(CustodyError::InvalidClass)) <==> !(old(
            ledger,
        ).spec_valid_class(mint as int) && !old(ledger).spec_closed(mint as int)),
        r == Err::<(), Error>(Error::Custody(CustodyError::UnauthorizedController)) <==> old(
            ledger,
        ).spec_valid_class(mint as int) && !old(ledger).spec_closed(mint as int) && authority
            != old(ledger).spec_authority(mint as int),
        r == Err::<(), Error>(Error::Custody(CustodyError::UninitializedHolder)) <==> old(
            ledger,
        ).spec_valid_class(mint as int) && !old(ledger).spec_closed(mint as int) && authority
            == old(ledger).spec_authority(mint as int) && !old(ledger).spec_has_holding(
            mint as int,
            from as int,
        ),
        r == Err::<(), Error>(Error::Custody(CustodyError::InvalidState)) <==> old(
            ledger,
        ).spec_valid_class(mint as int) && !old(ledger).spec_closed(mint as int) && authority
            == old(ledger).spec_authority(mint as int) && old(ledger).spec_has_holding(
            mint as int,
            from as int,
        ) && !old(ledger).spec_frozen(mint as int, from as int),
        r == Err::<(), Error>(Error::Custody(CustodyError::InsufficientBalance)) <==> old(
            ledger,
        ).spec_valid_class(mint as int) && !old(ledger).spec_closed(mint as int) && authority
            == old(ledger).spec_authority(mint as int) && old(ledger).spec_has_holding(
            mint as int,
            from as int,
        ) && old(ledger).spec_frozen(mint as int, from as int) && amount > old(
            ledger,
        ).spec_balance(mint as int, from as int),
        r is Ok ==> {
            &&& final(ledger).spec_has_holding(mint as int, from as int)
            &&& final(ledger).spec_balance(mint as int, from as int) == old(ledger).spec_balance(
                mint as int,
                from as int,
            ) - amount
            &&& final(ledger).spec_frozen(mint as int, from as int)
            &&& final(ledger).spec_supply(mint as int) == old(ledger).spec_supply(mint as int)
                - amount
            &&& crate::ledger::holdings_eq_except(
                *old(ledger),
                *final(ledger),
                mint as int,
                from as int,
            )
            &&& crate::ledger::classes_eq_except(*old(ledger), *final(ledger), mint as int)
            &&& crate::ledger::class_eq_except_supply(*old(ledger), *final(ledger), mint as int)
            &&& final(ledger).class_count() == old(ledger).class_count()
        },
{
    if !ledger.class_open(mint) {
        return Err(Error::Custody(CustodyError::InvalidClass));
    }
    match ledger.class_authority(mint) {
        Some(a) => {
            if a != authority {
                return Err(Error::Custody(CustodyError::UnauthorizedController));
            }
        },
        None => {
            return Err(Error::Custody(CustodyError::InvalidClass));
        },
    }
    match ledger.holding_frozen(mint, from) {
        None => {
            return Err(Error::Custody(CustodyError::UninitializedHolder));
        },
        Some(false) => {
            return Err(Error::Custody(CustodyError::InvalidState));
        },
        Some(true) => {},
    }
    let bal = ledger.balance(mint, from);
    if amount > bal {
        return Err(Error::Custody(CustodyError::InsufficientBalance));
    }
    let ghost l0 = *ledger;
    match ledger.thaw(mint, from, authority) {
        Ok(()) => {},
        Err(e) => {
            proof {
                assert(false);
            }
            return Err(Error::Custody(e));
        },
    }
    let ghost l1 = *ledger;
    match ledger.burn(mint, from, amount, authority) {
        Ok(()) => {},
        Err(e) => {
            proof {
                assert(crate::ledger::class_eq(l0, l1, mint as int));
                assert(false);
            }
            return Err(Error::Custody(e));
        },
    }
    let ghost l2 = *ledger;
    match ledger.freeze(mint, from, authority) {
        Ok(()) => {},
        Err(e) => {
            proof {
                assert(crate::ledger::class_eq(l0, l1, mint as int));
                assert(false);
            }
            return Err(Error::Custody(e));
        },
    }
    proof {
        assert(crate::ledger::class_eq(l0, l1, mint as int));
        assert(crate::ledger::class_eq(l2, *ledger, mint as int));
        assert forall|c2: int, o2: int|
            !(c2 == mint as int && o2 == from as int) implies crate::ledger::holding_eq(
            l0,
            *ledger,
            c2,
            o2,
        ) by {
            assert(crate::ledger::holding_eq(l0, l1, c2, o2));
            assert(crate::ledger::holding_eq(l1, l2, c2, o2));
            assert(crate::ledger::holding_eq(l2, *ledger, c2, o2));
        }
        assert forall|c2: int| c2 != mint as int implies crate::ledger::class_eq(
            l0,
            *ledger,
            c2,
        ) by {
            assert(crate::ledger::class_eq(l0, l1, c2));
            assert(crate::ledger::class_eq(l1, l2, c2));
            assert(crate::ledger::class_eq(l2, *ledger, c2));
        }
    }
    Ok(())
}

} // verus!
