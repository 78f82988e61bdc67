//! A model of the asset-custody ledger the marketplace runs against.
//!
//! The custody service keeps, per asset class, a controlling authority, a
//! total supply, optional descriptive metadata, and one balance record per
//! holder; each balance carries a transfer lock ("frozen"). This module holds
//! that state as plain values and gives every custody operation the
//! marketplace uses — create, mint, burn, freeze, thaw, transfer, metadata
//! update, close — an exact contract: when it succeeds, which error it
//! reports otherwise, and what changes. A failing operation leaves the ledger
//! untouched, mirroring the all-or-nothing execution the real ledger
//! guarantees.

use vstd::prelude::*;

use crate::errors::CustodyError;

verus! {

/// An identity on the ledger: a holder or an authority address.
pub type AccountId = u64;

/// An asset class, named by its position in the ledger's class arena.
pub type ClassId = usize;

/// The keys under which an asset class's descriptive metadata is filed.
#[derive(Clone, Copy, Debug, PartialEq, Eq, Structural)]
pub enum MetaKey {
    Location,
    Variety,
    Price,
    State,
}

/// One key/value entry of an asset class's descriptive metadata.
#[derive(Clone, Debug)]
pub struct MetaEntry {
    pub key: MetaKey,
    pub value: String,
}

/// The ghost reading of a metadata entry.
pub open spec fn meta_entry_view(e: MetaEntry) -> (MetaKey, Seq<char>) {
    (e.key, e.value@)
}

/// One asset class: its controlling authority, whether new balance records
/// start transfer-locked, its outstanding supply, the manager identity
/// recorded on it (lot classes only), and its descriptive metadata.
struct AssetClass {
    authority: AccountId,
    default_frozen: bool,
    supply: u64,
    closed: bool,
    manager: Option<AccountId>,
    metadata: Vec<MetaEntry>,
}

/// One balance record: a holder's amount of one asset class, and whether the
/// record is transfer-locked.
#[derive(Clone, Copy)]
struct Holding {
    class: ClassId,
    owner: AccountId,
    amount: u64,
    frozen: bool,
}

/// Whether holding `h` is the record of holder `o` for class `c`.
spec fn holding_is(h: Holding, c: int, o: int) -> bool {
    h.class == c && h.owner == o
}

/// Whether `hs` holds a record for `(c, o)`.
spec fn seq_has(hs: Seq<Holding>, c: int, o: int) -> bool {
    exists|i: int| 0 <= i < hs.len() && holding_is(#[trigger] hs[i], c, o)
}

/// The index of the record for `(c, o)`; meaningful only under `seq_has`.
spec fn seq_index_of(hs: Seq<Holding>, c: int, o: int) -> int {
    choose|i: int| 0 <= i < hs.len() && holding_is(#[trigger] hs[i], c, o)
}

/// No two records name the same class and holder.
spec fn holdings_unique(hs: Seq<Holding>) -> bool {
    forall|i: int, j: int|
        0 <= i < j < hs.len() ==> !(holding_is(
            #[trigger] hs[i],
            (#[trigger] hs[j]).class as int,
            hs[j].owner as int,
        ))
}

/// Every record names a class below `n`.
spec fn holdings_bounded(hs: Seq<Holding>, n: int) -> bool {
    forall|i: int| 0 <= i < hs.len() ==> (#[trigger] hs[i]).class < n
}

/// What holding `h` contributes to the supply of class `c`.
spec fn class_contribution(h: Holding, c: int) -> int {
    if h.class == c {
        h.amount as int
    } else {
        0
    }
}

/// The sum of all balances of class `c` in `hs`.
spec fn class_sum(hs: Seq<Holding>, c: int) -> int
    decreases hs.len(),
{
    if hs.len() == 0 {
        0
    } else {
        class_sum(hs.drop_last(), c) + class_contribution(hs.last(), c)
    }
}

proof fn lemma_class_sum_nonneg(hs: Seq<Holding>, c: int)
    ensures
        class_sum(hs, c) >= 0,
    decreases hs.len(),
{
    if hs.len() > 0 {
        lemma_class_sum_nonneg(hs.drop_last(), c);
    }
}

/// A single balance of class `c` never exceeds the class's summed supply.
proof fn lemma_contribution_le_sum(hs: Seq<Holding>, c: int, i: int)
    requires
        0 <= i < hs.len(),
    ensures
        class_contribution(hs[i], c) <= class_sum(hs, c),
    decreases hs.len(),
{
    lemma_class_sum_nonneg(hs.drop_last(), c);
    if i < hs.len() - 1 {
        lemma_contribution_le_sum(hs.drop_last(), c, i);
    }
}

/// Appending a record adds exactly its contribution to every class sum.
proof fn lemma_class_sum_push(hs: Seq<Holding>, h: Holding, c: int)
    ensures
        class_sum(hs.push(h), c) == class_sum(hs, c) + class_contribution(h, c),
{
    assert(hs.push(h).drop_last() =~= hs);
}

/// Replacing the record at `i` shifts every class sum by the difference of
/// the two records' contributions.
proof fn lemma_class_sum_update(hs: Seq<Holding>, i: int, h: Holding, c: int)
    requires
        0 <= i < hs.len(),
    ensures
        class_sum(hs.update(i, h), c) == class_sum(hs, c) - class_contribution(hs[i], c)
            + class_contribution(h, c),
    decreases hs.len(),
{
    let hs2 = hs.update(i, h);
    if i == hs.len() - 1 {
        assert(hs2.drop_last() =~= hs.drop_last());
    } else {
        assert(hs2.drop_last() =~= hs.drop_last().update(i, h));
        lemma_class_sum_update(hs.drop_last(), i, h, c);
    }
}

/// A class no record names sums to zero.
proof fn lemma_class_sum_absent(hs: Seq<Holding>, c: int)
    requires
        forall|i: int| 0 <= i < hs.len() ==> (#[trigger] hs[i]).class != c,
    ensures
        class_sum(hs, c) == 0,
    decreases hs.len(),
{
    if hs.len() > 0 {
        lemma_class_sum_absent(hs.drop_last(), c);
    }
}

/// The asset-custody ledger: an arena of asset classes and the balance
/// records of their holders.
pub struct TokenLedger {
    classes: Vec<AssetClass>,
    holdings: Vec<Holding>,
}

impl TokenLedger {
    /// How many asset classes exist (closed ones included).
    pub closed spec fn class_count(self) -> nat {
        self.classes@.len()
    }

    /// Whether `c` names an existing asset class.
    pub open spec fn spec_valid_class(self, c: int) -> bool {
        0 <= c < self.class_count()
    }

    /// The controlling authority of class `c`.
    pub closed spec fn spec_authority(self, c: int) -> AccountId {
        self.classes@[c].authority
    }

    /// Whether new balance records of class `c` start transfer-locked.
    pub closed spec fn spec_default_frozen(self, c: int) -> bool {
        self.classes@[c].default_frozen
    }

    /// Whether class `c` has been closed.
    pub closed spec fn spec_closed(self, c: int) -> bool {
        self.classes@[c].closed
    }

    /// The outstanding supply of class `c`.
    pub closed spec fn spec_supply(self, c: int) -> u64 {
        self.classes@[c].supply
    }

    /// The manager identity recorded on class `c`.
    pub closed spec fn spec_manager(self, c: int) -> Option<AccountId> {
        self.classes@[c].manager
    }

    /// The descriptive metadata of class `c`, as key/value pairs.
    pub closed spec fn spec_metadata(self, c: int) -> Seq<(MetaKey, Seq<char>)> {
        self.classes@[c].metadata@.map_values(|e: MetaEntry| meta_entry_view(e))
    }

    /// Whether holder `o` has a balance record for class `c`.
    pub closed spec fn spec_has_holding(self, c: int, o: int) -> bool {
        seq_has(self.holdings@, c, o)
    }

    /// Holder `o`'s balance of class `c`; zero without a record.
    pub closed spec fn spec_balance(self, c: int, o: int) -> u64 {
        if seq_has(self.holdings@, c, o) {
            self.holdings@[seq_index_of(self.holdings@, c, o)].amount
        } else {
            0
        }
    }

    /// Whether holder `o`'s record for class `c` is transfer-locked.
    pub closed spec fn spec_frozen(self, c: int, o: int) -> bool {
        seq_has(self.holdings@, c, o) && self.holdings@[seq_index_of(self.holdings@, c, o)].frozen
    }

    /// The ledger's internal invariant: one record per class and holder,
    /// records name existing classes, and each class's recorded supply equals
    /// the sum of its holders' balances.
    pub closed spec fn wf(self) -> bool {
        &&& holdings_unique(self.holdings@)
        &&& holdings_bounded(self.holdings@, self.classes@.len() as int)
        &&& forall|c: int|
            0 <= c < self.classes@.len() ==> (#[trigger] self.classes@[c]).supply == class_sum(
                self.holdings@,
                c,
            )
    }

    /// With unique records, the record found at `i` is the record the spec
    /// reading functions speak of.
    proof fn lemma_index_unique(self, c: int, o: int, i: int)
        requires
            holdings_unique(self.holdings@),
            0 <= i < self.holdings@.len(),
            holding_is(self.holdings@[i], c, o),
        ensures
            self.spec_has_holding(c, o),
            seq_index_of(self.holdings@, c, o) == i,
            self.spec_balance(c, o) == self.holdings@[i].amount,
            self.spec_frozen(c, o) == self.holdings@[i].frozen,
    {
        assert(seq_has(self.holdings@, c, o));
        let j = seq_index_of(self.holdings@, c, o);
        if i != j {
            if i < j {
                assert(holding_is(self.holdings@[i], self.holdings@[j].class as int, self.holdings@[j].owner as int));
            } else {
                assert(holding_is(self.holdings@[j], self.holdings@[i].class as int, self.holdings@[i].owner as int));
            }
            assert(false);
        }
    }

    /// A holder without a record has balance zero and no transfer lock.
    pub proof fn lemma_balance_absent(self, c: int, o: int)
        requires
            !self.spec_has_holding(c, o),
        ensures
            self.spec_balance(c, o) == 0,
            !self.spec_frozen(c, o),
    {
    }

    /// A holder's balance never exceeds the class's supply.
    pub proof fn lemma_balance_le_supply(self, c: int, o: int)
        requires
            self.wf(),
            self.spec_valid_class(c),
        ensures
            self.spec_balance(c, o) <= self.spec_supply(c),
    {
        if seq_has(self.holdings@, c, o) {
            let i = seq_index_of(self.holdings@, c, o);
            lemma_contribution_le_sum(self.holdings@, c, i);
        }
    }

    /// The position of the balance record for `(class, owner)`, if one exists.
    fn find_holding(&self, class: ClassId, owner: AccountId) -> (r: Option<usize>)
        ensures
            match r {
                Some(i) => 0 <= i < self.holdings@.len() && holding_is(
                    self.holdings@[i as int],
                    class as int,
                    owner as int,
                ),
                None => !self.spec_has_holding(class as int, owner as int),
            },
    {
        let n = self.holdings.len();
        let mut i: usize = 0;
        while i < n
            invariant
                i <= n,
                n == self.holdings@.len(),
                forall|j: int|
                    0 <= j < i ==> !holding_is(
                        #[trigger] self.holdings@[j],
                        class as int,
                        owner as int,
                    ),
            decreases n - i,
        {
            if self.holdings[i].class == class && self.holdings[i].owner == owner {
                return Some(i);
            }
            i = i + 1;
        }
        None
    }

    /// An empty ledger: no classes, no balance records.
    pub fn new() -> (l: TokenLedger)
        ensures
            l.wf(),
            l.class_count() == 0,
            forall|c: int, o: int| !l.spec_has_holding(c, o),
    {
        TokenLedger { classes: Vec::new(), holdings: Vec::new() }
    }

    /// Registers a new asset class under the given controlling authority and
    /// returns its identifier. The class starts open with supply zero.
    pub fn create_class(
        &mut self,
        authority: AccountId,
        default_frozen: bool,
        manager: Option<AccountId>,
        metadata: Vec<MetaEntry>,
    ) -> (c: ClassId)
        requires
            old(self).wf(),
        ensures
            final(self).wf(),
            c as int == old(self).class_count(),
            final(self).class_count() == old(self).class_count() + 1,
            final(self).spec_valid_class(c as int),
            final(self).spec_authority(c as int) == authority,
            final(self).spec_default_frozen(c as int) == default_frozen,
            final(self).spec_supply(c as int) == 0,
            !final(self).spec_closed(c as int),
            final(self).spec_manager(c as int) == manager,
            final(self).spec_metadata(c as int) == metadata@.map_values(
                |e: MetaEntry| meta_entry_view(e),
            ),
            forall|o: int| !(#[trigger] final(self).spec_has_holding(c as int, o)),
            classes_eq_except(*old(self), *final(self), c as int),
            holdings_eq(*old(self), *final(self)),
    {
        let c = self.classes.len();
        let cls = AssetClass {
            authority,
            default_frozen,
            supply: 0,
            closed: false,
            manager,
            metadata,
        };
        self.classes.push(cls);
        proof {
            assert forall|i: int| 0 <= i < self.holdings@.len() implies (#[trigger] self.holdings@[i]).class
                != c as int by {
                assert(self.holdings@[i].class < c as int);
            }
            lemma_class_sum_absent(self.holdings@, c as int);
        }
        c
    }

    /// Creates holder `owner`'s balance record for `class` if none exists,
    /// transfer-locked when the class says so; an existing record is left
    /// alone. Fails only when the class is unknown or closed.
    pub fn ensure_holding(&mut self, class: ClassId, owner: AccountId) -> (r: Result<
        (),
        CustodyError,
    >)
        requires
            old(self).wf(),
        ensures
            final(self).wf(),
            r is Ok <==> old(self).spec_valid_class(class as int) && !old(self).spec_closed(
                class as int,
            ),
            r is Err ==> *final(self) == *old(self) && r == Err::<(), CustodyError>(
                CustodyError::InvalidClass,
            ),
            r is Ok ==> {
                &&& final(self).spec_has_holding(class as int, owner as int)
                &&& final(self).spec_balance(class as int, owner as int) == old(self).spec_balance(
                    class as int,
                    owner as int,
                )
                &&& final(self).spec_frozen(class as int, owner as int) == (if old(
                    self,
                ).spec_has_holding(class as int, owner as int) {
                    old(self).spec_frozen(class as int, owner as int)
                } else {
                    old(self).spec_default_frozen(class as int)
                })
                &&& holdings_eq_except(*old(self), *final(self), class as int, owner as int)
                &&& classes_eq(*old(self), *final(self))
                &&& final(self).class_count() == old(self).class_count()
            },
    {
        if class >= self.classes.len() || self.classes[class].closed {
            return Err(CustodyError::InvalidClass);
        }
        match self.find_holding(class, owner) {
            Some(i) => {
                proof {
                    self.lemma_index_unique(class as int, owner as int, i as int);
                }
                Ok(())
            },
            None => {
                let h = Holding {
                    class,
                    owner,
                    amount: 0,
                    frozen: self.classes[class].default_frozen,
                };
                let ghost old_hs = self.holdings@;
                self.holdings.push(h);
                proof {
                    lemma_unique_after_push(old_hs, h);
                    assert forall|c2: int| 0 <= c2 < self.classes@.len() implies (
                    #[trigger] self.classes@[c2]).supply == class_sum(self.holdings@, c2) by {
                        lemma_class_sum_push(old_hs, h, c2);
                    }
                    self.lemma_index_unique(
                        class as int,
                        owner as int,
                        self.holdings@.len() - 1,
                    );
                    assert forall|c2: int, o2: int|
                        !(c2 == class as int && o2 == owner as int) implies holding_eq(
                        *old(self),
                        *self,
                        c2,
                        o2,
                    ) by {
                        lemma_push_preserves_other(*old(self), *self, h, c2, o2);
                    }
                }
                Ok(())
            },
        }
    }
}

/// Holder `o`'s record for class `c` reads the same in `a` and `b`.
pub open spec fn holding_eq(a: TokenLedger, b: TokenLedger, c: int, o: int) -> bool {
    &&& a.spec_has_holding(c, o) == b.spec_has_holding(c, o)
    &&& a.spec_balance(c, o) == b.spec_balance(c, o)
    &&& a.spec_frozen(c, o) == b.spec_frozen(c, o)
}

/// Every balance record reads the same in `a` and `b`.
pub open spec fn holdings_eq(a: TokenLedger, b: TokenLedger) -> bool {
    forall|c: int, o: int| #[trigger] holding_eq(a, b, c, o)
}

/// Every balance record but `(c, o)`'s reads the same in `a` and `b`.
pub open spec fn holdings_eq_except(a: TokenLedger, b: TokenLedger, c: int, o: int) -> bool {
    forall|c2: int, o2: int|
        !(c2 == c && o2 == o) ==> #[trigger] holding_eq(a, b, c2, o2)
}

/// Every balance record of class `c` but those of `oa` and `ob`, and every
/// record of any other class, reads the same in `a` and `b`.
pub open spec fn holdings_eq_except2(
    a: TokenLedger,
    b: TokenLedger,
    c: int,
    oa: int,
    ob: int,
) -> bool {
    forall|c2: int, o2: int|
        !(c2 == c && (o2 == oa || o2 == ob)) ==> #[trigger] holding_eq(a, b, c2, o2)
}

/// Class `c` reads the same in `a` and `b`.
pub open spec fn class_eq(a: TokenLedger, b: TokenLedger, c: int) -> bool {
    &&& a.spec_valid_class(c) == b.spec_valid_class(c)
    &&& a.spec_valid_class(c) ==> {
        &&& a.spec_authority(c) == b.spec_authority(c)
        &&& a.spec_default_frozen(c) == b.spec_default_frozen(c)
        &&& a.spec_supply(c) == b.spec_supply(c)
        &&& a.spec_closed(c) == b.spec_closed(c)
        &&& a.spec_manager(c) == b.spec_manager(c)
        &&& a.spec_metadata(c) == b.spec_metadata(c)
    }
}

/// Every class reads the same in `a` and `b`.
pub open spec fn classes_eq(a: TokenLedger, b: TokenLedger) -> bool {
    forall|c: int| #[trigger] class_eq(a, b, c)
}

/// Every class but `c` reads the same in `a` and `b`.
pub open spec fn classes_eq_except(a: TokenLedger, b: TokenLedger, c: int) -> bool {
    forall|c2: int| c2 != c ==> #[trigger] class_eq(a, b, c2)
}

/// Appending a record for a fresh pair keeps the records unique.
proof fn lemma_unique_after_push(hs: Seq<Holding>, h: Holding)
    requires
        holdings_unique(hs),
        !seq_has(hs, h.class as int, h.owner as int),
    ensures
        holdings_unique(hs.push(h)),
{
    let hs2 = hs.push(h);
    assert forall|i: int, j: int| 0 <= i < j < hs2.len() implies !(holding_is(
        #[trigger] hs2[i],
        (#[trigger] hs2[j]).class as int,
        hs2[j].owner as int,
    )) by {
        if j == hs.len() {
            assert(hs2[i] == hs[i]);
            if holding_is(hs2[i], h.class as int, h.owner as int) {
                assert(seq_has(hs, h.class as int, h.owner as int));
            }
        } else {
            assert(hs2[i] == hs[i] && hs2[j] == hs[j]);
        }
    }
}

/// Replacing a record by one with the same class and holder keeps the
/// records unique.
proof fn lemma_unique_after_update(hs: Seq<Holding>, i: int, h: Holding)
    requires
        holdings_unique(hs),
        0 <= i < hs.len(),
        h.class == hs[i].class,
        h.owner == hs[i].owner,
    ensures
        holdings_unique(hs.update(i, h)),
{
    let hs2 = hs.update(i, h);
    assert forall|k: int, j: int| 0 <= k < j < hs2.len() implies !(holding_is(
        #[trigger] hs2[k],
        (#[trigger] hs2[j]).class as int,
        hs2[j].owner as int,
    )) by {
        assert(hs2[k].class == hs[k].class && hs2[k].owner == hs[k].owner);
        assert(hs2[j].class == hs[j].class && hs2[j].owner == hs[j].owner);
        assert(!(holding_is(hs[k], hs[j].class as int, hs[j].owner as int)));
    }
}

/// Appending a record leaves every other pair's reading unchanged.
proof fn lemma_push_preserves_other(a: TokenLedger, b: TokenLedger, h: Holding, c: int, o: int)
    requires
        holdings_unique(a.holdings@),
        b.holdings@ == a.holdings@.push(h),
        !holding_is(h, c, o),
    ensures
        holding_eq(a, b, c, o),
{
    let hs = a.holdings@;
    let hs2 = b.holdings@;
    if seq_has(hs, c, o) {
        let i = seq_index_of(hs, c, o);
        assert(hs2[i] == hs[i]);
        assert(seq_has(hs2, c, o));
        let j = seq_index_of(hs2, c, o);
        if j < hs.len() {
            assert(hs2[j] == hs[j]);
            if i != j {
                if i < j {
                    assert(holding_is(hs[i], hs[j].class as int, hs[j].owner as int));
                } else {
                    assert(holding_is(hs[j], hs[i].class as int, hs[i].owner as int));
                }
                assert(false);
            }
        } else {
            assert(hs2[j] == h);
            assert(false);
        }
    } else {
        if seq_has(hs2, c, o) {
            let j = seq_index_of(hs2, c, o);
            if j < hs.len() {
                assert(holding_is(hs[j], c, o));
                assert(false);
            } else {
                assert(hs2[j] == h);
                assert(false);
            }
        }
    }
}

/// Replacing the record at `i` leaves every other pair's reading unchanged.
proof fn lemma_update_preserves_other(
    a: TokenLedger,
    b: TokenLedger,
    i: int,
    c: int,
    o: int,
)
    requires
        holdings_unique(a.holdings@),
        0 <= i < a.holdings@.len(),
        b.holdings@ == a.holdings@.update(i, b.holdings@[i]),
        b.holdings@[i].class == a.holdings@[i].class,
        b.holdings@[i].owner == a.holdings@[i].owner,
        !holding_is(a.holdings@[i], c, o),
    ensures
        holding_eq(a, b, c, o),
{
    let hs = a.holdings@;
    let hs2 = b.holdings@;
    assert forall|j: int| 0 <= j < hs2.len() implies (holding_is(#[trigger] hs2[j], c, o)
        <==> holding_is(hs[j], c, o)) by {
        if j != i {
            assert(hs2[j] == hs[j]);
        }
    }
    if seq_has(hs, c, o) {
        let k = seq_index_of(hs, c, o);
        assert(holding_is(hs2[k], c, o));
        assert(seq_has(hs2, c, o));
        let j = seq_index_of(hs2, c, o);
        assert(holding_is(hs[j], c, o));
        if j != k {
            if j < k {
                assert(holding_is(hs[j], hs[k].class as int, hs[k].owner as int));
            } else {
                assert(holding_is(hs[k], hs[j].class as int, hs[j].owner as int));
            }
            assert(false);
        }
        assert(j != i);
        assert(hs2[j] == hs[j]);
    } else {
        if seq_has(hs2, c, o) {
            let j = seq_index_of(hs2, c, o);
            assert(holding_is(hs[j], c, o));
            assert(false);
        }
    }
}


/// Class `c` reads the same in `a` and `b` in every field but its supply.
pub open spec fn class_eq_except_supply(a: TokenLedger, b: TokenLedger, c: int) -> bool {
    &&& a.spec_valid_class(c) == b.spec_valid_class(c)
    &&& a.spec_valid_class(c) ==> {
        &&& a.spec_authority(c) == b.spec_authority(c)
        &&& a.spec_default_frozen(c) == b.spec_default_frozen(c)
        &&& a.spec_closed(c) == b.spec_closed(c)
        &&& a.spec_manager(c) == b.spec_manager(c)
        &&& a.spec_metadata(c) == b.spec_metadata(c)
    }
}

impl TokenLedger {
    /// When a mint succeeds: the class exists, is open, and is controlled by
    /// the supplied authority; the holder has an unlocked record; and the new
    /// supply still fits.
    pub open spec fn can_mint(self, c: int, o: int, amount: u64, authority: AccountId) -> bool {
        &&& self.spec_valid_class(c)
        &&& !self.spec_closed(c)
        &&& authority == self.spec_authority(c)
        &&& self.spec_has_holding(c, o)
        &&& !self.spec_frozen(c, o)
        &&& self.spec_supply(c) + amount <= u64::MAX
    }

    /// When a burn succeeds: as for a mint, except that the holder's balance
    /// must cover the amount instead of the supply having room.
    pub open spec fn can_burn(self, c: int, o: int, amount: u64, authority: AccountId) -> bool {
        &&& self.spec_valid_class(c)
        &&& !self.spec_closed(c)
        &&& authority == self.spec_authority(c)
        &&& self.spec_has_holding(c, o)
        &&& !self.spec_frozen(c, o)
        &&& amount <= self.spec_balance(c, o)
    }

    /// Increases holder `owner`'s balance of `class` and the class's supply
    /// by `amount`, under the class's controlling authority.
    pub fn mint(
        &mut self,
        class: ClassId,
        owner: AccountId,
        amount: u64,
        authority: AccountId,
    ) -> (r: Result<(), CustodyError>)
        requires
            old(self).wf(),
        ensures
            final(self).wf(),
            r is Ok <==> old(self).can_mint(class as int, owner as int, amount, authority),
            r is Err ==> *final(self) == *old(self),
            r == Err::<(), CustodyError>(CustodyError::InvalidClass) <==> !(old(
                self,
            ).spec_valid_class(class as int) && !old(self).spec_closed(class as int)),
            r == Err::<(), CustodyError>(CustodyError::UnauthorizedController) <==> old(
                self,
            ).spec_valid_class(class as int) && !old(self).spec_closed(class as int) && authority
                != old(self).spec_authority(class as int),
            r == Err::<(), CustodyError>(CustodyError::UninitializedHolder) <==> old(
                self,
            ).spec_valid_class(class as int) && !old(self).spec_closed(class as int) && authority
                == old(self).spec_authority(class as int) && !old(self).spec_has_holding(
                class as int,
                owner as int,
            ),
            r == Err::<(), CustodyError>(CustodyError::HoldingFrozen) <==> old(
                self,
            ).spec_valid_class(class as int) && !old(self).spec_closed(class as int) && authority
                == old(self).spec_authority(class as int) && old(self).spec_has_holding(
                class as int,
                owner as int,
            ) && old(self).spec_frozen(class as int, owner as int),
            r is Ok ==> {
                &&& final(self).spec_has_holding(class as int, owner as int)
                &&& final(self).spec_balance(class as int, owner as int) == old(
                    self,
                ).spec_balance(class as int, owner as int) + amount
                &&& final(self).spec_frozen(class as int, owner as int) == old(self).spec_frozen(
                    class as int,
                    owner as int,
                )
                &&& final(self).spec_supply(class as int) == old(self).spec_supply(class as int)
                    + amount
                &&& holdings_eq_except(*old(self), *final(self), class as int, owner as int)
                &&& classes_eq_except(*old(self), *final(self), class as int)
                &&& class_eq_except_supply(*old(self), *final(self), class as int)
                &&& final(self).class_count() == old(self).class_count()
            },
    {
        if class >= self.classes.len() || self.classes[class].closed {
            return Err(CustodyError::InvalidClass);
        }
        if authority != self.classes[class].authority {
            return Err(CustodyError::UnauthorizedController);
        }
        match self.find_holding(class, owner) {
            None => Err(CustodyError::UninitializedHolder),
            Some(i) => {
                proof {
                    self.lemma_index_unique(class as int, owner as int, i as int);
                }
                if self.holdings[i].frozen {
                    return Err(CustodyError::HoldingFrozen);
                }
                let supply = self.classes[class].supply;
                if amount > u64::MAX - supply {
                    return Err(CustodyError::ArithmeticOverflow);
                }
                proof {
                    self.lemma_balance_le_supply(class as int, owner as int);
                }
                let bal = self.holdings[i].amount;
                let ghost old_hs = self.holdings@;
                self.holdings[i].amount = bal + amount;
                self.classes[class].supply = supply + amount;
                proof {
                    let ghost h2 = self.holdings@[i as int];
                    lemma_unique_after_update(old_hs, i as int, h2);
                    assert forall|c2: int| 0 <= c2 < self.classes@.len() implies (
                    #[trigger] self.classes@[c2]).supply == class_sum(self.holdings@, c2) by {
                        lemma_class_sum_update(old_hs, i as int, h2, c2);
                    }
                    self.lemma_index_unique(class as int, owner as int, i as int);
                    assert forall|c2: int, o2: int|
                        !(c2 == class as int && o2 == owner as int) implies holding_eq(
                        *old(self),
                        *self,
                        c2,
                        o2,
                    ) by {
                        lemma_update_preserves_other(*old(self), *self, i as int, c2, o2);
                    }
                }
                Ok(())
            },
        }
    }

    /// Decreases holder `owner`'s balance of `class` and the class's supply
    /// by `amount`, under the class's controlling authority.
    pub fn burn(
        &mut self,
        class: ClassId,
        owner: AccountId,
        amount: u64,
        authority: AccountId,
    ) -> (r: Result<(), CustodyError>)
        requires
            old(self).wf(),
        ensures
            final(self).wf(),
            r is Ok <==> old(self).can_burn(class as int, owner as int, amount, authority),
            r is Err ==> *final(self) == *old(self),
            r == Err::<(), CustodyError>(CustodyError::InvalidClass) <==> !(old(
                self,
            ).spec_valid_class(class as int) && !old(self).spec_closed(class as int)),
            r == Err::<(), CustodyError>(CustodyError::UnauthorizedController) <==> old(
                self,
            ).spec_valid_class(class as int) && !old(self).spec_closed(class as int) && authority
                != old(self).spec_authority(class as int),
            r == Err::<(), CustodyError>(CustodyError::UninitializedHolder) <==> old(
                self,
            ).spec_valid_class(class as int) && !old(self).spec_closed(class as int) && authority
                == old(self).spec_authority(class as int) && !old(self).spec_has_holding(
                class as int,
                owner as int,
            ),
            r == Err::<(), CustodyError>(CustodyError::HoldingFrozen) <==> old(
                self,
            ).spec_valid_class(class as int) && !old(self).spec_closed(class as int) && authority
                == old(self).spec_authority(class as int) && old(self).spec_has_holding(
                class as int,
                owner as int,
            ) && old(self).spec_frozen(class as int, owner as int),
            r is Ok ==> {
                &&& final(self).spec_has_holding(class as int, owner as int)
                &&& final(self).spec_balance(class as int, owner as int) == old(
                    self,
                ).spec_balance(class as int, owner as int) - amount
                &&& final(self).spec_frozen(class as int, owner as int) == old(self).spec_frozen(
                    class as int,
                    owner as int,
                )
                &&& final(self).spec_supply(class as int) == old(self).spec_supply(class as int)
                    - amount
                &&& holdings_eq_except(*old(self), *final(self), class as int, owner as int)
                &&& classes_eq_except(*old(self), *final(self), class as int)
                &&& class_eq_except_supply(*old(self), *final(self), class as int)
                &&& final(self).class_count() == old(self).class_count()
            },
    {
        if class >= self.classes.len() || self.classes[class].closed {
            return Err(CustodyError::InvalidClass);
        }
        if authority != self.classes[class].authority {
            return Err(CustodyError::UnauthorizedController);
        }
        match self.find_holding(class, owner) {
            None => Err(CustodyError::UninitializedHolder),
            Some(i) => {
                proof {
                    self.lemma_index_unique(class as int, owner as int, i as int);
                }
                if self.holdings[i].frozen {
                    return Err(CustodyError::HoldingFrozen);
                }
                let bal = self.holdings[i].amount;
                if amount > bal {
                    return Err(CustodyError::InsufficientBalance);
                }
                proof {
                    self.lemma_balance_le_supply(class as int, owner as int);
                }
                let supply = self.classes[class].supply;
                let ghost old_hs = self.holdings@;
                self.holdings[i].amount = bal - amount;
                self.classes[class].supply = supply - amount;
                proof {
                    let ghost h2 = self.holdings@[i as int];
                    lemma_unique_after_update(old_hs, i as int, h2);
                    assert forall|c2: int| 0 <= c2 < self.classes@.len() implies (
                    #[trigger] self.classes@[c2]).supply == class_sum(self.holdings@, c2) by {
                        lemma_class_sum_update(old_hs, i as int, h2, c2);
                    }
                    self.lemma_index_unique(class as int, owner as int, i as int);
                    assert forall|c2: int, o2: int|
                        !(c2 == class as int && o2 == owner as int) implies holding_eq(
                        *old(self),
                        *self,
                        c2,
                        o2,
                    ) by {
                        lemma_update_preserves_other(*old(self), *self, i as int, c2, o2);
                    }
                }
                Ok(())
            },
        }
    }
}

impl TokenLedger {
    /// When a freeze succeeds: the class exists, is open, is controlled by
    /// the supplied authority, and the holder's record exists and is not yet
    /// locked.
    pub open spec fn can_freeze(self, c: int, o: int, authority: AccountId) -> bool {
        &&& self.spec_valid_class(c)
        &&& !self.spec_closed(c)
        &&& authority == self.spec_authority(c)
        &&& self.spec_has_holding(c, o)
        &&& !self.spec_frozen(c, o)
    }

    /// When a thaw succeeds: as for a freeze, except that the record must be
    /// locked.
    pub open spec fn can_thaw(self, c: int, o: int, authority: AccountId) -> bool {
        &&& self.spec_valid_class(c)
        &&& !self.spec_closed(c)
        &&& authority == self.spec_authority(c)
        &&& self.spec_has_holding(c, o)
        &&& self.spec_frozen(c, o)
    }

    /// Sets or clears the transfer lock on holder `owner`'s record of
    /// `class`, under the class's controlling authority.
    fn set_lock(
        &mut self,
        class: ClassId,
        owner: AccountId,
        authority: AccountId,
        lock: bool,
    ) -> (r: Result<(), CustodyError>)
        requires
            old(self).wf(),
        ensures
            final(self).wf(),
            r is Ok <==> (if lock {
                old(self).can_freeze(class as int, owner as int, authority)
            } else {
                old(self).can_thaw(class as int, owner as int, authority)
            }),
            r is Err ==> *final(self) == *old(self),
            r == Err::<(), CustodyError>(CustodyError::InvalidClass) <==> !(old(
                self,
            ).spec_valid_class(class as int) && !old(self).spec_closed(class as int)),
            r == Err::<(), CustodyError>(CustodyError::UnauthorizedController) <==> old(
                self,
            ).spec_valid_class(class as int) && !old(self).spec_closed(class as int) && authority
                != old(self).spec_authority(class as int),
            r == Err::<(), CustodyError>(CustodyError::UninitializedHolder) <==> old(
                self,
            ).spec_valid_class(class as int) && !old(self).spec_closed(class as int) && authority
                == old(self).spec_authority(class as int) && !old(self).spec_has_holding(
                class as int,
                owner as int,
            ),
            r == Err::<(), CustodyError>(CustodyError::InvalidState) <==> old(
                self,
            ).spec_valid_class(class as int) && !old(self).spec_closed(class as int) && authority
                == old(self).spec_authority(class as int) && old(self).spec_has_holding(
                class as int,
                owner as int,
            ) && old(self).spec_frozen(class as int, owner as int) == lock,
            r is Ok ==> {
                &&& final(self).spec_has_holding(class as int, owner as int)
                &&& final(self).spec_balance(class as int, owner as int) == old(
                    self,
                ).spec_balance(class as int, owner as int)
                &&& final(self).spec_frozen(class as int, owner as int) == lock
                &&& holdings_eq_except(*old(self), *final(self), class as int, owner as int)
                &&& classes_eq(*old(self), *final(self))
                &&& final(self).class_count() == old(self).class_count()
            },
    {
        if class >= self.classes.len() || self.classes[class].closed {
            return Err(CustodyError::InvalidClass);
        }
        if authority != self.classes[class].authority {
            return Err(CustodyError::UnauthorizedController);
        }
        match self.find_holding(class, owner) {
            None => Err(CustodyError::UninitializedHolder),
            Some(i) => {
                proof {
                    self.lemma_index_unique(class as int, owner as int, i as int);
                }
                if self.holdings[i].frozen == lock {
                    return Err(CustodyError::InvalidState);
                }
                let ghost old_hs = self.holdings@;
                self.holdings[i].frozen = lock;
                proof {
                    let ghost h2 = self.holdings@[i as int];
                    lemma_unique_after_update(old_hs, i as int, h2);
                    assert forall|c2: int| 0 <= c2 < self.classes@.len() implies (
                    #[trigger] self.classes@[c2]).supply == class_sum(self.holdings@, c2) by {
                        lemma_class_sum_update(old_hs, i as int, h2, c2);
                    }
                    self.lemma_index_unique(class as int, owner as int, i as int);
                    assert forall|c2: int, o2: int|
                        !(c2 == class as int && o2 == owner as int) implies holding_eq(
                        *old(self),
                        *self,
                        c2,
                        o2,
                    ) by {
                        lemma_update_preserves_other(*old(self), *self, i as int, c2, o2);
                    }
                }
                Ok(())
            },
        }
    }

    /// Transfer-locks holder `owner`'s record of `class`.
    pub fn freeze(&mut self, class: ClassId, owner: AccountId, authority: AccountId) -> (r: Result<
        (),
        CustodyError,
    >)
        requires
            old(self).wf(),
        ensures
            final(self).wf(),
            r is Ok <==> old(self).can_freeze(class as int, owner as int, authority),
            r is Err ==> *final(self) == *old(self),
            r is Ok ==> {
                &&& final(self).spec_has_holding(class as int, owner as int)
                &&& final(self).spec_balance(class as int, owner as int) == old(
                    self,
                ).spec_balance(class as int, owner as int)
                &&& final(self).spec_frozen(class as int, owner as int)
                &&& holdings_eq_except(*old(self), *final(self), class as int, owner as int)
                &&& classes_eq(*old(self), *final(self))
                &&& final(self).class_count() == old(self).class_count()
            },
    {
        self.set_lock(class, owner, authority, true)
    }

    /// Unlocks holder `owner`'s record of `class`.
    pub fn thaw(&mut self, class: ClassId, owner: AccountId, authority: AccountId) -> (r: Result<
        (),
        CustodyError,
    >)
        requires
            old(self).wf(),
        ensures
            final(self).wf(),
            r is Ok <==> old(self).can_thaw(class as int, owner as int, authority),
            r is Err ==> *final(self) == *old(self),
            r is Ok ==> {
                &&& final(self).spec_has_holding(class as int, owner as int)
                &&& final(self).spec_balance(class as int, owner as int) == old(
                    self,
                ).spec_balance(class as int, owner as int)
                &&& !final(self).spec_frozen(class as int, owner as int)
                &&& holdings_eq_except(*old(self), *final(self), class as int, owner as int)
                &&& classes_eq(*old(self), *final(self))
                &&& final(self).class_count() == old(self).class_count()
            },
    {
        self.set_lock(class, owner, authority, false)
    }

    /// When a transfer succeeds: the class exists and is open, both records
    /// exist and are unlocked, the sender's balance covers the amount, and
    /// the recipient's balance still fits.
    pub open spec fn can_transfer(self, c: int, from: int, to: int, amount: u64) -> bool {
        &&& self.spec_valid_class(c)
        &&& !self.spec_closed(c)
        &&& self.spec_has_holding(c, from)
        &&& self.spec_has_holding(c, to)
        &&& !self.spec_frozen(c, from)
        &&& !self.spec_frozen(c, to)
        &&& amount <= self.spec_balance(c, from)
        &&& (from != to ==> self.spec_balance(c, to) + amount <= u64::MAX)
    }

    /// Moves `amount` of `class` from holder `from` to holder `to`. An
    /// ordinary transfer: it needs no authority, only the (externally
    /// verified) signature of the sender.
    pub fn transfer(
        &mut self,
        class: ClassId,
        from: AccountId,
        to: AccountId,
        amount: u64,
    ) -> (r: Result<(), CustodyError>)
        requires
            old(self).wf(),
        ensures
            final(self).wf(),
            r is Ok <==> old(self).can_transfer(class as int, from as int, to as int, amount),
            r is Err ==> *final(self) == *old(self),
            r == Err::<(), CustodyError>(CustodyError::InvalidClass) <==> !(old(
                self,
            ).spec_valid_class(class as int) && !old(self).spec_closed(class as int)),
            r == Err::<(), CustodyError>(CustodyError::UninitializedHolder) <==> old(
                self,
            ).spec_valid_class(class as int) && !old(self).spec_closed(class as int) && !(old(
                self,
            ).spec_has_holding(class as int, from as int) && old(self).spec_has_holding(
                class as int,
                to as int,
            )),
            r == Err::<(), CustodyError>(CustodyError::HoldingFrozen) <==> old(
                self,
            ).spec_valid_class(class as int) && !old(self).spec_closed(class as int) && old(
                self,
            ).spec_has_holding(class as int, from as int) && old(self).spec_has_holding(
                class as int,
                to as int,
            ) && (old(self).spec_frozen(class as int, from as int) || old(self).spec_frozen(
                class as int,
                to as int,
            )),
            r is Ok && from == to ==> *final(self) == *old(self),
            r is Ok && from != to ==> {
                &&& final(self).spec_has_holding(class as int, from as int)
                &&& final(self).spec_has_holding(class as int, to as int)
                &&& final(self).spec_balance(class as int, from as int) == old(
                    self,
                ).spec_balance(class as int, from as int) - amount
                &&& final(self).spec_balance(class as int, to as int) == old(self).spec_balance(
                    class as int,
                    to as int,
                ) + amount
                &&& final(self).spec_frozen(class as int, from as int) == old(self).spec_frozen(
                    class as int,
                    from as int,
                )
                &&& final(self).spec_frozen(class as int, to as int) == old(self).spec_frozen(
                    class as int,
                    to as int,
                )
                &&& holdings_eq_except2(*old(self), *final(self), class as int, from as int, to as int)
                &&& classes_eq(*old(self), *final(self))
                &&& final(self).class_count() == old(self).class_count()
            },
    {
        if class >= self.classes.len() || self.classes[class].closed {
            return Err(CustodyError::InvalidClass);
        }
        let fi = match self.find_holding(class, from) {
            None => {
                return Err(CustodyError::UninitializedHolder);
            },
            Some(i) => i,
        };
        proof {
            self.lemma_index_unique(class as int, from as int, fi as int);
        }
        let ti = match self.find_holding(class, to) {
            None => {
                return Err(CustodyError::UninitializedHolder);
            },
            Some(i) => i,
        };
        proof {
            self.lemma_index_unique(class as int, to as int, ti as int);
        }
        if self.holdings[fi].frozen || self.holdings[ti].frozen {
            return Err(CustodyError::HoldingFrozen);
        }
        let from_bal = self.holdings[fi].amount;
        if amount > from_bal {
            return Err(CustodyError::InsufficientBalance);
        }
        if from == to {
            return Ok(());
        }
        let to_bal = self.holdings[ti].amount;
        if amount > u64::MAX - to_bal {
            return Err(CustodyError::ArithmeticOverflow);
        }
        let ghost hs0 = self.holdings@;
        self.holdings[fi].amount = from_bal - amount;
        let ghost mid = *self;
        self.holdings[ti].amount = to_bal + amount;
        proof {
            let ghost hf = mid.holdings@[fi as int];
            let ghost ht = self.holdings@[ti as int];
            lemma_unique_after_update(hs0, fi as int, hf);
            lemma_unique_after_update(mid.holdings@, ti as int, ht);
            assert forall|c2: int| 0 <= c2 < self.classes@.len() implies (
            #[trigger] self.classes@[c2]).supply == class_sum(self.holdings@, c2) by {
                lemma_class_sum_update(hs0, fi as int, hf, c2);
                lemma_class_sum_update(mid.holdings@, ti as int, ht, c2);
            }
            mid.lemma_index_unique(class as int, from as int, fi as int);
            mid.lemma_index_unique(class as int, to as int, ti as int);
            self.lemma_index_unique(class as int, from as int, fi as int);
            self.lemma_index_unique(class as int, to as int, ti as int);
            lemma_update_preserves_other(mid, *self, ti as int, class as int, from as int);
            assert forall|c2: int, o2: int|
                !(c2 == class as int && (o2 == from as int || o2 == to as int)) implies holding_eq(
                *old(self),
                *self,
                c2,
                o2,
            ) by {
                lemma_update_preserves_other(*old(self), mid, fi as int, c2, o2);
                lemma_update_preserves_other(mid, *self, ti as int, c2, o2);
            }
        }
        Ok(())
    }

    /// When a close succeeds: the class exists, is still open, is controlled
    /// by the supplied authority, and has no outstanding supply.
    pub open spec fn can_close(self, c: int, authority: AccountId) -> bool {
        &&& self.spec_valid_class(c)
        &&& !self.spec_closed(c)
        &&& authority == self.spec_authority(c)
        &&& self.spec_supply(c) == 0
    }

    /// Closes asset class `class`: no further custody operation touches it.
    pub fn close_class(&mut self, class: ClassId, authority: AccountId) -> (r: Result<
        (),
        CustodyError,
    >)
        requires
            old(self).wf(),
        ensures
            final(self).wf(),
            r is Ok <==> old(self).can_close(class as int, authority),
            r is Err ==> *final(self) == *old(self),
            r == Err::<(), CustodyError>(CustodyError::InvalidClass) <==> !(old(
                self,
            ).spec_valid_class(class as int) && !old(self).spec_closed(class as int)),
            r == Err::<(), CustodyError>(CustodyError::UnauthorizedController) <==> old(
                self,
            ).spec_valid_class(class as int) && !old(self).spec_closed(class as int) && authority
                != old(self).spec_authority(class as int),
            r == Err::<(), CustodyError>(CustodyError::SupplyNotZero) <==> old(
                self,
            ).spec_valid_class(class as int) && !old(self).spec_closed(class as int) && authority
                == old(self).spec_authority(class as int) && old(self).spec_supply(class as int)
                != 0,
            r is Ok ==> {
                &&& final(self).spec_closed(class as int)
                &&& final(self).spec_valid_class(class as int)
                &&& final(self).spec_authority(class as int) == old(self).spec_authority(
                    class as int,
                )
                &&& final(self).spec_supply(class as int) == 0
                &&& holdings_eq(*old(self), *final(self))
                &&& classes_eq_except(*old(self), *final(self), class as int)
                &&& final(self).class_count() == old(self).class_count()
            },
    {
        if class >= self.classes.len() || self.classes[class].closed {
            return Err(CustodyError::InvalidClass);
        }
        if authority != self.classes[class].authority {
            return Err(CustodyError::UnauthorizedController);
        }
        if self.classes[class].supply != 0 {
            return Err(CustodyError::SupplyNotZero);
        }
        self.classes[class].closed = true;
        Ok(())
    }
}

/// Whether metadata `m` carries an entry under key `k`.
pub open spec fn meta_has(m: Seq<(MetaKey, Seq<char>)>, k: MetaKey) -> bool {
    exists|i: int| 0 <= i < m.len() && (#[trigger] m[i]).0 == k
}

/// The position of the first entry under key `k`; `m.len()` when there is
/// none.
pub open spec fn meta_index(m: Seq<(MetaKey, Seq<char>)>, k: MetaKey) -> int
    decreases m.len(),
{
    if m.len() == 0 {
        0
    } else if m[0].0 == k {
        0
    } else {
        1 + meta_index(m.subrange(1, m.len() as int), k)
    }
}

/// The value filed under key `k`, reading the first entry, as the custody
/// service's metadata reader does.
pub open spec fn meta_lookup(m: Seq<(MetaKey, Seq<char>)>, k: MetaKey) -> Option<Seq<char>> {
    if meta_has(m, k) {
        Some(m[meta_index(m, k)].1)
    } else {
        None
    }
}

/// Metadata `m` after filing `v` under key `k`: the first entry under `k` is
/// replaced, or a new entry is appended, as the custody service's
/// field-update call does.
pub open spec fn meta_update(
    m: Seq<(MetaKey, Seq<char>)>,
    k: MetaKey,
    v: Seq<char>,
) -> Seq<(MetaKey, Seq<char>)> {
    if meta_has(m, k) {
        m.update(meta_index(m, k), (k, v))
    } else {
        m.push((k, v))
    }
}

/// What `meta_index` finds: the first entry under `k` when one exists, the
/// length otherwise.
pub proof fn lemma_meta_index(m: Seq<(MetaKey, Seq<char>)>, k: MetaKey)
    ensures
        0 <= meta_index(m, k) <= m.len(),
        meta_has(m, k) <==> meta_index(m, k) < m.len(),
        meta_has(m, k) ==> m[meta_index(m, k)].0 == k,
        forall|j: int| 0 <= j < meta_index(m, k) ==> (#[trigger] m[j]).0 != k,
    decreases m.len(),
{
    if m.len() == 0 {
        assert(!meta_has(m, k));
    } else if m[0].0 == k {
        assert(meta_has(m, k));
    } else {
        let t = m.subrange(1, m.len() as int);
        lemma_meta_index(t, k);
        assert forall|j: int| 0 <= j < meta_index(m, k) implies (#[trigger] m[j]).0 != k by {
            if j > 0 {
                assert(m[j] == t[j - 1]);
            }
        }
        if meta_has(m, k) {
            let w = choose|i: int| 0 <= i < m.len() && (#[trigger] m[i]).0 == k;
            assert(w > 0);
            assert(t[w - 1] == m[w]);
            assert(meta_has(t, k));
        }
        if meta_has(t, k) {
            let w = meta_index(t, k);
            assert(m[w + 1] == t[w]);
            assert(meta_has(m, k));
        }
    }
}

/// The position of the first metadata entry under `key`, if any.
pub(crate) fn find_meta(entries: &Vec<MetaEntry>, key: MetaKey) -> (r: Option<usize>)
    ensures
        match r {
            Some(i) => 0 <= i < entries@.len() && entries@[i as int].key == key && forall|j: int|
                0 <= j < i ==> (#[trigger] entries@[j]).key != key,
            None => forall|j: int| 0 <= j < entries@.len() ==> (#[trigger] entries@[j]).key != key,
        },
{
    let n = entries.len();
    let mut i: usize = 0;
    while i < n
        invariant
            i <= n,
            n == entries@.len(),
            forall|j: int| 0 <= j < i ==> (#[trigger] entries@[j]).key != key,
        decreases n - i,
    {
        if entries[i].key == key {
            return Some(i);
        }
        i = i + 1;
    }
    None
}

/// A first match found by scanning is the entry `meta_index` names.
pub proof fn lemma_meta_first(m: Seq<(MetaKey, Seq<char>)>, k: MetaKey, i: int)
    requires
        0 <= i < m.len(),
        m[i].0 == k,
        forall|j: int| 0 <= j < i ==> (#[trigger] m[j]).0 != k,
    ensures
        meta_has(m, k),
        meta_index(m, k) == i,
{
    assert(meta_has(m, k));
    lemma_meta_index(m, k);
    if meta_index(m, k) < i {
        assert(m[meta_index(m, k)].0 == k);
        assert(false);
    }
    if meta_index(m, k) > i {
        assert(m[i].0 != k);
        assert(false);
    }
}

impl TokenLedger {
    /// The descriptive metadata entries of asset class `class`, as the
    /// custody service's metadata reader returns them. Fails when the class
    /// is unknown or closed.
    pub fn class_metadata(&self, class: ClassId) -> (r: Result<&Vec<MetaEntry>, CustodyError>)
        ensures
            r is Ok <==> self.spec_valid_class(class as int) && !self.spec_closed(class as int),
            r matches Ok(v) ==> v@.map_values(|e: MetaEntry| meta_entry_view(e))
                == self.spec_metadata(class as int),
            r matches Err(e) ==> e == CustodyError::InvalidClass,
    {
        if class >= self.classes.len() || self.classes[class].closed {
            return Err(CustodyError::InvalidClass);
        }
        Ok(&self.classes[class].metadata)
    }

    /// The manager identity recorded on asset class `class`. Fails when the
    /// class is unknown or closed.
    pub fn manager_of(&self, class: ClassId) -> (r: Result<Option<AccountId>, CustodyError>)
        ensures
            r is Ok <==> self.spec_valid_class(class as int) && !self.spec_closed(class as int),
            r matches Ok(m) ==> m == self.spec_manager(class as int),
            r matches Err(e) ==> e == CustodyError::InvalidClass,
    {
        if class >= self.classes.len() || self.classes[class].closed {
            return Err(CustodyError::InvalidClass);
        }
        Ok(self.classes[class].manager)
    }

    /// Whether `class` names an existing, still-open asset class.
    pub fn class_open(&self, class: ClassId) -> (r: bool)
        ensures
            r == (self.spec_valid_class(class as int) && !self.spec_closed(class as int)),
    {
        class < self.classes.len() && !self.classes[class].closed
    }

    /// The controlling authority of `class`; `None` when the class is
    /// unknown.
    pub fn class_authority(&self, class: ClassId) -> (r: Option<AccountId>)
        ensures
            r == (if self.spec_valid_class(class as int) {
                Some(self.spec_authority(class as int))
            } else {
                None::<AccountId>
            }),
    {
        if class >= self.classes.len() {
            return None;
        }
        Some(self.classes[class].authority)
    }

    /// Whether new balance records of `class` start transfer-locked; `None`
    /// when the class is unknown.
    pub fn class_default_frozen(&self, class: ClassId) -> (r: Option<bool>)
        ensures
            r == (if self.spec_valid_class(class as int) {
                Some(self.spec_default_frozen(class as int))
            } else {
                None::<bool>
            }),
    {
        if class >= self.classes.len() {
            return None;
        }
        Some(self.classes[class].default_frozen)
    }

    /// Holder `owner`'s balance of `class`; zero without a record.
    pub fn balance(&self, class: ClassId, owner: AccountId) -> (b: u64)
        requires
            self.wf(),
        ensures
            b == self.spec_balance(class as int, owner as int),
    {
        match self.find_holding(class, owner) {
            None => 0,
            Some(i) => {
                proof {
                    self.lemma_index_unique(class as int, owner as int, i as int);
                }
                self.holdings[i].amount
            },
        }
    }

    /// Whether holder `owner`'s record of `class` is transfer-locked; `None`
    /// without a record.
    pub fn holding_frozen(&self, class: ClassId, owner: AccountId) -> (r: Option<bool>)
        requires
            self.wf(),
        ensures
            r == (if self.spec_has_holding(class as int, owner as int) {
                Some(self.spec_frozen(class as int, owner as int))
            } else {
                None::<bool>
            }),
    {
        match self.find_holding(class, owner) {
            None => None,
            Some(i) => {
                proof {
                    self.lemma_index_unique(class as int, owner as int, i as int);
                }
                Some(self.holdings[i].frozen)
            },
        }
    }

    /// The outstanding supply of `class`; `None` when the class is unknown.
    pub fn supply(&self, class: ClassId) -> (r: Option<u64>)
        ensures
            r == (if self.spec_valid_class(class as int) {
                Some(self.spec_supply(class as int))
            } else {
                None::<u64>
            }),
    {
        if class >= self.classes.len() {
            return None;
        }
        Some(self.classes[class].supply)
    }

    /// Files `value` under `key` in class `class`'s descriptive metadata,
    /// under the class's controlling authority: the first entry under the key
    /// is replaced, or a new entry appended.
    pub fn update_metadata(
        &mut self,
        class: ClassId,
        key: MetaKey,
        value: String,
        authority: AccountId,
    ) -> (r: Result<(), CustodyError>)
        requires
            old(self).wf(),
        ensures
            final(self).wf(),
            r is Ok <==> old(self).spec_valid_class(class as int) && !old(self).spec_closed(
                class as int,
            ) && authority == old(self).spec_authority(class as int),
            r is Err ==> *final(self) == *old(self),
            r == Err::<(), CustodyError>(CustodyError::InvalidClass) <==> !(old(
                self,
            ).spec_valid_class(class as int) && !old(self).spec_closed(class as int)),
            r == Err::<(), CustodyError>(CustodyError::UnauthorizedController) <==> old(
                self,
            ).spec_valid_class(class as int) && !old(self).spec_closed(class as int) && authority
                != old(self).spec_authority(class as int),
            r is Ok ==> {
                &&& final(self).spec_metadata(class as int) == meta_update(
                    old(self).spec_metadata(class as int),
                    key,
                    value@,
                )
                &&& final(self).spec_valid_class(class as int)
                &&& final(self).spec_authority(class as int) == old(self).spec_authority(
                    class as int,
                )
                &&& final(self).spec_default_frozen(class as int) == old(
                    self,
                ).spec_default_frozen(class as int)
                &&& final(self).spec_supply(class as int) == old(self).spec_supply(class as int)
                &&& !final(self).spec_closed(class as int)
                &&& final(self).spec_manager(class as int) == old(self).spec_manager(class as int)
                &&& holdings_eq(*old(self), *final(self))
                &&& classes_eq_except(*old(self), *final(self), class as int)
                &&& final(self).class_count() == old(self).class_count()
            },
    {
        if class >= self.classes.len() || self.classes[class].closed {
            return Err(CustodyError::InvalidClass);
        }
        if authority != self.classes[class].authority {
            return Err(CustodyError::UnauthorizedController);
        }
        let ghost m0 = self.spec_metadata(class as int);
        proof {
            lemma_meta_index(m0, key);
        }
        let n = self.classes[class].metadata.len();
        let i = match find_meta(&self.classes[class].metadata, key) {
            Some(i) => i,
            None => n,
        };
        if i < n {
            proof {
                assert(m0[i as int].0 == key);
                assert(meta_has(m0, key));
                assert forall|j: int| 0 <= j < i implies (#[trigger] m0[j]).0 != key by {
                    assert(m0[j] == meta_entry_view(self.classes@[class as int].metadata@[j]));
                }
                if meta_index(m0, key) < i {
                    assert(m0[meta_index(m0, key)].0 == key);
                    assert(false);
                }
                if meta_index(m0, key) > i {
                    assert(m0[i as int].0 != key);
                    assert(false);
                }
            }
            self.classes[class].metadata[i] = MetaEntry { key, value };
            proof {
                assert(self.spec_metadata(class as int) =~= meta_update(m0, key, value@));
            }
        } else {
            proof {
                if meta_has(m0, key) {
                    let w = meta_index(m0, key);
                    lemma_meta_index(m0, key);
                    assert(m0[w] == meta_entry_view(
                        self.classes@[class as int].metadata@[w],
                    ));
                    assert(false);
                }
            }
            self.classes[class].metadata.push(MetaEntry { key, value });
            proof {
                assert(self.spec_metadata(class as int) =~= meta_update(m0, key, value@));
            }
        }
        Ok(())
    }
}

} // verus!
