//! Canonical transaction ledger of one asset.
//!
//! Persistence establishes transaction identities; this module establishes
//! their chronological meaning: the single replay order `(date, id)` and the
//! identity integrity of the entries, together with the integer-valued
//! checks of replay (unit prices, fees and dividend amounts in cents).
//! Unit counts and split ratios are carried as an opaque parameter `U`.
use vstd::prelude::*;
use crate::calendar::{canonical_date, is_canonical_date};
use crate::models::transaction::TxType;
use crate::text::{compare_text, lemma_text_order_antisym, lemma_text_order_eq, lemma_text_order_range, lemma_text_order_trans, text_order};

verus! {

broadcast use vstd::seq_lib::group_to_multiset_ensures;

/// The type-specific fields of a ledger entry.  `U` holds unit counts and
/// split ratios.
#[derive(Clone, Debug)]
pub enum LedgerEntryKind<U> {
    Buy { units: U, unit_price_cents: i64, fees_cents: i64 },
    Sell { units: U, unit_price_cents: i64, fees_cents: i64 },
    Dividend { gross_amount_cents: i64, deductions_cents: i64 },
    Split { ratio: U },
}

/// A compact, stable description of an entry's type for diagnostics.
#[derive(Clone, Copy, Debug, PartialEq, Eq, Structural)]
pub enum LedgerEntryType {
    Ledger,
    Buy,
    Sell,
    Dividend,
    Split,
}

/// The invariant violated by an invalid entry.
#[derive(Clone, Copy, Debug, PartialEq, Eq, Structural)]
pub enum LedgerInvariant {
    PositiveAssetIdentity,
    MatchingAssetIdentity,
    UniquePositiveEntryIdentity,
    ValidDate,
    FiniteValue,
    PositiveValue,
    NonNegativeValue,
    NonNegativeQuantity,
    OpenQuantityRequired,
    DeductionsDoNotExceedGrossDividend,
}

/// The operation that was attempted when an entry was rejected.
#[derive(Clone, Copy, Debug, PartialEq, Eq, Structural)]
pub enum LedgerAttemptKind {
    Identity,
    Units,
    SellUnits,
    UnitPrice,
    Fees,
    GrossDividend,
    DividendDeductions,
    SplitRatio,
    Contribution,
    Withdrawal,
    CostRemoval,
    SplitResult,
}

/// Why replay rejects an entry: what was attempted and what it violates.
#[derive(Clone, Copy, Debug, PartialEq, Eq, Structural)]
pub struct LedgerRejection {
    pub attempted: LedgerAttemptKind,
    pub violated_invariant: LedgerInvariant,
}

/// A transaction whose data shape is constrained by its type.
#[derive(Clone, Debug)]
pub struct LedgerEntry<U> {
    pub id: i32,
    pub asset_id: i32,
    pub date: String,
    pub kind: LedgerEntryKind<U>,
}

/// An identity error found while establishing the canonical order.
#[derive(Clone, Debug)]
pub struct LedgerIdentityError {
    pub asset_id: i32,
    pub entry_id: i32,
    pub date: String,
    pub entry_type: LedgerEntryType,
    pub violated_invariant: LedgerInvariant,
}

pub open spec fn kind_type<U>(kind: LedgerEntryKind<U>) -> LedgerEntryType {
    match kind {
        LedgerEntryKind::Buy { .. } => LedgerEntryType::Buy,
        LedgerEntryKind::Sell { .. } => LedgerEntryType::Sell,
        LedgerEntryKind::Dividend { .. } => LedgerEntryType::Dividend,
        LedgerEntryKind::Split { .. } => LedgerEntryType::Split,
    }
}

impl<U> LedgerEntryKind<U> {
    pub fn entry_type(&self) -> (r: LedgerEntryType)
        ensures
            r == kind_type(*self),
    {
        match self {
            LedgerEntryKind::Buy { .. } => LedgerEntryType::Buy,
            LedgerEntryKind::Sell { .. } => LedgerEntryType::Sell,
            LedgerEntryKind::Dividend { .. } => LedgerEntryType::Dividend,
            LedgerEntryKind::Split { .. } => LedgerEntryType::Split,
        }
    }

    /// The typed kind of a persisted transaction: buys and sells take the
    /// quantity as units, dividends read the price as the gross amount and
    /// the fees as deductions, splits read the quantity as the ratio.
    pub fn from_transaction_fields(tx_type: TxType, quantity: U, price_cents: i64, fees_cents: i64) -> (r: LedgerEntryKind<U>)
        ensures
            r == (match tx_type {
                TxType::Buy => LedgerEntryKind::Buy { units: quantity, unit_price_cents: price_cents, fees_cents },
                TxType::Sell => LedgerEntryKind::Sell { units: quantity, unit_price_cents: price_cents, fees_cents },
                TxType::Dividend => LedgerEntryKind::Dividend { gross_amount_cents: price_cents, deductions_cents: fees_cents },
                TxType::Split => LedgerEntryKind::Split { ratio: quantity },
            }),
    {
        match tx_type {
            TxType::Buy => LedgerEntryKind::Buy { units: quantity, unit_price_cents: price_cents, fees_cents },
            TxType::Sell => LedgerEntryKind::Sell { units: quantity, unit_price_cents: price_cents, fees_cents },
            TxType::Dividend => LedgerEntryKind::Dividend { gross_amount_cents: price_cents, deductions_cents: fees_cents },
            TxType::Split => LedgerEntryKind::Split { ratio: quantity },
        }
    }
}

// ---------------------------------------------------------------------------
// Canonical order
// ---------------------------------------------------------------------------

/// `a` comes strictly before `b` in the `(date, id)` order.
pub open spec fn entry_before<U>(a: LedgerEntry<U>, b: LedgerEntry<U>) -> bool {
    text_order(a.date@, b.date@) < 0 || (text_order(a.date@, b.date@) == 0 && a.id < b.id)
}

/// Entries are in canonical order: no entry comes strictly before an
/// earlier one.
pub open spec fn is_canonically_ordered<U>(s: Seq<LedgerEntry<U>>) -> bool {
    forall|i: int, j: int| 0 <= i < j < s.len() ==> !entry_before(#[trigger] s[j], #[trigger] s[i])
}

/// Stable insertion of one entry behind every entry that does not come
/// after it.
pub open spec fn insert_canonically<U>(s: Seq<LedgerEntry<U>>, e: LedgerEntry<U>) -> Seq<LedgerEntry<U>>
    decreases s.len(),
{
    if s.len() == 0 {
        seq![e]
    } else if entry_before(e, s.last()) {
        insert_canonically(s.drop_last(), e).push(s.last())
    } else {
        s.push(e)
    }
}

/// The canonical order of a sequence of entries: a stable sort by
/// `(date, id)`.
pub open spec fn canonical_order<U>(s: Seq<LedgerEntry<U>>) -> Seq<LedgerEntry<U>>
    decreases s.len(),
{
    if s.len() == 0 {
        Seq::empty()
    } else {
        insert_canonically(canonical_order(s.drop_last()), s.last())
    }
}

proof fn lemma_before_asym<U>(a: LedgerEntry<U>, b: LedgerEntry<U>)
    ensures
        entry_before(a, b) ==> !entry_before(b, a),
{
    lemma_text_order_antisym(a.date@, b.date@);
}

/// `a < b` and `b <= c` give `a < c`.
proof fn lemma_before_trans<U>(a: LedgerEntry<U>, b: LedgerEntry<U>, c: LedgerEntry<U>)
    requires
        entry_before(a, b),
        !entry_before(c, b),
    ensures
        entry_before(a, c),
{
    lemma_text_order_antisym(b.date@, c.date@);
    lemma_text_order_range(b.date@, c.date@);
    lemma_text_order_range(a.date@, b.date@);
    lemma_text_order_trans(a.date@, b.date@, c.date@);
    lemma_text_order_eq(a.date@, b.date@);
    lemma_text_order_eq(b.date@, c.date@);
    lemma_text_order_eq(a.date@, c.date@);
}

/// Inserting into a canonically ordered sequence keeps it ordered and adds
/// exactly the new entry.
proof fn lemma_insert_canonically<U>(s: Seq<LedgerEntry<U>>, e: LedgerEntry<U>)
    requires
        is_canonically_ordered(s),
    ensures
        is_canonically_ordered(insert_canonically(s, e)),
        insert_canonically(s, e).to_multiset() =~= s.to_multiset().insert(e),
    decreases s.len(),
{
    if s.len() == 0 {
        assert(seq![e] =~= Seq::<LedgerEntry<U>>::empty().push(e));
    } else if entry_before(e, s.last()) {
        let p = s.drop_last();
        let t = insert_canonically(p, e);
        assert(is_canonically_ordered(p));
        lemma_insert_canonically(p, e);
        assert(s =~= p.push(s.last()));
        let r = t.push(s.last());
        assert forall|i: int, j: int| 0 <= i < j < r.len() implies !entry_before(#[trigger] r[j], #[trigger] r[i]) by {
            if j == r.len() - 1 {
                let x = t[i];
                assert(t.contains(x));
                assert(t.to_multiset().count(x) > 0);
                if x == e {
                    lemma_before_asym(e, s.last());
                } else {
                    assert(p.to_multiset().count(x) > 0);
                    assert(p.contains(x));
                    let k = choose|k: int| 0 <= k < p.len() && p[k] == x;
                    assert(s[k] == x);
                    assert(!entry_before(s[s.len() - 1], s[k]));
                }
            } else {
                assert(r[i] == t[i] && r[j] == t[j]);
            }
        }
    } else {
        let r = s.push(e);
        assert forall|i: int, j: int| 0 <= i < j < r.len() implies !entry_before(#[trigger] r[j], #[trigger] r[i]) by {
            if j == r.len() - 1 {
                if i < s.len() - 1 {
                    assert(!entry_before(s[s.len() - 1], s[i]));
                    if entry_before(e, s[i]) {
                        lemma_before_trans(e, s[i], s.last());
                    }
                }
            } else {
                assert(r[i] == s[i] && r[j] == s[j]);
            }
        }
    }
}

/// The canonical order is ordered by `(date, id)`.
pub proof fn lemma_canonical_order_is_ordered<U>(s: Seq<LedgerEntry<U>>)
    ensures
        is_canonically_ordered(canonical_order(s)),
    decreases s.len(),
{
    if s.len() > 0 {
        lemma_canonical_order_is_ordered(s.drop_last());
        lemma_insert_canonically(canonical_order(s.drop_last()), s.last());
    }
}

/// The canonical order holds exactly the given entries.
pub proof fn lemma_canonical_order_is_permutation<U>(s: Seq<LedgerEntry<U>>)
    ensures
        canonical_order(s).to_multiset() =~= s.to_multiset(),
        canonical_order(s).len() == s.len(),
    decreases s.len(),
{
    if s.len() > 0 {
        lemma_canonical_order_is_permutation(s.drop_last());
        lemma_canonical_order_is_ordered(s.drop_last());
        lemma_insert_canonically(canonical_order(s.drop_last()), s.last());
        assert(s =~= s.drop_last().push(s.last()));
    }
    assert(canonical_order(s).to_multiset().len() == canonical_order(s).len());
    assert(s.to_multiset().len() == s.len());
}

/// Entries already in canonical order keep their order.
pub proof fn lemma_canonical_order_of_ordered<U>(s: Seq<LedgerEntry<U>>)
    requires
        is_canonically_ordered(s),
    ensures
        canonical_order(s) == s,
    decreases s.len(),
{
    if s.len() > 0 {
        let p = s.drop_last();
        assert(is_canonically_ordered(p));
        lemma_canonical_order_of_ordered(p);
        if p.len() > 0 {
            assert(!entry_before(s[s.len() - 1], s[s.len() - 2]));
            assert(p.last() == s[s.len() - 2]);
        }
        assert(s =~= p.push(s.last()));
    }
}

/// Inserting at a position found by scanning from the back.
proof fn lemma_insert_canonically_at<U>(s: Seq<LedgerEntry<U>>, e: LedgerEntry<U>, j: int)
    requires
        0 <= j <= s.len(),
        forall|k: int| j <= k < s.len() ==> entry_before(e, #[trigger] s[k]),
        j > 0 ==> !entry_before(e, s[j - 1]),
    ensures
        insert_canonically(s, e) =~= s.take(j).push(e) + s.skip(j),
    decreases s.len(),
{
    if j == s.len() {
        if s.len() > 0 {
            assert(s.last() == s[j - 1]);
        }
        assert(s.take(j) =~= s);
    } else {
        let p = s.drop_last();
        assert(entry_before(e, s[s.len() - 1]));
        assert forall|k: int| j <= k < p.len() implies entry_before(e, #[trigger] p[k]) by {
            assert(p[k] == s[k]);
        }
        if j > 0 {
            assert(p[j - 1] == s[j - 1]);
        }
        lemma_insert_canonically_at(p, e, j);
        assert(p.take(j) =~= s.take(j));
        assert(p.skip(j).push(s.last()) =~= s.skip(j));
    }
}

/// `a` comes strictly before `b` in the `(date, id)` order.
pub fn entry_precedes<U>(a: &LedgerEntry<U>, b: &LedgerEntry<U>) -> (r: bool)
    ensures
        r == entry_before(*a, *b),
{
    let c = compare_text(a.date.as_str(), b.date.as_str());
    c < 0 || (c == 0 && a.id < b.id)
}

/// Stable sort of entries by `(date, id)`.
pub fn canonical_sort<U>(entries: Vec<LedgerEntry<U>>) -> (r: Vec<LedgerEntry<U>>)
    ensures
        r@ == canonical_order(entries@),
{
    let ghost orig = entries@;
    let mut input = entries;
    let mut out: Vec<LedgerEntry<U>> = Vec::new();
    let ghost mut k: int = 0;
    assert(orig.take(0) =~= Seq::<LedgerEntry<U>>::empty());
    assert(orig.skip(0) =~= orig);
    while input.len() > 0
        invariant
            0 <= k <= orig.len(),
            input@ == orig.skip(k),
            out@ == canonical_order(orig.take(k)),
        decreases input.len(),
    {
        let e = input.remove(0);
        proof {
            assert(e == orig[k]);
        }
        let mut j = out.len();
        while j > 0 && entry_precedes(&e, &out[j - 1])
            invariant
                j <= out@.len(),
                forall|m: int| j <= m < out@.len() ==> entry_before(e, #[trigger] out@[m]),
            decreases j,
        {
            j = j - 1;
        }
        proof {
            lemma_insert_canonically_at(out@, e, j as int);
            assert(orig.take(k + 1).drop_last() =~= orig.take(k));
            assert(orig.take(k + 1).last() == orig[k]);
        }
        out.insert(j, e);
        proof {
            assert(out@ =~= canonical_order(orig.take(k + 1)));
            k = k + 1;
            assert(input@ =~= orig.skip(k));
        }
    }
    assert(orig.take(k) =~= orig);
    out
}

// ---------------------------------------------------------------------------
// Identity integrity
// ---------------------------------------------------------------------------

/// The identity rule entry `i` of an ordered ledger breaks, if any: it must
/// belong to the ledger's asset, have a positive id not used by an earlier
/// entry, and carry a canonical date.
pub open spec fn entry_violation<U>(asset_id: int, s: Seq<LedgerEntry<U>>, i: int) -> Option<LedgerInvariant> {
    if s[i].asset_id != asset_id {
        Some(LedgerInvariant::MatchingAssetIdentity)
    } else if s[i].id <= 0 || exists|k: int| 0 <= k < i && #[trigger] s[k].id == s[i].id {
        Some(LedgerInvariant::UniquePositiveEntryIdentity)
    } else if !is_canonical_date(s[i].date@) {
        Some(LedgerInvariant::ValidDate)
    } else {
        None
    }
}

/// The first entry at or after `i` that breaks an identity rule.
pub open spec fn first_violation_from<U>(asset_id: int, s: Seq<LedgerEntry<U>>, i: int) -> Option<(int, LedgerInvariant)>
    decreases s.len() - i,
{
    if i < 0 || i >= s.len() {
        None
    } else {
        match entry_violation(asset_id, s, i) {
            Some(v) => Some((i, v)),
            None => first_violation_from(asset_id, s, i + 1),
        }
    }
}

pub open spec fn first_violation<U>(asset_id: int, s: Seq<LedgerEntry<U>>) -> Option<(int, LedgerInvariant)> {
    first_violation_from(asset_id, s, 0)
}

proof fn lemma_first_violation_none<U>(asset_id: int, s: Seq<LedgerEntry<U>>, i: int, j: int)
    requires
        0 <= i <= j < s.len(),
        first_violation_from(asset_id, s, i) is None,
    ensures
        entry_violation(asset_id, s, j) is None,
    decreases j - i,
{
    if i < j {
        lemma_first_violation_none(asset_id, s, i + 1, j);
    }
}

proof fn lemma_first_violation_index<U>(asset_id: int, s: Seq<LedgerEntry<U>>, i: int)
    requires
        0 <= i,
    ensures
        match first_violation_from(asset_id, s, i) {
            Some((k, v)) => i <= k < s.len() && entry_violation(asset_id, s, k) == Some(v),
            None => true,
        },
    decreases s.len() - i,
{
    if i < s.len() && entry_violation(asset_id, s, i) is None {
        lemma_first_violation_index(asset_id, s, i + 1);
    }
}

pub open spec fn identity_error_matches<U>(err: LedgerIdentityError, asset_id: int, e: LedgerEntry<U>, v: LedgerInvariant) -> bool {
    &&& err.asset_id == asset_id
    &&& err.entry_id == e.id
    &&& err.date@ == e.date@
    &&& err.entry_type == kind_type(e.kind)
    &&& err.violated_invariant == v
}

fn entry_violation_at<U>(asset_id: i32, s: &Vec<LedgerEntry<U>>, i: usize) -> (r: Option<LedgerInvariant>)
    requires
        i < s@.len(),
    ensures
        r == entry_violation(asset_id as int, s@, i as int),
{
    if s[i].asset_id != asset_id {
        return Some(LedgerInvariant::MatchingAssetIdentity);
    }
    if s[i].id <= 0 {
        return Some(LedgerInvariant::UniquePositiveEntryIdentity);
    }
    let mut k: usize = 0;
    while k < i
        invariant
            i < s@.len(),
            k <= i,
            s@[i as int].asset_id == asset_id,
            s@[i as int].id > 0,
            forall|m: int| 0 <= m < k ==> #[trigger] s@[m].id != s@[i as int].id,
        decreases i - k,
    {
        if s[k].id == s[i].id {
            assert(0 <= k < i && s@[k as int].id == s@[i as int].id);
            assert(exists|m: int| 0 <= m < i && #[trigger] s@[m].id == s@[i as int].id);
            return Some(LedgerInvariant::UniquePositiveEntryIdentity);
        }
        k = k + 1;
    }
    if !canonical_date(s[i].date.as_str()) {
        return Some(LedgerInvariant::ValidDate);
    }
    None
}

/// An opaque, canonical `(date, id)` ordering for a single asset ledger.
#[derive(Debug)]
pub struct CanonicalLedger<U> {
    asset_id: i32,
    entries: Vec<LedgerEntry<U>>,
}

impl<U> CanonicalLedger<U> {
    #[verifier::type_invariant]
    spec fn well_formed(self) -> bool {
        &&& self.asset_id > 0
        &&& is_canonically_ordered(self.entries@)
        &&& first_violation(self.asset_id as int, self.entries@) is None
    }

    pub closed spec fn spec_asset_id(self) -> int {
        self.asset_id as int
    }

    pub closed spec fn spec_entries(self) -> Seq<LedgerEntry<U>> {
        self.entries@
    }

    /// Validates identity integrity and establishes the only replay order.
    /// A non-positive asset id is rejected first; otherwise the entries are
    /// put in canonical order and the first entry (in that order) that
    /// breaks an identity rule is reported.
    pub fn new(asset_id: i32, entries: Vec<LedgerEntry<U>>) -> (r: Result<Self, LedgerIdentityError>)
        ensures
            asset_id <= 0 ==> (r matches Err(err) && err.asset_id == asset_id && err.entry_id == 0
                && err.date@ == Seq::<char>::empty() && err.entry_type == LedgerEntryType::Ledger
                && err.violated_invariant == LedgerInvariant::PositiveAssetIdentity),
            asset_id > 0 ==> match first_violation(asset_id as int, canonical_order(entries@)) {
                None => (r matches Ok(ledger) && ledger.spec_asset_id() == asset_id
                    && ledger.spec_entries() == canonical_order(entries@)),
                Some((i, v)) => (r matches Err(err) && identity_error_matches(
                    err,
                    asset_id as int,
                    canonical_order(entries@)[i],
                    v,
                )),
            },
    {
        if asset_id <= 0 {
            return Err(
                LedgerIdentityError {
                    asset_id,
                    entry_id: 0,
                    date: String::new(),
                    entry_type: LedgerEntryType::Ledger,
                    violated_invariant: LedgerInvariant::PositiveAssetIdentity,
                },
            );
        }
        let sorted = canonical_sort(entries);
        let ghost s = sorted@;
        let mut i: usize = 0;
        while i < sorted.len()
            invariant
                s == sorted@,
                s == canonical_order(entries@),
                asset_id > 0,
                i <= s.len(),
                first_violation_from(asset_id as int, s, 0) == first_violation_from(asset_id as int, s, i as int),
            decreases s.len() - i,
        {
            match entry_violation_at(asset_id, &sorted, i) {
                Some(v) => {
                    let entry = &sorted[i];
                    return Err(
                        LedgerIdentityError {
                            asset_id,
                            entry_id: entry.id,
                            date: entry.date.clone(),
                            entry_type: entry.kind.entry_type(),
                            violated_invariant: v,
                        },
                    );
                },
                None => {
                    i = i + 1;
                },
            }
        }
        proof {
            lemma_canonical_order_is_ordered(entries@);
        }
        Ok(CanonicalLedger { asset_id, entries: sorted })
    }

    pub fn asset_id(&self) -> (r: i32)
        ensures
            r == self.spec_asset_id(),
            r > 0,
    {
        proof {
            use_type_invariant(self);
        }
        self.asset_id
    }

    /// The entries in canonical order; each satisfies the identity rules.
    pub fn entries(&self) -> (r: &[LedgerEntry<U>])
        ensures
            r@ == self.spec_entries(),
            is_canonically_ordered(r@),
            first_violation(self.spec_asset_id(), r@) is None,
    {
        proof {
            use_type_invariant(self);
        }
        self.entries.as_slice()
    }

    /// Gives up the ledger, keeping its entries in canonical order.
    pub fn into_entries(self) -> (r: Vec<LedgerEntry<U>>)
        ensures
            r@ == self.spec_entries(),
            is_canonically_ordered(r@),
            first_violation(self.spec_asset_id(), r@) is None,
    {
        proof {
            use_type_invariant(&self);
        }
        self.entries
    }
}

/// A valid canonical ledger: ordered, and every entry belongs to the asset,
/// has a positive, unique id and a canonical date.
pub proof fn lemma_valid_ledger_entries<U>(asset_id: int, s: Seq<LedgerEntry<U>>, i: int, j: int)
    requires
        first_violation(asset_id, s) is None,
        0 <= i < j < s.len(),
    ensures
        s[j].asset_id == asset_id,
        s[j].id > 0,
        s[i].id != s[j].id,
        is_canonical_date(s[j].date@),
{
    lemma_first_violation_none(asset_id, s, 0, j);
    if s[i].id == s[j].id {
        assert(exists|k: int| 0 <= k < j && #[trigger] s[k].id == s[j].id);
    }
}

// ---------------------------------------------------------------------------
// Integer-valued replay checks
// ---------------------------------------------------------------------------

/// The cent amounts of a buy or sell: the unit price must be positive and
/// the fees non-negative, checked in that order.
pub open spec fn trade_amounts_rejection(unit_price_cents: int, fees_cents: int) -> Option<LedgerRejection> {
    if unit_price_cents <= 0 {
        Some(LedgerRejection { attempted: LedgerAttemptKind::UnitPrice, violated_invariant: LedgerInvariant::PositiveValue })
    } else if fees_cents < 0 {
        Some(LedgerRejection { attempted: LedgerAttemptKind::Fees, violated_invariant: LedgerInvariant::NonNegativeValue })
    } else {
        None
    }
}

pub fn check_trade_amounts(unit_price_cents: i64, fees_cents: i64) -> (r: Result<(), LedgerRejection>)
    ensures
        match trade_amounts_rejection(unit_price_cents as int, fees_cents as int) {
            Some(rej) => r == Err::<(), LedgerRejection>(rej),
            None => r is Ok,
        },
{
    if unit_price_cents <= 0 {
        Err(LedgerRejection { attempted: LedgerAttemptKind::UnitPrice, violated_invariant: LedgerInvariant::PositiveValue })
    } else if fees_cents < 0 {
        Err(LedgerRejection { attempted: LedgerAttemptKind::Fees, violated_invariant: LedgerInvariant::NonNegativeValue })
    } else {
        Ok(())
    }
}

/// The outcome of a dividend entry: the gross amount must be positive, the
/// deductions non-negative, a position must be open and the deductions may
/// not exceed the gross amount; the net income is their difference.
pub open spec fn dividend_outcome(gross_amount_cents: int, deductions_cents: int, position_open: bool) -> Result<int, LedgerRejection> {
    if gross_amount_cents <= 0 {
        Err(LedgerRejection { attempted: LedgerAttemptKind::GrossDividend, violated_invariant: LedgerInvariant::PositiveValue })
    } else if deductions_cents < 0 {
        Err(LedgerRejection { attempted: LedgerAttemptKind::DividendDeductions, violated_invariant: LedgerInvariant::NonNegativeValue })
    } else if !position_open {
        Err(LedgerRejection { attempted: LedgerAttemptKind::GrossDividend, violated_invariant: LedgerInvariant::OpenQuantityRequired })
    } else if deductions_cents > gross_amount_cents {
        Err(LedgerRejection { attempted: LedgerAttemptKind::DividendDeductions, violated_invariant: LedgerInvariant::DeductionsDoNotExceedGrossDividend })
    } else {
        Ok(gross_amount_cents - deductions_cents)
    }
}

/// Net dividend income in cents, or why the dividend is rejected.
/// `position_open` tells whether the quantity held before the dividend is
/// above the replay's zero tolerance.
pub fn dividend_net_income(gross_amount_cents: i64, deductions_cents: i64, position_open: bool) -> (r: Result<i64, LedgerRejection>)
    ensures
        match dividend_outcome(gross_amount_cents as int, deductions_cents as int, position_open) {
            Ok(net) => (r matches Ok(x) && x as int == net),
            Err(rej) => r == Err::<i64, LedgerRejection>(rej),
        },
{
    if gross_amount_cents <= 0 {
        Err(LedgerRejection { attempted: LedgerAttemptKind::GrossDividend, violated_invariant: LedgerInvariant::PositiveValue })
    } else if deductions_cents < 0 {
        Err(LedgerRejection { attempted: LedgerAttemptKind::DividendDeductions, violated_invariant: LedgerInvariant::NonNegativeValue })
    } else if !position_open {
        Err(LedgerRejection { attempted: LedgerAttemptKind::GrossDividend, violated_invariant: LedgerInvariant::OpenQuantityRequired })
    } else if deductions_cents > gross_amount_cents {
        Err(LedgerRejection { attempted: LedgerAttemptKind::DividendDeductions, violated_invariant: LedgerInvariant::DeductionsDoNotExceedGrossDividend })
    } else {
        Ok(gross_amount_cents - deductions_cents)
    }
}

/// An accepted dividend never yields a negative or larger-than-gross net
/// income.
pub proof fn lemma_dividend_net_income_bounds(gross_amount_cents: int, deductions_cents: int, position_open: bool)
    ensures
        (dividend_outcome(gross_amount_cents, deductions_cents, position_open) matches Ok(net)
            ==> 0 <= net <= gross_amount_cents),
{
}

} // verus!
