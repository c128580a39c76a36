//! Market-data availability models.  Dates are day numbers (see
//! `crate::calendar`).
use vstd::prelude::*;
use crate::models::asset::AssetType;
use crate::text::text_eq;

verus! {

/// What a limitation is about: an asset's prices or a currency's FX rates.
#[derive(Clone, Debug)]
pub enum MarketDataSubject {
    Asset { ticker: String, name: String, asset_type: AssetType },
    FxRate { currency: String },
}

#[derive(Clone, Copy, Debug, PartialEq, Eq, Structural)]
pub enum MarketDataLimitationClassification {
    ActionableMissingData,
    ActionableReportingLag,
    ActionableStaleData,
}

/// Market data that ends before the requested date.
#[derive(Clone, Debug)]
pub struct MarketDataLimitation {
    pub subject: MarketDataSubject,
    pub latest_available_date: Option<i32>,
    pub requested_end_date: i32,
    pub classification: MarketDataLimitationClassification,
}

/// Market data prepared for valuation: the last day every required series
/// reaches, and the limitations found on the way.
#[derive(Clone, Debug)]
pub struct ValuationMarketData {
    pub effective_end: i32,
    pub limitations: Vec<MarketDataLimitation>,
}

/// Market data prepared without treating a missing series as an error:
/// `data_available` is false when some required asset price or FX series
/// has no data at all, and each such series is reported among the
/// limitations.
#[derive(Clone, Debug)]
pub struct ValuationMarketDataAvailability {
    pub effective_end: i32,
    pub limitations: Vec<MarketDataLimitation>,
    pub data_available: bool,
}

/// Two limitation subjects name the same thing (same texts, same type).
pub open spec fn same_subject(a: MarketDataSubject, b: MarketDataSubject) -> bool {
    match (a, b) {
        (
            MarketDataSubject::Asset { ticker: t1, name: n1, asset_type: k1 },
            MarketDataSubject::Asset { ticker: t2, name: n2, asset_type: k2 },
        ) => t1@ == t2@ && n1@ == n2@ && k1 == k2,
        (MarketDataSubject::FxRate { currency: c1 }, MarketDataSubject::FxRate { currency: c2 }) => c1@ == c2@,
        _ => false,
    }
}

/// Two limitations are equal field by field.
pub open spec fn same_limitation(a: MarketDataLimitation, b: MarketDataLimitation) -> bool {
    &&& same_subject(a.subject, b.subject)
    &&& a.latest_available_date == b.latest_available_date
    &&& a.requested_end_date == b.requested_end_date
    &&& a.classification == b.classification
}

pub open spec fn has_limitation(ls: Seq<MarketDataLimitation>, l: MarketDataLimitation) -> bool {
    exists|k: int| 0 <= k < ls.len() && same_limitation(#[trigger] ls[k], l)
}

/// No limitation is listed twice.
pub open spec fn unique_limitations(ls: Seq<MarketDataLimitation>) -> bool {
    forall|i: int, j: int| 0 <= i < j < ls.len() ==> !same_limitation(#[trigger] ls[i], #[trigger] ls[j])
}

/// `ls` with `l` appended unless it is already listed.
pub open spec fn with_limitation(ls: Seq<MarketDataLimitation>, l: MarketDataLimitation) -> Seq<MarketDataLimitation> {
    if has_limitation(ls, l) {
        ls
    } else {
        ls.push(l)
    }
}

/// `ls` with each of `more`, in order, appended unless already listed.
pub open spec fn with_limitations(ls: Seq<MarketDataLimitation>, more: Seq<MarketDataLimitation>) -> Seq<MarketDataLimitation>
    decreases more.len(),
{
    if more.len() == 0 {
        ls
    } else {
        with_limitation(with_limitations(ls, more.drop_last()), more.last())
    }
}

fn subject_eq(a: &MarketDataSubject, b: &MarketDataSubject) -> (r: bool)
    ensures
        r == same_subject(*a, *b),
{
    match (a, b) {
        (
            MarketDataSubject::Asset { ticker: t1, name: n1, asset_type: k1 },
            MarketDataSubject::Asset { ticker: t2, name: n2, asset_type: k2 },
        ) => text_eq(t1.as_str(), t2.as_str()) && text_eq(n1.as_str(), n2.as_str()) && *k1 == *k2,
        (MarketDataSubject::FxRate { currency: c1 }, MarketDataSubject::FxRate { currency: c2 }) => text_eq(
            c1.as_str(),
            c2.as_str(),
        ),
        _ => false,
    }
}

/// Field-by-field equality of limitations.
pub fn limitation_eq(a: &MarketDataLimitation, b: &MarketDataLimitation) -> (r: bool)
    ensures
        r == same_limitation(*a, *b),
{
    subject_eq(&a.subject, &b.subject) && a.latest_available_date == b.latest_available_date
        && a.requested_end_date == b.requested_end_date && a.classification == b.classification
}

/// Appends a limitation unless an equal one is already listed.
pub fn add_limitation(limitations: &mut Vec<MarketDataLimitation>, limitation: MarketDataLimitation)
    ensures
        final(limitations)@ == with_limitation(old(limitations)@, limitation),
{
    let mut k: usize = 0;
    while k < limitations.len()
        invariant
            k <= limitations@.len(),
            forall|m: int| 0 <= m < k ==> !same_limitation(#[trigger] limitations@[m], limitation),
        decreases limitations@.len() - k,
    {
        if limitation_eq(&limitations[k], &limitation) {
            return;
        }
        k = k + 1;
    }
    limitations.push(limitation);
}

/// Appends each of `additional`, in order, unless an equal one is already
/// listed.
pub fn extend_unique_limitations(limitations: &mut Vec<MarketDataLimitation>, additional: Vec<MarketDataLimitation>)
    ensures
        final(limitations)@ == with_limitations(old(limitations)@, additional@),
{
    let ghost start = limitations@;
    let ghost all = additional@;
    assert(all.len() == additional.len());
    let mut rest = additional;
    let mut i: usize = 0;
    while rest.len() > 0
        invariant
            i <= all.len() <= usize::MAX,
            rest@ == all.skip(i as int),
            limitations@ == with_limitations(start, all.take(i as int)),
        decreases rest@.len(),
    {
        let l = rest.remove(0);
        proof {
            assert(all.take(i + 1).drop_last() =~= all.take(i as int));
            assert(l == all[i as int]);
            assert(all.skip(i as int).drop_first() =~= all.skip(i + 1));
        }
        add_limitation(limitations, l);
        i = i + 1;
    }
    assert(all.take(all.len() as int) =~= all);
}

/// Adding limitations never lists one twice, keeps those already listed in
/// place, and lists every added one.
pub proof fn lemma_limitations_stay_unique(ls: Seq<MarketDataLimitation>, more: Seq<MarketDataLimitation>)
    requires
        unique_limitations(ls),
    ensures
        unique_limitations(with_limitations(ls, more)),
        with_limitations(ls, more).len() >= ls.len(),
        forall|k: int| 0 <= k < ls.len() ==> with_limitations(ls, more)[k] == ls[k],
        forall|k: int| 0 <= k < more.len() ==> has_limitation(with_limitations(ls, more), #[trigger] more[k]),
    decreases more.len(),
{
    if more.len() > 0 {
        let prev = with_limitations(ls, more.drop_last());
        lemma_limitations_stay_unique(ls, more.drop_last());
        let l = more.last();
        if !has_limitation(prev, l) {
            let next = prev.push(l);
            assert forall|i: int, j: int| 0 <= i < j < next.len() implies !same_limitation(#[trigger] next[i], #[trigger] next[j]) by {
                if j == prev.len() {
                    assert(!same_limitation(prev[i], l));
                } else {
                    assert(next[i] == prev[i] && next[j] == prev[j]);
                }
            }
            assert forall|k: int| 0 <= k < more.len() implies has_limitation(next, #[trigger] more[k]) by {
                if k == more.len() - 1 {
                    assert(next[prev.len() as int] == l);
                    assert(same_subject(l.subject, l.subject)) by {
                        match l.subject {
                            MarketDataSubject::Asset { .. } => {},
                            MarketDataSubject::FxRate { .. } => {},
                        }
                    }
                    assert(same_limitation(next[prev.len() as int], more[k]));
                } else {
                    assert(more.drop_last()[k] == more[k]);
                    assert(has_limitation(prev, more[k]));
                    let m = choose|m: int| 0 <= m < prev.len() && same_limitation(#[trigger] prev[m], more[k]);
                    assert(next[m] == prev[m]);
                }
            }
        } else {
            assert forall|k: int| 0 <= k < more.len() implies has_limitation(prev, #[trigger] more[k]) by {
                if k < more.len() - 1 {
                    assert(more.drop_last()[k] == more[k]);
                }
            }
        }
    }
}

// ---------------------------------------------------------------------------
// Limitations as plain values
// ---------------------------------------------------------------------------

/// What identifies a limitation's subject: whether it is an asset, the
/// ticker (or the currency), the name (empty for a currency) and the asset
/// type (`Stock` for a currency).
pub open spec fn subject_key(s: MarketDataSubject) -> (bool, Seq<char>, Seq<char>, AssetType) {
    match s {
        MarketDataSubject::Asset { ticker, name, asset_type } => (true, ticker@, name@, asset_type),
        MarketDataSubject::FxRate { currency } => (false, currency@, Seq::empty(), AssetType::Stock),
    }
}

/// A limitation as a plain value: its subject's key, latest available day,
/// requested end and classification.
pub type LimitationKey = ((bool, Seq<char>, Seq<char>, AssetType), Option<i32>, i32, MarketDataLimitationClassification);

/// Two limitations are equal field by field exactly when their keys are
/// equal.
pub open spec fn limitation_key(l: MarketDataLimitation) -> LimitationKey {
    (subject_key(l.subject), l.latest_available_date, l.requested_end_date, l.classification)
}

pub open spec fn limitation_keys(ls: Seq<MarketDataLimitation>) -> Seq<LimitationKey> {
    ls.map_values(|l: MarketDataLimitation| limitation_key(l))
}

/// `ks` with `k` appended unless it is already there.
pub open spec fn with_key<K>(ks: Seq<K>, k: K) -> Seq<K> {
    if ks.contains(k) {
        ks
    } else {
        ks.push(k)
    }
}

/// `ks` with each of `more`, in order, appended unless already there.
pub open spec fn with_keys<K>(ks: Seq<K>, more: Seq<K>) -> Seq<K>
    decreases more.len(),
{
    if more.len() == 0 {
        ks
    } else {
        with_key(with_keys(ks, more.drop_last()), more.last())
    }
}

/// No value occurs twice.
pub open spec fn no_repeats<K>(ks: Seq<K>) -> bool {
    forall|i: int, j: int| 0 <= i < j < ks.len() ==> ks[i] != ks[j]
}

proof fn lemma_same_limitation_is_same_key(a: MarketDataLimitation, b: MarketDataLimitation)
    ensures
        same_limitation(a, b) <==> limitation_key(a) == limitation_key(b),
{
    match (a.subject, b.subject) {
        (MarketDataSubject::FxRate { currency: c1 }, MarketDataSubject::FxRate { currency: c2 }) => {
            if c1@ == c2@ {
                assert(subject_key(a.subject) == subject_key(b.subject));
            }
        },
        _ => {},
    }
}

/// The keys of a list of limitations are free of repeats exactly when no
/// limitation is listed twice.
pub proof fn lemma_unique_limitations_keys(ls: Seq<MarketDataLimitation>)
    ensures
        unique_limitations(ls) <==> no_repeats(limitation_keys(ls)),
{
    if unique_limitations(ls) {
        assert forall|i: int, j: int| 0 <= i < j < limitation_keys(ls).len() implies limitation_keys(ls)[i]
            != limitation_keys(ls)[j] by {
            lemma_same_limitation_is_same_key(ls[i], ls[j]);
        }
    }
    if no_repeats(limitation_keys(ls)) {
        assert forall|i: int, j: int| 0 <= i < j < ls.len() implies !same_limitation(#[trigger] ls[i], #[trigger] ls[j]) by {
            lemma_same_limitation_is_same_key(ls[i], ls[j]);
            assert(limitation_keys(ls)[i] != limitation_keys(ls)[j]);
        }
    }
}

proof fn lemma_with_limitation_keys(ls: Seq<MarketDataLimitation>, l: MarketDataLimitation)
    ensures
        limitation_keys(with_limitation(ls, l)) == with_key(limitation_keys(ls), limitation_key(l)),
{
    let ks = limitation_keys(ls);
    if has_limitation(ls, l) {
        let k = choose|k: int| 0 <= k < ls.len() && same_limitation(#[trigger] ls[k], l);
        lemma_same_limitation_is_same_key(ls[k], l);
        assert(ks[k] == limitation_key(l));
        assert(ks.contains(limitation_key(l)));
    } else {
        if ks.contains(limitation_key(l)) {
            let k = choose|k: int| 0 <= k < ks.len() && ks[k] == limitation_key(l);
            lemma_same_limitation_is_same_key(ls[k], l);
            assert(same_limitation(ls[k], l));
        }
        assert(limitation_keys(ls.push(l)) =~= ks.push(limitation_key(l)));
    }
}

/// Adding limitations one by one, leaving out those already listed, acts
/// on their keys as adding the keys one by one.
pub proof fn lemma_with_limitations_keys(ls: Seq<MarketDataLimitation>, more: Seq<MarketDataLimitation>)
    ensures
        limitation_keys(with_limitations(ls, more)) == with_keys(limitation_keys(ls), limitation_keys(more)),
    decreases more.len(),
{
    if more.len() > 0 {
        lemma_with_limitations_keys(ls, more.drop_last());
        lemma_with_limitation_keys(with_limitations(ls, more.drop_last()), more.last());
        assert(limitation_keys(more).drop_last() =~= limitation_keys(more.drop_last()));
    }
}

/// Adding keys one by one, leaving out those already there, never repeats
/// one.
pub proof fn lemma_with_keys_no_repeats<K>(ks: Seq<K>, more: Seq<K>)
    requires
        no_repeats(ks),
    ensures
        no_repeats(with_keys(ks, more)),
    decreases more.len(),
{
    if more.len() > 0 {
        lemma_with_keys_no_repeats(ks, more.drop_last());
        let prev = with_keys(ks, more.drop_last());
        let k = more.last();
        if !prev.contains(k) {
            assert forall|i: int, j: int| 0 <= i < j < prev.push(k).len() implies prev.push(k)[i] != prev.push(k)[j] by {
                if j == prev.len() {
                    assert(prev[i] != k);
                }
            }
        }
    }
}

} // verus!
