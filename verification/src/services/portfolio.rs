//! Current positions: which held assets need historical prices and rates
//! prepared before their cost and dividend facts are projected, and from
//! which day.  Ledger replay and valuation happen outside this module.
use vstd::prelude::*;
use crate::calendar::{date_parse, format_iso_day, iso_day, iso_text, parse_iso_day_or_error, DATE_FORMAT};
use crate::constants::{is_benchmark_ticker, BENCHMARK_TICKER};
use crate::models::asset::{asset_is_monetary, Asset};
use crate::text::{compare_text, copy_text, text_order};

verus! {

/// Which held assets a request prepares market data for.
#[derive(Clone, Copy, Debug, PartialEq, Eq, Structural)]
pub enum LedgerPreparationScope {
    /// Every asset with an open position.
    AllOpenHoldings,
    /// Only those the stored performance data cannot serve: monetary assets
    /// and assets traded after the end date.
    ReuseNavPerformanceData,
}

/// An asset with the facts its replayed ledger gives: whether the position
/// is open at the end (held quantity above the tolerance), the dates of its
/// transactions, and the date of the first transition of the replay.
#[derive(Clone, Debug)]
pub struct LedgerHolding {
    pub asset: Asset,
    pub open: bool,
    pub transaction_dates: Vec<String>,
    pub first_transition_date: Option<String>,
}

/// The assets to prepare (by position in the given list) and the first day
/// to prepare from.
#[derive(Clone, Debug)]
pub struct LedgerPrepareScope {
    pub asset_indices: Vec<usize>,
    pub start_date: String,
}

pub open spec fn traded_after(h: LedgerHolding, end_date: Seq<char>) -> bool {
    exists|k: int| 0 <= k < h.transaction_dates@.len() && text_order((#[trigger] h.transaction_dates@[k])@, end_date) > 0
}

/// The holding needs preparation: it is not the benchmark, has
/// transactions, is open, and is in the scope.
pub open spec fn needs_preparation(h: LedgerHolding, end_date: Seq<char>, scope: LedgerPreparationScope) -> bool {
    &&& h.asset.ticker@ != BENCHMARK_TICKER@
    &&& h.transaction_dates@.len() > 0
    &&& h.open
    &&& match scope {
        LedgerPreparationScope::AllOpenHoldings => true,
        LedgerPreparationScope::ReuseNavPerformanceData => asset_is_monetary(h.asset) || traded_after(h, end_date),
    }
}

/// The date a holding's preparation starts from: its first transition's,
/// or the end date when the replay has none.
pub open spec fn earliest_text(h: LedgerHolding, end_date: Seq<char>) -> Seq<char> {
    match h.first_transition_date {
        Some(d) => d@,
        None => end_date,
    }
}

/// The positions, in order, of the first `n` holdings that need preparation.
pub open spec fn needed_indices(hs: Seq<LedgerHolding>, end_date: Seq<char>, scope: LedgerPreparationScope, n: int) -> Seq<int>
    decreases n,
{
    if n <= 0 {
        Seq::empty()
    } else if needs_preparation(hs[n - 1], end_date, scope) {
        needed_indices(hs, end_date, scope, n - 1).push(n - 1)
    } else {
        needed_indices(hs, end_date, scope, n - 1)
    }
}

proof fn lemma_needed_indices_empty(hs: Seq<LedgerHolding>, end_date: Seq<char>, scope: LedgerPreparationScope, n: int)
    requires
        0 <= n <= hs.len(),
    ensures
        needed_indices(hs, end_date, scope, n).len() == 0 <==> forall|x: int| 0 <= x < n ==> !needs_preparation(
            #[trigger] hs[x],
            end_date,
            scope,
        ),
    decreases n,
{
    if n > 0 {
        lemma_needed_indices_empty(hs, end_date, scope, n - 1);
    }
}

pub open spec fn index_views(v: Seq<usize>) -> Seq<int> {
    v.map_values(|i: usize| i as int)
}

/// Some holding that needs preparation has a start date that cannot be read.
pub open spec fn unreadable_start(hs: Seq<LedgerHolding>, end_date: Seq<char>, scope: LedgerPreparationScope) -> bool {
    exists|i: int| 0 <= i < hs.len() && needs_preparation(#[trigger] hs[i], end_date, scope)
        && iso_day(earliest_text(hs[i], end_date)) is None
}

/// Holding `i` is the first that needs preparation and whose start date
/// cannot be read.
pub open spec fn first_unreadable_start(hs: Seq<LedgerHolding>, end_date: Seq<char>, scope: LedgerPreparationScope, i: int) -> bool {
    &&& 0 <= i < hs.len()
    &&& needs_preparation(hs[i], end_date, scope)
    &&& iso_day(earliest_text(hs[i], end_date)) is None
    &&& forall|x: int| 0 <= x < i && #[trigger] needs_preparation(hs[x], end_date, scope) ==> iso_day(
        earliest_text(hs[x], end_date),
    ) is Some
}

/// `m` is the earliest start day of the holdings that need preparation.
pub open spec fn is_earliest_start(hs: Seq<LedgerHolding>, end_date: Seq<char>, scope: LedgerPreparationScope, m: int) -> bool {
    &&& exists|i: int| 0 <= i < hs.len() && needs_preparation(#[trigger] hs[i], end_date, scope)
        && iso_day(earliest_text(hs[i], end_date)) == Some(m)
    &&& forall|i: int| 0 <= i < hs.len() && needs_preparation(#[trigger] hs[i], end_date, scope)
        ==> (iso_day(earliest_text(hs[i], end_date)) matches Some(d) && m <= d)
}

fn is_traded_after(h: &LedgerHolding, end_date: &str) -> (r: bool)
    ensures
        r == traded_after(*h, end_date@),
{
    let mut k: usize = 0;
    while k < h.transaction_dates.len()
        invariant
            k <= h.transaction_dates@.len(),
            forall|x: int| 0 <= x < k ==> text_order((#[trigger] h.transaction_dates@[x])@, end_date@) <= 0,
        decreases h.transaction_dates@.len() - k,
    {
        if compare_text(h.transaction_dates[k].as_str(), end_date) > 0 {
            return true;
        }
        k = k + 1;
    }
    false
}

/// The assets whose historical prices and rates a positions request
/// prepares, and the day to prepare from: the earliest start of those
/// assets as a storage date, or the end date when that is earlier by text.
/// Nothing when no held asset needs preparation; chrono's parse error for
/// the first of them whose start cannot be read.
pub fn ledger_prepare_scope(holdings: &[LedgerHolding], end_date: &str, scope: LedgerPreparationScope) -> (r: Result<
    Option<LedgerPrepareScope>,
    String,
>)
    ensures
        r is Err <==> unreadable_start(holdings@, end_date@, scope),
        r is Err ==> exists|i: int| #[trigger] first_unreadable_start(holdings@, end_date@, scope, i)
            && date_parse(earliest_text(holdings@[i], end_date@), DATE_FORMAT@) == Err::<int, Seq<char>>(r->Err_0@),
        r is Ok ==> (r->Ok_0 is None <==> needed_indices(holdings@, end_date@, scope, holdings@.len() as int).len() == 0),
        r is Ok && r->Ok_0 is Some ==> {
            let p = r->Ok_0->Some_0;
            &&& index_views(p.asset_indices@) == needed_indices(holdings@, end_date@, scope, holdings@.len() as int)
            &&& exists|m: int| is_earliest_start(holdings@, end_date@, scope, m) && p.start_date@ == (if text_order(
                iso_text(m),
                end_date@,
            ) <= 0 {
                iso_text(m)
            } else {
                end_date@
            })
        },
{
    let ghost hs = holdings@;
    let mut indices: Vec<usize> = Vec::new();
    let mut earliest: Option<i32> = None;
    let mut i: usize = 0;
    while i < holdings.len()
        invariant
            hs == holdings@,
            i <= hs.len(),
            index_views(indices@) == needed_indices(hs, end_date@, scope, i as int),
            forall|x: int| 0 <= x < i && #[trigger] needs_preparation(hs[x], end_date@, scope) ==> iso_day(earliest_text(hs[x], end_date@)) is Some,
            earliest is None <==> needed_indices(hs, end_date@, scope, i as int).len() == 0,
            match earliest {
                Some(m) => (exists|x: int| 0 <= x < i && #[trigger] needs_preparation(hs[x], end_date@, scope)
                    && iso_day(earliest_text(hs[x], end_date@)) == Some(m as int))
                    && forall|x: int| 0 <= x < i && #[trigger] needs_preparation(hs[x], end_date@, scope)
                        ==> (iso_day(earliest_text(hs[x], end_date@)) matches Some(d) && m <= d),
                None => true,
            },
            earliest matches Some(m) ==> crate::calendar::valid_day(m as int),
        decreases hs.len() - i,
    {
        let h = &holdings[i];
        let ghost start_earliest = earliest;
        proof {
            lemma_needed_indices_empty(hs, end_date@, scope, i as int);
            lemma_needed_indices_empty(hs, end_date@, scope, i + 1);
        }
        let needed = !is_benchmark_ticker(h.asset.ticker.as_str()) && h.transaction_dates.len() > 0 && h.open
            && match scope {
            LedgerPreparationScope::AllOpenHoldings => true,
            LedgerPreparationScope::ReuseNavPerformanceData => h.asset.is_monetary() || is_traded_after(h, end_date),
        };
        assert(needed == needs_preparation(hs[i as int], end_date@, scope));
        if needed {
            let text = match &h.first_transition_date {
                Some(d) => d.as_str(),
                None => end_date,
            };
            assert(text@ == earliest_text(hs[i as int], end_date@));
            let day = match parse_iso_day_or_error(text) {
                Ok(d) => d,
                Err(message) => {
                    assert(unreadable_start(hs, end_date@, scope));
                    assert(first_unreadable_start(hs, end_date@, scope, i as int));
                    return Err(message);
                },
            };
            let ghost before = indices@;
            let ghost old_earliest = earliest;
            indices.push(i);
            assert(index_views(indices@) =~= index_views(before).push(i as int));
            earliest = Some(
                match earliest {
                    Some(m) => if m <= day {
                        m
                    } else {
                        day
                    },
                    None => day,
                },
            );
            proof {
                let m = earliest->Some_0;
                assert(iso_day(earliest_text(hs[i as int], end_date@)) == Some(day as int));
                if old_earliest is Some && m == old_earliest->Some_0 {
                    let x = choose|x: int| 0 <= x < i && #[trigger] needs_preparation(hs[x], end_date@, scope)
                        && iso_day(earliest_text(hs[x], end_date@)) == Some(m as int);
                    assert(0 <= x < i + 1);
                } else {
                    assert(0 <= i < i + 1 && needs_preparation(hs[i as int], end_date@, scope));
                }
            }
        }
        proof {
            if !needed && earliest is Some {
                let m = earliest->Some_0;
                assert(start_earliest == earliest);
                let x = choose|x: int| 0 <= x < i && #[trigger] needs_preparation(hs[x], end_date@, scope)
                    && iso_day(earliest_text(hs[x], end_date@)) == Some(m as int);
                assert(0 <= x < i + 1);
            }
        }
        i = i + 1;
    }
    proof {
        if unreadable_start(hs, end_date@, scope) {
            let x = choose|x: int| 0 <= x < hs.len() && needs_preparation(#[trigger] hs[x], end_date@, scope)
                && iso_day(earliest_text(hs[x], end_date@)) is None;
            assert(false);
        }
    }
    match earliest {
        None => Ok(None),
        Some(m) => {
            assert(is_earliest_start(hs, end_date@, scope, m as int));
            let text = format_iso_day(m);
            let start_date = if compare_text(text.as_str(), end_date) <= 0 {
                text
            } else {
                copy_text(end_date)
            };
            Ok(Some(LedgerPrepareScope { asset_indices: indices, start_date }))
        },
    }
}

} // verus!
