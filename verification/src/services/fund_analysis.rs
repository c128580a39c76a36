//! Fund analysis: which name and currency describe a fund, which holdings
//! count as equity, whether a price history covers a period, and how a new
//! holdings snapshot relates to the stored ones.  Prices, weights and their
//! statistics are computed outside this module.
use vstd::prelude::*;
use crate::calendar::{iso_day, parse_iso_day, valid_day};
use crate::text::{copy_text, non_empty_trimmed, text_eq, trim, trimmed};

verus! {

/// Stored prices must start no later than this many days after the start
/// of a period, and end no earlier than this many days before its end.
pub const COVERAGE_TOLERANCE_DAYS: i32 = 7;

/// How a holding changed between two snapshots.
#[derive(Clone, Copy, Debug, PartialEq, Eq, Structural)]
pub enum HoldingChangeType {
    Added,
    Removed,
    WeightChanged,
}

pub open spec fn change_rank(t: HoldingChangeType) -> int {
    match t {
        HoldingChangeType::Added => 0,
        HoldingChangeType::Removed => 1,
        HoldingChangeType::WeightChanged => 2,
    }
}

/// Changes are listed added first, then removed, then reweighted.
pub fn change_type_rank(t: HoldingChangeType) -> (r: u8)
    ensures
        r as int == change_rank(t),
{
    match t {
        HoldingChangeType::Added => 0,
        HoldingChangeType::Removed => 1,
        HoldingChangeType::WeightChanged => 2,
    }
}

pub open spec fn opt_view(s: Option<String>) -> Option<Seq<char>> {
    match s {
        Some(t) => Some(t@),
        None => None,
    }
}

pub open spec fn first_present(a: Option<Seq<char>>, b: Option<Seq<char>>) -> Option<Seq<char>> {
    match a {
        Some(x) => Some(x),
        None => b,
    }
}

/// A fund's name: the name of the tracked asset with its code, else the
/// name the quote source reports.
pub fn fund_name(local_name: Option<String>, quote_name: Option<String>) -> (r: Option<String>)
    ensures
        opt_view(r) == first_present(opt_view(local_name), opt_view(quote_name)),
{
    match local_name {
        Some(n) => Some(n),
        None => quote_name,
    }
}

/// A fund's currency: the quote currency, else the fund's base currency.
pub fn fund_currency(quote_currency: Option<String>, base_currency: Option<String>) -> (r: Option<String>)
    ensures
        opt_view(r) == first_present(opt_view(quote_currency), opt_view(base_currency)),
{
    match quote_currency {
        Some(c) => Some(c),
        None => base_currency,
    }
}

/// Holdings with a ticker are equity holdings.
pub fn is_equity_holding(ticker: Option<&str>) -> (r: bool)
    ensures
        r == (ticker is Some && trimmed(ticker->Some_0@).len() > 0),
{
    match ticker {
        Some(t) => trim(t).unicode_len() > 0,
        None => false,
    }
}

pub open spec fn coverage_problem(
    first: Option<int>,
    last: Option<int>,
    requested_start: int,
    requested_end: int,
    label: Seq<char>,
) -> Option<Seq<char>> {
    if first is None || last is None {
        Some(label + " history unavailable"@)
    } else if first->Some_0 > requested_start + COVERAGE_TOLERANCE_DAYS {
        Some(label + " lacks start coverage"@)
    } else if last->Some_0 < requested_end - COVERAGE_TOLERANCE_DAYS {
        Some(label + " lacks recent coverage"@)
    } else {
        None
    }
}

pub open spec fn first_day(dates: Seq<String>) -> Option<int> {
    if dates.len() == 0 {
        None
    } else {
        iso_day(dates[0]@)
    }
}

pub open spec fn last_day(dates: Seq<String>) -> Option<int> {
    if dates.len() == 0 {
        None
    } else {
        iso_day(dates.last()@)
    }
}

fn message_with_label(label: &str, suffix: &str) -> (r: String)
    ensures
        r@ == label@ + suffix@,
{
    let mut message = copy_text(label);
    message.append(suffix);
    message
}

/// Why a price history (its dates, in order) does not cover the period
/// `requested_start ..= requested_end`: its first and last dates must be
/// readable and within the tolerance of the period's ends.
pub fn coverage_reason(dates: &[String], requested_start: i32, requested_end: i32, label: &str) -> (r: Option<String>)
    requires
        valid_day(requested_start as int),
        valid_day(requested_end as int),
    ensures
        opt_view(r) == coverage_problem(first_day(dates@), last_day(dates@), requested_start as int, requested_end as int, label@),
{
    if dates.len() == 0 {
        return Some(message_with_label(label, " history unavailable"));
    }
    let first = parse_iso_day(dates[0].as_str());
    let last = parse_iso_day(dates[dates.len() - 1].as_str());
    match (first, last) {
        (Some(f), Some(l)) => {
            if f > requested_start + COVERAGE_TOLERANCE_DAYS {
                Some(message_with_label(label, " lacks start coverage"))
            } else if l < requested_end - COVERAGE_TOLERANCE_DAYS {
                Some(message_with_label(label, " lacks recent coverage"))
            } else {
                None
            }
        },
        _ => Some(message_with_label(label, " history unavailable")),
    }
}

// ---------------------------------------------------------------------------
// Holdings snapshots
// ---------------------------------------------------------------------------

/// A stored holdings snapshot: the portfolio date it is keyed by and the
/// fingerprint of its holdings.
#[derive(Clone, Debug)]
pub struct StoredSnapshot {
    pub snapshot_date: String,
    pub fingerprint: String,
}

/// Which stored snapshot the new holdings are compared with, if any.
#[derive(Clone, Copy, Debug, PartialEq, Eq, Structural)]
pub enum DiffSource {
    Nothing,
    SameDate,
    Latest,
}

/// What recording a holdings snapshot amounts to.
#[derive(Clone, Debug)]
pub struct SnapshotDecision {
    pub holdings_changed: bool,
    pub last_snapshot_date: Option<String>,
    pub diff_against: DiffSource,
    pub insert: bool,
}

/// The date a snapshot is keyed by: the reported portfolio date, else the
/// run's date.
pub fn snapshot_key_date(portfolio_date: Option<&str>, today: &str) -> (r: String)
    ensures
        r@ == (match portfolio_date {
            Some(d) => match non_empty_trimmed(d@) {
                Some(t) => t,
                None => today@,
            },
            None => today@,
        }),
{
    match portfolio_date {
        Some(d) => {
            let t = trim(d);
            if t.unicode_len() > 0 {
                t
            } else {
                copy_text(today)
            }
        },
        None => copy_text(today),
    }
}

pub open spec fn snapshot_decision_is(
    d: SnapshotDecision,
    fingerprint: Seq<char>,
    snapshot_date: Seq<char>,
    same_date: Option<StoredSnapshot>,
    latest: Option<StoredSnapshot>,
) -> bool {
    match same_date {
        Some(s) => {
            &&& d.holdings_changed == (s.fingerprint@ != fingerprint)
            &&& opt_view(d.last_snapshot_date) == Some(s.snapshot_date@)
            &&& d.diff_against == (if s.fingerprint@ != fingerprint { DiffSource::SameDate } else { DiffSource::Nothing })
            &&& !d.insert
        },
        None => match latest {
            Some(p) => {
                &&& d.holdings_changed == (p.fingerprint@ != fingerprint || p.snapshot_date@ != snapshot_date)
                &&& opt_view(d.last_snapshot_date) == Some(p.snapshot_date@)
                &&& d.diff_against == (if p.fingerprint@ != fingerprint { DiffSource::Latest } else { DiffSource::Nothing })
                &&& d.insert
            },
            None => {
                &&& d.holdings_changed
                &&& d.last_snapshot_date is None
                &&& d.diff_against == DiffSource::Nothing
                &&& d.insert
            },
        },
    }
}

/// Decides how new holdings with `fingerprint`, keyed by `snapshot_date`,
/// relate to the stored snapshot of the same date (`same_date`) and to the
/// latest stored snapshot (`latest`).  A snapshot of the same date is never
/// stored twice.
pub fn decide_snapshot(
    fingerprint: &str,
    snapshot_date: &str,
    same_date: Option<StoredSnapshot>,
    latest: Option<StoredSnapshot>,
) -> (r: SnapshotDecision)
    ensures
        snapshot_decision_is(r, fingerprint@, snapshot_date@, same_date, latest),
{
    match same_date {
        Some(s) => {
            let changed = !text_eq(s.fingerprint.as_str(), fingerprint);
            SnapshotDecision {
                holdings_changed: changed,
                last_snapshot_date: Some(s.snapshot_date),
                diff_against: if changed { DiffSource::SameDate } else { DiffSource::Nothing },
                insert: false,
            }
        },
        None => match latest {
            Some(p) => {
                let fingerprint_changed = !text_eq(p.fingerprint.as_str(), fingerprint);
                let date_changed = !text_eq(p.snapshot_date.as_str(), snapshot_date);
                SnapshotDecision {
                    holdings_changed: fingerprint_changed || date_changed,
                    last_snapshot_date: Some(p.snapshot_date),
                    diff_against: if fingerprint_changed { DiffSource::Latest } else { DiffSource::Nothing },
                    insert: true,
                }
            },
            None => SnapshotDecision {
                holdings_changed: true,
                last_snapshot_date: None,
                diff_against: DiffSource::Nothing,
                insert: true,
            },
        },
    }
}

} // verus!
