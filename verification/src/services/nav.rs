//! The NAV engine's planning: which days a rebuild covers, over which days
//! each held asset must be valued, which exchange rates that needs, and up
//! to which day every day can be valued.  Quantities and values are
//! computed outside this module; it receives, for each transition of an
//! asset's ledger, whether the position was open before and after it.
use vstd::prelude::*;
use crate::calendar::{format_iso_day, iso_day, iso_text, parse_iso_day, valid_day, MAX_DAY, MIN_DAY};
use crate::constants::BASE_CURRENCY;
use crate::models::asset::{asset_is_monetary, Asset, AssetType};
use crate::models::market_data::{
    extend_unique_limitations, lemma_unique_limitations_keys, lemma_with_keys_no_repeats, lemma_with_limitations_keys,
    limitation_keys, no_repeats, unique_limitations, with_keys, with_limitations, LimitationKey, MarketDataLimitation,
    MarketDataLimitationClassification,
};
use crate::services::market_data_policy::{missing_asset_limitation, missing_fx_limitation};
use crate::text::{
    compare_text, copy_text, insert_sorted_unique, lemma_text_order_antisym, lemma_text_order_eq, lemma_text_order_range,
    lemma_text_order_trans, strictly_ascending, text_eq, text_order, text_views,
};

verus! {

broadcast use vstd::seq_lib::group_to_multiset_ensures;

/// A transition of an asset's ledger: its date and whether the position
/// was open (held quantity above the tolerance) before and after it.
#[derive(Clone, Debug)]
pub struct HoldingTransition {
    pub date: String,
    pub open_before: bool,
    pub open_after: bool,
}

/// What the NAV engine knows of one asset's holding: whether it counts
/// towards performance, whether it was open when the rebuild starts, and
/// the transitions of its ledger.
#[derive(Clone, Debug)]
pub struct AssetHolding {
    pub asset_id: i32,
    pub counts_for_performance: bool,
    pub open_at_start: bool,
    pub transitions: Vec<HoldingTransition>,
}

/// Days `start ..= end` over which an asset is valued.
#[derive(Clone, Copy, Debug, PartialEq, Eq, Structural)]
pub struct NavValuationInterval {
    pub asset_id: i32,
    pub start: i32,
    pub end: i32,
}

/// The intervals an asset contributes and the start of its open interval,
/// after the first `k` transitions, within `start ..= end`.  A transition
/// outside the range changes nothing; one that closes the position ends the
/// open interval the day before (dropping it when that leaves no day); one
/// that opens it starts a new interval.
pub open spec fn scan_holding(
    asset_id: i32,
    ts: Seq<HoldingTransition>,
    k: nat,
    start: int,
    end: int,
    open_at_start: bool,
) -> (Seq<NavValuationInterval>, Option<int>)
    decreases k,
{
    if k == 0 {
        (Seq::empty(), if open_at_start { Some(start) } else { None })
    } else {
        let (ivs, open) = scan_holding(asset_id, ts, (k - 1) as nat, start, end, open_at_start);
        let t = ts[k - 1];
        let d = iso_day(t.date@)->Some_0;
        if d < start || d > end {
            (ivs, open)
        } else if t.open_before && !t.open_after {
            match open {
                Some(s) => if s <= d - 1 {
                    (ivs.push(NavValuationInterval { asset_id, start: s as i32, end: (d - 1) as i32 }), None)
                } else {
                    (ivs, None)
                },
                None => (ivs, None),
            }
        } else if !t.open_before && t.open_after {
            (ivs, Some(d))
        } else {
            (ivs, open)
        }
    }
}

/// The intervals of one asset, in the order they start.
pub open spec fn holding_intervals(h: AssetHolding, start: int, end: int) -> Seq<NavValuationInterval> {
    let (ivs, open) = scan_holding(h.asset_id, h.transitions@, h.transitions@.len(), start, end, h.open_at_start);
    match open {
        Some(s) => ivs.push(NavValuationInterval { asset_id: h.asset_id, start: s as i32, end: end as i32 }),
        None => ivs,
    }
}

/// The intervals of all assets that count for performance, asset by asset.
pub open spec fn all_intervals(hs: Seq<AssetHolding>, start: int, end: int) -> Seq<NavValuationInterval>
    decreases hs.len(),
{
    if hs.len() == 0 {
        Seq::empty()
    } else {
        let h = hs.last();
        all_intervals(hs.drop_last(), start, end) + if h.counts_for_performance {
            holding_intervals(h, start, end)
        } else {
            Seq::empty()
        }
    }
}

/// Some transition of an asset that counts for performance has an
/// unreadable date.
pub open spec fn has_unreadable_date(hs: Seq<AssetHolding>) -> bool {
    exists|i: int, k: int|
        0 <= i < hs.len() && (#[trigger] hs[i]).counts_for_performance && 0 <= k < hs[i].transitions@.len()
            && iso_day((#[trigger] hs[i].transitions@[k]).date@) is None
}

proof fn lemma_scan_within(asset_id: i32, ts: Seq<HoldingTransition>, k: nat, start: int, end: int, open_at_start: bool)
    requires
        start <= end,
        valid_day(start),
        valid_day(end),
    ensures
        ({
            let (ivs, open) = scan_holding(asset_id, ts, k, start, end, open_at_start);
            &&& forall|m: int| 0 <= m < ivs.len() ==> start <= (#[trigger] ivs[m]).start <= ivs[m].end <= end
                && ivs[m].asset_id == asset_id
            &&& open is Some ==> start <= open->Some_0 <= end
        }),
    decreases k,
{
    if k > 0 {
        lemma_scan_within(asset_id, ts, (k - 1) as nat, start, end, open_at_start);
        let (ivs, open) = scan_holding(asset_id, ts, (k - 1) as nat, start, end, open_at_start);
        let (ivs2, open2) = scan_holding(asset_id, ts, k, start, end, open_at_start);
        assert forall|m: int| 0 <= m < ivs2.len() implies start <= (#[trigger] ivs2[m]).start <= ivs2[m].end <= end
            && ivs2[m].asset_id == asset_id by {
            if m < ivs.len() {
                assert(ivs2[m] == ivs[m]);
            }
        }
    }
}

/// Every valuation interval of an asset is a non-empty run of days within
/// the rebuilt range.
pub proof fn lemma_holding_intervals_within_range(h: AssetHolding, start: int, end: int)
    requires
        start <= end,
        valid_day(start),
        valid_day(end),
    ensures
        forall|m: int| 0 <= m < holding_intervals(h, start, end).len() ==> {
            let iv = #[trigger] holding_intervals(h, start, end)[m];
            start <= iv.start <= iv.end <= end && iv.asset_id == h.asset_id
        },
{
    lemma_scan_within(h.asset_id, h.transitions@, h.transitions@.len(), start, end, h.open_at_start);
    let (ivs, open) = scan_holding(h.asset_id, h.transitions@, h.transitions@.len(), start, end, h.open_at_start);
    let all = holding_intervals(h, start, end);
    assert forall|m: int| 0 <= m < all.len() implies {
        let iv = #[trigger] all[m];
        start <= iv.start <= iv.end <= end && iv.asset_id == h.asset_id
    } by {
        if m < ivs.len() {
            assert(all[m] == ivs[m]);
        }
    }
}

// ---------------------------------------------------------------------------
// Order
// ---------------------------------------------------------------------------

/// Every transition date can be read, and the dates never go back.
pub open spec fn transitions_in_date_order(ts: Seq<HoldingTransition>) -> bool {
    &&& forall|k: int| 0 <= k < ts.len() ==> iso_day((#[trigger] ts[k]).date@) is Some
    &&& forall|a: int, b: int| 0 <= a < b < ts.len() ==> iso_day((#[trigger] ts[a]).date@)->Some_0 <= iso_day(
        (#[trigger] ts[b]).date@,
    )->Some_0
}

proof fn lemma_scan_ordered(asset_id: i32, ts: Seq<HoldingTransition>, k: nat, start: int, end: int, open_at_start: bool)
    requires
        k <= ts.len(),
        transitions_in_date_order(ts),
        start <= end,
        valid_day(start),
        valid_day(end),
    ensures
        ({
            let (ivs, open) = scan_holding(asset_id, ts, k, start, end, open_at_start);
            &&& forall|m: int, n: int| 0 <= m < n < ivs.len() ==> (#[trigger] ivs[m]).end < (#[trigger] ivs[n]).start
            &&& forall|m: int, j: int| 0 <= m < ivs.len() && k <= j < ts.len() ==> (#[trigger] ivs[m]).end < iso_day(
                (#[trigger] ts[j]).date@,
            )->Some_0
            &&& open is Some ==> forall|m: int| 0 <= m < ivs.len() ==> (#[trigger] ivs[m]).end < open->Some_0
        }),
    decreases k,
{
    if k > 0 {
        lemma_scan_ordered(asset_id, ts, (k - 1) as nat, start, end, open_at_start);
        lemma_scan_within(asset_id, ts, (k - 1) as nat, start, end, open_at_start);
        let (ivs, open) = scan_holding(asset_id, ts, (k - 1) as nat, start, end, open_at_start);
        let (ivs2, open2) = scan_holding(asset_id, ts, k, start, end, open_at_start);
        let t = ts[k - 1];
        let d = iso_day(t.date@)->Some_0;
        assert(iso_day(ts[k - 1].date@) is Some);
        assert forall|j: int| k <= j < ts.len() implies d <= iso_day((#[trigger] ts[j]).date@)->Some_0 by {
            assert(iso_day(ts[k - 1].date@)->Some_0 <= iso_day(ts[j].date@)->Some_0);
        }
        assert forall|m: int| 0 <= m < ivs.len() implies (#[trigger] ivs[m]).end < d by {
            assert(ivs[m].end < iso_day(ts[k - 1].date@)->Some_0);
        }
        if ivs2.len() > ivs.len() {
            assert forall|m: int, n: int| 0 <= m < n < ivs2.len() implies (#[trigger] ivs2[m]).end < (#[trigger] ivs2[n]).start by {
                if n < ivs.len() {
                    assert(ivs2[m] == ivs[m] && ivs2[n] == ivs[n]);
                } else {
                    assert(ivs2[m] == ivs[m]);
                }
            }
            assert forall|m: int, j: int| 0 <= m < ivs2.len() && k <= j < ts.len() implies (#[trigger] ivs2[m]).end < iso_day(
                (#[trigger] ts[j]).date@,
            )->Some_0 by {
                assert(d <= iso_day(ts[j].date@)->Some_0);
                if m < ivs.len() {
                    assert(ivs2[m] == ivs[m]);
                }
            }
        } else {
            assert(ivs2 == ivs);
        }
    }
}

/// Whether the position is open after the first `k` transitions: the last
/// of them dated within `start ..= end` says so by its `open_after`; with
/// none, the position is as it was at the start.
pub open spec fn held_after(ts: Seq<HoldingTransition>, k: int, start: int, end: int, open_at_start: bool) -> bool
    decreases k,
{
    if k <= 0 {
        open_at_start
    } else {
        let d = iso_day(ts[k - 1].date@)->Some_0;
        if start <= d <= end {
            ts[k - 1].open_after
        } else {
            held_after(ts, k - 1, start, end, open_at_start)
        }
    }
}

/// The transitions describe one position: each one dated within the range
/// starts from the state the earlier ones left (`open_before`).
pub open spec fn flags_consistent(ts: Seq<HoldingTransition>, start: int, end: int, open_at_start: bool) -> bool {
    forall|x: int| 0 <= x < ts.len() && start <= iso_day((#[trigger] ts[x]).date@)->Some_0 <= end ==> ts[x].open_before
        == held_after(ts, x, start, end, open_at_start)
}

/// Day `d` comes after the first `k` transitions and before the others.
pub open spec fn splits_at(ts: Seq<HoldingTransition>, d: int, k: int) -> bool {
    &&& 0 <= k <= ts.len()
    &&& forall|x: int| 0 <= x < k ==> iso_day((#[trigger] ts[x]).date@)->Some_0 <= d
    &&& forall|x: int| k <= x < ts.len() ==> iso_day((#[trigger] ts[x]).date@)->Some_0 > d
}

/// Some interval holds day `d`.
pub open spec fn covers(ivs: Seq<NavValuationInterval>, d: int) -> bool {
    exists|m: int| 0 <= m < ivs.len() && (#[trigger] ivs[m]).start <= d <= ivs[m].end
}

spec fn scan_covers(ivs: Seq<NavValuationInterval>, open: Option<int>, d: int) -> bool {
    covers(ivs, d) || (open matches Some(s) && s <= d)
}

proof fn lemma_scan_state(asset_id: i32, ts: Seq<HoldingTransition>, k: int, start: int, end: int, open_at_start: bool)
    requires
        0 <= k <= ts.len(),
        transitions_in_date_order(ts),
        flags_consistent(ts, start, end, open_at_start),
        start <= end,
        valid_day(start),
        valid_day(end),
    ensures
        ({
            let (ivs, open) = scan_holding(asset_id, ts, k as nat, start, end, open_at_start);
            &&& (open is Some <==> held_after(ts, k, start, end, open_at_start))
            &&& open matches Some(s) ==> start <= s && (s == start || exists|x: int| 0 <= x < k && iso_day(
                (#[trigger] ts[x]).date@,
            )->Some_0 == s)
            &&& forall|m: int| 0 <= m < ivs.len() ==> exists|x: int| 0 <= x < k && (#[trigger] ivs[m]).end < iso_day(
                (#[trigger] ts[x]).date@,
            )->Some_0
        }),
    decreases k,
{
    if k > 0 {
        lemma_scan_state(asset_id, ts, k - 1, start, end, open_at_start);
        lemma_scan_within(asset_id, ts, (k - 1) as nat, start, end, open_at_start);
        let (ivs, open) = scan_holding(asset_id, ts, (k - 1) as nat, start, end, open_at_start);
        let (ivs2, open2) = scan_holding(asset_id, ts, k as nat, start, end, open_at_start);
        let t = ts[k - 1];
        let d = iso_day(t.date@)->Some_0;
        assert(iso_day(ts[k - 1].date@) is Some);
        if start <= d <= end {
            assert(t.open_before == held_after(ts, k - 1, start, end, open_at_start));
        }
        if let Some(s) = open2 {
            if s != start && s != d {
                let x = choose|x: int| 0 <= x < k - 1 && iso_day((#[trigger] ts[x]).date@)->Some_0 == s;
                assert(0 <= x < k);
            } else if s != start {
                assert(iso_day(ts[k - 1].date@)->Some_0 == s);
            }
        }
        assert forall|m: int| 0 <= m < ivs2.len() implies exists|x: int| 0 <= x < k && (#[trigger] ivs2[m]).end < iso_day(
            (#[trigger] ts[x]).date@,
        )->Some_0 by {
            if m < ivs.len() {
                assert(ivs2[m] == ivs[m]);
                let x = choose|x: int| 0 <= x < k - 1 && (#[trigger] ivs[m]).end < iso_day((#[trigger] ts[x]).date@)->Some_0;
                assert(0 <= x < k);
            } else {
                assert(ivs2[m].end < iso_day(ts[k - 1].date@)->Some_0);
            }
        }
    }
}

proof fn lemma_scan_covers(asset_id: i32, ts: Seq<HoldingTransition>, k: int, start: int, end: int, open_at_start: bool)
    requires
        0 <= k <= ts.len(),
        transitions_in_date_order(ts),
        flags_consistent(ts, start, end, open_at_start),
        start <= end,
        valid_day(start),
        valid_day(end),
    ensures
        ({
            let (ivs, open) = scan_holding(asset_id, ts, k as nat, start, end, open_at_start);
            forall|d: int, j: int| start <= d <= end && #[trigger] splits_at(ts, d, j) ==> (scan_covers(ivs, open, d)
                <==> held_after(ts, if j < k { j } else { k }, start, end, open_at_start))
        }),
    decreases k,
{
    lemma_scan_state(asset_id, ts, k, start, end, open_at_start);
    lemma_scan_within(asset_id, ts, k as nat, start, end, open_at_start);
    let (ivs2, open2) = scan_holding(asset_id, ts, k as nat, start, end, open_at_start);
    // Days after every transition so far: only the open interval can hold them.
    assert forall|d: int, j: int| start <= d <= end && #[trigger] splits_at(ts, d, j) && j >= k implies (scan_covers(
        ivs2,
        open2,
        d,
    ) <==> held_after(ts, k, start, end, open_at_start)) by {
        if covers(ivs2, d) {
            let m = choose|m: int| 0 <= m < ivs2.len() && (#[trigger] ivs2[m]).start <= d <= ivs2[m].end;
            let x = choose|x: int| 0 <= x < k && (#[trigger] ivs2[m]).end < iso_day((#[trigger] ts[x]).date@)->Some_0;
            assert(iso_day(ts[x].date@)->Some_0 <= d);
        }
        if let Some(s) = open2 {
            if s != start {
                let x = choose|x: int| 0 <= x < k && iso_day((#[trigger] ts[x]).date@)->Some_0 == s;
                assert(iso_day(ts[x].date@)->Some_0 <= d);
            }
        }
    }
    if k > 0 {
        lemma_scan_covers(asset_id, ts, k - 1, start, end, open_at_start);
        lemma_scan_state(asset_id, ts, k - 1, start, end, open_at_start);
        lemma_scan_within(asset_id, ts, (k - 1) as nat, start, end, open_at_start);
        let (ivs, open) = scan_holding(asset_id, ts, (k - 1) as nat, start, end, open_at_start);
        let t = ts[k - 1];
        let dd = iso_day(t.date@)->Some_0;
        assert(iso_day(ts[k - 1].date@) is Some);
        if start <= dd <= end {
            assert(t.open_before == held_after(ts, k - 1, start, end, open_at_start));
        }
        // Days before this transition are held exactly as before it.
        assert forall|d: int, j: int| start <= d <= end && #[trigger] splits_at(ts, d, j) && j < k implies (scan_covers(
            ivs2,
            open2,
            d,
        ) <==> scan_covers(ivs, open, d)) by {
            assert(iso_day(ts[k - 1].date@)->Some_0 > d);
            if ivs2.len() > ivs.len() {
                let last = ivs2[ivs.len() as int];
                if covers(ivs2, d) {
                    let m = choose|m: int| 0 <= m < ivs2.len() && (#[trigger] ivs2[m]).start <= d <= ivs2[m].end;
                    if m < ivs.len() {
                        assert(ivs2[m] == ivs[m]);
                    }
                }
                if covers(ivs, d) {
                    let m = choose|m: int| 0 <= m < ivs.len() && (#[trigger] ivs[m]).start <= d <= ivs[m].end;
                    assert(ivs2[m] == ivs[m]);
                }
                if open matches Some(s) && s <= d {
                    assert(ivs2[ivs.len() as int].start <= d <= ivs2[ivs.len() as int].end);
                }
            } else {
                assert(ivs2 == ivs);
            }
        }
    }
}

/// The valuation intervals of an asset whose transitions are in date order
/// and describe one position hold exactly the days on which the position is
/// open: day `d`, coming after the first `k` transitions, is valued when
/// those transitions leave the position open.
pub proof fn lemma_holding_intervals_cover_open_days(h: AssetHolding, start: int, end: int, d: int, k: int)
    requires
        transitions_in_date_order(h.transitions@),
        flags_consistent(h.transitions@, start, end, h.open_at_start),
        start <= end,
        valid_day(start),
        valid_day(end),
        start <= d <= end,
        splits_at(h.transitions@, d, k),
    ensures
        covers(holding_intervals(h, start, end), d) <==> held_after(h.transitions@, k, start, end, h.open_at_start),
{
    let ts = h.transitions@;
    lemma_scan_covers(h.asset_id, ts, ts.len() as int, start, end, h.open_at_start);
    lemma_scan_within(h.asset_id, ts, ts.len(), start, end, h.open_at_start);
    let (ivs, open) = scan_holding(h.asset_id, ts, ts.len(), start, end, h.open_at_start);
    let all = holding_intervals(h, start, end);
    assert(scan_covers(ivs, open, d) <==> held_after(ts, k, start, end, h.open_at_start));
    if covers(all, d) {
        let m = choose|m: int| 0 <= m < all.len() && (#[trigger] all[m]).start <= d <= all[m].end;
        if m < ivs.len() {
            assert(all[m] == ivs[m]);
        }
    }
    if covers(ivs, d) {
        let m = choose|m: int| 0 <= m < ivs.len() && (#[trigger] ivs[m]).start <= d <= ivs[m].end;
        assert(all[m] == ivs[m]);
    }
    if open matches Some(s) && s <= d {
        assert(all[ivs.len() as int].start <= d <= all[ivs.len() as int].end);
    }
}

/// With its transitions in date order, an asset's valuation intervals are
/// disjoint and in order: each ends before the next one starts.
pub proof fn lemma_holding_intervals_disjoint(h: AssetHolding, start: int, end: int)
    requires
        transitions_in_date_order(h.transitions@),
        start <= end,
        valid_day(start),
        valid_day(end),
    ensures
        forall|m: int, n: int| 0 <= m < n < holding_intervals(h, start, end).len() ==> (#[trigger] holding_intervals(
            h,
            start,
            end,
        )[m]).end < (#[trigger] holding_intervals(h, start, end)[n]).start,
{
    lemma_scan_ordered(h.asset_id, h.transitions@, h.transitions@.len(), start, end, h.open_at_start);
    lemma_scan_within(h.asset_id, h.transitions@, h.transitions@.len(), start, end, h.open_at_start);
    let (ivs, open) = scan_holding(h.asset_id, h.transitions@, h.transitions@.len(), start, end, h.open_at_start);
    let all = holding_intervals(h, start, end);
    assert forall|m: int, n: int| 0 <= m < n < all.len() implies (#[trigger] all[m]).end < (#[trigger] all[n]).start by {
        if n < ivs.len() {
            assert(all[m] == ivs[m] && all[n] == ivs[n]);
        } else {
            assert(all[m] == ivs[m]);
        }
    }
}

/// `a` does not come after `b`: by first day, then by asset.
pub open spec fn interval_le(a: NavValuationInterval, b: NavValuationInterval) -> bool {
    a.start < b.start || (a.start == b.start && a.asset_id <= b.asset_id)
}

/// Inserts an interval behind every interval that does not come after it.
pub open spec fn insert_interval(s: Seq<NavValuationInterval>, x: NavValuationInterval) -> Seq<NavValuationInterval>
    decreases s.len(),
{
    if s.len() == 0 {
        seq![x]
    } else if !interval_le(s.last(), x) {
        insert_interval(s.drop_last(), x).push(s.last())
    } else {
        s.push(x)
    }
}

/// A stable sort of intervals by first day and asset.
pub open spec fn sort_intervals(s: Seq<NavValuationInterval>) -> Seq<NavValuationInterval>
    decreases s.len(),
{
    if s.len() == 0 {
        Seq::empty()
    } else {
        insert_interval(sort_intervals(s.drop_last()), s.last())
    }
}

pub open spec fn intervals_sorted(s: Seq<NavValuationInterval>) -> bool {
    forall|a: int, b: int| 0 <= a < b < s.len() ==> interval_le(#[trigger] s[a], #[trigger] s[b])
}

proof fn lemma_insert_interval(s: Seq<NavValuationInterval>, x: NavValuationInterval)
    requires
        intervals_sorted(s),
    ensures
        intervals_sorted(insert_interval(s, x)),
        insert_interval(s, x).to_multiset() =~= s.to_multiset().insert(x),
    decreases s.len(),
{
    if s.len() == 0 {
        assert(seq![x] =~= Seq::<NavValuationInterval>::empty().push(x));
    } else if !interval_le(s.last(), x) {
        let p = s.drop_last();
        let t = insert_interval(p, x);
        assert(intervals_sorted(p)) by {
            assert forall|a: int, b: int| 0 <= a < b < p.len() implies interval_le(#[trigger] p[a], #[trigger] p[b]) by {
                assert(p[a] == s[a] && p[b] == s[b]);
            }
        }
        lemma_insert_interval(p, x);
        assert(s =~= p.push(s.last()));
        let r = t.push(s.last());
        assert forall|a: int, b: int| 0 <= a < b < r.len() implies interval_le(#[trigger] r[a], #[trigger] r[b]) by {
            if b == r.len() - 1 {
                let y = t[a];
                assert(t.contains(y));
                assert(t.to_multiset().count(y) > 0);
                if y != x {
                    assert(p.to_multiset().count(y) > 0);
                    assert(p.contains(y));
                    let k = choose|k: int| 0 <= k < p.len() && p[k] == y;
                    assert(s[k] == y);
                    assert(interval_le(s[k], s[s.len() - 1]));
                }
            } else {
                assert(r[a] == t[a] && r[b] == t[b]);
            }
        }
    } else {
        let r = s.push(x);
        assert forall|a: int, b: int| 0 <= a < b < r.len() implies interval_le(#[trigger] r[a], #[trigger] r[b]) by {
            if b == r.len() - 1 {
                if a < s.len() - 1 {
                    assert(interval_le(s[a], s[s.len() - 1]));
                }
            } else {
                assert(r[a] == s[a] && r[b] == s[b]);
            }
        }
    }
}

/// The sort orders intervals by first day and asset and keeps exactly the
/// given intervals.
pub proof fn lemma_sort_intervals(s: Seq<NavValuationInterval>)
    ensures
        intervals_sorted(sort_intervals(s)),
        sort_intervals(s).to_multiset() =~= s.to_multiset(),
        sort_intervals(s).len() == s.len(),
    decreases s.len(),
{
    if s.len() > 0 {
        lemma_sort_intervals(s.drop_last());
        lemma_insert_interval(sort_intervals(s.drop_last()), s.last());
        assert(s =~= s.drop_last().push(s.last()));
    }
    assert(sort_intervals(s).to_multiset().len() == sort_intervals(s).len());
    assert(s.to_multiset().len() == s.len());
}

proof fn lemma_insert_interval_at(s: Seq<NavValuationInterval>, x: NavValuationInterval, j: int)
    requires
        0 <= j <= s.len(),
        forall|m: int| j <= m < s.len() ==> !interval_le(#[trigger] s[m], x),
        j > 0 ==> interval_le(s[j - 1], x),
    ensures
        insert_interval(s, x) == s.take(j).push(x) + s.skip(j),
    decreases s.len(),
{
    if s.len() == 0 {
        assert(s.take(j).push(x) + s.skip(j) =~= seq![x]);
    } else if j == s.len() {
        assert(s.take(j).push(x) + s.skip(j) =~= s.push(x));
    } else {
        let p = s.drop_last();
        assert forall|m: int| j <= m < p.len() implies !interval_le(#[trigger] p[m], x) by {
            assert(p[m] == s[m]);
        }
        if j > 0 {
            assert(p[j - 1] == s[j - 1]);
        }
        assert(!interval_le(s[s.len() - 1], x));
        lemma_insert_interval_at(p, x, j);
        assert(p.take(j).push(x) + p.skip(j) + seq![s.last()] =~= s.take(j).push(x) + s.skip(j));
        assert(insert_interval(p, x).push(s.last()) =~= insert_interval(p, x) + seq![s.last()]);
    }
}

// ---------------------------------------------------------------------------
// Derivation
// ---------------------------------------------------------------------------

fn is_before(a: &NavValuationInterval, b: &NavValuationInterval) -> (r: bool)
    ensures
        r == interval_le(*a, *b),
{
    a.start < b.start || (a.start == b.start && a.asset_id <= b.asset_id)
}

/// The intervals of one asset within `start ..= end`, or `None` when a
/// transition date cannot be read.
fn asset_intervals(h: &AssetHolding, start: i32, end: i32) -> (r: Option<Vec<NavValuationInterval>>)
    requires
        valid_day(start as int),
        valid_day(end as int),
    ensures
        r is None <==> exists|k: int| 0 <= k < h.transitions@.len() && iso_day((#[trigger] h.transitions@[k]).date@) is None,
        r is Some ==> r->Some_0@ == holding_intervals(*h, start as int, end as int),
{
    let ts = &h.transitions;
    let mut intervals: Vec<NavValuationInterval> = Vec::new();
    let mut open: Option<i32> = if h.open_at_start { Some(start) } else { None };
    let mut k: usize = 0;
    while k < ts.len()
        invariant
            valid_day(start as int),
            valid_day(end as int),
            ts@ == h.transitions@,
            k <= ts@.len(),
            forall|m: int| 0 <= m < k ==> iso_day((#[trigger] ts@[m]).date@) is Some,
            (intervals@, match open { Some(s) => Some(s as int), None => None })
                == scan_holding(h.asset_id, ts@, k as nat, start as int, end as int, h.open_at_start),
            open is Some ==> valid_day(open->Some_0 as int),
        decreases ts@.len() - k,
    {
        let t = &ts[k];
        let d = match parse_iso_day(t.date.as_str()) {
            Some(d) => d,
            None => {
                assert(iso_day(h.transitions@[k as int].date@) is None);
                return None;
            },
        };
        if d < start || d > end {
        } else if t.open_before && !t.open_after {
            match open {
                Some(s) => {
                    if s <= d - 1 {
                        intervals.push(NavValuationInterval { asset_id: h.asset_id, start: s, end: d - 1 });
                    }
                },
                None => {},
            }
            open = None;
        } else if !t.open_before && t.open_after {
            open = Some(d);
        }
        k = k + 1;
    }
    match open {
        Some(s) => intervals.push(NavValuationInterval { asset_id: h.asset_id, start: s, end }),
        None => {},
    }
    Some(intervals)
}

/// The valuation intervals of a NAV rebuild over `start_date ..= end_date`:
/// for each asset that counts for performance, the maximal runs of days on
/// which its position is open, sorted by first day and then by asset.
pub fn derive_holding_intervals(start_date: i32, end_date: i32, holdings: &[AssetHolding]) -> (r: Result<Vec<NavValuationInterval>, String>)
    requires
        valid_day(start_date as int),
        valid_day(end_date as int),
    ensures
        r is Err <==> has_unreadable_date(holdings@),
        r is Err ==> r->Err_0@ == "invalid transaction date"@,
        r is Ok ==> r->Ok_0@ == sort_intervals(all_intervals(holdings@, start_date as int, end_date as int)),
{
    let mut all: Vec<NavValuationInterval> = Vec::new();
    let mut i: usize = 0;
    while i < holdings.len()
        invariant
            valid_day(start_date as int),
            valid_day(end_date as int),
            i <= holdings@.len(),
            !has_unreadable_date(holdings@.take(i as int)),
            all@ == all_intervals(holdings@.take(i as int), start_date as int, end_date as int),
        decreases holdings@.len() - i,
    {
        let h = &holdings[i];
        let ghost prefix = holdings@.take(i as int);
        let ghost next = holdings@.take(i + 1);
        assert(next.drop_last() =~= prefix);
        assert(next.last() == *h);
        if h.counts_for_performance {
            match asset_intervals(h, start_date, end_date) {
                Some(ivs) => {
                    let ghost before = all@;
                    let mut m: usize = 0;
                    while m < ivs.len()
                        invariant
                            m <= ivs@.len(),
                            all@ == before + ivs@.take(m as int),
                        decreases ivs@.len() - m,
                    {
                        all.push(ivs[m]);
                        m = m + 1;
                        assert(all@ =~= before + ivs@.take(m as int));
                    }
                    assert(ivs@.take(ivs@.len() as int) =~= ivs@);
                    proof {
                        assert forall|a: int, k: int|
                            0 <= a < next.len() && (#[trigger] next[a]).counts_for_performance && 0 <= k < next[a].transitions@.len()
                            implies iso_day((#[trigger] next[a].transitions@[k]).date@) is Some by {
                            if a < i {
                                assert(next[a] == prefix[a]);
                            }
                        }
                    }
                },
                None => {
                    proof {
                        let k = choose|k: int| 0 <= k < h.transitions@.len() && iso_day((#[trigger] h.transitions@[k]).date@) is None;
                        assert(holdings@[i as int] == *h);
                        assert(has_unreadable_date(holdings@)) by {
                            assert(0 <= i < holdings@.len() && holdings@[i as int].counts_for_performance);
                            assert(iso_day(holdings@[i as int].transitions@[k].date@) is None);
                        }
                    }
                    return Err(String::from_str("invalid transaction date"));
                },
            }
        } else {
            proof {
                assert(all@ =~= all_intervals(prefix, start_date as int, end_date as int) + Seq::<NavValuationInterval>::empty());
                assert forall|a: int, k: int|
                    0 <= a < next.len() && (#[trigger] next[a]).counts_for_performance && 0 <= k < next[a].transitions@.len()
                    implies iso_day((#[trigger] next[a].transitions@[k]).date@) is Some by {
                    if a < i {
                        assert(next[a] == prefix[a]);
                    }
                }
            }
        }
        i = i + 1;
    }
    assert(holdings@.take(holdings@.len() as int) =~= holdings@);
    let mut sorted: Vec<NavValuationInterval> = Vec::new();
    let mut n: usize = 0;
    while n < all.len()
        invariant
            n <= all@.len(),
            sorted@ == sort_intervals(all@.take(n as int)),
        decreases all@.len() - n,
    {
        let x = all[n];
        let mut j: usize = sorted.len();
        while j > 0 && !is_before(&sorted[j - 1], &x)
            invariant
                j <= sorted@.len(),
                forall|m: int| j <= m < sorted@.len() ==> !interval_le(#[trigger] sorted@[m], x),
            decreases j,
        {
            j = j - 1;
        }
        proof {
            lemma_insert_interval_at(sorted@, x, j as int);
            assert(all@.take(n + 1).drop_last() =~= all@.take(n as int));
            assert(all@.take(n + 1).last() == x);
        }
        let ghost before = sorted@;
        sorted.insert(j, x);
        assert(sorted@ =~= before.take(j as int).push(x) + before.skip(j as int));
        n = n + 1;
    }
    assert(all@.take(all@.len() as int) =~= all@);
    Ok(sorted)
}

// ---------------------------------------------------------------------------
// Rebuild window
// ---------------------------------------------------------------------------

/// What bringing portfolio history up to date amounts to.
#[derive(Clone, Copy, Debug, PartialEq, Eq, Structural)]
pub enum RebuildPlan {
    /// History already reaches the last completed day (or nothing is due).
    UpToDate,
    /// There is no history and no transaction to build one from.
    NoHistory,
    /// Snapshots are built for the days `start ..= end`.
    Rebuild { start: i32, end: i32 },
}

/// The plan of resuming from a snapshot dated `checkpoint_date` on a run
/// whose date is `today`: up to date when the snapshot is from yesterday or
/// later (by text); otherwise the day after the snapshot through yesterday.
pub open spec fn checkpoint_plan_is(r: Result<RebuildPlan, String>, checkpoint_date: Seq<char>, today: int) -> bool {
    if text_order(checkpoint_date, iso_text(today - 1)) >= 0 {
        r == Ok::<RebuildPlan, String>(RebuildPlan::UpToDate)
    } else {
        match iso_day(checkpoint_date) {
            None => r is Err && r->Err_0@ == "invalid latest snapshot date"@,
            Some(d) => if d + 1 > today - 1 {
                r == Ok::<RebuildPlan, String>(RebuildPlan::UpToDate)
            } else {
                r == Ok::<RebuildPlan, String>(RebuildPlan::Rebuild { start: (d + 1) as i32, end: (today - 1) as i32 })
            },
        }
    }
}

/// Resuming from the latest stored snapshot, dated `checkpoint_date`, on a
/// run whose date is `today`: history is up to date when the snapshot is
/// from yesterday or later; otherwise it is rebuilt from the day after the
/// snapshot through yesterday.
pub fn plan_from_checkpoint(checkpoint_date: &str, today: i32) -> (r: Result<RebuildPlan, String>)
    requires
        MIN_DAY < today <= MAX_DAY,
        iso_day(checkpoint_date@) != Some(MAX_DAY as int),
    ensures
        checkpoint_plan_is(r, checkpoint_date@, today as int),
        r matches Ok(RebuildPlan::Rebuild { start, end }) ==> MIN_DAY <= start <= end < today,
{
    let yesterday = today - 1;
    let yesterday_text = format_iso_day(yesterday);
    if compare_text(checkpoint_date, yesterday_text.as_str()) >= 0 {
        return Ok(RebuildPlan::UpToDate);
    }
    let day = match parse_iso_day(checkpoint_date) {
        Some(d) => d,
        None => return Err(String::from_str("invalid latest snapshot date")),
    };
    let start = day + 1;
    if start > yesterday {
        Ok(RebuildPlan::UpToDate)
    } else {
        Ok(RebuildPlan::Rebuild { start, end: yesterday })
    }
}

/// Resuming from the latest stored snapshot when its date can be read as
/// any day: `None` for a snapshot dated on the last day chrono can
/// represent, which has no next day to resume from; otherwise the plan of
/// `plan_from_checkpoint`.
pub fn plan_from_latest_snapshot(checkpoint_date: &str, today: i32) -> (r: Option<Result<RebuildPlan, String>>)
    requires
        MIN_DAY < today <= MAX_DAY,
    ensures
        r is None <==> iso_day(checkpoint_date@) == Some(MAX_DAY as int),
        r is Some ==> checkpoint_plan_is(r->Some_0, checkpoint_date@, today as int),
{
    match parse_iso_day(checkpoint_date) {
        Some(d) => if d == MAX_DAY {
            return None;
        },
        None => {},
    }
    Some(plan_from_checkpoint(checkpoint_date, today))
}

/// Building history from scratch, starting at the first transaction dated
/// through yesterday (`first_date`, absent when there is none).
pub fn plan_from_first_transaction(first_date: Option<&str>, today: i32) -> (r: Result<RebuildPlan, String>)
    requires
        MIN_DAY < today <= MAX_DAY,
    ensures
        first_date is None ==> r == Ok::<RebuildPlan, String>(RebuildPlan::NoHistory),
        first_date is Some ==> match iso_day(first_date->Some_0@) {
            None => r is Err && r->Err_0@ == "invalid first transaction date"@,
            Some(d) => if d > today - 1 {
                r == Ok::<RebuildPlan, String>(RebuildPlan::NoHistory)
            } else {
                r == Ok::<RebuildPlan, String>(RebuildPlan::Rebuild { start: d as i32, end: (today - 1) as i32 })
            },
        },
        r matches Ok(RebuildPlan::Rebuild { start, end }) ==> MIN_DAY <= start <= end < today,
{
    let first = match first_date {
        Some(f) => f,
        None => return Ok(RebuildPlan::NoHistory),
    };
    let start = match parse_iso_day(first) {
        Some(d) => d,
        None => return Err(String::from_str("invalid first transaction date")),
    };
    if start > today - 1 {
        Ok(RebuildPlan::NoHistory)
    } else {
        Ok(RebuildPlan::Rebuild { start, end: today - 1 })
    }
}

/// A rebuild never reaches the run's own day: snapshots are only built for
/// completed days.
pub proof fn lemma_rebuild_ends_before_today(checkpoint_date: Seq<char>, today: int, start: int, end: int)
    requires
        MIN_DAY < today <= MAX_DAY,
        text_order(checkpoint_date, iso_text(today - 1)) < 0,
        iso_day(checkpoint_date) is Some,
        start == iso_day(checkpoint_date)->Some_0 + 1,
        start <= today - 1,
        end == today - 1,
    ensures
        start <= end < today,
{
}

// ---------------------------------------------------------------------------
// Exchange rates a rebuild needs
// ---------------------------------------------------------------------------

/// A transition of an asset's ledger as the exchange-rate planning sees it:
/// its date and whether it is a split (which moves no money).
#[derive(Clone, Debug)]
pub struct CashFlowDate {
    pub date: String,
    pub is_split: bool,
}

/// An asset of a rebuild with the transitions of its ledger.
#[derive(Clone, Debug)]
pub struct AssetCashFlows {
    pub asset_id: i32,
    pub currency: String,
    pub counts_for_performance: bool,
    pub transitions: Vec<CashFlowDate>,
}

/// The currencies and the first day a rebuild needs exchange rates for.
#[derive(Clone, Debug)]
pub struct FxRequirements {
    pub currencies: Vec<String>,
    pub start: Option<i32>,
}

/// Some transition of the asset moves money within `start ..= end` (by
/// the text of the storage dates).
pub open spec fn has_cash_flow_within(a: AssetCashFlows, start: Seq<char>, end: Seq<char>) -> bool {
    exists|k: int|
        0 <= k < a.transitions@.len() && text_order(start, (#[trigger] a.transitions@[k]).date@) <= 0
            && text_order(a.transitions@[k].date@, end) <= 0 && !a.transitions@[k].is_split
}

pub open spec fn has_interval_for(intervals: Seq<NavValuationInterval>, asset_id: i32) -> bool {
    exists|k: int| 0 <= k < intervals.len() && (#[trigger] intervals[k]).asset_id == asset_id
}

/// The asset is one whose prices must be converted over the rebuild: it
/// counts for performance, is not quoted in the base currency, and is
/// valued or moves money during the rebuild.
pub open spec fn asset_needs_rates(a: AssetCashFlows, intervals: Seq<NavValuationInterval>, start: int, end: int) -> bool {
    a.counts_for_performance && a.currency@ != BASE_CURRENCY@ && (has_interval_for(intervals, a.asset_id)
        || has_cash_flow_within(a, iso_text(start), iso_text(end)))
}

/// Currency `c` needs rates: it is the currency of one of the first `n`
/// assets that needs rates.
pub open spec fn needs_rates(assets: Seq<AssetCashFlows>, n: int, intervals: Seq<NavValuationInterval>, start: int, end: int, c: Seq<char>) -> bool {
    exists|i: int| 0 <= i < n && asset_needs_rates(#[trigger] assets[i], intervals, start, end) && assets[i].currency@ == c
}

/// Transition `k` of asset `i` counts towards the first day that needs
/// rates: the asset counts for performance and the transition is dated on
/// or after the start (by text).
pub open spec fn counted_flow(assets: Seq<AssetCashFlows>, i: int, k: int, start_text: Seq<char>) -> bool {
    0 <= i < assets.len() && assets[i].counts_for_performance && 0 <= k < assets[i].transitions@.len()
        && text_order(start_text, assets[i].transitions@[k].date@) <= 0
}

pub open spec fn flow_date(assets: Seq<AssetCashFlows>, i: int, k: int) -> Option<int> {
    iso_day(assets[i].transitions@[k].date@)
}

pub open spec fn has_interval_starting(intervals: Seq<NavValuationInterval>, d: int) -> bool {
    exists|k: int| 0 <= k < intervals.len() && (#[trigger] intervals[k]).start == d
}

/// Day `d` needs rates: a counted transition falls on it, or a valuation
/// interval starts on it.
pub open spec fn fx_candidate(assets: Seq<AssetCashFlows>, intervals: Seq<NavValuationInterval>, start: int, d: int) -> bool {
    (exists|i: int, k: int| #[trigger] counted_flow(assets, i, k, iso_text(start)) && flow_date(assets, i, k) == Some(d))
        || has_interval_starting(intervals, d)
}

/// Some counted transition cannot be read.
pub open spec fn has_unreadable_flow_date(assets: Seq<AssetCashFlows>, start: int) -> bool {
    exists|i: int, k: int| #[trigger] counted_flow(assets, i, k, iso_text(start)) && flow_date(assets, i, k) is None
}

fn cash_flow_within(a: &AssetCashFlows, start_text: &str, end_text: &str) -> (r: bool)
    ensures
        r == has_cash_flow_within(*a, start_text@, end_text@),
{
    let mut k: usize = 0;
    while k < a.transitions.len()
        invariant
            k <= a.transitions@.len(),
            forall|m: int| 0 <= m < k ==> !(text_order(start_text@, (#[trigger] a.transitions@[m]).date@) <= 0
                && text_order(a.transitions@[m].date@, end_text@) <= 0 && !a.transitions@[m].is_split),
        decreases a.transitions@.len() - k,
    {
        let t = &a.transitions[k];
        if compare_text(start_text, t.date.as_str()) <= 0 && compare_text(t.date.as_str(), end_text) <= 0 && !t.is_split {
            return true;
        }
        k = k + 1;
    }
    false
}

fn interval_for(intervals: &[NavValuationInterval], asset_id: i32) -> (r: bool)
    ensures
        r == has_interval_for(intervals@, asset_id),
{
    let mut k: usize = 0;
    while k < intervals.len()
        invariant
            k <= intervals@.len(),
            forall|m: int| 0 <= m < k ==> (#[trigger] intervals@[m]).asset_id != asset_id,
        decreases intervals@.len() - k,
    {
        if intervals[k].asset_id == asset_id {
            return true;
        }
        k = k + 1;
    }
    false
}

fn earlier(m: Option<i32>, d: i32) -> (r: Option<i32>)
    ensures
        r == Some(match m { Some(x) => if x <= d { x } else { d }, None => d }),
{
    match m {
        Some(x) => if x <= d { Some(x) } else { Some(d) },
        None => Some(d),
    }
}

/// The exchange rates a NAV rebuild over `start ..= end` needs, given the
/// assets with the transitions of their ledgers and the valuation
/// intervals: the currencies, sorted and without repeats, of the assets
/// that need rates, and the first day needing rates (the earliest counted
/// transition or interval start).  Fails when a counted transition date
/// cannot be read.
pub fn nav_fx_requirements(start: i32, end: i32, assets: &[AssetCashFlows], intervals: &[NavValuationInterval]) -> (r: Result<FxRequirements, String>)
    requires
        valid_day(start as int),
        valid_day(end as int),
    ensures
        r is Err <==> has_unreadable_flow_date(assets@, start as int),
        r is Err ==> r->Err_0@ == "invalid transaction date"@,
        r is Ok ==> {
            let req = r->Ok_0;
            &&& strictly_ascending(text_views(req.currencies@))
            &&& forall|c: Seq<char>| text_views(req.currencies@).contains(c)
                <==> needs_rates(assets@, assets@.len() as int, intervals@, start as int, end as int, c)
            &&& match req.start {
                Some(s) => fx_candidate(assets@, intervals@, start as int, s as int)
                    && forall|d: int| fx_candidate(assets@, intervals@, start as int, d) ==> s <= d,
                None => forall|d: int| !fx_candidate(assets@, intervals@, start as int, d),
            }
        },
{
    let start_text = format_iso_day(start);
    let end_text = format_iso_day(end);
    let ghost st = iso_text(start as int);
    let ghost a = assets@;
    let mut currencies: Vec<String> = Vec::new();
    let mut first: Option<i32> = None;
    let mut i: usize = 0;
    while i < assets.len()
        invariant
            start_text@ == st,
            st == iso_text(start as int),
            end_text@ == iso_text(end as int),
            a == assets@,
            i <= a.len(),
            strictly_ascending(text_views(currencies@)),
            forall|c: Seq<char>| text_views(currencies@).contains(c)
                <==> needs_rates(a, i as int, intervals@, start as int, end as int, c),
            forall|x: int, k: int| x < i && #[trigger] counted_flow(a, x, k, st) ==> match flow_date(a, x, k) {
                Some(dd) => first is Some && first->Some_0 <= dd,
                None => false,
            },
            first is Some ==> exists|x: int, k: int| x < i && #[trigger] counted_flow(a, x, k, st)
                && flow_date(a, x, k) == Some(first->Some_0 as int),
        decreases a.len() - i,
    {
        let asset = &assets[i];
        let ghost before = currencies@;
        let ghost first_before = first;
        if asset.counts_for_performance {
            let needs = !text_eq(asset.currency.as_str(), BASE_CURRENCY)
                && (interval_for(intervals, asset.asset_id)
                    || cash_flow_within(asset, start_text.as_str(), end_text.as_str()));
            if needs {
                insert_sorted_unique(&mut currencies, copy_text(asset.currency.as_str()));
            }
            proof {
                assert(needs == asset_needs_rates(a[i as int], intervals@, start as int, end as int));
            }
            let mut k: usize = 0;
            while k < asset.transitions.len()
                invariant
                    start_text@ == st,
                    st == iso_text(start as int),
                    a == assets@,
                    i < a.len(),
                    *asset == a[i as int],
                    asset.counts_for_performance,
                    k <= asset.transitions@.len(),
                    forall|x: int, kk: int| x < i && #[trigger] counted_flow(a, x, kk, st) ==> match flow_date(a, x, kk) {
                        Some(dd) => first is Some && first->Some_0 <= dd,
                        None => false,
                    },
                    forall|kk: int| 0 <= kk < k && #[trigger] counted_flow(a, i as int, kk, st) ==> match flow_date(a, i as int, kk) {
                        Some(dd) => first is Some && first->Some_0 <= dd,
                        None => false,
                    },
                    first is Some ==> exists|x: int, kk: int| x <= i && #[trigger] counted_flow(a, x, kk, st)
                        && flow_date(a, x, kk) == Some(first->Some_0 as int),
                decreases asset.transitions@.len() - k,
            {
                let t = &asset.transitions[k];
                if compare_text(start_text.as_str(), t.date.as_str()) <= 0 {
                    assert(counted_flow(a, i as int, k as int, st));
                    match parse_iso_day(t.date.as_str()) {
                        Some(d) => {
                            first = earlier(first, d);
                            assert(flow_date(a, i as int, k as int) == Some(d as int));
                        },
                        None => {
                            assert(flow_date(a, i as int, k as int) is None);
                            assert(has_unreadable_flow_date(assets@, start as int));
                            return Err(String::from_str("invalid transaction date"));
                        },
                    }
                } else {
                    assert(!counted_flow(a, i as int, k as int, st));
                }
                k = k + 1;
            }
        } else {
            proof {
                assert forall|kk: int| !counted_flow(a, i as int, kk, st) by {}
            }
        }
        proof {
            assert forall|c: Seq<char>| text_views(currencies@).contains(c)
                <==> needs_rates(a, i + 1, intervals@, start as int, end as int, c) by {
                if needs_rates(a, i + 1, intervals@, start as int, end as int, c) {
                    let x = choose|x: int| 0 <= x < i + 1 && asset_needs_rates(#[trigger] a[x], intervals@, start as int, end as int) && a[x].currency@ == c;
                    if x < i {
                        assert(needs_rates(a, i as int, intervals@, start as int, end as int, c));
                    }
                }
                if needs_rates(a, i as int, intervals@, start as int, end as int, c) {
                    let x = choose|x: int| 0 <= x < i && asset_needs_rates(#[trigger] a[x], intervals@, start as int, end as int) && a[x].currency@ == c;
                    assert(0 <= x < i + 1 && asset_needs_rates(a[x], intervals@, start as int, end as int) && a[x].currency@ == c);
                }
            }
        }
        i = i + 1;
    }
    proof {
        assert forall|x: int, k: int| #[trigger] counted_flow(a, x, k, st) implies flow_date(a, x, k) is Some by {}
    }
    let mut j: usize = 0;
    while j < intervals.len()
        invariant
            a == assets@,
            st == iso_text(start as int),
            j <= intervals@.len(),
            forall|x: int, k: int| #[trigger] counted_flow(a, x, k, st) ==> match flow_date(a, x, k) {
                Some(dd) => first is Some && first->Some_0 <= dd,
                None => false,
            },
            forall|m: int| 0 <= m < j ==> first is Some && first->Some_0 <= (#[trigger] intervals@[m]).start,
            first is Some ==> (exists|x: int, k: int| #[trigger] counted_flow(a, x, k, st)
                && flow_date(a, x, k) == Some(first->Some_0 as int))
                || (exists|m: int| 0 <= m < j && (#[trigger] intervals@[m]).start == first->Some_0),
        decreases intervals@.len() - j,
    {
        first = earlier(first, intervals[j].start);
        j = j + 1;
    }
    proof {
        match first {
            Some(s) => {
                assert(fx_candidate(a, intervals@, start as int, s as int));
                assert forall|d: int| fx_candidate(a, intervals@, start as int, d) implies s <= d by {
                    if has_interval_starting(intervals@, d) {
                        let m = choose|m: int| 0 <= m < intervals@.len() && (#[trigger] intervals@[m]).start == d;
                        assert(first->Some_0 <= intervals@[m].start);
                    } else {
                        let (x, k) = choose|x: int, k: int| #[trigger] counted_flow(a, x, k, st) && flow_date(a, x, k) == Some(d);
                        assert(counted_flow(a, x, k, st));
                    }
                }
            },
            None => {
                assert forall|d: int| !fx_candidate(a, intervals@, start as int, d) by {
                    if has_interval_starting(intervals@, d) {
                        let m = choose|m: int| 0 <= m < intervals@.len() && (#[trigger] intervals@[m]).start == d;
                        assert(first is Some);
                    }
                    if exists|x: int, k: int| #[trigger] counted_flow(a, x, k, st) && flow_date(a, x, k) == Some(d) {
                        let (x, k) = choose|x: int, k: int| #[trigger] counted_flow(a, x, k, st) && flow_date(a, x, k) == Some(d);
                        assert(counted_flow(a, x, k, st));
                    }
                }
            },
        }
    }
    Ok(FxRequirements { currencies, start: first })
}

// ---------------------------------------------------------------------------
// Calculable prefix
// ---------------------------------------------------------------------------

/// A transition of an asset's ledger as the day-by-day valuation sees it:
/// its storage date, whether the position is open (held quantity above the
/// tolerance) after it, and whether the base-currency amount of its cash
/// flow is missing (a split has none to miss).
#[derive(Clone, Debug)]
pub struct DayTransition {
    pub date: String,
    pub open_after: bool,
    pub missing_conversion: bool,
}

/// An asset of a rebuild: whether its position is open at the checkpoint,
/// the transitions of its ledger in ledger order, and the days on which a
/// price and an exchange rate to the base currency are stored.  A day is
/// priced (converted) when a price (rate) is stored on it or before it, the
/// latest one being the one used.
#[derive(Clone, Debug)]
pub struct ValuedAsset {
    pub asset: Asset,
    pub open_at_start: bool,
    pub transitions: Vec<DayTransition>,
    pub price_days: Vec<i32>,
    pub fx_days: Vec<i32>,
}

/// Some day of `days` is `d` or earlier.
pub open spec fn has_day_by(days: Seq<i32>, d: int) -> bool {
    exists|m: int| 0 <= m < days.len() && days[m] <= d
}

/// Whether the position is open after the first `n` transitions of a day
/// whose storage text is `text`, starting from `open`: the last of them
/// dated that day decides.
pub open spec fn day_update(ts: Seq<DayTransition>, text: Seq<char>, open: bool, n: nat) -> bool
    decreases n,
{
    if n == 0 {
        open
    } else {
        let before = day_update(ts, text, open, (n - 1) as nat);
        if ts[n - 1].date@ == text {
            ts[n - 1].open_after
        } else {
            before
        }
    }
}

/// Whether the position is open at the end of day `d` of a rebuild that
/// starts on day `start`.
pub open spec fn open_through(a: ValuedAsset, start: int, d: int) -> bool
    decreases d - start,
{
    let before = if d <= start { a.open_at_start } else { open_through(a, start, d - 1) };
    day_update(a.transitions@, iso_text(d), before, a.transitions@.len())
}

pub open spec fn has_fx_on(a: ValuedAsset, d: int) -> bool {
    a.asset.currency@ == BASE_CURRENCY@ || has_day_by(a.fx_days@, d)
}

/// The asset keeps day `d` from being valued: it is not monetary, and a
/// transition on that day lacks its base-currency amount, or its position
/// is open at the end of the day without a price or an exchange rate.
pub open spec fn asset_blocks(a: ValuedAsset, start: int, d: int) -> bool {
    !asset_is_monetary(a.asset) && (
    (exists|k: int| 0 <= k < a.transitions@.len() && (#[trigger] a.transitions@[k]).date@ == iso_text(d)
        && a.transitions@[k].missing_conversion)
    || (open_through(a, start, d) && (!has_day_by(a.price_days@, d) || !has_fx_on(a, d))))
}

pub open spec fn day_blocked(assets: Seq<ValuedAsset>, start: int, d: int) -> bool {
    exists|i: int| 0 <= i < assets.len() && asset_blocks(#[trigger] assets[i], start, d)
}

fn has_day_by_in(days: &[i32], d: i32) -> (r: bool)
    ensures
        r == has_day_by(days@, d as int),
{
    let mut m: usize = 0;
    while m < days.len()
        invariant
            m <= days@.len(),
            forall|x: int| 0 <= x < m ==> days@[x] > d,
        decreases days@.len() - m,
    {
        if days[m] <= d {
            return true;
        }
        m = m + 1;
    }
    false
}

/// Applies the transitions dated on day `d` (storage text `text`) to the
/// open state of an asset, and says whether one of them lacks its
/// base-currency amount.
fn apply_day(a: &ValuedAsset, text: &str, open: bool) -> (r: (bool, bool))
    ensures
        r.0 == day_update(a.transitions@, text@, open, a.transitions@.len()),
        r.1 == exists|k: int| 0 <= k < a.transitions@.len() && (#[trigger] a.transitions@[k]).date@ == text@
            && a.transitions@[k].missing_conversion,
{
    let mut state = open;
    let mut missing = false;
    let mut k: usize = 0;
    while k < a.transitions.len()
        invariant
            k <= a.transitions@.len(),
            state == day_update(a.transitions@, text@, open, k as nat),
            missing == exists|x: int| 0 <= x < k && (#[trigger] a.transitions@[x]).date@ == text@
                && a.transitions@[x].missing_conversion,
        decreases a.transitions@.len() - k,
    {
        let t = &a.transitions[k];
        if text_eq(t.date.as_str(), text) {
            state = t.open_after;
            if t.missing_conversion {
                missing = true;
            }
        }
        proof {
            if !missing {
                assert forall|x: int| 0 <= x < k + 1 implies !((#[trigger] a.transitions@[x]).date@ == text@
                    && a.transitions@[x].missing_conversion) by {
                    if x < k {
                        assert(!(a.transitions@[x].date@ == text@ && a.transitions@[x].missing_conversion));
                    }
                }
            }
        }
        k = k + 1;
    }
    (state, missing)
}

/// The limitation reported for an asset with no price on or before a day
/// of a rebuild through `end`.
pub open spec fn missing_price_key(asset: Asset, end: i32) -> LimitationKey {
    ((true, asset.ticker@, asset.name@, asset.asset_type), None, end, MarketDataLimitationClassification::ActionableMissingData)
}

/// The limitation reported for a currency with no rate on or before a day
/// of a rebuild through `end`.
pub open spec fn missing_rate_key(currency: Seq<char>, end: i32) -> LimitationKey {
    ((false, currency, Seq::empty(), AssetType::Stock), None, end, MarketDataLimitationClassification::ActionableMissingData)
}

/// What valuing the asset's position on day `d` reports: a missing price
/// and a missing rate, for a position that is open at the end of the day.
pub open spec fn holding_keys(a: ValuedAsset, start: int, end: i32, d: int) -> Seq<LimitationKey> {
    if !asset_is_monetary(a.asset) && open_through(a, start, d) {
        (if !has_day_by(a.price_days@, d) {
            seq![missing_price_key(a.asset, end)]
        } else {
            Seq::empty()
        }) + (if !has_fx_on(a, d) {
            seq![missing_rate_key(a.asset.currency@, end)]
        } else {
            Seq::empty()
        })
    } else {
        Seq::empty()
    }
}

pub open spec fn has_missing_conversion(a: ValuedAsset, d: int) -> bool {
    exists|k: int| 0 <= k < a.transitions@.len() && (#[trigger] a.transitions@[k]).date@ == iso_text(d)
        && a.transitions@[k].missing_conversion
}

/// What a transition of day `d` without its base-currency amount reports:
/// the missing rate of the asset's currency, when there is none on or
/// before the day.
pub open spec fn conversion_keys(a: ValuedAsset, end: i32, d: int) -> Seq<LimitationKey> {
    if !asset_is_monetary(a.asset) && has_missing_conversion(a, d) && !has_fx_on(a, d) {
        seq![missing_rate_key(a.asset.currency@, end)]
    } else {
        Seq::empty()
    }
}

/// The holding reports of the first `n` assets on day `d`, in order.
pub open spec fn holdings_keys_upto(assets: Seq<ValuedAsset>, start: int, end: i32, d: int, n: int) -> Seq<LimitationKey>
    decreases n,
{
    if n <= 0 {
        Seq::empty()
    } else {
        holdings_keys_upto(assets, start, end, d, n - 1) + holding_keys(assets[n - 1], start, end, d)
    }
}

/// The conversion reports of the first `n` assets on day `d`, in order.
pub open spec fn conversions_keys_upto(assets: Seq<ValuedAsset>, end: i32, d: int, n: int) -> Seq<LimitationKey>
    decreases n,
{
    if n <= 0 {
        Seq::empty()
    } else {
        conversions_keys_upto(assets, end, d, n - 1) + conversion_keys(assets[n - 1], end, d)
    }
}

/// Everything day `d` reports: the holdings first, then the conversions.
pub open spec fn day_keys(assets: Seq<ValuedAsset>, start: int, end: i32, d: int) -> Seq<LimitationKey> {
    holdings_keys_upto(assets, start, end, d, assets.len() as int) + conversions_keys_upto(assets, end, d, assets.len() as int)
}

/// The reports of the first `n` days of the rebuild, each listed once, in
/// the order they first come.
pub open spec fn rebuild_keys(assets: Seq<ValuedAsset>, start: int, end: i32, n: nat) -> Seq<LimitationKey>
    decreases n,
{
    if n == 0 {
        Seq::empty()
    } else {
        with_keys(rebuild_keys(assets, start, end, (n - 1) as nat), day_keys(assets, start, end, start + n - 1))
    }
}

/// Over `start ..= end`: the last day up to which every day can be valued
/// (the day before the first blocked day, or `end` when none is blocked; a
/// rebuild whose first day is blocked values nothing and gets `start - 1`),
/// and the missing prices and rates that the days of the rebuild report,
/// each listed once.  Within a day the assets report in the order given.
pub fn find_calculable_prefix(start: i32, end: i32, assets: &[ValuedAsset]) -> (r: (i32, Vec<MarketDataLimitation>))
    requires
        valid_day(start as int),
        valid_day(end as int),
    ensures
        start > end ==> r.0 == end && r.1@.len() == 0,
        start <= end ==> {
            &&& start - 1 <= r.0 <= end
            &&& forall|d: int| start <= d <= r.0 ==> !day_blocked(assets@, start as int, d)
            &&& r.0 < end ==> day_blocked(assets@, start as int, r.0 + 1)
            &&& limitation_keys(r.1@) == rebuild_keys(assets@, start as int, end, (end - start + 1) as nat)
        },
        r.0 == end ==> r.1@.len() == 0,
        unique_limitations(r.1@),
{
    if start > end {
        return (end, Vec::new());
    }
    let mut open: Vec<bool> = Vec::new();
    let mut i: usize = 0;
    while i < assets.len()
        invariant
            i <= assets@.len(),
            open@.len() == i,
            forall|x: int| 0 <= x < i ==> open@[x] == (#[trigger] assets@[x]).open_at_start,
        decreases assets@.len() - i,
    {
        open.push(assets[i].open_at_start);
        i = i + 1;
    }
    let mut limitations: Vec<MarketDataLimitation> = Vec::new();
    let mut first_blocked: Option<i32> = None;
    let mut current: i32 = start;
    while current <= end
        invariant
            valid_day(start as int),
            valid_day(end as int),
            start <= current <= end + 1,
            open@.len() == assets@.len(),
            forall|x: int| 0 <= x < open@.len() ==> open@[x] == (if current <= start {
                (#[trigger] assets@[x]).open_at_start
            } else {
                open_through(assets@[x], start as int, current - 1)
            }),
            limitation_keys(limitations@) == rebuild_keys(assets@, start as int, end, (current - start) as nat),
            no_repeats(limitation_keys(limitations@)),
            match first_blocked {
                None => (forall|d: int| start <= d < current ==> !day_blocked(assets@, start as int, d))
                    && limitations@.len() == 0,
                Some(b) => start <= b < current && day_blocked(assets@, start as int, b as int)
                    && forall|d: int| start <= d < b ==> !day_blocked(assets@, start as int, d),
            },
        decreases end + 1 - current,
    {
        let text = format_iso_day(current);
        let mut blocked = false;
        let mut holding_reports: Vec<MarketDataLimitation> = Vec::new();
        let mut conversion_reports: Vec<MarketDataLimitation> = Vec::new();
        let mut j: usize = 0;
        while j < assets.len()
            invariant
                start <= current <= end,
                valid_day(start as int),
                valid_day(end as int),
                text@ == iso_text(current as int),
                open@.len() == assets@.len(),
                j <= assets@.len(),
                forall|x: int| j <= x < open@.len() ==> open@[x] == (if current <= start {
                    (#[trigger] assets@[x]).open_at_start
                } else {
                    open_through(assets@[x], start as int, current - 1)
                }),
                forall|x: int| 0 <= x < j ==> open@[x] == open_through(#[trigger] assets@[x], start as int, current as int),
                blocked == exists|x: int| 0 <= x < j && asset_blocks(#[trigger] assets@[x], start as int, current as int),
                limitation_keys(holding_reports@) == holdings_keys_upto(assets@, start as int, end, current as int, j as int),
                limitation_keys(conversion_reports@) == conversions_keys_upto(assets@, end, current as int, j as int),
                holding_reports@.len() + conversion_reports@.len() > 0 ==> blocked,
            decreases assets@.len() - j,
        {
            let a = &assets[j];
            let ghost aj = assets@[j as int];
            let ghost hold_before = holding_reports@;
            let ghost conv_before = conversion_reports@;
            let (now_open, missing) = apply_day(a, text.as_str(), open[j]);
            proof {
                assert(now_open == open_through(aj, start as int, current as int));
            }
            let monetary = a.asset.is_monetary();
            let priced = has_day_by_in(a.price_days.as_slice(), current);
            let converted = text_eq(a.asset.currency.as_str(), BASE_CURRENCY) || has_day_by_in(a.fx_days.as_slice(), current);
            if !monetary && now_open && !priced {
                let l = missing_asset_limitation(&a.asset, end);
                holding_reports.push(l);
            }
            let ghost hold_mid = holding_reports@;
            if !monetary && now_open && !converted {
                let l = missing_fx_limitation(a.asset.currency.as_str(), end);
                holding_reports.push(l);
            }
            if !monetary && missing && !converted {
                let l = missing_fx_limitation(a.asset.currency.as_str(), end);
                conversion_reports.push(l);
            }
            let blocks = !monetary && (missing || (now_open && (!priced || !converted)));
            proof {
                assert(blocks == asset_blocks(aj, start as int, current as int));
                assert(missing == has_missing_conversion(aj, current as int));
                assert(limitation_keys(hold_mid) =~= limitation_keys(hold_before) + (if !monetary && now_open && !priced {
                    seq![missing_price_key(aj.asset, end)]
                } else {
                    Seq::empty()
                }));
                assert(limitation_keys(holding_reports@) =~= limitation_keys(hold_before) + holding_keys(
                    aj,
                    start as int,
                    end,
                    current as int,
                ));
                assert(limitation_keys(conversion_reports@) =~= limitation_keys(conv_before) + conversion_keys(
                    aj,
                    end,
                    current as int,
                ));
            }
            if blocks {
                blocked = true;
            }
            open.set(j, now_open);
            j = j + 1;
        }
        let ghost before = limitations@;
        let ghost reports = holding_reports@ + conversion_reports@;
        holding_reports.append(&mut conversion_reports);
        proof {
            assert(holding_reports@ == reports);
            assert(limitation_keys(reports) =~= day_keys(assets@, start as int, end, current as int));
            lemma_with_limitations_keys(before, reports);
            lemma_with_keys_no_repeats(limitation_keys(before), limitation_keys(reports));
            if !blocked {
                assert(reports.len() == 0);
                assert(with_limitations(before, reports) == before);
            }
        }
        extend_unique_limitations(&mut limitations, holding_reports);
        if blocked && first_blocked.is_none() {
            first_blocked = Some(current);
        }
        current = current + 1;
    }
    proof {
        lemma_unique_limitations_keys(limitations@);
    }
    match first_blocked {
        Some(b) => (b - 1, limitations),
        None => (end, limitations),
    }
}

// ---------------------------------------------------------------------------
// Transitions of the rebuild window
// ---------------------------------------------------------------------------

/// What orders a transition of the rebuild: its storage date and its entry
/// id.
#[derive(Clone, Debug)]
pub struct TransitionKey {
    pub date: String,
    pub id: i32,
}

/// Transition `a` comes before transition `b`: earlier by date text, or on
/// the same date with a smaller id, or with the same date and id earlier in
/// the given list (the sort is stable).
pub open spec fn key_before(ks: Seq<TransitionKey>, a: int, b: int) -> bool {
    text_order(ks[a].date@, ks[b].date@) < 0 || (text_order(ks[a].date@, ks[b].date@) == 0 && (ks[a].id < ks[b].id || (
    ks[a].id == ks[b].id && a < b)))
}

/// The transition is dated within `start ..= end` (by text).
pub open spec fn in_window(k: TransitionKey, start: Seq<char>, end: Seq<char>) -> bool {
    text_order(start, k.date@) <= 0 && text_order(k.date@, end) <= 0
}

proof fn lemma_key_before_trans(ks: Seq<TransitionKey>, a: int, b: int, c: int)
    requires
        key_before(ks, a, b),
        key_before(ks, b, c),
    ensures
        key_before(ks, a, c),
{
    lemma_text_order_trans(ks[a].date@, ks[b].date@, ks[c].date@);
    lemma_text_order_eq(ks[a].date@, ks[b].date@);
    lemma_text_order_eq(ks[b].date@, ks[c].date@);
    lemma_text_order_eq(ks[a].date@, ks[c].date@);
}

proof fn lemma_key_before_total(ks: Seq<TransitionKey>, a: int, b: int)
    requires
        a != b,
    ensures
        key_before(ks, a, b) || key_before(ks, b, a),
        !(key_before(ks, a, b) && key_before(ks, b, a)),
{
    lemma_text_order_range(ks[a].date@, ks[b].date@);
    lemma_text_order_antisym(ks[a].date@, ks[b].date@);
}

/// Transition `i` sorts before the earlier-listed transition `x`.
fn sorts_after(keys: &[TransitionKey], x: usize, i: usize) -> (r: bool)
    requires
        x < i < keys@.len(),
    ensures
        r == key_before(keys@, i as int, x as int),
{
    let c = compare_text(keys[x].date.as_str(), keys[i].date.as_str());
    proof {
        lemma_text_order_antisym(keys@[x as int].date@, keys@[i as int].date@);
    }
    c > 0 || (c == 0 && keys[x].id > keys[i].id)
}

/// The transitions of the rebuild dated within `start_date ..= end_date`
/// (by text), as positions in `keys`, sorted by date and then id, keeping
/// the given order among equal keys.
pub fn window_transition_order(keys: &[TransitionKey], start_date: &str, end_date: &str) -> (r: Vec<usize>)
    ensures
        forall|a: int, b: int| 0 <= a < b < r@.len() ==> key_before(keys@, #[trigger] r@[a] as int, #[trigger] r@[b] as int),
        forall|x: usize| #[trigger] r@.contains(x) <==> (x < keys@.len() && in_window(keys@[x as int], start_date@, end_date@)),
{
    let ghost ks = keys@;
    let mut order: Vec<usize> = Vec::new();
    let mut i: usize = 0;
    while i < keys.len()
        invariant
            ks == keys@,
            i <= ks.len(),
            forall|a: int, b: int| 0 <= a < b < order@.len() ==> key_before(ks, #[trigger] order@[a] as int, #[trigger] order@[b] as int),
            forall|k: int| 0 <= k < order@.len() ==> (#[trigger] order@[k]) < i,
            forall|x: usize| #[trigger] order@.contains(x) <==> (x < i && in_window(ks[x as int], start_date@, end_date@)),
        decreases ks.len() - i,
    {
        let k = &keys[i];
        let inside = compare_text(start_date, k.date.as_str()) <= 0 && compare_text(k.date.as_str(), end_date) <= 0;
        if inside {
            let mut j: usize = order.len();
            while j > 0 && sorts_after(keys, order[j - 1], i)
                invariant
                    ks == keys@,
                    i < ks.len(),
                    *k == ks[i as int],
                    j <= order@.len(),
                    forall|k2: int| 0 <= k2 < order@.len() ==> (#[trigger] order@[k2]) < i,
                    forall|m: int| j <= m < order@.len() ==> key_before(ks, i as int, #[trigger] order@[m] as int),
                decreases j,
            {
                j = j - 1;
            }
            proof {
                if j > 0 {
                    lemma_key_before_total(ks, order@[j - 1] as int, i as int);
                }
            }
            let ghost before = order@;
            order.insert(j, i);
            proof {
                assert forall|a: int, b: int| 0 <= a < b < order@.len() implies key_before(
                    ks,
                    #[trigger] order@[a] as int,
                    #[trigger] order@[b] as int,
                ) by {
                    if b < j {
                        assert(order@[a] == before[a] && order@[b] == before[b]);
                    } else if b == j {
                        assert(order@[a] == before[a]);
                        if a < j - 1 {
                            lemma_key_before_trans(ks, before[a] as int, before[j - 1] as int, i as int);
                        }
                    } else if a == j {
                        assert(order@[b] == before[b - 1]);
                    } else if a < j {
                        assert(order@[a] == before[a] && order@[b] == before[b - 1]);
                    } else {
                        assert(order@[a] == before[a - 1] && order@[b] == before[b - 1]);
                    }
                }
                assert forall|x: usize| #[trigger] order@.contains(x) <==> (x < i + 1 && in_window(
                    ks[x as int],
                    start_date@,
                    end_date@,
                )) by {
                    if order@.contains(x) {
                        let m = choose|m: int| 0 <= m < order@.len() && order@[m] == x;
                        if m < j {
                            assert(before[m] == x);
                            assert(before.contains(x));
                        } else if m > j {
                            assert(before[m - 1] == x);
                            assert(before.contains(x));
                        }
                    }
                    if x < i + 1 && in_window(ks[x as int], start_date@, end_date@) {
                        if x == i {
                            assert(order@[j as int] == x);
                        } else {
                            assert(before.contains(x));
                            let m = choose|m: int| 0 <= m < before.len() && before[m] == x;
                            if m < j {
                                assert(order@[m] == x);
                            } else {
                                assert(order@[m + 1] == x);
                            }
                        }
                    }
                }
            }
        } else {
            proof {
                assert forall|x: usize| #[trigger] order@.contains(x) <==> (x < i + 1 && in_window(
                    ks[x as int],
                    start_date@,
                    end_date@,
                )) by {
                    if order@.contains(x) {
                        let m = choose|m: int| 0 <= m < order@.len() && order@[m] == x;
                        assert(order@[m] < i);
                    }
                }
            }
        }
        i = i + 1;
    }
    order
}

} // verus!
