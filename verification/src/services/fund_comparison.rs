//! Comparing two funds: which codes can be compared, which holdings are
//! cash, which holdings the two funds have in common, and whether both
//! price histories cover the comparison period.  Weights, allocations,
//! returns and their correlation are computed outside this module.
use vstd::prelude::*;
use crate::calendar::{iso_day, parse_iso_day, valid_day};
use crate::services::fund_analysis::COVERAGE_TOLERANCE_DAYS;
use crate::text::{
    chars_of, copy_text, eq_ignore_ascii_case, is_white_space, is_whitespace, string_of, text_eq,
    text_eq_ignore_ascii_case, trim, trimmed,
};

verus! {

/// A comparison period: its label and its length in days.
#[derive(Clone, Copy, Debug)]
pub struct FundComparisonPeriod {
    pub label: &'static str,
    pub days: i64,
}

pub open spec fn self_comparison_message() -> Seq<char> {
    "cannot compare a fund with itself; provide two different fund codes"@
}

/// Two fund codes denote the same fund when they agree up to surrounding
/// white space and ASCII case.
pub fn check_distinct_funds(code_a: &str, code_b: &str) -> (r: Result<(), String>)
    ensures
        r is Err <==> eq_ignore_ascii_case(trimmed(code_a@), trimmed(code_b@)),
        r is Err ==> r->Err_0@ == self_comparison_message(),
{
    let a = trim(code_a);
    let b = trim(code_b);
    if text_eq_ignore_ascii_case(a.as_str(), b.as_str()) {
        Err(String::from_str("cannot compare a fund with itself; provide two different fund codes"))
    } else {
        Ok(())
    }
}

/// The first day of a comparison period of `days` days ending on `end`.
pub fn period_start(end: i32, days: i64) -> (r: i32)
    requires
        valid_day(end - days),
    ensures
        r == end - days,
{
    (end as i64 - days) as i32
}

// ---------------------------------------------------------------------------
// Holding names
// ---------------------------------------------------------------------------

/// The words of a text joined by single spaces (`split_whitespace` joined
/// with `" "`), defined character by character: white space is dropped, and
/// a character that starts a word after an earlier word is preceded by one
/// space.
pub open spec fn collapse_whitespace(s: Seq<char>) -> Seq<char>
    decreases s.len(),
{
    if s.len() == 0 {
        Seq::empty()
    } else {
        let init = s.drop_last();
        let c = s.last();
        let before = collapse_whitespace(init);
        if is_white_space(c) {
            before
        } else if init.len() > 0 && is_white_space(init.last()) && before.len() > 0 {
            before.push(' ').push(c)
        } else {
            before.push(c)
        }
    }
}

/// What `str::to_lowercase` returns for a text.
pub uninterp spec fn lowercased(s: Seq<char>) -> Seq<char>;

/// `str::to_lowercase`: the Unicode lower-case mapping of the text, which
/// depends on the text alone.
#[verifier::external_body]
fn to_lowercase(s: &str) -> (r: String)
    ensures
        r@ == lowercased(s@),
{
    s.to_lowercase()
}

/// A holding name with its words single-spaced, in lower case.
pub fn normalize_name(name: &str) -> (r: String)
    ensures
        r@ == lowercased(collapse_whitespace(name@)),
{
    let v = chars_of(name);
    let mut out: Vec<char> = Vec::new();
    let mut i: usize = 0;
    while i < v.len()
        invariant
            v@ == name@,
            i <= v@.len(),
            out@ == collapse_whitespace(v@.take(i as int)),
        decreases v@.len() - i,
    {
        let c = v[i];
        let ghost prefix = v@.take(i as int);
        assert(v@.take(i + 1).drop_last() =~= prefix);
        assert(v@.take(i + 1).last() == c);
        if !is_whitespace(c) {
            let starts_word = i > 0 && is_whitespace(v[i - 1]) && out.len() > 0;
            if starts_word {
                assert(prefix.last() == v@[i - 1]);
                out.push(' ');
            }
            out.push(c);
        }
        i = i + 1;
    }
    assert(v@.take(v@.len() as int) =~= v@);
    let collapsed = string_of(out.as_slice());
    to_lowercase(collapsed.as_str())
}

/// Cash holdings are named `cash` (in any case and spacing) or carry the
/// ticker `cash` (in any ASCII case).
pub fn is_cash_holding(name: &str, ticker: Option<&str>) -> (r: bool)
    ensures
        r == (lowercased(collapse_whitespace(name@)) == "cash"@
            || (ticker is Some && eq_ignore_ascii_case(trimmed(ticker->Some_0@), "cash"@))),
{
    let normalized = normalize_name(name);
    let named_cash = crate::text::text_eq(normalized.as_str(), "cash");
    let ticker_cash = match ticker {
        Some(t) => {
            let trimmed_ticker = trim(t);
            text_eq_ignore_ascii_case(trimmed_ticker.as_str(), "cash")
        },
        None => false,
    };
    named_cash || ticker_cash
}

// ---------------------------------------------------------------------------
// Common holdings
// ---------------------------------------------------------------------------

/// What identifies a holding of a fund: its name and its ticker.
#[derive(Clone, Debug)]
pub struct HoldingIdentity {
    pub name: String,
    pub ticker: Option<String>,
}

/// A holding the two funds have in common: its position in each fund's
/// list, and the ticker it is shown with.
#[derive(Clone, Debug)]
pub struct HoldingMatch {
    pub index_a: usize,
    pub index_b: usize,
    pub ticker: Option<String>,
}

/// What `str::to_uppercase` returns for a text.
pub uninterp spec fn uppercased(s: Seq<char>) -> Seq<char>;

/// `str::to_uppercase`: the Unicode upper-case mapping of the text, which
/// depends on the text alone.
#[verifier::external_body]
fn to_uppercase(s: &str) -> (r: String)
    ensures
        r@ == uppercased(s@),
{
    s.to_uppercase()
}

pub open spec fn holding_is_cash(h: HoldingIdentity) -> bool {
    lowercased(collapse_whitespace(h.name@)) == "cash"@
        || (h.ticker is Some && eq_ignore_ascii_case(trimmed(h.ticker->Some_0@), "cash"@))
}

pub open spec fn name_key(h: HoldingIdentity) -> Seq<char> {
    lowercased(collapse_whitespace(h.name@))
}

/// The key a holding of the second fund is found by through its ticker:
/// the trimmed ticker in upper case, for a holding that is not cash and
/// whose key is not empty.
pub open spec fn ticker_key(h: HoldingIdentity) -> Option<Seq<char>> {
    if holding_is_cash(h) {
        None
    } else {
        match h.ticker {
            Some(t) => {
                let k = uppercased(trimmed(t@));
                if k.len() > 0 {
                    Some(k)
                } else {
                    None
                }
            },
            None => None,
        }
    }
}

/// The trimmed ticker of a holding, when there is one and it is not empty.
pub open spec fn given_ticker(h: HoldingIdentity) -> Option<Seq<char>> {
    match h.ticker {
        Some(t) => if trimmed(t@).len() > 0 {
            Some(trimmed(t@))
        } else {
            None
        },
        None => None,
    }
}

pub open spec fn lacks_ticker(h: HoldingIdentity) -> bool {
    match h.ticker {
        Some(t) => t@.len() == 0,
        None => true,
    }
}

/// The last of the first `n` holdings of `bs` with ticker key `key` (a
/// later holding with the same key replaces an earlier one).
pub open spec fn last_by_ticker(bs: Seq<HoldingIdentity>, key: Seq<char>, n: int) -> Option<int>
    decreases n,
{
    if n <= 0 {
        None
    } else if ticker_key(bs[n - 1]) == Some(key) {
        Some(n - 1)
    } else {
        last_by_ticker(bs, key, n - 1)
    }
}

/// The last of the first `n` holdings of `bs` that is not cash and has the
/// normalized name `key`.
pub open spec fn last_by_name(bs: Seq<HoldingIdentity>, key: Seq<char>, n: int) -> Option<int>
    decreases n,
{
    if n <= 0 {
        None
    } else if !holding_is_cash(bs[n - 1]) && name_key(bs[n - 1]) == key {
        Some(n - 1)
    } else {
        last_by_name(bs, key, n - 1)
    }
}

/// The holding of the second fund that holding `a` of the first fund is
/// matched with: none for cash; by ticker when `a` has one; otherwise, or
/// when the ticker finds nothing, by normalized name (a name match of a
/// holding with a ticker only counts for a holding without one).
pub open spec fn matched_holding(a: HoldingIdentity, bs: Seq<HoldingIdentity>) -> Option<int> {
    if holding_is_cash(a) {
        None
    } else {
        match given_ticker(a) {
            Some(t) => match last_by_ticker(bs, uppercased(t), bs.len() as int) {
                Some(j) => Some(j),
                None => match last_by_name(bs, name_key(a), bs.len() as int) {
                    Some(j) => if lacks_ticker(bs[j]) {
                        Some(j)
                    } else {
                        None
                    },
                    None => None,
                },
            },
            None => last_by_name(bs, name_key(a), bs.len() as int),
        }
    }
}

/// The ticker a match is shown with: the first fund's, else the second's.
pub open spec fn shown_ticker(a: HoldingIdentity, b: HoldingIdentity) -> Option<Seq<char>> {
    match given_ticker(a) {
        Some(t) => Some(t),
        None => opt_string_view(b.ticker),
    }
}

/// The matches of the first `n` holdings of the first fund, in order.
pub open spec fn expected_matches(as_: Seq<HoldingIdentity>, bs: Seq<HoldingIdentity>, n: int) -> Seq<(int, int, Option<Seq<char>>)>
    decreases n,
{
    if n <= 0 {
        Seq::empty()
    } else {
        let prev = expected_matches(as_, bs, n - 1);
        match matched_holding(as_[n - 1], bs) {
            Some(j) => prev.push((n - 1, j, shown_ticker(as_[n - 1], bs[j]))),
            None => prev,
        }
    }
}

pub open spec fn match_views(ms: Seq<HoldingMatch>) -> Seq<(int, int, Option<Seq<char>>)> {
    ms.map_values(|m: HoldingMatch| (m.index_a as int, m.index_b as int, opt_string_view(m.ticker)))
}

proof fn lemma_last_by_ticker(bs: Seq<HoldingIdentity>, key: Seq<char>, n: int)
    requires
        0 <= n <= bs.len(),
    ensures
        last_by_ticker(bs, key, n) matches Some(j) ==> 0 <= j < n && ticker_key(bs[j]) == Some(key)
            && forall|k: int| j < k < n ==> ticker_key(#[trigger] bs[k]) != Some(key),
        last_by_ticker(bs, key, n) is None ==> forall|k: int| 0 <= k < n ==> ticker_key(#[trigger] bs[k]) != Some(key),
    decreases n,
{
    if n > 0 {
        lemma_last_by_ticker(bs, key, n - 1);
    }
}

proof fn lemma_last_by_name(bs: Seq<HoldingIdentity>, key: Seq<char>, n: int)
    requires
        0 <= n <= bs.len(),
    ensures
        last_by_name(bs, key, n) matches Some(j) ==> 0 <= j < n && !holding_is_cash(bs[j]) && name_key(bs[j]) == key
            && forall|k: int| j < k < n ==> holding_is_cash(#[trigger] bs[k]) || name_key(bs[k]) != key,
        last_by_name(bs, key, n) is None ==> forall|k: int| 0 <= k < n ==> holding_is_cash(#[trigger] bs[k])
            || name_key(bs[k]) != key,
    decreases n,
{
    if n > 0 {
        lemma_last_by_name(bs, key, n - 1);
    }
}

proof fn lemma_expected_matches_entries(as_: Seq<HoldingIdentity>, bs: Seq<HoldingIdentity>, n: int)
    requires
        0 <= n <= as_.len(),
    ensures
        forall|i: int| 0 <= i < n ==> (matched_holding(#[trigger] as_[i], bs) matches Some(j) ==> expected_matches(
            as_,
            bs,
            n,
        ).contains((i, j, shown_ticker(as_[i], bs[j])))),
        forall|e: (int, int, Option<Seq<char>>)| #[trigger] expected_matches(as_, bs, n).contains(e) ==> 0 <= e.0 < n
            && matched_holding(as_[e.0], bs) == Some(e.1) && e.2 == shown_ticker(as_[e.0], bs[e.1]),
    decreases n,
{
    if n > 0 {
        lemma_expected_matches_entries(as_, bs, n - 1);
        let prev = expected_matches(as_, bs, n - 1);
        let cur = expected_matches(as_, bs, n);
        assert forall|i: int| 0 <= i < n implies (matched_holding(#[trigger] as_[i], bs) matches Some(j) ==> cur.contains(
            (i, j, shown_ticker(as_[i], bs[j])),
        )) by {
            if let Some(j) = matched_holding(as_[i], bs) {
                if i < n - 1 {
                    let e = (i, j, shown_ticker(as_[i], bs[j]));
                    assert(prev.contains(e));
                    let k = choose|k: int| 0 <= k < prev.len() && prev[k] == e;
                    if matched_holding(as_[n - 1], bs) is Some {
                        assert(cur[k] == e);
                    }
                } else {
                    assert(cur[cur.len() - 1] == (i, j, shown_ticker(as_[i], bs[j])));
                }
            }
        }
        assert forall|e: (int, int, Option<Seq<char>>)| #[trigger] cur.contains(e) implies 0 <= e.0 < n && matched_holding(
            as_[e.0],
            bs,
        ) == Some(e.1) && e.2 == shown_ticker(as_[e.0], bs[e.1]) by {
            let k = choose|k: int| 0 <= k < cur.len() && cur[k] == e;
            if k < prev.len() {
                assert(prev[k] == e);
                assert(prev.contains(e));
            }
        }
    }
}

/// Matching by ticker: a holding of the first fund that is not cash and has
/// a ticker is matched with the last holding of the second fund whose
/// ticker, trimmed and in upper case, is the same.
pub proof fn lemma_common_holdings_match_by_ticker(as_: Seq<HoldingIdentity>, bs: Seq<HoldingIdentity>, i: int, j: int)
    requires
        0 <= i < as_.len(),
        0 <= j < bs.len(),
        !holding_is_cash(as_[i]),
        as_[i].ticker is Some && trimmed(as_[i].ticker->Some_0@).len() > 0,
        ticker_key(bs[j]) == Some(uppercased(trimmed(as_[i].ticker->Some_0@))),
        forall|k: int| j < k < bs.len() ==> ticker_key(#[trigger] bs[k]) != ticker_key(bs[j]),
    ensures
        expected_matches(as_, bs, as_.len() as int).contains((i, j, Some(trimmed(as_[i].ticker->Some_0@)))),
{
    let key = uppercased(trimmed(as_[i].ticker->Some_0@));
    lemma_last_by_ticker(bs, key, bs.len() as int);
    if let Some(x) = last_by_ticker(bs, key, bs.len() as int) {
        if x < j {
            assert(false);
        } else if x > j {
            assert(ticker_key(bs[x]) != ticker_key(bs[j]));
        }
    }
    lemma_expected_matches_entries(as_, bs, as_.len() as int);
}

/// Matching by name: a holding of the first fund that is not cash and
/// whose ticker (if it has one) finds no holding of the second fund is
/// matched with the last holding of the second fund that is not cash and
/// has the same normalized name, when that holding has no ticker.
pub proof fn lemma_common_holdings_match_by_name(as_: Seq<HoldingIdentity>, bs: Seq<HoldingIdentity>, i: int, j: int)
    requires
        0 <= i < as_.len(),
        0 <= j < bs.len(),
        !holding_is_cash(as_[i]),
        as_[i].ticker is Some ==> forall|k: int| 0 <= k < bs.len() ==> ticker_key(#[trigger] bs[k]) != Some(
            uppercased(trimmed(as_[i].ticker->Some_0@)),
        ),
        !holding_is_cash(bs[j]),
        lowercased(collapse_whitespace(bs[j].name@)) == lowercased(collapse_whitespace(as_[i].name@)),
        bs[j].ticker is None || bs[j].ticker->Some_0@.len() == 0,
        forall|k: int| j < k < bs.len() ==> holding_is_cash(#[trigger] bs[k]) || lowercased(collapse_whitespace(bs[k].name@))
            != lowercased(collapse_whitespace(as_[i].name@)),
    ensures
        exists|t: Option<Seq<char>>| expected_matches(as_, bs, as_.len() as int).contains((i, j, t)),
{
    let a = as_[i];
    lemma_last_by_name(bs, name_key(a), bs.len() as int);
    if let Some(x) = last_by_name(bs, name_key(a), bs.len() as int) {
        if x < j {
            assert(false);
        } else if x > j {
            assert(false);
        }
    }
    if let Some(t) = given_ticker(a) {
        lemma_last_by_ticker(bs, uppercased(t), bs.len() as int);
    }
    assert(matched_holding(a, bs) == Some(j));
    lemma_expected_matches_entries(as_, bs, as_.len() as int);
    assert(expected_matches(as_, bs, as_.len() as int).contains((i, j, shown_ticker(a, bs[j]))));
}

/// Every common holding pairs a holding of each fund, neither of them cash,
/// with the same ticker key or the same normalized name; cash is never in
/// common.
pub proof fn lemma_common_holdings_are_sound(as_: Seq<HoldingIdentity>, bs: Seq<HoldingIdentity>)
    ensures
        forall|e: (int, int, Option<Seq<char>>)| #[trigger] expected_matches(as_, bs, as_.len() as int).contains(e) ==> {
            &&& 0 <= e.0 < as_.len() && 0 <= e.1 < bs.len()
            &&& !holding_is_cash(as_[e.0]) && !holding_is_cash(bs[e.1])
            &&& (as_[e.0].ticker is Some && ticker_key(bs[e.1]) == Some(uppercased(trimmed(as_[e.0].ticker->Some_0@))))
                || lowercased(collapse_whitespace(bs[e.1].name@)) == lowercased(collapse_whitespace(as_[e.0].name@))
        },
{
    lemma_expected_matches_entries(as_, bs, as_.len() as int);
    assert forall|e: (int, int, Option<Seq<char>>)| #[trigger] expected_matches(as_, bs, as_.len() as int).contains(e) implies {
        &&& 0 <= e.0 < as_.len() && 0 <= e.1 < bs.len()
        &&& !holding_is_cash(as_[e.0]) && !holding_is_cash(bs[e.1])
        &&& (as_[e.0].ticker is Some && ticker_key(bs[e.1]) == Some(uppercased(trimmed(as_[e.0].ticker->Some_0@))))
            || lowercased(collapse_whitespace(bs[e.1].name@)) == lowercased(collapse_whitespace(as_[e.0].name@))
    } by {
        let a = as_[e.0];
        lemma_last_by_name(bs, name_key(a), bs.len() as int);
        if let Some(t) = given_ticker(a) {
            lemma_last_by_ticker(bs, uppercased(t), bs.len() as int);
        }
    }
}

fn opt_str(t: &Option<String>) -> (r: Option<&str>)
    ensures
        match r {
            Some(s) => t is Some && s@ == t->Some_0@,
            None => t is None,
        },
{
    match t {
        Some(s) => Some(s.as_str()),
        None => None,
    }
}

fn copy_opt_text(t: &Option<String>) -> (r: Option<String>)
    ensures
        opt_string_view(r) == opt_string_view(*t),
{
    match t {
        Some(s) => Some(copy_text(s.as_str())),
        None => None,
    }
}

fn holding_cash(h: &HoldingIdentity) -> (r: bool)
    ensures
        r == holding_is_cash(*h),
{
    is_cash_holding(h.name.as_str(), opt_str(&h.ticker))
}

fn given_ticker_of(h: &HoldingIdentity) -> (r: Option<String>)
    ensures
        opt_string_view(r) == given_ticker(*h),
{
    match &h.ticker {
        Some(t) => {
            let tt = trim(t.as_str());
            if tt.as_str().is_empty() {
                None
            } else {
                Some(tt)
            }
        },
        None => None,
    }
}

fn ticker_key_of(h: &HoldingIdentity) -> (r: Option<String>)
    ensures
        opt_string_view(r) == ticker_key(*h),
{
    if holding_cash(h) {
        return None;
    }
    match &h.ticker {
        Some(t) => {
            let tt = trim(t.as_str());
            let k = to_uppercase(tt.as_str());
            if k.as_str().is_empty() {
                None
            } else {
                Some(k)
            }
        },
        None => None,
    }
}

fn find_by_ticker(bs: &[HoldingIdentity], keys: &Vec<Option<String>>, key: &str) -> (r: Option<usize>)
    requires
        keys@.len() == bs@.len(),
        forall|j: int| 0 <= j < bs@.len() ==> opt_string_view(#[trigger] keys@[j]) == ticker_key(bs@[j]),
    ensures
        match r {
            Some(j) => last_by_ticker(bs@, key@, bs@.len() as int) == Some(j as int),
            None => last_by_ticker(bs@, key@, bs@.len() as int) is None,
        },
{
    let mut m: usize = keys.len();
    while m > 0
        invariant
            m <= bs@.len(),
            keys@.len() == bs@.len(),
            forall|j: int| 0 <= j < bs@.len() ==> opt_string_view(#[trigger] keys@[j]) == ticker_key(bs@[j]),
            last_by_ticker(bs@, key@, bs@.len() as int) == last_by_ticker(bs@, key@, m as int),
        decreases m,
    {
        let found = match &keys[m - 1] {
            Some(k) => text_eq(k.as_str(), key),
            None => false,
        };
        if found {
            assert(opt_string_view(keys@[m - 1]) == ticker_key(bs@[m - 1]));
            return Some(m - 1);
        }
        m = m - 1;
    }
    None
}

fn find_by_name(bs: &[HoldingIdentity], names: &Vec<Option<String>>, key: &str) -> (r: Option<usize>)
    requires
        names@.len() == bs@.len(),
        forall|j: int| 0 <= j < bs@.len() ==> opt_string_view(#[trigger] names@[j]) == (if holding_is_cash(bs@[j]) {
            None
        } else {
            Some(name_key(bs@[j]))
        }),
    ensures
        match r {
            Some(j) => last_by_name(bs@, key@, bs@.len() as int) == Some(j as int) && j < bs@.len(),
            None => last_by_name(bs@, key@, bs@.len() as int) is None,
        },
{
    let mut m: usize = names.len();
    while m > 0
        invariant
            m <= bs@.len(),
            names@.len() == bs@.len(),
            forall|j: int| 0 <= j < bs@.len() ==> opt_string_view(#[trigger] names@[j]) == (if holding_is_cash(bs@[j]) {
                None
            } else {
                Some(name_key(bs@[j]))
            }),
            last_by_name(bs@, key@, bs@.len() as int) == last_by_name(bs@, key@, m as int),
        decreases m,
    {
        let found = match &names[m - 1] {
            Some(k) => text_eq(k.as_str(), key),
            None => false,
        };
        assert(opt_string_view(names@[m - 1]) == (if holding_is_cash(bs@[m - 1]) {
            None
        } else {
            Some(name_key(bs@[m - 1]))
        }));
        if found {
            return Some(m - 1);
        }
        m = m - 1;
    }
    None
}

/// The holdings of the first fund that the second fund holds too, in the
/// first fund's order, each with its match in the second fund (see
/// `matched_holding`) and the ticker it is shown with.
pub fn common_holding_matches(holdings_a: &[HoldingIdentity], holdings_b: &[HoldingIdentity]) -> (r: Vec<HoldingMatch>)
    ensures
        match_views(r@) == expected_matches(holdings_a@, holdings_b@, holdings_a@.len() as int),
{
    let mut keys: Vec<Option<String>> = Vec::new();
    let mut names: Vec<Option<String>> = Vec::new();
    let mut j: usize = 0;
    while j < holdings_b.len()
        invariant
            j <= holdings_b@.len(),
            keys@.len() == j,
            names@.len() == j,
            forall|x: int| 0 <= x < j ==> opt_string_view(#[trigger] keys@[x]) == ticker_key(holdings_b@[x]),
            forall|x: int| 0 <= x < j ==> opt_string_view(#[trigger] names@[x]) == (if holding_is_cash(holdings_b@[x]) {
                None
            } else {
                Some(name_key(holdings_b@[x]))
            }),
        decreases holdings_b@.len() - j,
    {
        let b = &holdings_b[j];
        keys.push(ticker_key_of(b));
        if holding_cash(b) {
            names.push(None);
        } else {
            names.push(Some(normalize_name(b.name.as_str())));
        }
        j = j + 1;
    }
    let mut matches: Vec<HoldingMatch> = Vec::new();
    let mut i: usize = 0;
    while i < holdings_a.len()
        invariant
            i <= holdings_a@.len(),
            keys@.len() == holdings_b@.len(),
            names@.len() == holdings_b@.len(),
            forall|x: int| 0 <= x < holdings_b@.len() ==> opt_string_view(#[trigger] keys@[x]) == ticker_key(holdings_b@[x]),
            forall|x: int| 0 <= x < holdings_b@.len() ==> opt_string_view(#[trigger] names@[x]) == (if holding_is_cash(holdings_b@[x]) {
                None
            } else {
                Some(name_key(holdings_b@[x]))
            }),
            match_views(matches@) == expected_matches(holdings_a@, holdings_b@, i as int),
        decreases holdings_a@.len() - i,
    {
        let a = &holdings_a[i];
        let ghost before = matches@;
        if !holding_cash(a) {
            let given = given_ticker_of(a);
            let found = match &given {
                Some(t) => {
                    let key = to_uppercase(t.as_str());
                    match find_by_ticker(holdings_b, &keys, key.as_str()) {
                        Some(jb) => Some(jb),
                        None => {
                            let name = normalize_name(a.name.as_str());
                            match find_by_name(holdings_b, &names, name.as_str()) {
                                Some(jb) => {
                                    let lacks = match &holdings_b[jb].ticker {
                                        Some(tb) => tb.as_str().is_empty(),
                                        None => true,
                                    };
                                    if lacks {
                                        Some(jb)
                                    } else {
                                        None
                                    }
                                },
                                None => None,
                            }
                        },
                    }
                },
                None => {
                    let name = normalize_name(a.name.as_str());
                    find_by_name(holdings_b, &names, name.as_str())
                },
            };
            assert(found == match matched_holding(*a, holdings_b@) {
                Some(x) => Some(x as usize),
                None => None::<usize>,
            });
            match found {
                Some(jb) => {
                    let ticker = match given {
                        Some(t) => Some(t),
                        None => copy_opt_text(&holdings_b[jb].ticker),
                    };
                    matches.push(HoldingMatch { index_a: i, index_b: jb, ticker });
                    assert(match_views(matches@) =~= match_views(before).push(
                        (i as int, jb as int, shown_ticker(*a, holdings_b@[jb as int])),
                    ));
                },
                None => {},
            }
        }
        assert(holdings_a@[i as int] == *a);
        i = i + 1;
    }
    matches
}

// ---------------------------------------------------------------------------
// Coverage
// ---------------------------------------------------------------------------

/// `(first, last)` are the earliest and the latest readable dates.
pub open spec fn are_date_bounds(dates: Seq<String>, first: int, last: int) -> bool {
    &&& exists|k: int| 0 <= k < dates.len() && iso_day((#[trigger] dates[k])@) == Some(first)
    &&& exists|k: int| 0 <= k < dates.len() && iso_day((#[trigger] dates[k])@) == Some(last)
    &&& forall|k: int| 0 <= k < dates.len() && (#[trigger] iso_day(dates[k]@)) is Some ==> first <= iso_day(dates[k]@)->Some_0 <= last
}

pub open spec fn some_date_readable(dates: Seq<String>) -> bool {
    exists|k: int| 0 <= k < dates.len() && (#[trigger] iso_day(dates[k]@)) is Some
}

/// The earliest and the latest readable dates of a price history.
pub fn price_date_bounds(dates: &[String]) -> (r: Option<(i32, i32)>)
    ensures
        r is None <==> !some_date_readable(dates@),
        r is Some ==> are_date_bounds(dates@, r->Some_0.0 as int, r->Some_0.1 as int),
        r is Some ==> valid_day(r->Some_0.0 as int) && valid_day(r->Some_0.1 as int),
{
    let mut bounds: Option<(i32, i32)> = None;
    let mut i: usize = 0;
    while i < dates.len()
        invariant
            i <= dates@.len(),
            bounds is None <==> !some_date_readable(dates@.take(i as int)),
            bounds is Some ==> are_date_bounds(dates@.take(i as int), bounds->Some_0.0 as int, bounds->Some_0.1 as int),
            bounds is Some ==> valid_day(bounds->Some_0.0 as int) && valid_day(bounds->Some_0.1 as int),
        decreases dates@.len() - i,
    {
        let ghost before = dates@.take(i as int);
        let ghost after = dates@.take(i + 1);
        assert(after.drop_last() =~= before);
        assert(after[i as int] == dates@[i as int]);
        assert forall|k: int| 0 <= k < i implies #[trigger] after[k] == before[k] by {}
        match parse_iso_day(dates[i].as_str()) {
            None => {
                proof {
                    if some_date_readable(after) {
                        let k = choose|k: int| 0 <= k < after.len() && (#[trigger] iso_day(after[k]@)) is Some;
                        assert(k < i);
                        assert(iso_day(before[k]@) is Some);
                    }
                    if some_date_readable(before) {
                        let k = choose|k: int| 0 <= k < before.len() && (#[trigger] iso_day(before[k]@)) is Some;
                        assert(iso_day(after[k]@) is Some);
                    }
                    if bounds is Some {
                        let (f, l) = bounds->Some_0;
                        let kf = choose|k: int| 0 <= k < before.len() && iso_day((#[trigger] before[k])@) == Some(f as int);
                        let kl = choose|k: int| 0 <= k < before.len() && iso_day((#[trigger] before[k])@) == Some(l as int);
                        assert(after[kf] == before[kf] && after[kl] == before[kl]);
                        assert forall|k: int| 0 <= k < after.len() && (#[trigger] iso_day(after[k]@)) is Some implies f <= iso_day(after[k]@)->Some_0 <= l by {
                            assert(k < i);
                            assert(iso_day(before[k]@) is Some);
                        }
                    }
                }
            },
            Some(d) => {
                let ghost old_bounds = bounds;
                let next = match bounds {
                    None => (d, d),
                    Some((f, l)) => (if d < f { d } else { f }, if d > l { d } else { l }),
                };
                bounds = Some(next);
                proof {
                    assert(some_date_readable(after)) by {
                        assert(iso_day(after[i as int]@) is Some);
                    }
                    let (f2, l2) = next;
                    assert(exists|k: int| 0 <= k < after.len() && iso_day((#[trigger] after[k])@) == Some(f2 as int)) by {
                        if old_bounds is Some && f2 != d {
                            let f = old_bounds->Some_0.0;
                            let kf = choose|k: int| 0 <= k < before.len() && iso_day((#[trigger] before[k])@) == Some(f as int);
                            assert(after[kf] == before[kf]);
                        } else {
                            assert(iso_day(after[i as int]@) == Some(f2 as int));
                        }
                    }
                    assert(exists|k: int| 0 <= k < after.len() && iso_day((#[trigger] after[k])@) == Some(l2 as int)) by {
                        if old_bounds is Some && l2 != d {
                            let l = old_bounds->Some_0.1;
                            let kl = choose|k: int| 0 <= k < before.len() && iso_day((#[trigger] before[k])@) == Some(l as int);
                            assert(after[kl] == before[kl]);
                        } else {
                            assert(iso_day(after[i as int]@) == Some(l2 as int));
                        }
                    }
                    assert forall|k: int| 0 <= k < after.len() && (#[trigger] iso_day(after[k]@)) is Some implies f2 <= iso_day(after[k]@)->Some_0 <= l2 by {
                        if k < i {
                            assert(iso_day(before[k]@) is Some);
                            assert(old_bounds is Some) by {
                                assert(some_date_readable(before));
                            }
                        }
                    }
                }
            },
        }
        i = i + 1;
    }
    assert(dates@.take(dates@.len() as int) =~= dates@);
    bounds
}

pub open spec fn comparison_coverage_problem(
    dates: Seq<String>,
    bounds: Option<(int, int)>,
    requested_start: int,
    requested_end: int,
    label: Seq<char>,
) -> Option<Seq<char>> {
    match bounds {
        None => Some(label + " has no price history"@),
        Some((first, last)) => if first > requested_start + COVERAGE_TOLERANCE_DAYS {
            Some(label + " lacks selected-period start coverage"@)
        } else if last < requested_end - COVERAGE_TOLERANCE_DAYS {
            Some(label + " lacks current price coverage"@)
        } else {
            None
        },
    }
}

pub open spec fn opt_string_view(s: Option<String>) -> Option<Seq<char>> {
    match s {
        Some(t) => Some(t@),
        None => None,
    }
}

fn message_with_label(label: &str, suffix: &str) -> (r: String)
    ensures
        r@ == label@ + suffix@,
{
    let mut message = copy_text(label);
    message.append(suffix);
    message
}

/// Why a fund's price history (its dates) does not cover the comparison
/// period: it needs readable dates reaching both ends of the period within
/// the tolerance.
pub fn coverage_reason(dates: &[String], requested_start: i32, requested_end: i32, label: &str) -> (r: Option<String>)
    requires
        valid_day(requested_start as int),
        valid_day(requested_end as int),
    ensures
        !some_date_readable(dates@) ==> opt_string_view(r) == Some(label@ + " has no price history"@),
        some_date_readable(dates@) ==> exists|first: int, last: int|
            are_date_bounds(dates@, first, last) && opt_string_view(r) == comparison_coverage_problem(
                dates@,
                Some((first, last)),
                requested_start as int,
                requested_end as int,
                label@,
            ),
{
    match price_date_bounds(dates) {
        None => Some(message_with_label(label, " has no price history")),
        Some((first, last)) => {
            let r = if first > requested_start + COVERAGE_TOLERANCE_DAYS {
                Some(message_with_label(label, " lacks selected-period start coverage"))
            } else if last < requested_end - COVERAGE_TOLERANCE_DAYS {
                Some(message_with_label(label, " lacks current price coverage"))
            } else {
                None
            };
            assert(are_date_bounds(dates@, first as int, last as int));
            r
        },
    }
}

} // verus!
