//! Recording transactions: the dates they accept, the messages they report
//! and the portfolio history they invalidate.  Amount checks and the
//! database writes happen outside this module.
use vstd::prelude::*;
use crate::calendar::{is_canonical_date, iso_day, parse_iso_day, canonical_date};
use crate::models::transaction::TxType;
use crate::text::{
    compare_text, copy_text, int_text, i32_text, lemma_text_order_antisym, lemma_text_order_eq,
    lemma_text_order_range, lemma_text_order_trans, text_order,
};

verus! {

/// The identifier of a recorded transaction and its one-line summary.
#[derive(Clone, Debug)]
pub struct TransactionReceipt {
    pub transaction_id: i32,
    pub summary: String,
}

pub open spec fn invalid_date_message(date: Seq<char>) -> Seq<char> {
    "invalid date '"@ + date + "', expected YYYY-MM-DD format"@
}

pub open spec fn future_date_message(date: Seq<char>) -> Seq<char> {
    "date cannot be in the future: "@ + date
}

/// A transaction date must be a canonical `YYYY-MM-DD` date no later than
/// `today`.
pub open spec fn date_problem(date: Seq<char>, today: int) -> Option<Seq<char>> {
    if !is_canonical_date(date) {
        Some(invalid_date_message(date))
    } else if iso_day(date)->Some_0 > today {
        Some(future_date_message(date))
    } else {
        None
    }
}

pub fn validate_date(date: &str, today: i32) -> (r: Result<(), String>)
    ensures
        match date_problem(date@, today as int) {
            Some(m) => r is Err && r->Err_0@ == m,
            None => r is Ok,
        },
{
    if !canonical_date(date) {
        let mut message = String::from_str("invalid date '");
        message.append(date);
        message.append("', expected YYYY-MM-DD format");
        return Err(message);
    }
    match parse_iso_day(date) {
        Some(day) => {
            if day > today {
                let mut message = String::from_str("date cannot be in the future: ");
                message.append(date);
                return Err(message);
            }
            Ok(())
        },
        None => {
            let mut message = String::from_str("invalid date '");
            message.append(date);
            message.append("', expected YYYY-MM-DD format");
            Err(message)
        },
    }
}

/// `t` is the least of the dates (in text order, which is date order for
/// canonical dates), the empty text when there are none.
pub open spec fn is_earliest(t: Seq<char>, dates: Seq<Seq<char>>) -> bool {
    &&& dates.len() == 0 ==> t == Seq::<char>::empty()
    &&& dates.len() > 0 ==> exists|k: int| 0 <= k < dates.len() && #[trigger] dates[k] == t
    &&& forall|k: int| 0 <= k < dates.len() ==> text_order(t, #[trigger] dates[k]) <= 0
}

pub open spec fn with_additional(dates: Seq<String>, additional: Option<&str>) -> Seq<Seq<char>> {
    let views = dates.map_values(|d: String| d@);
    match additional {
        Some(a) => views.push(a@),
        None => views,
    }
}

/// The earliest of an asset's transaction dates and an optional further
/// date, or the empty text when there is none.
pub fn earliest_transaction_date(dates: &[String], additional_date: Option<&str>) -> (r: String)
    ensures
        is_earliest(r@, with_additional(dates@, additional_date)),
{
    let ghost all = with_additional(dates@, additional_date);
    let ghost views = dates@.map_values(|d: String| d@);
    let mut best: Option<String> = None;
    let mut i: usize = 0;
    while i < dates.len()
        invariant
            i <= dates@.len(),
            views == dates@.map_values(|d: String| d@),
            best is None <==> i == 0,
            best is Some ==> exists|k: int| 0 <= k < i && #[trigger] views[k] == best->Some_0@,
            best is Some ==> forall|k: int| 0 <= k < i ==> text_order(best->Some_0@, #[trigger] views[k]) <= 0,
        decreases dates@.len() - i,
    {
        let d = &dates[i];
        assert(views[i as int] == d@);
        let replace = match &best {
            None => true,
            Some(b) => compare_text(d.as_str(), b.as_str()) < 0,
        };
        proof {
            lemma_text_order_eq(d@, d@);
            if best is Some {
                let b = best->Some_0;
                lemma_text_order_range(d@, b@);
                lemma_text_order_antisym(d@, b@);
                if replace {
                    assert forall|k: int| 0 <= k < i + 1 implies text_order(d@, #[trigger] views[k]) <= 0 by {
                        if k < i {
                            lemma_text_order_trans(d@, b@, views[k]);
                        }
                    }
                } else {
                    let k0 = choose|k: int| 0 <= k < i && #[trigger] views[k] == b@;
                    assert(0 <= k0 < i + 1 && views[k0] == b@);
                }
            }
        }
        if replace {
            best = Some(copy_text(d.as_str()));
        }
        i = i + 1;
    }
    let result = match additional_date {
        Some(a) => {
            let replace = match &best {
                None => true,
                Some(b) => compare_text(a, b.as_str()) < 0,
            };
            proof {
                lemma_text_order_eq(a@, a@);
                if best is Some {
                let b = best->Some_0;
                    lemma_text_order_range(a@, b@);
                    lemma_text_order_antisym(a@, b@);
                    if replace {
                        assert forall|k: int| 0 <= k < views.len() implies text_order(a@, #[trigger] views[k]) <= 0 by {
                            lemma_text_order_trans(a@, b@, views[k]);
                        }
                    }
                }
            }
            if replace {
                copy_text(a)
            } else {
                match best {
                    Some(b) => b,
                    None => String::new(),
                }
            }
        },
        None => match best {
            Some(b) => b,
            None => String::new(),
        },
    };
    proof {
        assert(all.len() == 0 ==> result@ =~= Seq::<char>::empty());
        if additional_date is Some {
            let a = additional_date->Some_0;
            assert(all == views.push(a@));
            assert(all[views.len() as int] == a@);
            assert forall|k: int| 0 <= k < all.len() implies text_order(result@, #[trigger] all[k]) <= 0 by {
                if k < views.len() {
                    assert(all[k] == views[k]);
                }
            }
            if result@ != a@ {
                let k0 = choose|k: int| 0 <= k < views.len() && #[trigger] views[k] == result@;
                assert(all[k0] == views[k0]);
            }
        }
    }
    result
}

/// The date from which editing a transaction invalidates portfolio
/// history: for a split the earliest transaction of its asset (counting the
/// new date), otherwise the earlier of the old and the new date.
pub open spec fn edit_invalidation(is_split: bool, tx_date: Seq<char>, asset_dates: Seq<Seq<char>>, new_date: Option<Seq<char>>, split_start: Seq<char>) -> Seq<char> {
    if is_split {
        split_start
    } else {
        match new_date {
            Some(d) => if text_order(d, tx_date) < 0 {
                d
            } else {
                tx_date
            },
            None => tx_date,
        }
    }
}

pub open spec fn opt_str_view(s: Option<&str>) -> Option<Seq<char>> {
    match s {
        Some(t) => Some(t@),
        None => None,
    }
}

/// Where an edit of a transaction dated `tx_date` invalidates portfolio
/// history from; `asset_dates` are the dates of its asset's transactions
/// after the edit.
pub fn edit_invalidation_date(tx_type: TxType, tx_date: &str, asset_dates: &[String], new_date: Option<&str>) -> (r: String)
    ensures
        tx_type == TxType::Split ==> is_earliest(r@, with_additional(asset_dates@, new_date)),
        tx_type != TxType::Split ==> r@ == edit_invalidation(false, tx_date@, Seq::empty(), opt_str_view(new_date), Seq::empty()),
{
    if tx_type == TxType::Split {
        earliest_transaction_date(asset_dates, new_date)
    } else {
        match new_date {
            Some(d) => {
                if compare_text(d, tx_date) < 0 {
                    copy_text(d)
                } else {
                    copy_text(tx_date)
                }
            },
            None => copy_text(tx_date),
        }
    }
}

/// Where deleting a transaction invalidates portfolio history from: for a
/// split the earliest transaction of its asset, otherwise its own date.
pub fn delete_invalidation_date(tx_type: TxType, tx_date: &str, asset_dates: &[String]) -> (r: String)
    ensures
        tx_type == TxType::Split ==> is_earliest(r@, with_additional(asset_dates@, None)),
        tx_type != TxType::Split ==> r@ == tx_date@,
{
    if tx_type == TxType::Split {
        earliest_transaction_date(asset_dates, None)
    } else {
        copy_text(tx_date)
    }
}

pub open spec fn asset_not_found_message(tx_type: TxType, ticker: Seq<char>) -> Seq<char> {
    if tx_type == TxType::Buy {
        "asset with ticker '"@ + ticker + "' not found; create it first with `rstock portfolio asset add -t "@ + ticker
            + " ...`"@
    } else {
        "Asset with ticker '"@ + ticker + "' not found"@
    }
}

/// The error for recording a transaction against a ticker with no asset:
/// a buy also says how to create the asset.
pub fn asset_not_found(tx_type: TxType, ticker: &str) -> (r: String)
    ensures
        r@ == asset_not_found_message(tx_type, ticker@),
{
    if tx_type == TxType::Buy {
        let mut message = String::from_str("asset with ticker '");
        message.append(ticker);
        message.append("' not found; create it first with `rstock portfolio asset add -t ");
        message.append(ticker);
        message.append(" ...`");
        message
    } else {
        let mut message = String::from_str("Asset with ticker '");
        message.append(ticker);
        message.append("' not found");
        message
    }
}

pub open spec fn transaction_message(id: int, suffix: Seq<char>) -> Seq<char> {
    "Transaction "@ + int_text(id) + suffix
}

/// `Transaction N not found`.
pub fn transaction_not_found(id: i32) -> (r: String)
    ensures
        r@ == transaction_message(id as int, " not found"@),
{
    let mut message = String::from_str("Transaction ");
    let number = i32_text(id);
    message.append(number.as_str());
    message.append(" not found");
    message
}

/// The receipt of deleting transaction `id`.
pub fn deletion_receipt(id: i32) -> (r: TransactionReceipt)
    ensures
        r.transaction_id == id,
        r.summary@ == transaction_message(id as int, " deleted."@),
{
    let mut summary = String::from_str("Transaction ");
    let number = i32_text(id);
    summary.append(number.as_str());
    summary.append(" deleted.");
    TransactionReceipt { transaction_id: id, summary }
}

/// The receipt of editing transaction `id`.
pub fn edit_receipt(id: i32) -> (r: TransactionReceipt)
    ensures
        r.transaction_id == id,
        r.summary@ == transaction_message(id as int, " updated."@),
{
    let mut summary = String::from_str("Transaction ");
    let number = i32_text(id);
    summary.append(number.as_str());
    summary.append(" updated.");
    TransactionReceipt { transaction_id: id, summary }
}

} // verus!
