//! Tracked-asset maintenance: merging classification updates into stored
//! values and deciding what an update invalidates.
use vstd::prelude::*;
use crate::models::asset::{Asset, AssetType};
use crate::models::classification::{
    asset_class_named, bond_credit_named, bond_duration_named, classification_problem,
    equity_style_named, management_named, opt_text_view, AssetClass, AssetClassification,
    BondCredit, BondDuration, EquityStyle, Management,
};
use crate::text::copy_text;

verus! {

/// The message for a stored classification value that no longer parses.
pub open spec fn invalid_stored_value_message(field: Seq<char>, value: Seq<char>) -> Seq<char> {
    "stored "@ + field + " value '"@ + value + "' is invalid"@
}

fn invalid_stored_value(field: &str, value: &str) -> (r: String)
    ensures
        r@ == invalid_stored_value_message(field@, value@),
{
    let mut message = String::from_str("stored ");
    message.append(field);
    message.append(" value '");
    message.append(value);
    message.append("' is invalid");
    message
}

pub open spec fn opt_string_view(s: Option<String>) -> Option<Seq<char>> {
    match s {
        Some(t) => Some(t@),
        None => None,
    }
}

/// Reading one stored field: absent stays absent, a known name parses,
/// anything else is an error naming the field and value.
pub open spec fn stored_field<T>(
    value: Option<Seq<char>>,
    field: Seq<char>,
    named: spec_fn(Seq<char>) -> Option<T>,
) -> Result<Option<T>, Seq<char>> {
    match value {
        None => Ok(None),
        Some(v) => match named(v) {
            Some(t) => Ok(Some(t)),
            None => Err(invalid_stored_value_message(field, v)),
        },
    }
}

/// One field of a merge: the update wins, otherwise the stored value.
pub open spec fn merged_field<T>(update: Option<T>, stored: Option<T>) -> Option<T> {
    match update {
        Some(t) => Some(t),
        None => stored,
    }
}

/// Every stored field is read (in the order asset class, equity style, bond
/// credit, bond duration, management) even when an update replaces it, and
/// the first one that does not parse is reported.
pub open spec fn merge_outcome(existing: Asset, updates: AssetClassification) -> Result<AssetClassification, Seq<char>> {
    let ac = stored_field(opt_string_view(existing.asset_class), "asset class"@, |s| asset_class_named(s));
    let es = stored_field(opt_string_view(existing.equity_style), "equity style"@, |s| equity_style_named(s));
    let bc = stored_field(opt_string_view(existing.bond_credit), "bond credit"@, |s| bond_credit_named(s));
    let bd = stored_field(opt_string_view(existing.bond_duration), "bond duration"@, |s| bond_duration_named(s));
    let mg = stored_field(opt_string_view(existing.management), "management"@, |s| management_named(s));
    if ac is Err {
        Err(ac->Err_0)
    } else if es is Err {
        Err(es->Err_0)
    } else if bc is Err {
        Err(bc->Err_0)
    } else if bd is Err {
        Err(bd->Err_0)
    } else if mg is Err {
        Err(mg->Err_0)
    } else {
        Ok(
            AssetClassification {
                asset_class: merged_field(updates.asset_class, ac->Ok_0),
                equity_style: merged_field(updates.equity_style, es->Ok_0),
                bond_credit: merged_field(updates.bond_credit, bc->Ok_0),
                bond_duration: merged_field(updates.bond_duration, bd->Ok_0),
                management: merged_field(updates.management, mg->Ok_0),
            },
        )
    }
}

fn stored_asset_class(value: &Option<String>) -> (r: Result<Option<AssetClass>, String>)
    ensures
        match stored_field(opt_string_view(*value), "asset class"@, |s| asset_class_named(s)) {
            Ok(v) => r == Ok::<Option<AssetClass>, String>(v),
            Err(m) => r is Err && r->Err_0@ == m,
        },
{
    match value {
        None => Ok(None),
        Some(v) => match AssetClass::from_db(v.as_str()) {
            Some(t) => Ok(Some(t)),
            None => Err(invalid_stored_value("asset class", v.as_str())),
        },
    }
}

fn stored_equity_style(value: &Option<String>) -> (r: Result<Option<EquityStyle>, String>)
    ensures
        match stored_field(opt_string_view(*value), "equity style"@, |s| equity_style_named(s)) {
            Ok(v) => r == Ok::<Option<EquityStyle>, String>(v),
            Err(m) => r is Err && r->Err_0@ == m,
        },
{
    match value {
        None => Ok(None),
        Some(v) => match EquityStyle::from_db(v.as_str()) {
            Some(t) => Ok(Some(t)),
            None => Err(invalid_stored_value("equity style", v.as_str())),
        },
    }
}

fn stored_bond_credit(value: &Option<String>) -> (r: Result<Option<BondCredit>, String>)
    ensures
        match stored_field(opt_string_view(*value), "bond credit"@, |s| bond_credit_named(s)) {
            Ok(v) => r == Ok::<Option<BondCredit>, String>(v),
            Err(m) => r is Err && r->Err_0@ == m,
        },
{
    match value {
        None => Ok(None),
        Some(v) => match BondCredit::from_db(v.as_str()) {
            Some(t) => Ok(Some(t)),
            None => Err(invalid_stored_value("bond credit", v.as_str())),
        },
    }
}

fn stored_bond_duration(value: &Option<String>) -> (r: Result<Option<BondDuration>, String>)
    ensures
        match stored_field(opt_string_view(*value), "bond duration"@, |s| bond_duration_named(s)) {
            Ok(v) => r == Ok::<Option<BondDuration>, String>(v),
            Err(m) => r is Err && r->Err_0@ == m,
        },
{
    match value {
        None => Ok(None),
        Some(v) => match BondDuration::from_db(v.as_str()) {
            Some(t) => Ok(Some(t)),
            None => Err(invalid_stored_value("bond duration", v.as_str())),
        },
    }
}

fn stored_management(value: &Option<String>) -> (r: Result<Option<Management>, String>)
    ensures
        match stored_field(opt_string_view(*value), "management"@, |s| management_named(s)) {
            Ok(v) => r == Ok::<Option<Management>, String>(v),
            Err(m) => r is Err && r->Err_0@ == m,
        },
{
    match value {
        None => Ok(None),
        Some(v) => match Management::from_db(v.as_str()) {
            Some(t) => Ok(Some(t)),
            None => Err(invalid_stored_value("management", v.as_str())),
        },
    }
}

/// Merges classification updates into an asset's stored classification.
pub fn merge_classification(existing: &Asset, updates: &AssetClassification) -> (r: Result<AssetClassification, String>)
    ensures
        match merge_outcome(*existing, *updates) {
            Ok(c) => r matches Ok(x) && x == c,
            Err(m) => r is Err && r->Err_0@ == m,
        },
{
    let ac = stored_asset_class(&existing.asset_class)?;
    let es = stored_equity_style(&existing.equity_style)?;
    let bc = stored_bond_credit(&existing.bond_credit)?;
    let bd = stored_bond_duration(&existing.bond_duration)?;
    let mg = stored_management(&existing.management)?;
    Ok(
        AssetClassification {
            asset_class: match updates.asset_class {
                Some(v) => Some(v),
                None => ac,
            },
            equity_style: match updates.equity_style {
                Some(v) => Some(v),
                None => es,
            },
            bond_credit: match updates.bond_credit {
                Some(v) => Some(v),
                None => bc,
            },
            bond_duration: match updates.bond_duration {
                Some(v) => Some(v),
                None => bd,
            },
            management: match updates.management {
                Some(v) => Some(v),
                None => mg,
            },
        },
    )
}

/// What updating a tracked asset writes: the merged classification, the
/// Morningstar code to keep, and whether the asset's cached prices and
/// snapshots must be discarded.
#[derive(Debug)]
pub struct AssetUpdatePlan {
    pub classification: AssetClassification,
    pub morningstar_code: Option<String>,
    pub invalidate_price_cache: bool,
}

/// The code after an update: the new one if given, else the stored one.
pub open spec fn updated_code(existing: Asset, morningstar_code: Option<Seq<char>>) -> Option<Seq<char>> {
    match morningstar_code {
        Some(c) => Some(c),
        None => opt_string_view(existing.morningstar_code),
    }
}

/// Prices of a fund or ETF come from its Morningstar code, so giving it a
/// different code makes its cached prices stale.
pub open spec fn update_invalidates_prices(existing: Asset, morningstar_code: Option<Seq<char>>) -> bool {
    existing.asset_type != AssetType::Stock && morningstar_code is Some && opt_string_view(existing.morningstar_code)
        != morningstar_code
}

fn copy_opt_text(s: Option<&str>) -> (r: Option<String>)
    ensures
        opt_string_view(r) == opt_text_view(s),
{
    match s {
        Some(t) => Some(copy_text(t)),
        None => None,
    }
}

/// The decisions of `update_tracked_asset`: merge, fall back to the stored
/// code, validate the result for the asset's type, decide on invalidation.
pub fn plan_asset_update(existing: &Asset, classification: &AssetClassification, morningstar_code: Option<&str>) -> (r: Result<AssetUpdatePlan, String>)
    ensures
        match merge_outcome(*existing, *classification) {
            Err(m) => r is Err && r->Err_0@ == m,
            Ok(merged) => match classification_problem(merged, existing.asset_type, updated_code(*existing, opt_text_view(morningstar_code))) {
                Some(m) => r is Err && r->Err_0@ == m,
                None => r is Ok && r->Ok_0.classification == merged
                    && opt_string_view(r->Ok_0.morningstar_code) == updated_code(*existing, opt_text_view(morningstar_code))
                    && r->Ok_0.invalidate_price_cache == update_invalidates_prices(*existing, opt_text_view(morningstar_code)),
            },
        },
{
    let merged = merge_classification(existing, classification)?;
    let code: Option<String> = match morningstar_code {
        Some(c) => Some(copy_text(c)),
        None => match &existing.morningstar_code {
            Some(c) => Some(copy_text(c.as_str())),
            None => None,
        },
    };
    let code_ref: Option<&str> = match &code {
        Some(c) => Some(c.as_str()),
        None => None,
    };
    merged.validate_for_asset(&existing.asset_type, code_ref)?;
    let changed = match (&existing.morningstar_code, morningstar_code) {
        (Some(old), Some(new)) => !crate::text::text_eq(old.as_str(), new),
        (None, Some(_)) => true,
        (_, None) => false,
    };
    let invalidate = existing.asset_type.is_fund_like() && morningstar_code.is_some() && changed;
    Ok(AssetUpdatePlan { classification: merged, morningstar_code: code, invalidate_price_cache: invalidate })
}

/// An update that names no field keeps every stored field as stored.
pub proof fn lemma_empty_update_keeps_stored(existing: Asset, updates: AssetClassification)
    requires
        crate::models::classification::classification_is_empty(updates),
        merge_outcome(existing, updates) is Ok,
    ensures
        ({
            let m = merge_outcome(existing, updates)->Ok_0;
            &&& m.asset_class == stored_field(opt_string_view(existing.asset_class), "asset class"@, |s| asset_class_named(s))->Ok_0
            &&& m.equity_style == stored_field(opt_string_view(existing.equity_style), "equity style"@, |s| equity_style_named(s))->Ok_0
            &&& m.bond_credit == stored_field(opt_string_view(existing.bond_credit), "bond credit"@, |s| bond_credit_named(s))->Ok_0
            &&& m.bond_duration == stored_field(opt_string_view(existing.bond_duration), "bond duration"@, |s| bond_duration_named(s))->Ok_0
            &&& m.management == stored_field(opt_string_view(existing.management), "management"@, |s| management_named(s))->Ok_0
        }),
{
}

/// Every field an update names replaces the stored one.
pub proof fn lemma_update_fields_win(existing: Asset, updates: AssetClassification)
    requires
        merge_outcome(existing, updates) is Ok,
    ensures
        ({
            let m = merge_outcome(existing, updates)->Ok_0;
            &&& updates.asset_class is Some ==> m.asset_class == updates.asset_class
            &&& updates.equity_style is Some ==> m.equity_style == updates.equity_style
            &&& updates.bond_credit is Some ==> m.bond_credit == updates.bond_credit
            &&& updates.bond_duration is Some ==> m.bond_duration == updates.bond_duration
            &&& updates.management is Some ==> m.management == updates.management
        }),
{
}

} // verus!
