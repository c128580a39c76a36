//! Transaction CSV export: the text columns of each exported row, in the
//! schema the import reads.  Writing the file and formatting the numeric
//! columns happen outside this module.
use vstd::prelude::*;
use crate::calendar::{display_date, formatted_day, iso_day, DISPLAY_DATE_FORMAT};
use crate::models::asset::{asset_type_text, Asset};
use crate::models::transaction::{tx_type_text, TxType};
use crate::services::import::{expected_header_names, expected_headers, headers_fit};
use crate::text::{copy_text, trimmed};

verus! {

/// The header row of the export: the import schema.
pub fn export_header() -> (r: Vec<String>)
    ensures
        r@.len() == 15,
        forall|k: int| 0 <= k < 15 ==> (#[trigger] r@[k])@ == expected_headers()[k],
{
    let names = expected_header_names();
    let mut header: Vec<String> = Vec::new();
    let mut k: usize = 0;
    while k < 15
        invariant
            names@.len() == 15,
            forall|m: int| 0 <= m < 15 ==> (#[trigger] names@[m])@ == expected_headers()[m],
            k <= 15,
            header@.len() == k,
            forall|m: int| 0 <= m < k ==> (#[trigger] header@[m])@ == expected_headers()[m],
        decreases 15 - k,
    {
        header.push(String::from_str(names[k]));
        k = k + 1;
    }
    header
}

pub open spec fn opt_field(s: Option<String>) -> Seq<char> {
    match s {
        Some(t) => t@,
        None => Seq::empty(),
    }
}

/// `r` are the text columns (all but quantity, price and fees) of the
/// exported row of a transaction of type `tx_type` dated `date` whose asset
/// is `asset`; an unknown asset is exported with ticker `unknown` and empty
/// descriptions.
pub open spec fn export_text_fields_are(r: Seq<String>, asset: Option<Asset>, date: Seq<char>, tx_type: TxType) -> bool {
    &&& r.len() == 12
    &&& r[0]@ == (match iso_day(date) {
        Some(day) => formatted_day(day, DISPLAY_DATE_FORMAT@),
        None => date,
    })
    &&& r[11]@ == tx_type_text(tx_type)
    &&& match asset {
        Some(a) => {
            &&& r[1]@ == a.ticker@
            &&& r[2]@ == a.name@
            &&& r[3]@ == asset_type_text(a.asset_type)
            &&& r[4]@ == a.currency@
            &&& r[5]@ == opt_field(a.morningstar_code)
            &&& r[6]@ == opt_field(a.asset_class)
            &&& r[7]@ == opt_field(a.equity_style)
            &&& r[8]@ == opt_field(a.bond_credit)
            &&& r[9]@ == opt_field(a.bond_duration)
            &&& r[10]@ == opt_field(a.management)
        },
        None => {
            &&& r[1]@ == "unknown"@
            &&& forall|k: int| 2 <= k <= 10 ==> (#[trigger] r[k])@ == Seq::<char>::empty()
        },
    }
}

fn field_text(s: &Option<String>) -> (r: String)
    ensures
        r@ == opt_field(*s),
{
    match s {
        Some(t) => copy_text(t.as_str()),
        None => String::new(),
    }
}

/// The text columns of an exported row, in schema order, without the
/// quantity, price and fees.
pub fn export_text_fields(asset: Option<&Asset>, date: &str, tx_type: TxType) -> (r: Vec<String>)
    ensures
        export_text_fields_are(r@, match asset {
            Some(a) => Some(*a),
            None => None,
        }, date@, tx_type),
{
    let mut fields: Vec<String> = Vec::new();
    let shown = display_date(date);
    let ghost shown_view = shown@;
    fields.push(shown);
    match asset {
        Some(a) => {
            fields.push(copy_text(a.ticker.as_str()));
            fields.push(copy_text(a.name.as_str()));
            fields.push(a.asset_type.to_string());
            fields.push(copy_text(a.currency.as_str()));
            fields.push(field_text(&a.morningstar_code));
            fields.push(field_text(&a.asset_class));
            fields.push(field_text(&a.equity_style));
            fields.push(field_text(&a.bond_credit));
            fields.push(field_text(&a.bond_duration));
            fields.push(field_text(&a.management));
        },
        None => {
            fields.push(String::from_str("unknown"));
            let mut k: usize = 0;
            while k < 9
                invariant
                    k <= 9,
                    fields@.len() == 2 + k,
                    fields@[0]@ == shown_view,
                    fields@[1]@ == "unknown"@,
                    forall|m: int| 2 <= m < 2 + k ==> (#[trigger] fields@[m])@ == Seq::<char>::empty(),
                decreases 9 - k,
            {
                fields.push(String::new());
                k = k + 1;
            }
        },
    }
    fields.push(tx_type.to_string());
    fields
}

/// The exported header passes the import's header check.
pub proof fn lemma_export_header_is_importable(header: Seq<String>)
    requires
        header.len() == 15,
        forall|k: int| 0 <= k < 15 ==> (#[trigger] header[k])@ == expected_headers()[k],
    ensures
        headers_fit(header),
{
    assert forall|k: int| 0 <= k < 15 implies trimmed((#[trigger] header[k])@) == expected_headers()[k] by {
        lemma_headers_have_no_surrounding_space(k);
    }
}

proof fn lemma_headers_have_no_surrounding_space(k: int)
    requires
        0 <= k < 15,
    ensures
        trimmed(expected_headers()[k]) == expected_headers()[k],
{
    reveal_strlit("Date");
    reveal_strlit("Ticker");
    reveal_strlit("Name");
    reveal_strlit("AssetType");
    reveal_strlit("Currency");
    reveal_strlit("MorningstarCode");
    reveal_strlit("AssetClass");
    reveal_strlit("EquityStyle");
    reveal_strlit("BondCredit");
    reveal_strlit("BondDuration");
    reveal_strlit("Management");
    reveal_strlit("Type");
    reveal_strlit("Quantity");
    reveal_strlit("Price");
    reveal_strlit("Fees");
    crate::text::lemma_trimmed_plain(expected_headers()[k]);
}

} // verus!
