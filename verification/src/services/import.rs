//! Transaction CSV import: reading the records of the file's bytes, the
//! classified schema, the parsing of a row's text fields, the date order
//! rows are imported in, and the plan that resolves every row to an
//! existing asset or to a new one.  Reading the file from disk, parsing the
//! numeric fields and writing to the database happen outside this module.
use vstd::prelude::*;
use crate::calendar::{format_iso_day, iso_text, parse_day, parsed_day, valid_day, DISPLAY_DATE_FORMAT};
use crate::models::asset::{asset_type_named, AssetInfo, AssetType};
use crate::models::classification::{
    asset_class_named, bond_credit_named, bond_duration_named, classification_problem, equity_style_named,
    management_named, opt_text_view, AssetClass, AssetClassification, BondCredit, BondDuration, EquityStyle,
    Management,
};
use crate::models::transaction::{tx_type_named, TxType};
use crate::services::transactions::TransactionReceipt;
use crate::text::{
    compare_text, copy_text, decimal_text, insert_sorted_unique, lemma_text_order_antisym, lemma_text_order_eq,
    lemma_text_order_range, lemma_text_order_trans, non_empty_trimmed, strictly_ascending, text_eq,
    text_order, text_views, trim, trimmed, usize_text,
};

verus! {

// ---------------------------------------------------------------------------
// Schema
// ---------------------------------------------------------------------------

/// The header of the classified transaction CSV schema, in column order.
pub open spec fn expected_headers() -> Seq<Seq<char>> {
    seq![
        "Date"@, "Ticker"@, "Name"@, "AssetType"@, "Currency"@, "MorningstarCode"@, "AssetClass"@,
        "EquityStyle"@, "BondCredit"@, "BondDuration"@, "Management"@, "Type"@, "Quantity"@, "Price"@,
        "Fees"@,
    ]
}

pub open spec fn header_message() -> Seq<char> {
    "transaction CSV must use classified schema header: "@
        + "Date,Ticker,Name,AssetType,Currency,MorningstarCode,AssetClass,EquityStyle,BondCredit,BondDuration,Management,Type,Quantity,Price,Fees"@
}

/// The column names of the schema.
pub fn expected_header_names() -> (r: Vec<&'static str>)
    ensures
        r@.len() == 15,
        forall|k: int| 0 <= k < 15 ==> (#[trigger] r@[k])@ == expected_headers()[k],
{
    vec![
        "Date", "Ticker", "Name", "AssetType", "Currency", "MorningstarCode", "AssetClass", "EquityStyle",
        "BondCredit", "BondDuration", "Management", "Type", "Quantity", "Price", "Fees",
    ]
}

/// A header row fits the schema when it has its columns, in order, up to
/// surrounding white space.
pub open spec fn headers_fit(headers: Seq<String>) -> bool {
    headers.len() == 15 && forall|k: int| 0 <= k < 15 ==> trimmed((#[trigger] headers[k])@) == expected_headers()[k]
}

pub fn validate_headers(headers: &[String]) -> (r: Result<(), String>)
    ensures
        r is Ok <==> headers_fit(headers@),
        r is Err ==> r->Err_0@ == header_message(),
{
    let expected = expected_header_names();
    let mut fits = headers.len() == 15;
    if fits {
        let mut k: usize = 0;
        while k < 15
            invariant
                headers@.len() == 15,
                expected@.len() == 15,
                forall|m: int| 0 <= m < 15 ==> (#[trigger] expected@[m])@ == expected_headers()[m],
                k <= 15,
                fits == (forall|m: int| 0 <= m < k ==> trimmed((#[trigger] headers@[m])@) == expected_headers()[m]),
            decreases 15 - k,
        {
            let t = trim(headers[k].as_str());
            let same = text_eq(t.as_str(), expected[k]);
            proof {
                if fits && !same {
                    assert(!(forall|m: int| 0 <= m < k + 1 ==> trimmed((#[trigger] headers@[m])@) == expected_headers()[m])) by {
                        assert(trimmed(headers@[k as int]@) != expected_headers()[k as int]);
                    }
                }
            }
            fits = fits && same;
            k = k + 1;
        }
    }
    if fits {
        Ok(())
    } else {
        let mut message = String::from_str("transaction CSV must use classified schema header: ");
        message.append(
            "Date,Ticker,Name,AssetType,Currency,MorningstarCode,AssetClass,EquityStyle,BondCredit,BondDuration,Management,Type,Quantity,Price,Fees",
        );
        Err(message)
    }
}

// ---------------------------------------------------------------------------
// Reading the file
// ---------------------------------------------------------------------------

/// What the csv crate reads from the bytes of a file, taking every record
/// as data (no header handling): the records read before the first failure,
/// each as its fields, and the failure's message when reading stopped at
/// one.
pub uninterp spec fn csv_records(bytes: Seq<u8>) -> (Seq<Seq<Seq<char>>>, Option<Seq<char>>);

pub open spec fn records_view(v: Seq<Vec<String>>) -> Seq<Seq<Seq<char>>> {
    v.map_values(|r: Vec<String>| text_views(r@))
}

pub open spec fn opt_message(m: Option<String>) -> Option<Seq<char>> {
    match m {
        Some(t) => Some(t@),
        None => None,
    }
}

/// `csv::ReaderBuilder::new().has_headers(false).from_reader(bytes)` and
/// its `records()`, up to the first error: the records read, each as its
/// fields, and the error's text if there was one.
#[verifier::external_body]
fn read_csv_records(bytes: &[u8]) -> (r: (Vec<Vec<String>>, Option<String>))
    ensures
        records_view(r.0@) == csv_records(bytes@).0,
        opt_message(r.1) == csv_records(bytes@).1,
{
    let mut reader = csv::ReaderBuilder::new().has_headers(false).from_reader(bytes);
    let mut records: Vec<Vec<String>> = Vec::new();
    for result in reader.records() {
        match result {
            Ok(record) => records.push(record.iter().map(str::to_owned).collect()),
            Err(error) => return (records, Some(error.to_string())),
        }
    }
    (records, None)
}

/// The data rows of a transaction CSV file, and whether reading stopped at
/// an unreadable record after them (the row after the last one given).
#[derive(Clone, Debug)]
pub struct ImportRecords {
    pub rows: Vec<Vec<String>>,
    pub read_failed: bool,
}

pub open spec fn header_fits(header: Seq<Seq<char>>) -> bool {
    header.len() == 15 && forall|k: int| 0 <= k < 15 ==> trimmed(#[trigger] header[k]) == expected_headers()[k]
}

/// The bytes of a transaction CSV file, read: the first record is the
/// header, which must fit the schema; the records after it are the data
/// rows.  An unreadable header fails with the reader's message; an
/// unreadable later record ends the rows and is reported by `read_failed`.
pub fn read_import_records(bytes: &[u8]) -> (r: Result<ImportRecords, String>)
    ensures
        ({
            let (records, failure) = csv_records(bytes@);
            let header = if records.len() > 0 { records[0] } else { Seq::empty() };
            if records.len() == 0 && failure is Some {
                r is Err && r->Err_0@ == failure->Some_0
            } else if !header_fits(header) {
                r is Err && r->Err_0@ == header_message()
            } else {
                r is Ok && records_view(r->Ok_0.rows@) == records.skip(1) && r->Ok_0.read_failed == failure is Some
            }
        }),
{
    let (mut records, failure) = read_csv_records(bytes);
    let ghost all = records_view(records@);
    if records.len() == 0 {
        if let Some(message) = failure {
            return Err(message);
        }
    }
    let ghost before = records@;
    let header: Vec<String> = if records.len() > 0 {
        records.remove(0)
    } else {
        Vec::new()
    };
    proof {
        let h = if all.len() > 0 { all[0] } else { Seq::empty() };
        assert(text_views(header@) =~= h);
        if all.len() > 0 {
            assert(records@ =~= before.skip(1));
            assert(records_view(records@) =~= all.skip(1));
        }
        assert(headers_fit(header@) == header_fits(h)) by {
            if headers_fit(header@) {
                assert forall|k: int| 0 <= k < 15 implies trimmed(#[trigger] h[k]) == expected_headers()[k] by {
                    assert(h[k] == header@[k]@);
                }
            }
            if header_fits(h) {
                assert forall|k: int| 0 <= k < 15 implies trimmed((#[trigger] header@[k])@) == expected_headers()[k] by {
                    assert(h[k] == header@[k]@);
                }
            }
        }
    }
    validate_headers(header.as_slice())?;
    Ok(ImportRecords { rows: records, read_failed: failure.is_some() })
}

// ---------------------------------------------------------------------------
// Optional fields
// ---------------------------------------------------------------------------

pub open spec fn opt_string_view(s: Option<String>) -> Option<Seq<char>> {
    match s {
        Some(t) => Some(t@),
        None => None,
    }
}

/// A field's trimmed text, or nothing when it is blank.
pub fn parse_optional(s: &str) -> (r: Option<String>)
    ensures
        opt_string_view(r) == non_empty_trimmed(s@),
{
    let trimmed_text = trim(s);
    if trimmed_text.unicode_len() == 0 {
        None
    } else {
        Some(trimmed_text)
    }
}

/// `"row N: "`.
pub open spec fn row_prefix(row_num: nat) -> Seq<char> {
    "row "@ + decimal_text(row_num) + ": "@
}

fn row_message(row_num: usize, text: &str) -> (r: String)
    ensures
        r@ == row_prefix(row_num as nat) + text@,
{
    let mut message = String::from_str("row ");
    let number = usize_text(row_num);
    message.append(number.as_str());
    message.append(": ");
    message.append(text);
    message
}

/// A classification value read from its name (the command-line name, in any
/// ASCII case).
pub trait ClassificationValue: Sized {
    spec fn named(s: Seq<char>) -> Option<Self>;

    fn from_name(s: &str) -> (r: Option<Self>)
        ensures
            r == Self::named(s@),
    ;
}

impl ClassificationValue for AssetClass {
    open spec fn named(s: Seq<char>) -> Option<Self> {
        asset_class_named(s)
    }

    fn from_name(s: &str) -> (r: Option<Self>) {
        AssetClass::from_db(s)
    }
}

impl ClassificationValue for EquityStyle {
    open spec fn named(s: Seq<char>) -> Option<Self> {
        equity_style_named(s)
    }

    fn from_name(s: &str) -> (r: Option<Self>) {
        EquityStyle::from_db(s)
    }
}

impl ClassificationValue for BondCredit {
    open spec fn named(s: Seq<char>) -> Option<Self> {
        bond_credit_named(s)
    }

    fn from_name(s: &str) -> (r: Option<Self>) {
        BondCredit::from_db(s)
    }
}

impl ClassificationValue for BondDuration {
    open spec fn named(s: Seq<char>) -> Option<Self> {
        bond_duration_named(s)
    }

    fn from_name(s: &str) -> (r: Option<Self>) {
        BondDuration::from_db(s)
    }
}

impl ClassificationValue for Management {
    open spec fn named(s: Seq<char>) -> Option<Self> {
        management_named(s)
    }

    fn from_name(s: &str) -> (r: Option<Self>) {
        Management::from_db(s)
    }
}

pub open spec fn invalid_field_message(row_num: nat, field: Seq<char>, value: Seq<char>) -> Seq<char> {
    row_prefix(row_num) + "invalid "@ + field + " '"@ + value + "'"@
}

/// What an optional classification column holds: nothing when blank, the
/// value it names, or an error quoting the trimmed text.
pub open spec fn optional_enum_outcome<E: ClassificationValue>(s: Seq<char>, row_num: nat, field: Seq<char>) -> Result<Option<E>, Seq<char>> {
    match non_empty_trimmed(s) {
        None => Ok(None),
        Some(v) => match E::named(v) {
            Some(e) => Ok(Some(e)),
            None => Err(invalid_field_message(row_num, field, v)),
        },
    }
}

pub open spec fn outcome_matches<E>(r: Result<Option<E>, String>, o: Result<Option<E>, Seq<char>>) -> bool {
    match o {
        Ok(v) => r is Ok && r->Ok_0 == v,
        Err(m) => r is Err && r->Err_0@ == m,
    }
}

pub fn parse_optional_enum<E: ClassificationValue>(s: &str, row_num: usize, field: &str) -> (r: Result<Option<E>, String>)
    ensures
        outcome_matches(r, optional_enum_outcome::<E>(s@, row_num as nat, field@)),
{
    match parse_optional(s) {
        None => Ok(None),
        Some(value) => match E::from_name(value.as_str()) {
            Some(e) => Ok(Some(e)),
            None => {
                let mut message = row_message(row_num, "invalid ");
                message.append(field);
                message.append(" '");
                message.append(value.as_str());
                message.append("'");
                Err(message)
            },
        },
    }
}

// ---------------------------------------------------------------------------
// Rows
// ---------------------------------------------------------------------------

/// One row of the CSV.  The date is a day number; `N` holds the quantity,
/// price and fees, which are parsed outside this module (a row whose
/// numbers are not read yet has `N = ()`).
#[derive(Clone, Debug)]
pub struct CsvRow<N> {
    pub source_row: usize,
    pub date: i32,
    pub ticker: String,
    pub name: Option<String>,
    pub asset_type: Option<AssetType>,
    pub currency: Option<String>,
    pub morningstar_code: Option<String>,
    pub classification: AssetClassification,
    pub tx_type: TxType,
    pub quantity: N,
    pub price: N,
    pub fees: N,
}

impl<N> CsvRow<N> {
    /// The same row with its numeric fields set.
    pub fn with_numbers<M>(self, quantity: M, price: M, fees: M) -> (r: CsvRow<M>)
        ensures
            r.source_row == self.source_row,
            r.date == self.date,
            r.ticker == self.ticker,
            r.name == self.name,
            r.asset_type == self.asset_type,
            r.currency == self.currency,
            r.morningstar_code == self.morningstar_code,
            r.classification == self.classification,
            r.tx_type == self.tx_type,
            r.quantity == quantity,
            r.price == price,
            r.fees == fees,
    {
        CsvRow {
            source_row: self.source_row,
            date: self.date,
            ticker: self.ticker,
            name: self.name,
            asset_type: self.asset_type,
            currency: self.currency,
            morningstar_code: self.morningstar_code,
            classification: self.classification,
            tx_type: self.tx_type,
            quantity,
            price,
            fees,
        }
    }
}

/// The day a row's date column denotes (`DD-MM-YYYY`, surrounding white
/// space ignored).
pub open spec fn row_day(date_text: Seq<char>) -> Option<int> {
    parsed_day(trimmed(date_text), DISPLAY_DATE_FORMAT@)
}

pub open spec fn enum_problem<E: ClassificationValue>(s: Seq<char>, row_num: nat, field: Seq<char>) -> Option<Seq<char>> {
    match optional_enum_outcome::<E>(s, row_num, field) {
        Ok(_) => None,
        Err(m) => Some(m),
    }
}

/// The first reason the text fields of a record do not make a row, in the
/// order they are checked; none when they do.
pub open spec fn row_problem(rec: Seq<Seq<char>>, row_num: nat, today: int) -> Option<Seq<char>> {
    if rec.len() != 15 {
        Some(row_prefix(row_num) + "expected 15 fields for classified transaction CSV schema, got "@
            + decimal_text(rec.len()))
    } else if row_day(rec[0]) is None {
        Some(row_prefix(row_num) + "invalid date '"@ + rec[0] + "'"@)
    } else if row_day(rec[0])->Some_0 > today {
        Some(row_prefix(row_num) + "date cannot be in the future: "@ + rec[0])
    } else if trimmed(rec[1]).len() == 0 {
        Some(row_prefix(row_num) + "ticker cannot be empty"@)
    } else if non_empty_trimmed(rec[3]) is Some && asset_type_named(non_empty_trimmed(rec[3])->Some_0) is None {
        Some(row_prefix(row_num) + "invalid asset type '"@ + rec[3] + "'"@)
    } else if enum_problem::<AssetClass>(rec[6], row_num, "AssetClass"@) is Some {
        enum_problem::<AssetClass>(rec[6], row_num, "AssetClass"@)
    } else if enum_problem::<EquityStyle>(rec[7], row_num, "EquityStyle"@) is Some {
        enum_problem::<EquityStyle>(rec[7], row_num, "EquityStyle"@)
    } else if enum_problem::<BondCredit>(rec[8], row_num, "BondCredit"@) is Some {
        enum_problem::<BondCredit>(rec[8], row_num, "BondCredit"@)
    } else if enum_problem::<BondDuration>(rec[9], row_num, "BondDuration"@) is Some {
        enum_problem::<BondDuration>(rec[9], row_num, "BondDuration"@)
    } else if enum_problem::<Management>(rec[10], row_num, "Management"@) is Some {
        enum_problem::<Management>(rec[10], row_num, "Management"@)
    } else if tx_type_named(trimmed(rec[11])) is None {
        Some(row_prefix(row_num) + "invalid transaction type '"@ + rec[11] + "'"@)
    } else {
        None
    }
}

pub open spec fn enum_value<E: ClassificationValue>(s: Seq<char>) -> Option<E> {
    match non_empty_trimmed(s) {
        None => None,
        Some(v) => E::named(v),
    }
}

/// `row` holds the text fields of the record `rec`.
pub open spec fn row_fields_are<N>(row: CsvRow<N>, rec: Seq<Seq<char>>, row_num: nat) -> bool {
    &&& row.source_row == row_num
    &&& Some(row.date as int) == row_day(rec[0])
    &&& row.ticker@ == trimmed(rec[1])
    &&& opt_string_view(row.name) == non_empty_trimmed(rec[2])
    &&& row.asset_type == (match non_empty_trimmed(rec[3]) {
        None => None,
        Some(v) => asset_type_named(v),
    })
    &&& opt_string_view(row.currency) == non_empty_trimmed(rec[4])
    &&& opt_string_view(row.morningstar_code) == non_empty_trimmed(rec[5])
    &&& row.classification.asset_class == enum_value::<AssetClass>(rec[6])
    &&& row.classification.equity_style == enum_value::<EquityStyle>(rec[7])
    &&& row.classification.bond_credit == enum_value::<BondCredit>(rec[8])
    &&& row.classification.bond_duration == enum_value::<BondDuration>(rec[9])
    &&& row.classification.management == enum_value::<Management>(rec[10])
    &&& Some(row.tx_type) == tx_type_named(trimmed(rec[11]))
}

/// Parses the text fields of the record on line `row_num` of the file, on a
/// run whose date is `today`.  The numeric columns are left to the caller.
pub fn parse_row_fields(record: &[String], row_num: usize, today: i32) -> (r: Result<CsvRow<()>, String>)
    ensures
        match row_problem(text_views(record@), row_num as nat, today as int) {
            Some(m) => r is Err && r->Err_0@ == m,
            None => r is Ok && row_fields_are(r->Ok_0, text_views(record@), row_num as nat) && valid_day(r->Ok_0.date as int),
        },
{
    let ghost rec = text_views(record@);
    if record.len() != 15 {
        let mut message = row_message(row_num, "expected 15 fields for classified transaction CSV schema, got ");
        let count = usize_text(record.len());
        message.append(count.as_str());
        return Err(message);
    }
    assert(forall|k: int| 0 <= k < 15 ==> #[trigger] rec[k] == record@[k]@);
    let date_text = trim(record[0].as_str());
    let date = match parse_day(date_text.as_str(), DISPLAY_DATE_FORMAT) {
        Ok(day) => day,
        Err(_) => {
            let mut message = row_message(row_num, "invalid date '");
            message.append(record[0].as_str());
            message.append("'");
            return Err(message);
        },
    };
    if date > today {
        let mut message = row_message(row_num, "date cannot be in the future: ");
        message.append(record[0].as_str());
        return Err(message);
    }
    let ticker = trim(record[1].as_str());
    if ticker.unicode_len() == 0 {
        return Err(row_message(row_num, "ticker cannot be empty"));
    }
    let name = parse_optional(record[2].as_str());
    let asset_type = match parse_optional(record[3].as_str()) {
        None => None,
        Some(text) => match AssetType::from_str(text.as_str()) {
            Ok(t) => Some(t),
            Err(_) => {
                let mut message = row_message(row_num, "invalid asset type '");
                message.append(record[3].as_str());
                message.append("'");
                return Err(message);
            },
        },
    };
    let currency = parse_optional(record[4].as_str());
    let morningstar_code = parse_optional(record[5].as_str());
    let asset_class = match parse_optional_enum::<AssetClass>(record[6].as_str(), row_num, "AssetClass") {
        Ok(v) => v,
        Err(message) => return Err(message),
    };
    let equity_style = match parse_optional_enum::<EquityStyle>(record[7].as_str(), row_num, "EquityStyle") {
        Ok(v) => v,
        Err(message) => return Err(message),
    };
    let bond_credit = match parse_optional_enum::<BondCredit>(record[8].as_str(), row_num, "BondCredit") {
        Ok(v) => v,
        Err(message) => return Err(message),
    };
    let bond_duration = match parse_optional_enum::<BondDuration>(record[9].as_str(), row_num, "BondDuration") {
        Ok(v) => v,
        Err(message) => return Err(message),
    };
    let management = match parse_optional_enum::<Management>(record[10].as_str(), row_num, "Management") {
        Ok(v) => v,
        Err(message) => return Err(message),
    };
    let tx_text = trim(record[11].as_str());
    let tx_type = match TxType::from_str(tx_text.as_str()) {
        Ok(t) => t,
        Err(_) => {
            let mut message = row_message(row_num, "invalid transaction type '");
            message.append(record[11].as_str());
            message.append("'");
            return Err(message);
        },
    };
    Ok(CsvRow {
        source_row: row_num,
        date,
        ticker,
        name,
        asset_type,
        currency,
        morningstar_code,
        classification: AssetClassification { asset_class, equity_style, bond_credit, bond_duration, management },
        tx_type,
        quantity: (),
        price: (),
        fees: (),
    })
}

// ---------------------------------------------------------------------------
// Import order
// ---------------------------------------------------------------------------

/// Inserts row index `i` behind every index whose row is not dated after
/// row `i`'s.
pub open spec fn insert_by_date<N>(order: Seq<usize>, rows: Seq<CsvRow<N>>, i: usize) -> Seq<usize>
    decreases order.len(),
{
    if order.len() == 0 {
        seq![i]
    } else if rows[order.last() as int].date > rows[i as int].date {
        insert_by_date(order.drop_last(), rows, i).push(order.last())
    } else {
        order.push(i)
    }
}

/// The order rows are imported in: a stable sort of the first `n` row
/// indices by date.
pub open spec fn date_order<N>(rows: Seq<CsvRow<N>>, n: nat) -> Seq<usize>
    decreases n,
{
    if n == 0 {
        Seq::empty()
    } else {
        insert_by_date(date_order(rows, (n - 1) as nat), rows, (n - 1) as usize)
    }
}

/// Row `a` comes before row `b`: earlier, or on the same day and earlier
/// in the file.
pub open spec fn row_before<N>(rows: Seq<CsvRow<N>>, a: usize, b: usize) -> bool {
    rows[a as int].date < rows[b as int].date || (rows[a as int].date == rows[b as int].date && a < b)
}

pub open spec fn date_sorted<N>(rows: Seq<CsvRow<N>>, order: Seq<usize>) -> bool {
    forall|a: int, b: int| 0 <= a < b < order.len() ==> row_before(rows, #[trigger] order[a], #[trigger] order[b])
}

proof fn lemma_insert_by_date<N>(order: Seq<usize>, rows: Seq<CsvRow<N>>, i: usize)
    requires
        i < rows.len(),
        forall|k: int| 0 <= k < order.len() ==> (#[trigger] order[k]) < i,
        date_sorted(rows, order),
    ensures
        insert_by_date(order, rows, i).len() == order.len() + 1,
        date_sorted(rows, insert_by_date(order, rows, i)),
        forall|x: usize| #[trigger] insert_by_date(order, rows, i).contains(x) <==> (order.contains(x) || x == i),
    decreases order.len(),
{
    let r = insert_by_date(order, rows, i);
    if order.len() == 0 {
        assert forall|x: usize| r.contains(x) <==> (order.contains(x) || x == i) by {
            if r.contains(x) {
                assert(r[0] == i);
            }
            if x == i {
                assert(r[0] == x);
            }
        }
    } else if rows[order.last() as int].date > rows[i as int].date {
        let init = order.drop_last();
        let last = order.last();
        assert forall|a: int, b: int| 0 <= a < b < init.len() implies row_before(rows, #[trigger] init[a], #[trigger] init[b]) by {
            assert(init[a] == order[a] && init[b] == order[b]);
        }
        assert forall|k: int| 0 <= k < init.len() implies (#[trigger] init[k]) < i by {
            assert(init[k] == order[k]);
        }
        lemma_insert_by_date(init, rows, i);
        let m = insert_by_date(init, rows, i);
        assert(r == m.push(last));
        assert forall|a: int| 0 <= a < m.len() implies row_before(rows, #[trigger] m[a], last) by {
            let x = m[a];
            assert(m.contains(x));
            if x != i {
                assert(init.contains(x));
                let k = choose|k: int| 0 <= k < init.len() && init[k] == x;
                assert(order[k] == x);
                assert(row_before(rows, order[k], order[order.len() - 1]));
            }
        }
        assert forall|a: int, b: int| 0 <= a < b < r.len() implies row_before(rows, #[trigger] r[a], #[trigger] r[b]) by {
            if b < m.len() {
                assert(r[a] == m[a] && r[b] == m[b]);
            } else {
                assert(r[a] == m[a] && r[b] == last);
            }
        }
        assert forall|x: usize| r.contains(x) <==> (order.contains(x) || x == i) by {
            if r.contains(x) {
                let k = choose|k: int| 0 <= k < r.len() && r[k] == x;
                if k < m.len() {
                    assert(m[k] == x);
                    assert(m.contains(x));
                    if x != i {
                        assert(init.contains(x));
                        let k2 = choose|k2: int| 0 <= k2 < init.len() && init[k2] == x;
                        assert(order[k2] == x);
                    }
                } else {
                    assert(order[order.len() - 1] == x);
                }
            }
            if order.contains(x) {
                let k = choose|k: int| 0 <= k < order.len() && order[k] == x;
                if k < order.len() - 1 {
                    assert(init[k] == x);
                    assert(init.contains(x));
                    assert(m.contains(x));
                    let k2 = choose|k2: int| 0 <= k2 < m.len() && m[k2] == x;
                    assert(r[k2] == x);
                } else {
                    assert(r[r.len() - 1] == x);
                }
            }
            if x == i {
                assert(m.contains(x));
                let k2 = choose|k2: int| 0 <= k2 < m.len() && m[k2] == x;
                assert(r[k2] == x);
            }
        }
    } else {
        assert(r == order.push(i));
        assert forall|a: int, b: int| 0 <= a < b < r.len() implies row_before(rows, #[trigger] r[a], #[trigger] r[b]) by {
            if b < order.len() {
                assert(r[a] == order[a] && r[b] == order[b]);
            } else {
                assert(r[b] == i);
                assert(r[a] == order[a]);
                assert(order[a] < i);
                assert(row_before(rows, order[a], order[order.len() - 1]) || a == order.len() - 1);
            }
        }
        assert forall|x: usize| r.contains(x) <==> (order.contains(x) || x == i) by {
            if r.contains(x) {
                let k = choose|k: int| 0 <= k < r.len() && r[k] == x;
                if k < order.len() {
                    assert(order[k] == x);
                }
            }
            if order.contains(x) {
                let k = choose|k: int| 0 <= k < order.len() && order[k] == x;
                assert(r[k] == x);
            }
            if x == i {
                assert(r[order.len() as int] == x);
            }
        }
    }
}

/// The import order holds every row index exactly once, sorted by date and,
/// on the same day, by position in the file.
pub proof fn lemma_date_order<N>(rows: Seq<CsvRow<N>>, n: nat)
    requires
        n <= rows.len(),
        rows.len() <= usize::MAX,
    ensures
        date_order(rows, n).len() == n,
        date_sorted(rows, date_order(rows, n)),
        forall|x: usize| #[trigger] date_order(rows, n).contains(x) <==> x < n,
    decreases n,
{
    if n > 0 {
        let prev = date_order(rows, (n - 1) as nat);
        lemma_date_order(rows, (n - 1) as nat);
        assert forall|k: int| 0 <= k < prev.len() implies (#[trigger] prev[k]) < (n - 1) as usize by {
            assert(prev.contains(prev[k]));
        }
        assert forall|x: usize| #[trigger] date_order(rows, n).contains(x) <==> x < n by {
            lemma_insert_by_date(prev, rows, (n - 1) as usize);
            assert(prev.contains(x) <==> x < n - 1);
        }
        lemma_insert_by_date(prev, rows, (n - 1) as usize);
    }
}

/// Where `insert_by_date` puts the new index: behind position `j - 1`.
proof fn lemma_insert_by_date_at<N>(order: Seq<usize>, rows: Seq<CsvRow<N>>, i: usize, j: int)
    requires
        0 <= j <= order.len(),
        forall|m: int| j <= m < order.len() ==> rows[(#[trigger] order[m]) as int].date > rows[i as int].date,
        j > 0 ==> rows[order[j - 1] as int].date <= rows[i as int].date,
    ensures
        insert_by_date(order, rows, i) == order.take(j).push(i) + order.skip(j),
    decreases order.len(),
{
    if order.len() == 0 {
        assert(order.take(j).push(i) + order.skip(j) =~= seq![i]);
    } else if j == order.len() {
        assert(order.take(j).push(i) + order.skip(j) =~= order.push(i));
    } else {
        let init = order.drop_last();
        assert forall|m: int| j <= m < init.len() implies rows[(#[trigger] init[m]) as int].date > rows[i as int].date by {
            assert(init[m] == order[m]);
        }
        if j > 0 {
            assert(init[j - 1] == order[j - 1]);
        }
        assert(rows[order[order.len() - 1] as int].date > rows[i as int].date);
        lemma_insert_by_date_at(init, rows, i, j);
        assert(init.take(j).push(i) + init.skip(j) + seq![order.last()] =~= order.take(j).push(i) + order.skip(j));
        assert(insert_by_date(init, rows, i).push(order.last()) =~= insert_by_date(init, rows, i) + seq![order.last()]);
    }
}

/// The row indices in import order.
pub fn import_order<N>(rows: &[CsvRow<N>]) -> (r: Vec<usize>)
    ensures
        r@ == date_order(rows@, rows@.len()),
{
    let mut order: Vec<usize> = Vec::new();
    let mut i: usize = 0;
    while i < rows.len()
        invariant
            i <= rows@.len(),
            order@ == date_order(rows@, i as nat),
        decreases rows@.len() - i,
    {
        proof {
            lemma_date_order(rows@, i as nat);
        }
        assert forall|k: int| 0 <= k < order@.len() implies (#[trigger] order@[k]) < i by {
            assert(order@.contains(order@[k]));
        }
        let d = rows[i].date;
        let mut j: usize = order.len();
        while j > 0 && rows[order[j - 1]].date > d
            invariant
                i < rows@.len(),
                d == rows@[i as int].date,
                j <= order@.len(),
                forall|k: int| 0 <= k < order@.len() ==> (#[trigger] order@[k]) < i,
                forall|m: int| j <= m < order@.len() ==> rows@[(#[trigger] order@[m]) as int].date > d,
            decreases j,
        {
            j = j - 1;
        }
        proof {
            lemma_insert_by_date_at(order@, rows@, i, j as int);
        }
        let ghost before = order@;
        order.insert(j, i);
        assert(order@ =~= before.take(j as int).push(i) + before.skip(j as int));
        i = i + 1;
    }
    order
}

// ---------------------------------------------------------------------------
// Asset resolution
// ---------------------------------------------------------------------------

/// What the import knows of an asset: an existing one, or one the import
/// creates (with a temporary negative identifier and its position among the
/// assets to create).
#[derive(Debug)]
pub struct ImportAsset {
    pub id: i32,
    pub ticker: String,
    pub name: String,
    pub currency: String,
    pub pending_asset: Option<usize>,
    pub first_transaction_date: Option<String>,
}

impl ImportAsset {
    /// An existing asset, with the date of its first recorded transaction.
    pub fn from_existing(
        id: i32,
        ticker: String,
        name: String,
        currency: String,
        first_transaction_date: Option<String>,
    ) -> (r: ImportAsset)
        ensures
            r.id == id,
            r.ticker == ticker,
            r.name == name,
            r.currency == currency,
            r.pending_asset is None,
            r.first_transaction_date == first_transaction_date,
    {
        ImportAsset { id, ticker, name, currency, pending_asset: None, first_transaction_date }
    }

    /// An asset the import creates.
    pub fn new_pending(id: i32, ticker: String, name: String, currency: String, pending_asset: usize) -> (r: ImportAsset)
        ensures
            r.id == id,
            r.ticker == ticker,
            r.name == name,
            r.currency == currency,
            r.pending_asset == Some(pending_asset),
            r.first_transaction_date is None,
    {
        ImportAsset { id, ticker, name, currency, pending_asset: Some(pending_asset), first_transaction_date: None }
    }
}

/// An asset to create, as the first row naming its ticker describes it.
#[derive(Debug)]
pub struct PendingAsset {
    pub info: AssetInfo,
    pub classification: AssetClassification,
    pub morningstar_code: Option<String>,
}

/// How an import resolves its rows.  `order` lists the row indices in
/// import order; `assets` holds the existing assets followed by the ones
/// to create (`pending_assets`, in the same order); `row_assets[k]` is the
/// position in `assets` of the asset of the `k`-th row in import order.
/// Splits invalidate cached prices of `split_tickers`; portfolio history is
/// invalidated from `invalidation_date` on.
#[derive(Debug)]
pub struct ImportPlan {
    pub order: Vec<usize>,
    pub assets: Vec<ImportAsset>,
    pub pending_assets: Vec<PendingAsset>,
    pub row_assets: Vec<usize>,
    pub split_tickers: Vec<String>,
    pub invalidation_date: Option<String>,
}

/// The number of rows imported and a receipt for each, in import order.
#[derive(Debug)]
pub struct ImportResult {
    pub count: usize,
    pub transaction_receipts: Vec<TransactionReceipt>,
}

/// The rows in import order.
pub open spec fn sorted_rows<N>(rows: Seq<CsvRow<N>>) -> Seq<CsvRow<N>> {
    date_order(rows, rows.len()).map_values(|x: usize| rows[x as int])
}

/// Ticker `t` names an existing asset or the asset of one of the first `k`
/// rows.
pub open spec fn ticker_known<N>(existing: Seq<ImportAsset>, rows: Seq<CsvRow<N>>, k: int, t: Seq<char>) -> bool {
    (exists|i: int| 0 <= i < existing.len() && (#[trigger] existing[i]).ticker@ == t)
        || (exists|j: int| 0 <= j < k && (#[trigger] rows[j]).ticker@ == t)
}

/// Row `k` is the first to name an asset that does not exist yet.
pub open spec fn first_occurrence<N>(existing: Seq<ImportAsset>, rows: Seq<CsvRow<N>>, k: int) -> bool {
    !ticker_known(existing, rows, k, rows[k].ticker@)
}

/// How many assets the first `k` rows create.
pub open spec fn pending_count<N>(existing: Seq<ImportAsset>, rows: Seq<CsvRow<N>>, k: nat) -> nat
    decreases k,
{
    if k == 0 {
        0
    } else {
        pending_count(existing, rows, (k - 1) as nat) + if first_occurrence(existing, rows, k - 1) {
            1nat
        } else {
            0nat
        }
    }
}

pub open spec fn non_blank(s: Option<String>) -> bool {
    s is Some && s->Some_0@.len() > 0
}

/// Why a row cannot create the asset it names: only a buy describes a new
/// asset, and it needs a name, an asset type, a currency and a
/// classification that fits the asset.
pub open spec fn new_asset_problem<N>(row: CsvRow<N>) -> Option<Seq<char>> {
    let prefix = row_prefix(row.source_row as nat);
    match row.tx_type {
        TxType::Buy => if !non_blank(row.name) {
            Some(prefix + "buy transaction requires a non-empty Name"@)
        } else if row.asset_type is None {
            Some(prefix + "buy transaction requires a non-empty AssetType"@)
        } else if !non_blank(row.currency) {
            Some(prefix + "buy transaction requires a non-empty Currency"@)
        } else {
            match classification_problem(row.classification, row.asset_type->Some_0, opt_string_view(row.morningstar_code)) {
                Some(m) => Some(prefix + m),
                None => None,
            }
        },
        _ => Some(prefix + "Asset with ticker '"@ + row.ticker@ + "' not found"@),
    }
}

/// Why the row that would create the asset at pending position `pending`
/// fails: its own problem, or no temporary identifier left.
pub open spec fn creation_problem<N>(row: CsvRow<N>, pending: nat) -> Option<Seq<char>> {
    match new_asset_problem(row) {
        Some(m) => Some(m),
        None => if pending >= i32::MAX {
            Some("pending asset count exceeds the supported asset ID range"@)
        } else {
            None
        },
    }
}

pub open spec fn fails_at<N>(existing: Seq<ImportAsset>, rows: Seq<CsvRow<N>>, k: int) -> bool {
    &&& 0 <= k < rows.len()
    &&& first_occurrence(existing, rows, k)
    &&& creation_problem(rows[k], pending_count(existing, rows, k as nat)) is Some
}

pub open spec fn first_failure<N>(existing: Seq<ImportAsset>, rows: Seq<CsvRow<N>>, k: int) -> bool {
    fails_at(existing, rows, k) && forall|j: int| 0 <= j < k ==> !#[trigger] fails_at(existing, rows, j)
}

/// `pa` describes the asset row `row` creates.
pub open spec fn pending_asset_is<N>(pa: PendingAsset, row: CsvRow<N>) -> bool {
    &&& pa.info.ticker@ == row.ticker@
    &&& pa.info.name@ == row.name->Some_0@
    &&& Some(pa.info.asset_type) == row.asset_type
    &&& pa.info.currency@ == row.currency->Some_0@
    &&& pa.classification == row.classification
    &&& opt_string_view(pa.morningstar_code) == opt_string_view(row.morningstar_code)
}

/// `a` is the state of the asset at pending position `q`, created by `row`.
pub open spec fn pending_state_is<N>(a: ImportAsset, row: CsvRow<N>, q: nat) -> bool {
    &&& a.id == -(q + 1)
    &&& a.ticker@ == row.ticker@
    &&& a.name@ == row.name->Some_0@
    &&& a.currency@ == row.currency->Some_0@
    &&& a.pending_asset == Some(q as usize)
    &&& a.first_transaction_date is None
}

/// Position `i` is the last in `assets` with ticker `t`.
pub open spec fn last_with_ticker(assets: Seq<ImportAsset>, i: int, t: Seq<char>) -> bool {
    &&& 0 <= i < assets.len()
    &&& assets[i].ticker@ == t
    &&& forall|m: int| i < m < assets.len() ==> (#[trigger] assets[m]).ticker@ != t
}

/// The date from which a row invalidates portfolio history: its own date,
/// or for a split the first transaction of the asset when it has one.
pub open spec fn row_invalidation<N>(row: CsvRow<N>, asset: ImportAsset) -> Seq<char> {
    if row.tx_type == TxType::Split {
        match asset.first_transaction_date {
            Some(d) => d@,
            None => iso_text(row.date as int),
        }
    } else {
        iso_text(row.date as int)
    }
}

fn find_last_ticker(assets: &Vec<ImportAsset>, ticker: &str) -> (r: Option<usize>)
    ensures
        match r {
            Some(i) => last_with_ticker(assets@, i as int, ticker@),
            None => forall|m: int| 0 <= m < assets@.len() ==> (#[trigger] assets@[m]).ticker@ != ticker@,
        },
{
    let mut i: usize = assets.len();
    while i > 0
        invariant
            i <= assets@.len(),
            forall|m: int| i <= m < assets@.len() ==> (#[trigger] assets@[m]).ticker@ != ticker@,
        decreases i,
    {
        i = i - 1;
        if text_eq(assets[i].ticker.as_str(), ticker) {
            return Some(i);
        }
    }
    None
}

fn copy_optional_text(s: &Option<String>) -> (r: Option<String>)
    ensures
        opt_string_view(r) == opt_string_view(*s),
{
    match s {
        Some(t) => Some(copy_text(t.as_str())),
        None => None,
    }
}

fn copy_classification(c: &AssetClassification) -> (r: AssetClassification)
    ensures
        r == *c,
{
    AssetClassification {
        asset_class: c.asset_class,
        equity_style: c.equity_style,
        bond_credit: c.bond_credit,
        bond_duration: c.bond_duration,
        management: c.management,
    }
}

/// Checks that a row can create the asset it names.
fn check_new_asset<N>(row: &CsvRow<N>) -> (r: Result<(), String>)
    ensures
        match new_asset_problem(*row) {
            Some(m) => r is Err && r->Err_0@ == m,
            None => r is Ok,
        },
{
    match row.tx_type {
        TxType::Buy => {
            let has_name = match &row.name {
                Some(n) => n.unicode_len() > 0,
                None => false,
            };
            if !has_name {
                return Err(row_message(row.source_row, "buy transaction requires a non-empty Name"));
            }
            let asset_type = match row.asset_type {
                Some(t) => t,
                None => return Err(row_message(row.source_row, "buy transaction requires a non-empty AssetType")),
            };
            let has_currency = match &row.currency {
                Some(c) => c.unicode_len() > 0,
                None => false,
            };
            if !has_currency {
                return Err(row_message(row.source_row, "buy transaction requires a non-empty Currency"));
            }
            let code = match &row.morningstar_code {
                Some(c) => Some(c.as_str()),
                None => None,
            };
            match row.classification.validate_for_asset(&asset_type, code) {
                Ok(()) => Ok(()),
                Err(e) => Err(row_message(row.source_row, e.as_str())),
            }
        },
        _ => {
            let mut message = row_message(row.source_row, "Asset with ticker '");
            message.append(row.ticker.as_str());
            message.append("' not found");
            Err(message)
        },
    }
}

proof fn lemma_pending_count_grows<N>(existing: Seq<ImportAsset>, rows: Seq<CsvRow<N>>, j: nat, k: nat)
    requires
        j <= k,
    ensures
        pending_count(existing, rows, j) <= pending_count(existing, rows, k),
        j < k && first_occurrence(existing, rows, j as int) ==> pending_count(existing, rows, j) < pending_count(existing, rows, k),
    decreases k - j,
{
    if j < k {
        lemma_pending_count_grows(existing, rows, j, (k - 1) as nat);
    }
}

/// `p` is the plan of importing `rows` next to the `existing` assets.
pub open spec fn plan_is<N>(p: ImportPlan, rows: Seq<CsvRow<N>>, existing: Seq<ImportAsset>) -> bool {
    let srows = sorted_rows(rows);
    let n = rows.len();
    let pc = pending_count(existing, srows, n);
    &&& p.order@ == date_order(rows, n)
    &&& p.pending_assets@.len() == pc
    &&& p.assets@.len() == existing.len() + pc
    &&& (forall|i: int| 0 <= i < existing.len() ==> #[trigger] p.assets@[i] == existing[i])
    &&& (forall|k: int|
        0 <= k < n && #[trigger] first_occurrence(existing, srows, k) ==> {
            let q = pending_count(existing, srows, k as nat);
            &&& pending_asset_is(p.pending_assets@[q as int], srows[k])
            &&& pending_state_is(p.assets@[existing.len() + q as int], srows[k], q)
        })
    &&& p.row_assets@.len() == n
    &&& (forall|k: int| 0 <= k < n ==> last_with_ticker(p.assets@, #[trigger] p.row_assets@[k] as int, srows[k].ticker@))
    &&& strictly_ascending(text_views(p.split_tickers@))
    &&& (forall|t: Seq<char>|
        text_views(p.split_tickers@).contains(t) <==> exists|k: int|
            0 <= k < n && (#[trigger] srows[k]).tx_type == TxType::Split && srows[k].ticker@ == t)
    &&& (p.invalidation_date is None <==> n == 0)
    &&& (p.invalidation_date is Some ==> {
        let t = p.invalidation_date->Some_0@;
        &&& exists|k: int| 0 <= k < n && t == row_invalidation(srows[k], p.assets@[#[trigger] p.row_assets@[k] as int])
        &&& forall|k: int| 0 <= k < n ==> text_order(t, row_invalidation(srows[k], p.assets@[#[trigger] p.row_assets@[k] as int])) <= 0
    })
}

/// Plans the import of `rows` next to the `existing` assets: rows are taken
/// in date order; the first row naming an unknown ticker creates its asset
/// and must be a buy that fully describes it; splits invalidate their
/// asset's cached prices; portfolio history is invalidated from the
/// earliest date any row affects.  The first row that cannot be resolved
/// stops the import with its error.
pub fn plan_import<N>(rows: &[CsvRow<N>], existing: Vec<ImportAsset>) -> (r: Result<ImportPlan, String>)
    requires
        forall|k: int| 0 <= k < rows@.len() ==> valid_day((#[trigger] rows@[k]).date as int),
    ensures
        forall|k: int| #[trigger] first_failure(existing@, sorted_rows(rows@), k) ==> r is Err
            && r->Err_0@ == creation_problem(
                sorted_rows(rows@)[k],
                pending_count(existing@, sorted_rows(rows@), k as nat),
            )->Some_0,
        r is Err ==> exists|k: int| #[trigger] first_failure(existing@, sorted_rows(rows@), k),
        r is Ok ==> forall|k: int| !#[trigger] fails_at(existing@, sorted_rows(rows@), k),
        r is Ok ==> plan_is(r->Ok_0, rows@, existing@),
{
    let ghost e = existing@;
    let ghost srows = sorted_rows(rows@);
    let n = rows.len();
    let order = import_order(rows);
    proof {
        lemma_date_order(rows@, n as nat);
    }
    assert forall|j: int| 0 <= j < n implies (#[trigger] order@[j]) < n by {
        assert(order@.contains(order@[j]));
    }
    assert forall|j: int| 0 <= j < n implies #[trigger] srows[j] == rows@[order@[j] as int] by {}
    let mut assets = existing;
    let mut pending: Vec<PendingAsset> = Vec::new();
    let mut row_assets: Vec<usize> = Vec::new();
    let mut split_tickers: Vec<String> = Vec::new();
    let mut invalidation: Option<String> = None;
    let mut k: usize = 0;
    while k < n
        invariant
            e == existing@,
            n == rows@.len(),
            k <= n,
            order@ == date_order(rows@, n as nat),
            srows == sorted_rows(rows@),
            srows.len() == n,
            forall|j: int| 0 <= j < n ==> (#[trigger] order@[j]) < n,
            forall|j: int| 0 <= j < n ==> #[trigger] srows[j] == rows@[order@[j] as int],
            forall|j: int| 0 <= j < n ==> valid_day((#[trigger] rows@[j]).date as int),
            assets@.len() == e.len() + pending@.len(),
            pending@.len() == pending_count(e, srows, k as nat),
            forall|i: int| 0 <= i < e.len() ==> #[trigger] assets@[i] == e[i],
            forall|j: int|
                0 <= j < k && #[trigger] first_occurrence(e, srows, j) ==> {
                    let q = pending_count(e, srows, j as nat);
                    &&& pending_asset_is(pending@[q as int], srows[j])
                    &&& pending_state_is(assets@[e.len() + q as int], srows[j], q)
                },
            forall|t: Seq<char>|
                (exists|i: int| 0 <= i < assets@.len() && (#[trigger] assets@[i]).ticker@ == t) <==> ticker_known(e, srows, k as int, t),
            row_assets@.len() == k,
            forall|j: int| 0 <= j < k ==> last_with_ticker(assets@, #[trigger] row_assets@[j] as int, srows[j].ticker@),
            forall|j: int| 0 <= j < k ==> !#[trigger] fails_at(e, srows, j),
            strictly_ascending(text_views(split_tickers@)),
            forall|t: Seq<char>|
                text_views(split_tickers@).contains(t) <==> exists|j: int|
                    0 <= j < k && (#[trigger] srows[j]).tx_type == TxType::Split && srows[j].ticker@ == t,
            invalidation is None <==> k == 0,
            invalidation is Some ==> exists|j: int|
                0 <= j < k && invalidation->Some_0@ == row_invalidation(srows[j], assets@[#[trigger] row_assets@[j] as int]),
            invalidation is Some ==> forall|j: int|
                0 <= j < k ==> text_order(invalidation->Some_0@, row_invalidation(srows[j], assets@[#[trigger] row_assets@[j] as int])) <= 0,
        decreases n - k,
    {
        let row = &rows[order[k]];
        assert(srows[k as int] == *row);
        let ghost t0 = row.ticker@;
        let ghost assets_before = assets@;
        let ghost pending_before = pending@;
        let ghost ra_before = row_assets@;
        let ghost next: int = k + 1;
        let found = find_last_ticker(&assets, row.ticker.as_str());
        let a_idx: usize = match found {
            Some(i) => {
                proof {
                    assert(ticker_known(e, srows, k as int, t0));
                    assert(!first_occurrence(e, srows, k as int));
                    assert forall|t: Seq<char>|
                        (exists|m: int| 0 <= m < assets@.len() && (#[trigger] assets@[m]).ticker@ == t) <==> #[trigger] ticker_known(e, srows, next, t) by {
                        if ticker_known(e, srows, next, t) && !ticker_known(e, srows, k as int, t) {
                            let j = choose|j: int| 0 <= j < k + 1 && (#[trigger] srows[j]).ticker@ == t;
                            assert(j == k);
                            assert(assets@[i as int].ticker@ == t);
                        }
                        if ticker_known(e, srows, k as int, t) {
                            if exists|j: int| 0 <= j < k && (#[trigger] srows[j]).ticker@ == t {
                                let j = choose|j: int| 0 <= j < k && (#[trigger] srows[j]).ticker@ == t;
                                assert(0 <= j < k + 1 && srows[j].ticker@ == t);
                            }
                        }
                    }
                }
                i
            },
            None => {
                proof {
                    if ticker_known(e, srows, k as int, t0) {
                        let m = choose|m: int| 0 <= m < assets@.len() && (#[trigger] assets@[m]).ticker@ == t0;
                        assert(assets@[m].ticker@ != t0);
                    }
                    assert(first_occurrence(e, srows, k as int));
                }
                match check_new_asset(row) {
                    Ok(()) => {},
                    Err(message) => {
                        proof {
                            assert(fails_at(e, srows, k as int));
                            assert forall|j: int| #[trigger] first_failure(e, srows, j) implies j == k by {
                                if j < k {
                                    assert(!fails_at(e, srows, j));
                                }
                            }
                            assert(first_failure(e, srows, k as int));
                        }
                        return Err(message);
                    },
                }
                let p = pending.len();
                if p >= 2147483647 {
                    proof {
                        assert(fails_at(e, srows, k as int));
                        assert forall|j: int| #[trigger] first_failure(e, srows, j) implies j == k by {
                            if j < k {
                                assert(!fails_at(e, srows, j));
                            }
                        }
                        assert(first_failure(e, srows, k as int));
                    }
                    return Err(String::from_str("pending asset count exceeds the supported asset ID range"));
                }
                let name = match &row.name {
                    Some(nm) => copy_text(nm.as_str()),
                    None => String::new(),
                };
                let asset_type = match row.asset_type {
                    Some(t) => t,
                    None => AssetType::Stock,
                };
                let currency = match &row.currency {
                    Some(c) => copy_text(c.as_str()),
                    None => String::new(),
                };
                let info = AssetInfo {
                    ticker: copy_text(row.ticker.as_str()),
                    name: copy_text(name.as_str()),
                    asset_type,
                    currency: copy_text(currency.as_str()),
                };
                pending.push(
                    PendingAsset {
                        info,
                        classification: copy_classification(&row.classification),
                        morningstar_code: copy_optional_text(&row.morningstar_code),
                    },
                );
                let id: i32 = -((p as i32) + 1);
                assets.push(ImportAsset::new_pending(id, copy_text(row.ticker.as_str()), name, currency, p));
                proof {
                    assert(!fails_at(e, srows, k as int));
                    assert forall|j: int|
                        0 <= j < k + 1 && #[trigger] first_occurrence(e, srows, j) implies {
                            let q = pending_count(e, srows, j as nat);
                            &&& pending_asset_is(pending@[q as int], srows[j])
                            &&& pending_state_is(assets@[e.len() + q as int], srows[j], q)
                        } by {
                        if j < k {
                            lemma_pending_count_grows(e, srows, j as nat, k as nat);
                            let q = pending_count(e, srows, j as nat);
                            assert(pending@[q as int] == pending_before[q as int]);
                            assert(assets@[e.len() + q as int] == assets_before[e.len() + q as int]);
                        }
                    }
                    assert forall|t: Seq<char>|
                        (exists|m: int| 0 <= m < assets@.len() && (#[trigger] assets@[m]).ticker@ == t) <==> #[trigger] ticker_known(e, srows, next, t) by {
                        if exists|m: int| 0 <= m < assets@.len() && (#[trigger] assets@[m]).ticker@ == t {
                            let m = choose|m: int| 0 <= m < assets@.len() && (#[trigger] assets@[m]).ticker@ == t;
                            if m < assets_before.len() {
                                assert(assets_before[m].ticker@ == t);
                                assert(ticker_known(e, srows, k as int, t));
                                if exists|j: int| 0 <= j < k && (#[trigger] srows[j]).ticker@ == t {
                                    let j = choose|j: int| 0 <= j < k && (#[trigger] srows[j]).ticker@ == t;
                                    assert(0 <= j < k + 1 && srows[j].ticker@ == t);
                                }
                            } else {
                                assert(srows[k as int].ticker@ == t);
                            }
                        }
                        if ticker_known(e, srows, next, t) {
                            if exists|j: int| 0 <= j < k + 1 && (#[trigger] srows[j]).ticker@ == t {
                                let j = choose|j: int| 0 <= j < k + 1 && (#[trigger] srows[j]).ticker@ == t;
                                if j == k {
                                    assert(assets@[assets@.len() - 1].ticker@ == t);
                                } else {
                                    assert(ticker_known(e, srows, k as int, t));
                                    let m = choose|m: int| 0 <= m < assets_before.len() && (#[trigger] assets_before[m]).ticker@ == t;
                                    assert(assets@[m] == assets_before[m]);
                                }
                            } else {
                                assert(ticker_known(e, srows, k as int, t));
                                let m = choose|m: int| 0 <= m < assets_before.len() && (#[trigger] assets_before[m]).ticker@ == t;
                                assert(assets@[m] == assets_before[m]);
                            }
                        }
                    }
                    assert forall|j: int| 0 <= j < k implies last_with_ticker(assets@, #[trigger] row_assets@[j] as int, srows[j].ticker@) by {
                        assert(last_with_ticker(assets_before, row_assets@[j] as int, srows[j].ticker@));
                        assert(ticker_known(e, srows, k as int, srows[j].ticker@));
                        assert(srows[j].ticker@ != t0);
                        assert(assets@[row_assets@[j] as int] == assets_before[row_assets@[j] as int]);
                        assert forall|m: int| row_assets@[j] < m < assets@.len() implies (#[trigger] assets@[m]).ticker@ != srows[j].ticker@ by {
                            if m < assets_before.len() {
                                assert(assets@[m] == assets_before[m]);
                            }
                        }
                    }
                }
                assets.len() - 1
            },
        };
        row_assets.push(a_idx);
        proof {
            assert forall|j: int| 0 <= j < k + 1 implies last_with_ticker(assets@, #[trigger] row_assets@[j] as int, srows[j].ticker@) by {
                if j < k {
                    assert(row_assets@[j] == ra_before[j]);
                }
            }
            assert forall|j: int| 0 <= j < k + 1 implies !#[trigger] fails_at(e, srows, j) by {
                if j < k {
                    assert(!fails_at(e, srows, j));
                }
            }
        }
        let date_str = format_iso_day(row.date);
        let is_split = row.tx_type == TxType::Split;
        let row_inv: String = if is_split {
            match &assets[a_idx].first_transaction_date {
                Some(d) => copy_text(d.as_str()),
                None => date_str,
            }
        } else {
            date_str
        };
        assert(row_inv@ == row_invalidation(srows[k as int], assets@[row_assets@[k as int] as int]));
        if is_split {
            let ghost before = text_views(split_tickers@);
            insert_sorted_unique(&mut split_tickers, copy_text(row.ticker.as_str()));
            proof {
                assert forall|t: Seq<char>|
                    text_views(split_tickers@).contains(t) <==> exists|j: int|
                        0 <= j < k + 1 && (#[trigger] srows[j]).tx_type == TxType::Split && srows[j].ticker@ == t by {
                    if text_views(split_tickers@).contains(t) && t != t0 {
                        let j = choose|j: int| 0 <= j < k && (#[trigger] srows[j]).tx_type == TxType::Split && srows[j].ticker@ == t;
                        assert(0 <= j < k + 1);
                    }
                    if exists|j: int| 0 <= j < k + 1 && (#[trigger] srows[j]).tx_type == TxType::Split && srows[j].ticker@ == t {
                        let j = choose|j: int| 0 <= j < k + 1 && (#[trigger] srows[j]).tx_type == TxType::Split && srows[j].ticker@ == t;
                        if j < k {
                            assert(before.contains(t));
                        }
                    }
                }
            }
        } else {
            proof {
                assert forall|t: Seq<char>|
                    text_views(split_tickers@).contains(t) <==> exists|j: int|
                        0 <= j < k + 1 && (#[trigger] srows[j]).tx_type == TxType::Split && srows[j].ticker@ == t by {
                    if text_views(split_tickers@).contains(t) {
                        let j = choose|j: int| 0 <= j < k && (#[trigger] srows[j]).tx_type == TxType::Split && srows[j].ticker@ == t;
                        assert(0 <= j < k + 1);
                    }
                    if exists|j: int| 0 <= j < k + 1 && (#[trigger] srows[j]).tx_type == TxType::Split && srows[j].ticker@ == t {
                        let j = choose|j: int| 0 <= j < k + 1 && (#[trigger] srows[j]).tx_type == TxType::Split && srows[j].ticker@ == t;
                        assert(j < k);
                    }
                }
            }
        }
        let ghost old_inv = invalidation;
        let replace = match &invalidation {
            None => true,
            Some(cur) => compare_text(row_inv.as_str(), cur.as_str()) < 0,
        };
        proof {
            if let Some(cur) = old_inv {
                lemma_text_order_range(row_inv@, cur@);
                lemma_text_order_antisym(row_inv@, cur@);
                assert forall|j: int| 0 <= j < k implies text_order(
                    cur@,
                    row_invalidation(srows[j], assets@[#[trigger] row_assets@[j] as int]),
                ) <= 0 by {
                    assert(row_assets@[j] == ra_before[j]);
                    assert(assets@[ra_before[j] as int] == assets_before[ra_before[j] as int]);
                }
            }
        }
        if replace {
            proof {
                if let Some(cur) = old_inv {
                    assert forall|j: int| 0 <= j < k + 1 implies text_order(
                        row_inv@,
                        row_invalidation(srows[j], assets@[#[trigger] row_assets@[j] as int]),
                    ) <= 0 by {
                        if j < k {
                            lemma_text_order_trans(
                                row_inv@,
                                cur@,
                                row_invalidation(srows[j], assets@[row_assets@[j] as int]),
                            );
                        } else {
                            lemma_text_order_eq(row_inv@, row_inv@);
                        }
                    }
                } else {
                    assert forall|j: int| 0 <= j < k + 1 implies text_order(
                        row_inv@,
                        row_invalidation(srows[j], assets@[#[trigger] row_assets@[j] as int]),
                    ) <= 0 by {
                        lemma_text_order_eq(row_inv@, row_inv@);
                    }
                }
            }
            invalidation = Some(row_inv);
        } else {
            proof {
                let cur = old_inv->Some_0;
                let j0 = choose|j: int| 0 <= j < k && cur@ == row_invalidation(srows[j], assets_before[#[trigger] ra_before[j] as int]);
                assert(row_assets@[j0] == ra_before[j0]);
                assert(assets@[ra_before[j0] as int] == assets_before[ra_before[j0] as int]);
                assert(0 <= j0 < k + 1 && cur@ == row_invalidation(srows[j0], assets@[row_assets@[j0] as int]));
            }
        }
        k = k + 1;
    }
    proof {
        assert forall|j: int| !#[trigger] fails_at(e, srows, j) by {
            if 0 <= j < n {
                assert(!fails_at(e, srows, j));
            }
        }
        assert forall|j: int| #[trigger] first_failure(e, srows, j) implies false by {
            assert(!fails_at(e, srows, j));
        }
    }
    let plan = ImportPlan {
        order,
        assets,
        pending_assets: pending,
        row_assets,
        split_tickers,
        invalidation_date: invalidation,
    };
    proof {
        let pc = pending_count(e, srows, n as nat);
        assert(plan.pending_assets@.len() == pc);
        assert forall|i: int| 0 <= i < e.len() implies #[trigger] plan.assets@[i] == e[i] by {}
        assert forall|j: int| 0 <= j < n && #[trigger] first_occurrence(e, srows, j) implies {
            let q = pending_count(e, srows, j as nat);
            &&& pending_asset_is(plan.pending_assets@[q as int], srows[j])
            &&& pending_state_is(plan.assets@[e.len() + q as int], srows[j], q)
        } by {}
        assert forall|j: int| 0 <= j < n implies last_with_ticker(
            plan.assets@,
            #[trigger] plan.row_assets@[j] as int,
            srows[j].ticker@,
        ) by {}
        assert(plan.order@ == date_order(rows@, n as nat));
        assert(plan.assets@.len() == e.len() + pc);
        assert(plan.row_assets@.len() == n);
        assert(strictly_ascending(text_views(plan.split_tickers@)));
        assert(forall|t: Seq<char>|
            text_views(plan.split_tickers@).contains(t) <==> exists|k: int|
                0 <= k < n && (#[trigger] srows[k]).tx_type == TxType::Split && srows[k].ticker@ == t);
        assert(plan.invalidation_date is None <==> n == 0);
        assert(plan.invalidation_date is Some ==> {
            let t = plan.invalidation_date->Some_0@;
            &&& exists|k: int| 0 <= k < n && t == row_invalidation(srows[k], plan.assets@[#[trigger] plan.row_assets@[k] as int])
            &&& forall|k: int| 0 <= k < n ==> text_order(t, row_invalidation(srows[k], plan.assets@[#[trigger] plan.row_assets@[k] as int])) <= 0
        });
        assert(plan_is(plan, rows@, e));
    }
    Ok(plan)
}

} // verus!
