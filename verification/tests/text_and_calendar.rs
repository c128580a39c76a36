use rstock::calendar::{canonical_date, display_date, format_iso_day, parse_iso_day, parse_iso_day_or_error};
use rstock::services::market_data_policy::completed_weekdays_between;
use rstock::constants::is_benchmark_ticker;
use rstock::text::{
    compare_text, i32_text, insert_sorted_unique, string_of, text_eq_ignore_ascii_case, to_ascii_uppercase,
    trim, usize_text,
};

#[test]
fn trim_removes_unicode_white_space_at_both_ends() {
    assert_eq!(trim("  a b \t\n"), "a b");
    assert_eq!(trim("\u{3000}x\u{2003}"), "x");
    assert_eq!(trim("   "), "");
}

#[test]
fn string_of_appends_each_character() {
    assert_eq!(string_of(&['a', 'é', 'z']), "aéz");
}

#[test]
fn decimal_numerals() {
    assert_eq!(usize_text(0), "0");
    assert_eq!(usize_text(1234), "1234");
    assert_eq!(i32_text(-42), "-42");
    assert_eq!(i32_text(i32::MIN), "-2147483648");
    assert_eq!(i32_text(i32::MAX), "2147483647");
}

#[test]
fn text_comparison_is_lexicographic() {
    assert_eq!(compare_text("2025-01-02", "2025-01-10"), -1);
    assert_eq!(compare_text("b", "ab"), 1);
    assert_eq!(compare_text("same", "same"), 0);
    assert_eq!(compare_text("ab", "abc"), -1);
}

#[test]
fn ascii_case_helpers() {
    assert_eq!(to_ascii_uppercase("usd é"), "USD é");
    assert!(text_eq_ignore_ascii_case("MoNeTaRy", "monetary"));
    assert!(!text_eq_ignore_ascii_case("monetaries", "monetary"));
}

#[test]
fn sorted_insertion_keeps_each_text_once() {
    let mut v: Vec<String> = Vec::new();
    insert_sorted_unique(&mut v, "USD".to_owned());
    insert_sorted_unique(&mut v, "CHF".to_owned());
    insert_sorted_unique(&mut v, "USD".to_owned());
    insert_sorted_unique(&mut v, "GBP".to_owned());
    assert_eq!(v, vec!["CHF", "GBP", "USD"]);
}

#[test]
fn storage_dates_parse_to_day_numbers() {
    assert_eq!(parse_iso_day("2025-01-02"), Some(739253));
    assert_eq!(parse_iso_day("0001-01-01"), Some(1));
    assert_eq!(parse_iso_day("2025-02-30"), None);
    assert_eq!(format_iso_day(739253), "2025-01-02");
}

#[test]
fn canonical_dates_round_trip() {
    assert!(canonical_date("2025-01-02"));
    assert!(!canonical_date("2025-1-2"));
    assert!(!canonical_date("02-01-2025"));
}

#[test]
fn display_dates_are_day_month_year() {
    assert_eq!(display_date("2025-03-15"), "15-03-2025");
    assert_eq!(display_date("not a date"), "not a date");
}

#[test]
fn weekends_are_not_completed_weekdays() {
    // Saturday 2025-01-04 and Sunday 2025-01-05 after Friday 2025-01-03.
    assert_eq!(completed_weekdays_between(739254, 739256), 0);
    // Monday 2025-01-06.
    assert_eq!(completed_weekdays_between(739256, 739257), 1);
}

#[test]
fn benchmark_ticker_is_recognised() {
    assert!(is_benchmark_ticker("^GSPC"));
    assert!(!is_benchmark_ticker("GSPC"));
}

#[test]
fn unreadable_storage_dates_carry_chrono_s_reason() {
    assert_eq!(parse_iso_day_or_error("2025-01-02"), Ok(739253));
    for text in ["2025-02-30", "02-01-2025", "", "2025-01-02x"] {
        let expected = chrono::NaiveDate::parse_from_str(text, "%Y-%m-%d").unwrap_err().to_string();
        assert_eq!(parse_iso_day_or_error(text), Err(expected));
    }
}
