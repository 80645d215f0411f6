use default_extractor::date_extraction::extract_datetimes_chars;
use default_extractor::date_extraction::DateMatch;
use default_extractor::date_extraction::DateWithGermanMonthExtractor;
use default_extractor::dates::NaiveDate;
use default_extractor::dates::NaiveDateWithOptionalTime;
use default_extractor::normalize::str_to_chars;

fn dates_in(text: &str, year: u32) -> Vec<DateMatch> {
    let cs = str_to_chars(text);
    extract_datetimes_chars(&cs, year)
}

fn date_of(m: &DateMatch) -> NaiveDate {
    m.date.date_part()
}

#[test]
fn numeric_date_is_found() {
    let ds = dates_in("Concert Night 12.03. Tickets available now", 2022);
    assert_eq!(ds.len(), 1);
    assert_eq!(ds[0].matched_string, "12.03.");
    assert_eq!(date_of(&ds[0]), NaiveDate { year: 2022, month: 3, day: 12 });
    assert!(matches!(ds[0].date, NaiveDateWithOptionalTime::NaiveDate(_)));
}

#[test]
fn numeric_dates_keep_text_order() {
    let ds = dates_in("erst 12.03. dann 14.04. zuletzt 1.5.", 2022);
    assert_eq!(ds.len(), 3);
    assert_eq!(date_of(&ds[0]), NaiveDate { year: 2022, month: 3, day: 12 });
    assert_eq!(date_of(&ds[1]), NaiveDate { year: 2022, month: 4, day: 14 });
    assert_eq!(date_of(&ds[2]), NaiveDate { year: 2022, month: 5, day: 1 });
}

#[test]
fn zero_padded_day_and_month() {
    let ds = dates_in("am 07.04. im Garten", 2022);
    assert_eq!(ds.len(), 1);
    assert_eq!(ds[0].matched_string, "07.04.");
    assert_eq!(date_of(&ds[0]), NaiveDate { year: 2022, month: 4, day: 7 });
}

#[test]
fn invalid_calendar_date_yields_no_match() {
    // Scenario: a pattern-shaped date that names no real day.
    let ds = dates_in("31.02. Event", 2022);
    assert_eq!(ds.len(), 0);
}

#[test]
fn thirteenth_month_is_no_date() {
    let ds = dates_in("Versammlung 12.13. im Saal", 2022);
    assert_eq!(ds.len(), 0);
}

#[test]
fn leap_day_depends_on_reference_year() {
    assert_eq!(dates_in("Fest am 29.02. hier", 2024).len(), 1);
    assert_eq!(dates_in("Fest am 29.02. hier", 2022).len(), 0);
    assert_eq!(dates_in("Fest am 29.02. hier", 2000).len(), 1);
    assert_eq!(dates_in("Fest am 29.02. hier", 1900).len(), 0);
}

#[test]
fn german_month_name_is_found() {
    let ds = dates_in("Lesung am 14. M\u{e4}rz im Saal", 2022);
    assert_eq!(ds.len(), 1);
    assert_eq!(ds[0].matched_string, "14. M\u{e4}rz");
    assert_eq!(date_of(&ds[0]), NaiveDate { year: 2022, month: 3, day: 14 });
}

#[test]
fn german_month_abbreviation_is_found() {
    let ds = dates_in("Lesung am 14. M\u{e4}r im Saal", 2022);
    assert_eq!(ds.len(), 1);
    assert_eq!(ds[0].matched_string, "14. M\u{e4}r");
    assert_eq!(date_of(&ds[0]), NaiveDate { year: 2022, month: 3, day: 14 });
}

#[test]
fn full_month_name_preferred_over_abbreviation() {
    let ds = dates_in("1. Januar Neujahrskonzert", 2022);
    assert_eq!(ds.len(), 1);
    assert_eq!(ds[0].matched_string, "1. Januar");
    assert_eq!(date_of(&ds[0]), NaiveDate { year: 2022, month: 1, day: 1 });
}

#[test]
fn german_day_without_dot_or_space() {
    let ds = dates_in("am 3Mai feiern wir", 2022);
    assert_eq!(ds.len(), 1);
    assert_eq!(ds[0].matched_string, "3Mai");
    assert_eq!(date_of(&ds[0]), NaiveDate { year: 2022, month: 5, day: 3 });
}

#[test]
fn zero_padded_day_with_german_month() {
    let ds = dates_in("am 07. Mai Konzert im Park", 2022);
    assert_eq!(ds.len(), 1);
    assert_eq!(ds[0].matched_string, "07. Mai");
    assert_eq!(date_of(&ds[0]), NaiveDate { year: 2022, month: 5, day: 7 });
}

#[test]
fn grammar_non_mixing_numeric_wins() {
    // Text carrying a numeric-style and a named-month-style date: only
    // the higher-priority numeric grammar supplies matches.
    let ds = dates_in("am 12.03. und am 14. M\u{e4}rz", 2022);
    assert_eq!(ds.len(), 1);
    assert_eq!(ds[0].matched_string, "12.03.");
    assert_eq!(date_of(&ds[0]), NaiveDate { year: 2022, month: 3, day: 12 });
}

#[test]
fn named_month_used_when_numeric_decodes_nothing() {
    // The numeric pattern occurs but names no real date, so the
    // named-month grammar supplies the result.
    let ds = dates_in("am 31.02. oder am 14. M\u{e4}rz", 2022);
    assert_eq!(ds.len(), 1);
    assert_eq!(ds[0].matched_string, "14. M\u{e4}rz");
}

#[test]
fn month_table_holds_names_and_abbreviations() {
    let table = DateWithGermanMonthExtractor::get_month_to_num();
    assert_eq!(table.len(), 24);
    assert_eq!(table[0], (String::from("Januar"), 1));
    assert_eq!(table[2], (String::from("M\u{e4}rz"), 3));
    assert_eq!(table[11], (String::from("Dezember"), 12));
    assert_eq!(table[12], (String::from("Jan"), 1));
    assert_eq!(table[14], (String::from("M\u{e4}r"), 3));
    assert_eq!(table[16], (String::from("Mai"), 5));
    assert_eq!(table[23], (String::from("Dez"), 12));
}

#[test]
fn date_validity_rules() {
    assert!(NaiveDate::from_ymd_opt(2022, 2, 28).is_some());
    assert!(NaiveDate::from_ymd_opt(2022, 2, 29).is_none());
    assert!(NaiveDate::from_ymd_opt(2024, 2, 29).is_some());
    assert!(NaiveDate::from_ymd_opt(1900, 2, 29).is_none());
    assert!(NaiveDate::from_ymd_opt(2000, 2, 29).is_some());
    assert!(NaiveDate::from_ymd_opt(2022, 4, 31).is_none());
    assert!(NaiveDate::from_ymd_opt(2022, 0, 1).is_none());
    assert!(NaiveDate::from_ymd_opt(2022, 13, 1).is_none());
    assert!(NaiveDate::from_ymd_opt(2022, 12, 31).is_some());
}

#[test]
fn date_ordering_by_fields() {
    let a = NaiveDate::from_ymd(2022, 3, 12);
    let b = NaiveDate::from_ymd(2022, 3, 13);
    let c = NaiveDate::from_ymd(2022, 4, 1);
    let d = NaiveDate::from_ymd(2023, 1, 1);
    assert!(a.lt(&b));
    assert!(b.lt(&c));
    assert!(c.lt(&d));
    assert!(!b.lt(&a));
    assert!(!a.lt(&a));
}
