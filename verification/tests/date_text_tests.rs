use rusty_js_runtime::date::{parse_iso8601_bytes, parse_iso8601_to_epoch_ms, utc_components_to_epoch_ms};
use rusty_js_runtime::replace::process_replacement_substitution;
use rusty_js_runtime::text::{append_decimal, append_signed_decimal};

#[test]
fn epoch_components_exact_values() {
    assert_eq!(utc_components_to_epoch_ms(1970, 0, 1, 0, 0, 0, 0), 0);
    assert_eq!(utc_components_to_epoch_ms(2000, 0, 1, 0, 0, 0, 0), 946_684_800_000);
    assert_eq!(utc_components_to_epoch_ms(2024, 1, 29, 12, 30, 15, 250), 1_709_209_815_250);
    assert_eq!(utc_components_to_epoch_ms(1969, 11, 31, 23, 59, 59, 999), -1);
    assert_eq!(utc_components_to_epoch_ms(1, 0, 1, 0, 0, 0, 0), -62_135_596_800_000);
    assert_eq!(utc_components_to_epoch_ms(9999, 11, 31, 23, 59, 59, 0), 253_402_300_799_000);
}

#[test]
fn epoch_components_carry_overflow() {
    // Month 13 of 2023 is February 2024; month -1 of 2024 is December 2023.
    assert_eq!(utc_components_to_epoch_ms(2023, 13, 1, 0, 0, 0, 0), 1_706_745_600_000);
    assert_eq!(utc_components_to_epoch_ms(2024, -1, 1, 0, 0, 0, 0), 1_701_388_800_000);
    // Day 30 of February 2024 runs on into March.
    assert_eq!(utc_components_to_epoch_ms(2024, 1, 30, 0, 0, 0, 0), 1_709_251_200_000);
    // Hours past the day run on too.
    assert_eq!(
        utc_components_to_epoch_ms(1970, 0, 1, 25, 0, 0, 0),
        utc_components_to_epoch_ms(1970, 0, 2, 1, 0, 0, 0)
    );
}

#[test]
fn iso_dates_and_times() {
    assert_eq!(parse_iso8601_to_epoch_ms("1970-01-01"), Some(0));
    assert_eq!(parse_iso8601_to_epoch_ms("2000-01-01T00:00:00Z"), Some(946_684_800_000));
    assert_eq!(parse_iso8601_to_epoch_ms("2024-02-29T12:30:15.250Z"), Some(1_709_209_815_250));
    assert_eq!(parse_iso8601_to_epoch_ms("2024-02-29 12:30:15.25"), Some(1_709_209_815_250));
    assert_eq!(parse_iso8601_to_epoch_ms("2024-02-29T12:30:15.2509Z"), Some(1_709_209_815_250));
    assert_eq!(parse_iso8601_to_epoch_ms("  2000-01-01T00:00:00.5Z\n"), Some(946_684_800_500));
    assert_eq!(parse_iso8601_to_epoch_ms("2024-02-29T12:30:15+05:30"), Some(1_709_190_015_000));
    assert_eq!(
        parse_iso8601_to_epoch_ms("2024-02-29T12:30:15-05:30"),
        Some(1_709_209_815_000 + 330 * 60_000)
    );
}

#[test]
fn iso_lenient_forms() {
    // A time part shorter than HH:MM:SS is ignored.
    assert_eq!(parse_iso8601_to_epoch_ms("2024-01-01T10"), Some(1_704_067_200_000));
    // An offset without its minutes is ignored.
    assert_eq!(parse_iso8601_to_epoch_ms("2024-01-01T00:00:00+05"), Some(1_704_067_200_000));
    // Day 31 of a short month runs on.
    assert_eq!(parse_iso8601_to_epoch_ms("2023-02-31"), Some(1_677_801_600_000));
    // The year is read as a signed integer.
    assert_eq!(parse_iso8601_to_epoch_ms("+970-01-01"), parse_iso8601_to_epoch_ms("0970-01-01"));
}

#[test]
fn iso_rejections() {
    assert_eq!(parse_iso8601_to_epoch_ms("2024-13-01"), None);
    assert_eq!(parse_iso8601_to_epoch_ms("2024-00-10"), None);
    assert_eq!(parse_iso8601_to_epoch_ms("2024-01-32"), None);
    assert_eq!(parse_iso8601_to_epoch_ms("2024/01/01"), None);
    assert_eq!(parse_iso8601_to_epoch_ms("2024-01-1"), None);
    assert_eq!(parse_iso8601_to_epoch_ms("2024-01-01X"), None);
    assert_eq!(parse_iso8601_to_epoch_ms("2024-01-01T10:00:00Q"), None);
    assert_eq!(parse_iso8601_to_epoch_ms("2024-01-01T10-00:00"), None);
    assert_eq!(parse_iso8601_to_epoch_ms("abcd-01-01"), None);
    assert_eq!(parse_iso8601_to_epoch_ms(""), None);
    assert_eq!(parse_iso8601_bytes(b"2024-01-01T1a:00:00Z"), None);
    assert_eq!(parse_iso8601_bytes(b"1970-01-02"), Some(86_400_000));
}

#[test]
fn replacement_patterns() {
    assert_eq!(process_replacement_substitution("[$&]", "b", "a", "c"), "[b]");
    assert_eq!(process_replacement_substitution("$`|$'", "b", "a", "c"), "a|c");
    assert_eq!(process_replacement_substitution("$$x", "b", "a", "c"), "$x");
    assert_eq!(process_replacement_substitution("$1 $", "b", "a", "c"), "$1 $");
    assert_eq!(process_replacement_substitution("\u{e9}$&\u{1f600}", "b", "a", "c"), "\u{e9}b\u{1f600}");
    assert_eq!(process_replacement_substitution("$$&", "b", "a", "c"), "$&");
    assert_eq!(process_replacement_substitution("", "b", "a", "c"), "");
}

#[test]
fn decimal_appending() {
    let mut s = String::from("n=");
    append_decimal(&mut s, 0);
    s.push(',');
    append_decimal(&mut s, 340_282_366_920_938_463_463_374_607_431_768_211_455);
    assert_eq!(s, "n=0,340282366920938463463374607431768211455");
    let mut t = String::new();
    append_signed_decimal(&mut t, i64::MIN);
    t.push(' ');
    append_signed_decimal(&mut t, 42);
    t.push(' ');
    append_signed_decimal(&mut t, -7);
    assert_eq!(t, "-9223372036854775808 42 -7");
}
