use remindme::date_utils::{month_to_number, parse_date, RemindMeDateTypes};

fn duration(y: i32, mon: u32, d: u32, h: u32, min: u32) -> RemindMeDateTypes {
    RemindMeDateTypes::AddedTime { y, mon, d, h, min }
}

#[test]
fn empty_token_is_invalid() {
    assert_eq!(parse_date(""), RemindMeDateTypes::Invalid);
}

#[test]
fn date_with_month_name() {
    assert_eq!(
        parse_date("13APR2026"),
        RemindMeDateTypes::ThreeLetterMonth { d: 13, mon: 4, y: 2026 }
    );
}

#[test]
fn date_with_one_digit_day_and_short_year() {
    assert_eq!(
        parse_date("1jan26"),
        RemindMeDateTypes::ThreeLetterMonth { d: 1, mon: 1, y: 26 }
    );
    assert_eq!(
        parse_date("7Dec999"),
        RemindMeDateTypes::ThreeLetterMonth { d: 7, mon: 12, y: 999 }
    );
}

#[test]
fn month_letters_in_any_case() {
    let expected = RemindMeDateTypes::ThreeLetterMonth { d: 13, mon: 4, y: 2026 };
    assert_eq!(parse_date("13apr2026"), expected);
    assert_eq!(parse_date("13Apr2026"), expected);
    assert_eq!(parse_date("13aPR2026"), expected);
}

#[test]
fn day_and_year_are_not_checked_against_the_calendar() {
    assert_eq!(
        parse_date("31FEB2026"),
        RemindMeDateTypes::ThreeLetterMonth { d: 31, mon: 2, y: 2026 }
    );
    assert_eq!(
        parse_date("00jan00"),
        RemindMeDateTypes::ThreeLetterMonth { d: 0, mon: 1, y: 0 }
    );
    assert_eq!(
        parse_date("99dec9999"),
        RemindMeDateTypes::ThreeLetterMonth { d: 99, mon: 12, y: 9999 }
    );
}

#[test]
fn unknown_month_is_invalid() {
    assert_eq!(parse_date("13XXX2026"), RemindMeDateTypes::Invalid);
    assert_eq!(parse_date("13abc26"), RemindMeDateTypes::Invalid);
}

#[test]
fn date_shape_is_exact() {
    assert_eq!(parse_date("APR2026"), RemindMeDateTypes::Invalid);
    assert_eq!(parse_date("123APR2026"), RemindMeDateTypes::Invalid);
    assert_eq!(parse_date("13APR6"), RemindMeDateTypes::Invalid);
    assert_eq!(parse_date("13APR20266"), RemindMeDateTypes::Invalid);
    assert_eq!(parse_date("13APRI2026"), RemindMeDateTypes::Invalid);
    assert_eq!(parse_date("13AP2026"), RemindMeDateTypes::Invalid);
    assert_eq!(parse_date("13APR2026 "), RemindMeDateTypes::Invalid);
    assert_eq!(parse_date("130000"), RemindMeDateTypes::Invalid);
    assert_eq!(parse_date("12ab26"), RemindMeDateTypes::Invalid);
}

#[test]
fn every_month_has_its_number() {
    let names = [
        "jan", "feb", "mar", "apr", "may", "jun", "jul", "aug", "sep", "oct", "nov", "dec",
    ];
    for (i, name) in names.iter().enumerate() {
        assert_eq!(month_to_number(name), Some(i as u32 + 1));
        assert_eq!(month_to_number(&name.to_uppercase()), Some(i as u32 + 1));
        assert_eq!(
            parse_date(&format!("5{}2030", name)),
            RemindMeDateTypes::ThreeLetterMonth { d: 5, mon: i as u32 + 1, y: 2030 }
        );
    }
}

#[test]
fn what_is_no_month_has_no_number() {
    assert_eq!(month_to_number(""), None);
    assert_eq!(month_to_number("ja"), None);
    assert_eq!(month_to_number("janu"), None);
    assert_eq!(month_to_number("xxx"), None);
    assert_eq!(month_to_number("j4n"), None);
    assert_eq!(month_to_number("jän"), None);
}

#[test]
fn time_of_day() {
    assert_eq!(parse_date("1300"), RemindMeDateTypes::SpecifiedTime { h: 13, min: 0 });
    assert_eq!(parse_date("0000"), RemindMeDateTypes::SpecifiedTime { h: 0, min: 0 });
    assert_eq!(parse_date("0330"), RemindMeDateTypes::SpecifiedTime { h: 3, min: 30 });
    assert_eq!(parse_date("2359"), RemindMeDateTypes::SpecifiedTime { h: 23, min: 59 });
}

#[test]
fn hour_rule_is_per_digit() {
    // The second digit of the hour is at most 3 whatever the first is.
    assert_eq!(parse_date("2300"), RemindMeDateTypes::SpecifiedTime { h: 23, min: 0 });
    assert_eq!(parse_date("2400"), RemindMeDateTypes::Invalid);
    assert_eq!(parse_date("1400"), RemindMeDateTypes::Invalid);
    assert_eq!(parse_date("0900"), RemindMeDateTypes::Invalid);
    assert_eq!(parse_date("1959"), RemindMeDateTypes::Invalid);
    assert_eq!(parse_date("3000"), RemindMeDateTypes::Invalid);
    assert_eq!(parse_date("1260"), RemindMeDateTypes::Invalid);
    assert_eq!(parse_date("130"), RemindMeDateTypes::Invalid);
    assert_eq!(parse_date("13000"), RemindMeDateTypes::Invalid);
    assert_eq!(parse_date("13:00"), RemindMeDateTypes::Invalid);
}

#[test]
fn duration_of_hours() {
    assert_eq!(parse_date("3h"), duration(0, 0, 0, 3, 0));
}

#[test]
fn duration_with_every_part() {
    assert_eq!(parse_date("1y2M3d4h5m"), duration(1, 2, 3, 4, 5));
}

#[test]
fn duration_parts_may_be_left_out() {
    assert_eq!(parse_date("2y"), duration(2, 0, 0, 0, 0));
    assert_eq!(parse_date("2M"), duration(0, 2, 0, 0, 0));
    assert_eq!(parse_date("2d"), duration(0, 0, 2, 0, 0));
    assert_eq!(parse_date("2m"), duration(0, 0, 0, 0, 2));
    assert_eq!(parse_date("1y5m"), duration(1, 0, 0, 0, 5));
    assert_eq!(parse_date("10M20d"), duration(0, 10, 20, 0, 0));
    assert_eq!(parse_date("1h30m"), duration(0, 0, 0, 1, 30));
    assert_eq!(parse_date("007h"), duration(0, 0, 0, 7, 0));
    assert_eq!(parse_date("0h"), duration(0, 0, 0, 0, 0));
}

#[test]
fn duration_parts_keep_their_order_and_case() {
    assert_eq!(parse_date("5m1y"), RemindMeDateTypes::Invalid);
    assert_eq!(parse_date("1d1M"), RemindMeDateTypes::Invalid);
    assert_eq!(parse_date("3h3h"), RemindMeDateTypes::Invalid);
    assert_eq!(parse_date("3H"), RemindMeDateTypes::Invalid);
    assert_eq!(parse_date("3Y"), RemindMeDateTypes::Invalid);
    assert_eq!(parse_date("3D"), RemindMeDateTypes::Invalid);
    assert_eq!(parse_date("h"), RemindMeDateTypes::Invalid);
    assert_eq!(parse_date("3"), RemindMeDateTypes::Invalid);
    assert_eq!(parse_date("3h4"), RemindMeDateTypes::Invalid);
    assert_eq!(parse_date("3x"), RemindMeDateTypes::Invalid);
    assert_eq!(parse_date("3 h"), RemindMeDateTypes::Invalid);
    assert_eq!(parse_date("-3h"), RemindMeDateTypes::Invalid);
    assert_eq!(parse_date("+3h"), RemindMeDateTypes::Invalid);
    assert_eq!(parse_date("3.5h"), RemindMeDateTypes::Invalid);
}

#[test]
fn number_too_large_for_its_part_counts_as_zero() {
    assert_eq!(parse_date("4294967295h"), duration(0, 0, 0, 4294967295, 0));
    assert_eq!(parse_date("4294967296h"), duration(0, 0, 0, 0, 0));
    assert_eq!(parse_date("2147483647y"), duration(2147483647, 0, 0, 0, 0));
    assert_eq!(parse_date("2147483648y"), duration(0, 0, 0, 0, 0));
    assert_eq!(parse_date("99999999999999999999999d5m"), duration(0, 0, 0, 0, 5));
    assert_eq!(parse_date("00000000000000000000012m"), duration(0, 0, 0, 0, 12));
}

#[test]
fn digits_of_other_scripts_are_no_digits() {
    assert_eq!(parse_date("\u{663}h"), RemindMeDateTypes::Invalid);
    assert_eq!(parse_date("1\u{663}00"), RemindMeDateTypes::Invalid);
    assert_eq!(parse_date("\u{661}\u{663}APR2026"), RemindMeDateTypes::Invalid);
}

#[test]
fn words_are_invalid() {
    assert_eq!(parse_date("tomorrow"), RemindMeDateTypes::Invalid);
    assert_eq!(parse_date("!remindme"), RemindMeDateTypes::Invalid);
    assert_eq!(parse_date(" "), RemindMeDateTypes::Invalid);
}

#[test]
fn a_text_has_its_characters_in_order() {
    assert_eq!(remindme::text::chars_of(""), Vec::<char>::new());
    assert_eq!(remindme::text::chars_of("3h"), ['3', 'h']);
    assert_eq!(remindme::text::chars_of("a\u{f1}b\u{1f600}"), ['a', '\u{f1}', 'b', '\u{1f600}']);
}
