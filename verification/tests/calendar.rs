use remindme::calendar::{LocalDateTime, MAX_YEAR, MIN_YEAR};

fn at(year: i32, month: u32, day: u32, hour: u32, minute: u32, second: u32) -> LocalDateTime {
    LocalDateTime::new(year, month, day, hour, minute, second).unwrap()
}

#[test]
fn an_instant_keeps_its_parts() {
    let t = at(2026, 10, 28, 22, 15, 30);
    assert_eq!(
        t,
        LocalDateTime { year: 2026, month: 10, day: 28, hour: 22, minute: 15, second: 30 }
    );
}

#[test]
fn months_have_their_lengths() {
    let lengths = [31, 28, 31, 30, 31, 30, 31, 31, 30, 31, 30, 31];
    for (i, days) in lengths.iter().enumerate() {
        let month = i as u32 + 1;
        assert!(LocalDateTime::new(2023, month, *days, 0, 0, 0).is_some());
        assert!(LocalDateTime::new(2023, month, days + 1, 0, 0, 0).is_none());
        assert!(LocalDateTime::new(2023, month, 0, 0, 0, 0).is_none());
    }
}

#[test]
fn february_in_leap_years() {
    assert!(LocalDateTime::new(2024, 2, 29, 0, 0, 0).is_some());
    assert!(LocalDateTime::new(2023, 2, 29, 0, 0, 0).is_none());
    assert!(LocalDateTime::new(1900, 2, 29, 0, 0, 0).is_none());
    assert!(LocalDateTime::new(2000, 2, 29, 0, 0, 0).is_some());
    assert!(LocalDateTime::new(2024, 2, 30, 0, 0, 0).is_none());
    assert!(LocalDateTime::new(0, 2, 29, 0, 0, 0).is_some());
    assert!(LocalDateTime::new(-4, 2, 29, 0, 0, 0).is_some());
    assert!(LocalDateTime::new(-1, 2, 29, 0, 0, 0).is_none());
    assert!(LocalDateTime::new(-100, 2, 29, 0, 0, 0).is_none());
    assert!(LocalDateTime::new(-400, 2, 29, 0, 0, 0).is_some());
}

#[test]
fn months_run_from_one_to_twelve() {
    assert!(LocalDateTime::new(2026, 0, 1, 0, 0, 0).is_none());
    assert!(LocalDateTime::new(2026, 1, 1, 0, 0, 0).is_some());
    assert!(LocalDateTime::new(2026, 12, 31, 0, 0, 0).is_some());
    assert!(LocalDateTime::new(2026, 13, 1, 0, 0, 0).is_none());
}

#[test]
fn the_calendar_has_a_first_and_a_last_year() {
    assert_eq!(MIN_YEAR, -262_143);
    assert_eq!(MAX_YEAR, 262_142);
    assert!(LocalDateTime::new(MAX_YEAR, 12, 31, 23, 59, 59).is_some());
    assert!(LocalDateTime::new(MAX_YEAR + 1, 1, 1, 0, 0, 0).is_none());
    assert!(LocalDateTime::new(MIN_YEAR, 1, 1, 0, 0, 0).is_some());
    assert!(LocalDateTime::new(MIN_YEAR - 1, 12, 31, 0, 0, 0).is_none());
    assert!(LocalDateTime::new(i32::MAX, 1, 1, 0, 0, 0).is_none());
    assert!(LocalDateTime::new(i32::MIN, 1, 1, 0, 0, 0).is_none());
}

#[test]
fn the_clock_has_24_hours_of_60_minutes_of_60_seconds() {
    assert!(LocalDateTime::new(2026, 1, 1, 23, 59, 59).is_some());
    assert!(LocalDateTime::new(2026, 1, 1, 24, 0, 0).is_none());
    assert!(LocalDateTime::new(2026, 1, 1, 0, 60, 0).is_none());
    assert!(LocalDateTime::new(2026, 1, 1, 0, 0, 60).is_none());
    assert!(LocalDateTime::new(2026, 1, 1, u32::MAX, 0, 0).is_none());
}

#[test]
fn instants_are_ordered_along_the_time_line() {
    let line = [
        at(-5, 12, 31, 23, 59, 59),
        at(2025, 12, 31, 23, 59, 59),
        at(2026, 1, 1, 0, 0, 0),
        at(2026, 1, 1, 0, 0, 1),
        at(2026, 1, 1, 0, 1, 0),
        at(2026, 1, 1, 1, 0, 0),
        at(2026, 1, 2, 0, 0, 0),
        at(2026, 2, 1, 0, 0, 0),
        at(2027, 1, 1, 0, 0, 0),
    ];
    for i in 0..line.len() {
        for j in 0..line.len() {
            assert_eq!(line[i] < line[j], i < j);
            assert_eq!(line[i] <= line[j], i <= j);
            assert_eq!(line[i] > line[j], i > j);
            assert_eq!(line[i] == line[j], i == j);
            assert_eq!(line[i].partial_cmp(&line[j]), Some(i.cmp(&j)));
            assert_eq!(line[i].cmp(&line[j]), i.cmp(&j));
        }
    }
}
