use relnotes::release::{next_release_day, release_date, CalendarDate};

fn date(year: i32, month: u32, day: u32) -> CalendarDate {
    CalendarDate { year, month, day }
}

#[test]
fn release_day_is_the_first_cycle_end_not_before_today() {
    assert_eq!(next_release_day(100, 100), 142);
    assert_eq!(next_release_day(100, 50), 142);
    assert_eq!(next_release_day(100, 141), 142);
    assert_eq!(next_release_day(100, 142), 142);
    assert_eq!(next_release_day(100, 143), 184);
    assert_eq!(next_release_day(100, 184), 184);
    assert_eq!(next_release_day(100, 185), 226);
    assert_eq!(next_release_day(-10, -10), 32);
    assert_eq!(next_release_day(0, 42 * 1000 + 1), 42 * 1001);
}

#[test]
fn release_day_agrees_with_counting_cycles() {
    let known: i32 = 737_496;
    let mut today: i32 = known - 100;
    while today < known + 500 {
        let mut end: i64 = known as i64;
        while today as i64 - end > 42 {
            end += 42;
        }
        assert_eq!(next_release_day(known, today), end + 42, "{}", today);
        today += 1;
    }
}

#[test]
fn release_day_does_not_overflow() {
    assert_eq!(next_release_day(i32::MAX, i32::MIN), i32::MAX as i64 + 42);
    let far = next_release_day(i32::MIN, i32::MAX);
    assert!(far >= i32::MAX as i64);
    assert!(far - 42 < i32::MAX as i64);
    assert_eq!((far - i32::MIN as i64) % 42, 0);
}

#[test]
fn release_dates_follow_the_calendar() {
    assert_eq!(release_date(date(2020, 3, 12)), Some(date(2020, 4, 23)));
    assert_eq!(release_date(date(2020, 4, 22)), Some(date(2020, 4, 23)));
    assert_eq!(release_date(date(2020, 4, 23)), Some(date(2020, 4, 23)));
    assert_eq!(release_date(date(2020, 4, 24)), Some(date(2020, 6, 4)));
    assert_eq!(release_date(date(2019, 1, 1)), Some(date(2020, 4, 23)));
    assert_eq!(release_date(date(2024, 2, 29)), Some(date(2024, 3, 21)));
}

#[test]
fn impossible_dates_have_no_release() {
    assert_eq!(release_date(date(2021, 2, 29)), None);
    assert_eq!(release_date(date(2021, 13, 1)), None);
    assert_eq!(release_date(date(2021, 0, 1)), None);
    assert_eq!(release_date(date(i32::MAX, 1, 1)), None);
}
