use time::Date;
use time::Month;
use time::OffsetDateTime;
use time::PrimitiveDateTime;
use time::Time;
use time::UtcOffset;
use time_tz::Offset;
use time_tz::OffsetDateTimeExt;
use time_tz::PrimitiveDateTimeExt;
use time_tz::TimeZone;
use time_tz::TransitionEntry;
use time_tz::Tz;

fn datetime(year: i32, month: Month, day: u8, hour: u8, minute: u8) -> PrimitiveDateTime {
    PrimitiveDateTime::new(
        Date::from_calendar_date(year, month, day).unwrap(),
        Time::from_hms(hour, minute, 0).unwrap(),
    )
}

fn hours(hours: i8) -> UtcOffset {
    UtcOffset::from_hms(hours, 0, 0).unwrap()
}

fn entry(starts_at_utc: i64, seconds: i32, name: &'static str, is_dst: bool) -> TransitionEntry {
    TransitionEntry { starts_at_utc, offset: Offset::new(seconds, name).with_dst(is_dst) }
}

fn cet() -> Tz {
    Tz::new(
        "CET",
        vec![
            entry(i64::MIN, 3600, "CET", false),
            entry(1_616_893_200, 7200, "CEST", true),
            entry(1_635_642_000, 3600, "CET", false),
            entry(1_648_342_800, 7200, "CEST", true),
            entry(1_667_091_600, 3600, "CET", false),
        ],
    )
    .unwrap()
}

fn london() -> Tz {
    Tz::new(
        "Europe/London",
        vec![
            entry(i64::MIN, 0, "GMT", false),
            entry(1_459_040_400, 3600, "BST", true),
            entry(1_477_789_200, 0, "GMT", false),
            entry(1_616_893_200, 3600, "BST", true),
            entry(1_635_642_000, 0, "GMT", false),
        ],
    )
    .unwrap()
}

fn berlin() -> Tz {
    Tz::new(
        "Europe/Berlin",
        vec![
            entry(i64::MIN, 3600, "CET", false),
            entry(1_459_040_400, 7200, "CEST", true),
            entry(1_477_789_200, 3600, "CET", false),
        ],
    )
    .unwrap()
}

#[test]
fn offsets_and_name() {
    let tz = london();
    assert_eq!(tz.name(), "Europe/London");
    let offset = tz.get_offset_utc(&OffsetDateTime::now_utc());
    assert!(!offset.name().is_empty());
}

#[test]
fn london_to_berlin() {
    let dt = datetime(2016, Month::October, 8, 17, 0).assume_timezone_utc(&london());
    let converted = dt.to_timezone(&berlin());
    let expected = datetime(2016, Month::October, 8, 18, 0).assume_timezone_utc(&berlin());
    assert_eq!(converted, expected);
}

#[test]
fn dst() {
    let london = london();
    let odt1 = datetime(2021, Month::January, 1, 12, 0).assume_utc();
    assert_eq!(
        odt1.to_timezone(&london),
        datetime(2021, Month::January, 1, 12, 0).assume_offset(hours(0))
    );
    let odt2 = datetime(2021, Month::July, 1, 12, 0).assume_utc();
    assert_eq!(
        odt2.to_timezone(&london),
        datetime(2021, Month::July, 1, 12, 0).assume_utc().to_offset(hours(1))
    );
}

#[test]
fn handles_forward_changeover() {
    assert_eq!(
        datetime(2022, Month::March, 27, 1, 30).assume_timezone(&cet()).unwrap(),
        datetime(2022, Month::March, 27, 1, 30).assume_offset(hours(1))
    );
}

#[test]
fn handles_after_changeover() {
    assert_eq!(
        datetime(2022, Month::March, 27, 3, 30).assume_timezone(&cet()).unwrap(),
        datetime(2022, Month::March, 27, 3, 30).assume_offset(hours(2))
    );
}

#[test]
fn handles_broken_time() {
    assert!(datetime(2022, Month::March, 27, 2, 30).assume_timezone(&cet()).is_none());
}

#[test]
fn handles_backward_changeover() {
    assert_eq!(
        datetime(2022, Month::October, 30, 2, 30).assume_timezone(&cet()).unwrap_first(),
        datetime(2022, Month::October, 30, 2, 30).assume_offset(hours(2))
    );
    assert_eq!(
        datetime(2022, Month::October, 30, 2, 30).assume_timezone(&cet()).unwrap_second(),
        datetime(2022, Month::October, 30, 2, 30).assume_offset(hours(1))
    );
}

#[test]
fn converted_date_time_keeps_instant_and_shows_zone_offset() {
    let utc = datetime(2016, Month::October, 8, 17, 0).assume_utc();
    let moved = utc.to_timezone(&berlin());
    assert_eq!(moved.unix_timestamp(), 1_475_946_000);
    assert_eq!(moved.offset().whole_seconds(), 7200);
    assert_eq!(moved.hour(), 19);
    assert_eq!(utc.checked_to_timezone(&berlin()), Some(moved));
}

#[test]
fn assume_timezone_utc_keeps_wall_clock_and_attaches_offset_at_that_instant() {
    let attached = datetime(2016, Month::October, 8, 17, 0).assume_timezone_utc(&london());
    assert_eq!(attached.hour(), 17);
    assert_eq!(attached.offset().whole_seconds(), 3600);
    assert_eq!(attached.unix_timestamp(), 1_475_946_000 - 3600);
}

#[test]
fn checked_to_timezone_refuses_date_beyond_last_year() {
    let last = PrimitiveDateTime::new(
        Date::from_calendar_date(9999, Month::December, 31).unwrap(),
        Time::from_hms(23, 30, 0).unwrap(),
    )
    .assume_utc();
    assert_eq!(last.checked_to_timezone(&berlin()), None);
    let earlier = PrimitiveDateTime::new(
        Date::from_calendar_date(9999, Month::December, 31).unwrap(),
        Time::from_hms(22, 59, 59).unwrap(),
    )
    .assume_utc();
    let moved = earlier.checked_to_timezone(&berlin()).unwrap();
    assert_eq!(moved.hour(), 23);
    assert_eq!(moved.offset().whole_seconds(), 3600);
}

#[test]
fn checked_to_timezone_refuses_date_before_first_year() {
    let west = Tz::new("West", vec![entry(i64::MIN, -3600, "W", false)]).unwrap();
    let first = PrimitiveDateTime::new(
        Date::from_calendar_date(-9999, Month::January, 1).unwrap(),
        Time::from_hms(0, 59, 59).unwrap(),
    )
    .assume_utc();
    assert_eq!(first.unix_timestamp(), -377_705_116_800 + 3599);
    assert_eq!(first.checked_to_timezone(&west), None);
    let later = PrimitiveDateTime::new(
        Date::from_calendar_date(-9999, Month::January, 1).unwrap(),
        Time::from_hms(1, 0, 0).unwrap(),
    )
    .assume_utc();
    assert_eq!(later.checked_to_timezone(&west).unwrap().hour(), 0);
}

#[test]
fn sub_second_part_survives_conversion() {
    let date_time = PrimitiveDateTime::new(
        Date::from_calendar_date(2021, Month::June, 1).unwrap(),
        Time::from_hms_nano(12, 0, 0, 123_456_789).unwrap(),
    );
    let attached = date_time.assume_timezone(&cet()).unwrap();
    assert_eq!(attached.nanosecond(), 123_456_789);
    assert_eq!(attached.offset().whole_seconds(), 7200);
    let moved = attached.to_timezone(&london());
    assert_eq!(moved.nanosecond(), 123_456_789);
    assert_eq!(moved.hour(), 11);
}

#[test]
fn offset_converts_to_utc_offset_with_same_seconds() {
    assert_eq!(Offset::new(3_723, "X").to_utc().as_hms(), (1, 2, 3));
    assert_eq!(Offset::new(-93_599, "X").to_utc().whole_seconds(), -93_599);
    assert_eq!(Offset::new(93_599, "X").to_utc().whole_seconds(), 93_599);
    assert!(Offset::new(93_599, "X").is_utc_offset());
    assert!(!Offset::new(93_600, "X").is_utc_offset());
    assert!(!Offset::new(-93_600, "X").is_utc_offset());
    assert!(UtcOffset::from_whole_seconds(93_600).is_err());
}
