use time_tz::binary_search::find;
use time_tz::Offset;
use time_tz::OffsetResult;
use time_tz::TableError;
use time_tz::TransitionEntry;
use time_tz::Tz;

const SPRING_2022: i64 = 1_648_342_800;
const AUTUMN_2022: i64 = 1_667_091_600;

fn entry(starts_at_utc: i64, seconds: i32, name: &'static str) -> TransitionEntry {
    TransitionEntry { starts_at_utc, offset: Offset::new(seconds, name) }
}

fn central_europe() -> Tz {
    Tz::new(
        "CET",
        vec![
            entry(i64::MIN, 3600, "CET"),
            entry(SPRING_2022, 7200, "CEST"),
            entry(AUTUMN_2022, 3600, "CET"),
        ],
    )
    .unwrap()
}

fn greenwich_with_summer(spring: i64, autumn: i64) -> Tz {
    Tz::new(
        "Base",
        vec![entry(i64::MIN, 0, "STD"), entry(spring, 3600, "DST"), entry(autumn, 0, "STD")],
    )
    .unwrap()
}

#[test]
fn search_returns_last_entry_started() {
    let table = [entry(i64::MIN, 0, "A"), entry(100, 1, "B"), entry(200, 2, "C"), entry(300, 3, "D")];
    assert_eq!(find(&table, i64::MIN), 0);
    assert_eq!(find(&table, 99), 0);
    assert_eq!(find(&table, 100), 1);
    assert_eq!(find(&table, 101), 1);
    assert_eq!(find(&table, 199), 1);
    assert_eq!(find(&table, 200), 2);
    assert_eq!(find(&table, 299), 2);
    assert_eq!(find(&table, 300), 3);
    assert_eq!(find(&table, i64::MAX), 3);
}

#[test]
fn search_takes_last_of_entries_with_same_start() {
    let table = [
        entry(i64::MIN, 0, "A"),
        entry(100, 1, "B"),
        entry(100, 2, "C"),
        entry(100, 3, "D"),
        entry(200, 4, "E"),
    ];
    assert_eq!(find(&table, 100), 3);
    assert_eq!(find(&table, 150), 3);
    assert_eq!(find(&table, 99), 0);
    assert_eq!(find(&table, 200), 4);
}

#[test]
fn search_gives_first_entry_before_any_start() {
    let table = [entry(1000, 0, "A"), entry(2000, 1, "B")];
    assert_eq!(find(&table, 5), 0);
    assert_eq!(find(&table, i64::MIN), 0);
    assert_eq!(find(&table, 1000), 0);
    assert_eq!(find(&table, 2000), 1);
    let single = [entry(1000, 0, "A")];
    assert_eq!(find(&single, 5), 0);
    assert_eq!(find(&single, 5000), 0);
}

#[test]
fn search_index_never_moves_back() {
    let table = [entry(i64::MIN, 0, "A"), entry(-50, 1, "B"), entry(0, 2, "C"), entry(70, 3, "D")];
    let mut previous = 0;
    for instant in -200..200 {
        let index = find(&table, instant);
        assert!(index >= previous);
        previous = index;
    }
    assert_eq!(previous, 3);
}

#[test]
fn offset_is_constant_between_transitions() {
    let tz = central_europe();
    for instant in [SPRING_2022, SPRING_2022 + 1, SPRING_2022 + 86_400, AUTUMN_2022 - 1] {
        assert_eq!(tz.offset_at_timestamp(instant).seconds(), 7200);
        assert_eq!(tz.offset_at_timestamp(instant).name(), "CEST");
    }
    for instant in [i64::MIN, 0, SPRING_2022 - 1] {
        assert_eq!(tz.offset_at_timestamp(instant).seconds(), 3600);
    }
    for instant in [AUTUMN_2022, AUTUMN_2022 + 1, i64::MAX] {
        assert_eq!(tz.offset_at_timestamp(instant).seconds(), 3600);
        assert_eq!(tz.offset_at_timestamp(instant).name(), "CET");
    }
}

#[test]
fn transition_instant_belongs_to_new_offset() {
    let tz = central_europe();
    assert_eq!(tz.offset_at_timestamp(SPRING_2022 - 1).name(), "CET");
    assert_eq!(tz.offset_at_timestamp(SPRING_2022).name(), "CEST");
    assert_eq!(tz.offset_at_timestamp(AUTUMN_2022 - 1).name(), "CEST");
    assert_eq!(tz.offset_at_timestamp(AUTUMN_2022).name(), "CET");
}

#[test]
fn table_must_have_entry() {
    assert_eq!(Tz::new("Empty", vec![]), Err(TableError::Empty));
}

#[test]
fn table_must_ascend_strictly() {
    assert_eq!(
        Tz::new("Same", vec![entry(i64::MIN, 0, "A"), entry(5, 1, "B"), entry(5, 2, "C")]),
        Err(TableError::Unordered)
    );
    assert_eq!(
        Tz::new("Back", vec![entry(i64::MIN, 0, "A"), entry(5, 1, "B"), entry(4, 2, "C")]),
        Err(TableError::Unordered)
    );
    assert_eq!(
        Tz::new("Back", vec![entry(7, 0, "A"), entry(i64::MIN, 1, "B")]),
        Err(TableError::Unordered)
    );
}

#[test]
fn table_offsets_must_fit_utc_offset() {
    assert_eq!(
        Tz::new("Far", vec![entry(i64::MIN, 0, "A"), entry(5, 93_600, "B")]),
        Err(TableError::OffsetOutOfRange)
    );
    assert_eq!(
        Tz::new("Far", vec![entry(i64::MIN, -93_600, "A")]),
        Err(TableError::OffsetOutOfRange)
    );
    assert!(Tz::new("Edge", vec![entry(i64::MIN, -93_599, "A"), entry(5, 93_599, "B")]).is_ok());
}

#[test]
fn disorder_is_reported_before_offset_out_of_range() {
    assert_eq!(
        Tz::new("Both", vec![entry(9, 100_000, "A"), entry(5, 0, "B")]),
        Err(TableError::Unordered)
    );
}

#[test]
fn zone_keeps_name_and_table() {
    let first = entry(12, 60, "A");
    let second = entry(40, -60, "B");
    let tz = Tz::new("Somewhere/Else", vec![first, second]).unwrap();
    assert_eq!(time_tz::TimeZone::name(&tz), "Somewhere/Else");
    assert_eq!(tz.transitions(), &[first, second]);
    assert_eq!(tz.transitions()[0].starts_at_utc, 12);
    assert_eq!(tz.offset_at_timestamp(-1000).name(), "A");
}

#[test]
fn local_time_before_spring_forward_has_winter_offset() {
    let tz = central_europe();
    let local = 1_648_344_600;
    let result = tz.offsets_for_local_timestamp(local);
    assert_eq!(result, OffsetResult::Single(Offset::new(3600, "CET")));
    assert_eq!(result.unwrap().name(), "CET");
}

#[test]
fn local_time_skipped_by_spring_forward_is_gap() {
    let tz = central_europe();
    assert_eq!(tz.offsets_for_local_timestamp(1_648_348_200), OffsetResult::Gap);
}

#[test]
fn local_time_after_spring_forward_has_summer_offset() {
    let tz = central_europe();
    let result = tz.offsets_for_local_timestamp(1_648_351_800);
    assert_eq!(result.unwrap().seconds(), 7200);
    assert_eq!(result.unwrap().name(), "CEST");
}

#[test]
fn local_time_repeated_by_fall_back_is_ambiguous_in_order_of_occurrence() {
    let tz = central_europe();
    let result = tz.offsets_for_local_timestamp(1_667_097_000);
    assert!(result.is_ambiguous());
    assert_eq!(result.unwrap_first().seconds(), 7200);
    assert_eq!(result.unwrap_first().name(), "CEST");
    assert_eq!(result.unwrap_second().seconds(), 3600);
    assert_eq!(result.unwrap_second().name(), "CET");
}

#[test]
fn every_local_time_in_gap_resolves_to_gap() {
    let spring = 1_000_000;
    let tz = greenwich_with_summer(spring, spring + 10_000_000);
    for local in spring..spring + 3600 {
        assert!(tz.offsets_for_local_timestamp(local).is_none());
    }
    assert_eq!(tz.offsets_for_local_timestamp(spring - 1).unwrap().seconds(), 0);
    assert_eq!(tz.offsets_for_local_timestamp(spring + 3600).unwrap().seconds(), 3600);
}

#[test]
fn every_local_time_in_overlap_resolves_to_both_offsets() {
    let autumn = 11_000_000;
    let tz = greenwich_with_summer(1_000_000, autumn);
    for local in autumn..autumn + 3600 {
        let result = tz.offsets_for_local_timestamp(local);
        assert_eq!(
            result,
            OffsetResult::Ambiguous(Offset::new(3600, "DST"), Offset::new(0, "STD"))
        );
        assert!(result.unwrap_first().seconds() > result.unwrap_second().seconds());
    }
    assert_eq!(tz.offsets_for_local_timestamp(autumn - 1).unwrap().seconds(), 3600);
    assert_eq!(tz.offsets_for_local_timestamp(autumn + 3600).unwrap().seconds(), 0);
}

#[test]
fn single_offset_round_trips_through_instant() {
    let tz = central_europe();
    let day = 86_400;
    let mut local = SPRING_2022 - 3 * day;
    while local < AUTUMN_2022 + 3 * day {
        match tz.offsets_for_local_timestamp(local) {
            OffsetResult::Single(offset) => {
                let instant = local - i64::from(offset.seconds());
                assert_eq!(tz.offset_at_timestamp(instant).seconds(), offset.seconds());
            }
            OffsetResult::Ambiguous(first, second) => {
                assert!(first.seconds() > second.seconds());
                assert_eq!(tz.offset_at_timestamp(local - i64::from(first.seconds())), first);
                assert_eq!(tz.offset_at_timestamp(local - i64::from(second.seconds())), second);
            }
            OffsetResult::Gap => {
                assert!(local >= SPRING_2022 + 3600 && local < SPRING_2022 + 7200);
            }
        }
        local += 900;
    }
}

#[test]
fn zone_without_transition_has_one_offset_for_every_local_time() {
    let tz = Tz::new("Fixed", vec![entry(i64::MIN, -18_000, "EST")]).unwrap();
    for local in [i64::MIN, -1, 0, 1, i64::MAX] {
        assert_eq!(tz.offsets_for_local_timestamp(local).unwrap().seconds(), -18_000);
        assert_eq!(tz.offset_at_timestamp(local).seconds(), -18_000);
    }
}

#[test]
fn local_times_at_the_ends_of_the_range_resolve() {
    let tz = central_europe();
    assert_eq!(tz.offsets_for_local_timestamp(i64::MIN).unwrap().name(), "CET");
    assert_eq!(tz.offsets_for_local_timestamp(i64::MAX).unwrap().name(), "CET");
    let west = Tz::new(
        "West",
        vec![entry(i64::MIN, -18_000, "EST"), entry(0, -14_400, "EDT"), entry(50_000_000, -18_000, "EST")],
    )
    .unwrap();
    assert_eq!(west.offsets_for_local_timestamp(i64::MAX).unwrap().name(), "EST");
    assert_eq!(west.offsets_for_local_timestamp(i64::MIN).unwrap().name(), "EST");
}

#[test]
fn gap_and_overlap_west_of_greenwich() {
    let forward = 1_647_154_800;
    let back = 1_667_714_400;
    let tz = Tz::new(
        "America/New_York",
        vec![entry(i64::MIN, -18_000, "EST"), entry(forward, -14_400, "EDT"), entry(back, -18_000, "EST")],
    )
    .unwrap();
    assert_eq!(tz.offsets_for_local_timestamp(forward - 18_000 - 1).unwrap().name(), "EST");
    assert!(tz.offsets_for_local_timestamp(forward - 18_000).is_none());
    assert!(tz.offsets_for_local_timestamp(forward - 14_400 - 1).is_none());
    assert_eq!(tz.offsets_for_local_timestamp(forward - 14_400).unwrap().name(), "EDT");
    assert_eq!(tz.offsets_for_local_timestamp(back - 18_000 - 1).unwrap().name(), "EDT");
    let twice = tz.offsets_for_local_timestamp(back - 18_000);
    assert_eq!(twice.unwrap_first().name(), "EDT");
    assert_eq!(twice.unwrap_second().name(), "EST");
    assert!(tz.offsets_for_local_timestamp(back - 14_400 - 1).is_ambiguous());
    assert_eq!(tz.offsets_for_local_timestamp(back - 14_400).unwrap().name(), "EST");
}

#[test]
fn local_time_as_near_to_two_transitions_is_judged_by_earlier_one() {
    let tz = Tz::new(
        "Close",
        vec![entry(i64::MIN, 60, "A"), entry(0, 0, "B"), entry(100, -60, "C")],
    )
    .unwrap();
    let middle = tz.offsets_for_local_timestamp(50);
    assert_eq!(middle.unwrap_first().name(), "A");
    assert_eq!(middle.unwrap_second().name(), "B");
    let nearer_to_earlier = tz.offsets_for_local_timestamp(49);
    assert_eq!(nearer_to_earlier.unwrap_first().name(), "A");
    assert_eq!(nearer_to_earlier.unwrap_second().name(), "B");
    let nearer_to_later = tz.offsets_for_local_timestamp(51);
    assert_eq!(nearer_to_later.unwrap_first().name(), "B");
    assert_eq!(nearer_to_later.unwrap_second().name(), "C");
}

#[test]
fn result_accessors_tell_the_shapes_apart() {
    let single: OffsetResult<i32> = OffsetResult::Single(1);
    let double: OffsetResult<i32> = OffsetResult::Ambiguous(1, 2);
    let gap: OffsetResult<i32> = OffsetResult::Gap;
    assert_eq!(single.unwrap(), 1);
    assert_eq!(single.unwrap_first(), 1);
    assert_eq!(single.unwrap_second(), 1);
    assert_eq!(double.unwrap_first(), 1);
    assert_eq!(double.unwrap_second(), 2);
    assert_eq!(single.take(), Some(1));
    assert_eq!(double.take(), None);
    assert_eq!(gap.take(), None);
    assert_eq!(single.take_first(), Some(1));
    assert_eq!(double.take_first(), Some(1));
    assert_eq!(gap.take_first(), None);
    assert_eq!(single.take_second(), Some(1));
    assert_eq!(double.take_second(), Some(2));
    assert_eq!(gap.take_second(), None);
    assert!(gap.is_none() && !single.is_none() && !double.is_none());
    assert!(double.is_ambiguous() && !single.is_ambiguous() && !gap.is_ambiguous());
}

#[test]
fn offsets_are_equal_by_seconds_alone() {
    assert_eq!(Offset::new(3600, "CET"), Offset::new(3600, "BST").with_dst(true));
    assert_ne!(Offset::new(3600, "CET"), Offset::new(7200, "CET"));
    let summer = Offset::new(7200, "CEST").with_dst(true);
    assert!(summer.is_dst());
    assert_eq!(summer.name(), "CEST");
    assert_eq!(summer.seconds(), 7200);
    assert!(!summer.with_dst(false).is_dst());
    assert!(!Offset::new(i32::MIN, "odd").is_dst());
    assert_eq!(Offset::new(i32::MAX, "odd").seconds(), i32::MAX);
}
