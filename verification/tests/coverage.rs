use valvonta::coverage::break_index;
use valvonta::coverage::filter_supervision;
use valvonta::coverage::group_breaks;
use valvonta::coverage::missing_places;
use valvonta::coverage::sort_events;
use valvonta::coverage::weekday_index;
use valvonta::errors::DecodeError;
use valvonta::errors::GroupingError;
use valvonta::event::BreakPlace;
use valvonta::event::Event;

fn ev(title: &str, weekday: &str, start: u32, teacher: &str) -> Event {
    Event::new(
        title.to_string(),
        "Välituntivalvonta".to_string(),
        start,
        start + 15,
        weekday.to_string(),
        teacher.to_string(),
        String::new(),
    )
}

#[test]
fn weekday_indexes() {
    assert_eq!(weekday_index("Maanantai"), Some(0));
    assert_eq!(weekday_index("Tiistai"), Some(1));
    assert_eq!(weekday_index("Keskiviikko"), Some(2));
    assert_eq!(weekday_index("Torstai"), Some(3));
    assert_eq!(weekday_index("Perjantai"), Some(4));
    assert_eq!(weekday_index("Sunnuntai"), None);
}

#[test]
fn break_indexes() {
    assert_eq!(break_index(525), Some(0));
    assert_eq!(break_index(585), Some(1));
    assert_eq!(break_index(645), Some(2));
    assert_eq!(break_index(660), Some(3));
    assert_eq!(break_index(705), Some(4));
    assert_eq!(break_index(720), Some(5));
    assert_eq!(break_index(526), None);
}

#[test]
fn filter_keeps_supervision_events_only() {
    let events = vec![
        ev("Valvonta YK", "Maanantai", 525, "A"),
        ev("Matematiikka", "Maanantai", 525, "B"),
        ev("Valvonta AK", "Maanantai", 525, "C"),
    ];
    let kept = filter_supervision(&events);
    assert_eq!(kept.len(), 2);
    assert_eq!(kept[0].text(), "Valvonta YK");
    assert_eq!(kept[1].text(), "Valvonta AK");
}

#[test]
fn sort_orders_by_weekday_then_start() {
    let events = vec![
        ev("Valvonta YK", "Tiistai", 525, "A"),
        ev("Valvonta AK", "Maanantai", 585, "B"),
        ev("Valvonta D", "Maanantai", 525, "C"),
    ];
    let sorted = sort_events(&events);
    assert_eq!(sorted[0].text(), "Valvonta D");
    assert_eq!(sorted[1].text(), "Valvonta AK");
    assert_eq!(sorted[2].text(), "Valvonta YK");
}

#[test]
fn sort_is_stable_for_equal_keys() {
    let events = vec![
        ev("Valvonta YK", "Tiistai", 525, "first"),
        ev("Valvonta AK", "Maanantai", 525, "second"),
        ev("Valvonta D", "Tiistai", 525, "third"),
        ev("Valvonta P", "Tiistai", 525, "fourth"),
    ];
    let sorted = sort_events(&events);
    assert_eq!(sorted[0].teachers(), vec!["second".to_string()]);
    assert_eq!(sorted[1].teachers(), vec!["first".to_string()]);
    assert_eq!(sorted[2].teachers(), vec!["third".to_string()]);
    assert_eq!(sorted[3].teachers(), vec!["fourth".to_string()]);
}

#[test]
fn grouping_splits_days_and_breaks() {
    let events = vec![
        ev("Valvonta YK", "Maanantai", 525, "A"),
        ev("Valvonta AK", "Maanantai", 525, "B"),
        ev("Valvonta D", "Maanantai", 585, "C"),
        ev("Valvonta P", "Tiistai", 525, "D"),
    ];
    let groups = group_breaks(&events).expect("grouping must succeed");
    assert_eq!(groups.len(), 5);
    assert_eq!(groups[0].len(), 2);
    assert_eq!(groups[0][0].len(), 2);
    assert_eq!(groups[0][1].len(), 1);
    assert_eq!(groups[1].len(), 1);
    assert_eq!(groups[1][0].len(), 1);
    assert!(groups[2].is_empty());
    assert!(groups[3].is_empty());
    assert!(groups[4].is_empty());
    assert_eq!(groups[0][0][0].text(), "Valvonta YK");
    assert_eq!(groups[0][0][1].text(), "Valvonta AK");
    assert_eq!(groups[0][1][0].text(), "Valvonta D");
    assert_eq!(groups[1][0][0].text(), "Valvonta P");
}

#[test]
fn grouping_rejects_an_unknown_weekday() {
    let events = vec![ev("Valvonta YK", "Sunnuntai", 525, "A")];
    assert_eq!(group_breaks(&events), Err(GroupingError::UnknownWeekday));
}

#[test]
fn grouping_rejects_an_unknown_break_start() {
    let events = vec![ev("Valvonta YK", "Maanantai", 526, "A")];
    assert_eq!(group_breaks(&events), Err(GroupingError::UnknownBreakStart));
}

#[test]
fn grouping_rejects_unsorted_events() {
    let events = vec![
        ev("Valvonta YK", "Tiistai", 525, "A"),
        ev("Valvonta AK", "Maanantai", 525, "B"),
    ];
    assert_eq!(group_breaks(&events), Err(GroupingError::OutOfOrder));
}

#[test]
fn grouping_rejects_a_weekday_gap() {
    let events = vec![
        ev("Valvonta YK", "Maanantai", 525, "A"),
        ev("Valvonta AK", "Torstai", 525, "B"),
    ];
    assert_eq!(group_breaks(&events), Err(GroupingError::WeekdayGap));
}

#[test]
fn missing_places_over_the_fixed_six() {
    let bucket = vec![
        ev("Valvonta YK", "Maanantai", 525, "A"),
        ev("Valvonta AK", "Maanantai", 525, "B"),
    ];
    let missing = missing_places(&bucket).expect("bucket must classify");
    assert_eq!(
        missing,
        vec![
            BreakPlace::IikoonLinna,
            BreakPlace::FrontYard,
            BreakPlace::WingAndShed,
            BreakPlace::D,
        ]
    );
}

#[test]
fn an_unclassifiable_bucket_event_is_an_error() {
    let bucket = vec![ev("Ruokala", "Maanantai", 525, "A")];
    assert_eq!(missing_places(&bucket), Err(DecodeError::UnknownBreakPlace));
}

#[test]
fn an_empty_bucket_misses_all_six() {
    let missing = missing_places(&vec![]).unwrap();
    assert_eq!(missing.len(), 6);
}

#[test]
fn two_monday_events_make_one_bucket_with_four_missing() {
    let events = vec![
        ev("Valvonta YK", "Maanantai", 525, "A"),
        ev("Valvonta AK", "Maanantai", 525, "B"),
    ];
    let kept = filter_supervision(&events);
    let sorted = sort_events(&kept);
    let groups = group_breaks(&sorted).expect("grouping must succeed");
    assert_eq!(groups[0].len(), 1);
    let bucket = &groups[0][0];
    assert_eq!(bucket.len(), 2);
    let missing = missing_places(bucket).unwrap();
    assert_eq!(
        missing,
        vec![
            BreakPlace::IikoonLinna,
            BreakPlace::FrontYard,
            BreakPlace::WingAndShed,
            BreakPlace::D,
        ]
    );
}
