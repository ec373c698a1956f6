use habit::habit::Habit;
use habit::store::HabitStore;
use habit::ts::Timestamp;

fn ts(year: u32, month: u32, day: u32, hour: u32, minute: u32, second: u32) -> Timestamp {
    Timestamp { year, month, day, hour, minute, second }
}

#[test]
fn render_empty_store() {
    let store = HabitStore::empty();
    assert_eq!(store.render_json_string(), "{\n  \"habits\": []\n}");
}

#[test]
fn render_one_habit_exactly() {
    let mut store = HabitStore::empty();
    let mut h = Habit::new(
        0x2a,
        "Meditate".to_string(),
        Some("daily calm".to_string()),
        Some(7),
        ts(2026, 1, 2, 3, 4, 5),
    );
    assert!(h.mark_complete(ts(2026, 1, 3, 23, 59, 59)));
    store.add(h);
    let expected = "{\n  \"habits\": [\n    {\n      \"id\": \"00000000-0000-0000-0000-00000000002a\",\n      \"name\": \"Meditate\",\n      \"description\": \"daily calm\",\n      \"created_at\": \"2026-01-02T03:04:05Z\",\n      \"completions\": [\"2026-01-03T23:59:59Z\"],\n      \"target_frequency\": 7,\n      \"is_active\": true\n    }\n  ]\n}";
    assert_eq!(store.render_json_string(), expected);
}

#[test]
fn round_trip_preserves_every_field() {
    let mut store = HabitStore::empty();
    let mut a = Habit::new(
        0xfeedface_0123_4567_89ab_cdef01234567u128,
        "quote\" back\\slash tab\t".to_string(),
        None,
        None,
        ts(1999, 12, 31, 23, 59, 59),
    );
    assert!(a.mark_complete(ts(2000, 2, 29, 0, 0, 0)));
    assert!(a.mark_complete(ts(2000, 3, 1, 12, 0, 0)));
    a.is_active = false;
    store.add(a);
    let mut b = Habit::new(
        1,
        "plain".to_string(),
        Some("descr with ünïcödé".to_string()),
        Some(4294967295),
        ts(2026, 6, 7, 8, 9, 10),
    );
    assert!(b.mark_complete(ts(2026, 6, 8, 1, 2, 3)));
    store.add(b);

    let text = store.render_json();
    let loaded = HabitStore::parse_json(&text).expect("rendered store must parse");
    assert_eq!(loaded.habits.len(), store.habits.len());
    for (x, y) in store.habits.iter().zip(loaded.habits.iter()) {
        assert_eq!(x.id, y.id);
        assert_eq!(x.name_ref(), y.name_ref());
        assert_eq!(x.description, y.description);
        assert_eq!(x.created_at, y.created_at);
        assert_eq!(x.recent_completions(), y.recent_completions());
        assert_eq!(x.target_frequency, y.target_frequency);
        assert_eq!(x.is_active, y.is_active);
    }
}

#[test]
fn round_trip_empty_store() {
    let store = HabitStore::empty();
    let text = store.render_json();
    let loaded = HabitStore::parse_json(&text).expect("rendered empty store must parse");
    assert_eq!(loaded.habits.len(), 0);
}

#[test]
fn parse_accepts_document_without_active_flag() {
    // an older document has no is_active field; the record counts as active
    let text = "{\n  \"habits\": [\n    {\n      \"id\": \"00000000-0000-0000-0000-000000000001\",\n      \"name\": \"Old\",\n      \"description\": null,\n      \"created_at\": \"2020-01-01T00:00:00Z\",\n      \"completions\": [],\n      \"target_frequency\": null\n    }\n  ]\n}";
    let loaded = HabitStore::parse_json_str(text).expect("legacy document must parse");
    assert_eq!(loaded.habits.len(), 1);
    assert!(loaded.habits[0].is_active);
    assert_eq!(loaded.habits[0].description, None);
    assert_eq!(loaded.habits[0].target_frequency, None);
}

#[test]
fn parse_rejects_garbage_as_corrupt() {
    assert!(matches!(
        HabitStore::parse_json_str("not json at all"),
        Err(habit::error::HabitError::Corrupt(_))
    ));
    assert!(matches!(
        HabitStore::parse_json_str(""),
        Err(habit::error::HabitError::Corrupt(_))
    ));
    // trailing garbage after a correct document is refused
    let mut text = HabitStore::empty().render_json_string();
    text.push('x');
    assert!(matches!(
        HabitStore::parse_json_str(&text),
        Err(habit::error::HabitError::Corrupt(_))
    ));
}

#[test]
fn parse_rejects_invalid_dates_and_unsorted_completions() {
    // a thirteenth month is not a real date
    let bad_month = "{\n  \"habits\": [\n    {\n      \"id\": \"00000000-0000-0000-0000-000000000001\",\n      \"name\": \"X\",\n      \"description\": null,\n      \"created_at\": \"2020-13-01T00:00:00Z\",\n      \"completions\": [],\n      \"target_frequency\": null,\n      \"is_active\": true\n    }\n  ]\n}";
    assert!(HabitStore::parse_json_str(bad_month).is_err());

    // completions out of order violate the history invariant
    let unsorted = "{\n  \"habits\": [\n    {\n      \"id\": \"00000000-0000-0000-0000-000000000001\",\n      \"name\": \"X\",\n      \"description\": null,\n      \"created_at\": \"2020-01-01T00:00:00Z\",\n      \"completions\": [\"2021-05-05T00:00:00Z\", \"2021-05-04T00:00:00Z\"],\n      \"target_frequency\": null,\n      \"is_active\": true\n    }\n  ]\n}";
    assert!(HabitStore::parse_json_str(unsorted).is_err());
}

#[test]
fn escaped_strings_survive_the_round_trip() {
    let mut store = HabitStore::empty();
    store.add(Habit::new(
        5,
        "a\"b\\c\nd\u{1}e".to_string(),
        None,
        None,
        ts(2026, 1, 1, 0, 0, 0),
    ));
    let text = store.render_json();
    let loaded = HabitStore::parse_json(&text).expect("escapes must parse back");
    assert_eq!(loaded.habits[0].name_ref(), "a\"b\\c\nd\u{1}e");
}
