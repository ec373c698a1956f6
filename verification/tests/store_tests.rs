use habit::cmd::{run, Cli, Commands, Outcome};
use habit::error::HabitError;
use habit::habit::Habit;
use habit::num::parse_u32_str;
use habit::store::{eq_ignore_case_str, HabitStore};
use habit::ts::Timestamp;

fn ts(year: u32, month: u32, day: u32, hour: u32, minute: u32, second: u32) -> Timestamp {
    Timestamp { year, month, day, hour, minute, second }
}

fn habit_with(id: u128, name: &str) -> Habit {
    Habit::new(id, name.to_string(), None, None, ts(2026, 1, 2, 3, 4, 5))
}

#[test]
fn create_then_resolve_by_id_returns_record_with_name() {
    let mut store = HabitStore::empty();
    store.add(Habit::new(
        0x2a,
        "Meditate".to_string(),
        Some("daily calm".to_string()),
        Some(7),
        ts(2026, 1, 2, 3, 4, 5),
    ));
    let found = store.find_by_ident("00000000-0000-0000-0000-00000000002a");
    assert_eq!(found, Some(0));
    assert_eq!(store.habits[0].name_ref(), "Meditate");
    assert_eq!(store.habits[0].id, 0x2a);
}

#[test]
fn resolve_by_name_is_case_insensitive() {
    let mut store = HabitStore::empty();
    store.add(habit_with(1, "Read Books"));
    assert_eq!(store.find_by_ident("read books"), Some(0));
    assert_eq!(store.find_by_ident("READ BOOKS"), Some(0));
    assert_eq!(store.find_by_ident("read"), None);
}

#[test]
fn resolution_prefers_id_over_equal_name() {
    // One record's name is the very text that parses as another record's id:
    // the identifier resolves by id, never by name, so the second record wins
    // although the name match comes first in collection order.
    let idtext = "00000000-0000-0000-0000-00000000002a";
    let mut store = HabitStore::empty();
    store.add(habit_with(7, idtext));
    store.add(habit_with(0x2a, "Other"));
    assert_eq!(store.find_by_ident(idtext), Some(1));
}

#[test]
fn mark_complete_is_idempotent_per_date() {
    let mut h = habit_with(1, "Run");
    assert!(h.mark_complete(ts(2026, 3, 14, 9, 0, 0)));
    // a different time on the same calendar date is refused
    assert!(!h.mark_complete(ts(2026, 3, 14, 21, 30, 0)));
    assert_eq!(h.recent_completions().len(), 1);
    assert_eq!(h.recent_completions()[0], ts(2026, 3, 14, 9, 0, 0));
}

#[test]
fn completions_stay_sorted_and_date_unique() {
    let mut h = habit_with(1, "Run");
    assert!(h.mark_complete(ts(2026, 3, 20, 8, 0, 0)));
    assert!(h.mark_complete(ts(2026, 3, 14, 9, 0, 0)));
    assert!(h.mark_complete(ts(2026, 3, 17, 7, 0, 0)));
    assert!(!h.mark_complete(ts(2026, 3, 17, 23, 59, 59)));
    let c = h.recent_completions();
    assert_eq!(c.len(), 3);
    assert_eq!(c[0], ts(2026, 3, 14, 9, 0, 0));
    assert_eq!(c[1], ts(2026, 3, 17, 7, 0, 0));
    assert_eq!(c[2], ts(2026, 3, 20, 8, 0, 0));
}

#[test]
fn remove_deletes_all_matching_names() {
    let mut store = HabitStore::empty();
    store.add(habit_with(1, "Gym"));
    store.add(habit_with(2, "gym"));
    store.add(habit_with(3, "Walk"));
    assert!(store.remove_by_ident("GYM"));
    assert_eq!(store.habits.len(), 1);
    assert_eq!(store.habits[0].name_ref(), "Walk");
    assert!(!store.remove_by_ident("Gym"));
}

#[test]
fn end_to_end_add_complete_remove() {
    let now = ts(2026, 5, 6, 10, 0, 0);
    let mut store = HabitStore::empty();

    let r = run(
        &mut store,
        Cli {
            command: Commands::Add {
                name: "Meditate".to_string(),
                description: None,
                frequency: Some(7),
            },
        },
        now,
        0xabc,
        );
    match r {
        Ok(Outcome::Added { id, name }) => {
            assert_eq!(id, 0xabc);
            assert_eq!(name, "Meditate");
        },
        other => panic!("unexpected outcome: {:?}", outcome_tag(&other)),
    }

    // list(active) shows it with 0/7
    let r = run(&mut store, Cli { command: Commands::List { active: true } }, now, 1);
    match r {
        Ok(Outcome::Listed { habits }) => {
            assert_eq!(habits.len(), 1);
            assert_eq!(habits[0].name_ref(), "Meditate");
            assert_eq!(habits[0].recent_completions().len(), 0);
            assert_eq!(habits[0].target_frequency, Some(7));
        },
        other => panic!("unexpected outcome: {:?}", outcome_tag(&other)),
    }

    // complete it
    let r = run(
        &mut store,
        Cli { command: Commands::Complete { identifier: "meditate".to_string() } },
        now,
        2,
    );
    match r {
        Ok(Outcome::Completed { name }) => assert_eq!(name, "Meditate"),
        other => panic!("unexpected outcome: {:?}", outcome_tag(&other)),
    }

    // list shows 1/7
    let r = run(&mut store, Cli { command: Commands::List { active: true } }, now, 3);
    match r {
        Ok(Outcome::Listed { habits }) => {
            assert_eq!(habits.len(), 1);
            assert_eq!(habits[0].recent_completions().len(), 1);
            assert_eq!(habits[0].target_frequency, Some(7));
        },
        other => panic!("unexpected outcome: {:?}", outcome_tag(&other)),
    }

    // a second completion the same day fails
    let later = ts(2026, 5, 6, 22, 0, 0);
    let r = run(
        &mut store,
        Cli { command: Commands::Complete { identifier: "Meditate".to_string() } },
        later,
        4,
    );
    match r {
        Err(HabitError::AlreadyCompleted(name)) => assert_eq!(name, "Meditate"),
        other => panic!("unexpected outcome: {:?}", outcome_tag(&other)),
    }

    // remove it; the active list is empty
    let r = run(
        &mut store,
        Cli { command: Commands::Remove { identifier: "Meditate".to_string() } },
        later,
        5,
    );
    assert!(matches!(r, Ok(Outcome::Removed { .. })));
    let r = run(&mut store, Cli { command: Commands::List { active: true } }, later, 6);
    match r {
        Ok(Outcome::Listed { habits }) => assert_eq!(habits.len(), 0),
        other => panic!("unexpected outcome: {:?}", outcome_tag(&other)),
    }
}

#[test]
fn edit_description_to_null_clears_it() {
    let now = ts(2026, 5, 6, 10, 0, 0);
    let mut store = HabitStore::empty();
    store.add(Habit::new(1, "Yoga".to_string(), Some("stretch".to_string()), None, now));
    let r = run(
        &mut store,
        Cli {
            command: Commands::Edit {
                identifier: "Yoga".to_string(),
                name: None,
                description: Some("null".to_string()),
                frequency: None,
                active: None,
            },
        },
        now,
        9,
    );
    assert!(matches!(r, Ok(Outcome::Edited { .. })));
    assert_eq!(store.habits[0].description, None);

    // the sentinel is case-insensitive, as a real description it is consumed
    store.habits[0].description = Some("keep".to_string());
    let r = run(
        &mut store,
        Cli {
            command: Commands::Edit {
                identifier: "Yoga".to_string(),
                name: None,
                description: Some("NULL".to_string()),
                frequency: None,
                active: None,
            },
        },
        now,
        10,
    );
    assert!(matches!(r, Ok(Outcome::Edited { .. })));
    assert_eq!(store.habits[0].description, None);
}

#[test]
fn edit_validations_and_errors() {
    let now = ts(2026, 5, 6, 10, 0, 0);
    let mut store = HabitStore::empty();
    store.add(habit_with(1, "Yoga"));

    // not found
    let r = run(
        &mut store,
        Cli {
            command: Commands::Edit {
                identifier: "missing".to_string(),
                name: None,
                description: None,
                frequency: None,
                active: None,
            },
        },
        now,
        2,
    );
    assert!(matches!(r, Err(HabitError::NotFound(_))));

    // a blank new name is refused and nothing changes
    let r = run(
        &mut store,
        Cli {
            command: Commands::Edit {
                identifier: "Yoga".to_string(),
                name: Some("   ".to_string()),
                description: Some("x".to_string()),
                frequency: None,
                active: None,
            },
        },
        now,
        3,
    );
    assert!(matches!(r, Err(HabitError::InvalidName(_))));
    assert_eq!(store.habits[0].name_ref(), "Yoga");
    assert_eq!(store.habits[0].description, None);

    // an unparsable frequency is refused and nothing changes
    let r = run(
        &mut store,
        Cli {
            command: Commands::Edit {
                identifier: "Yoga".to_string(),
                name: Some("Yoga nidra".to_string()),
                description: None,
                frequency: Some("often".to_string()),
                active: None,
            },
        },
        now,
        4,
    );
    match r {
        Err(HabitError::InvalidName(s)) => assert_eq!(s, "frequency"),
        other => panic!("unexpected outcome: {:?}", outcome_tag(&other)),
    }
    assert_eq!(store.habits[0].name_ref(), "Yoga");

    // frequency "null" clears the target; a number sets it
    let r = run(
        &mut store,
        Cli {
            command: Commands::Edit {
                identifier: "Yoga".to_string(),
                name: None,
                description: None,
                frequency: Some("12".to_string()),
                active: Some(false),
            },
        },
        now,
        5,
    );
    assert!(matches!(r, Ok(Outcome::Edited { .. })));
    assert_eq!(store.habits[0].target_frequency, Some(12));
    assert!(!store.habits[0].is_active);
    let r = run(
        &mut store,
        Cli {
            command: Commands::Edit {
                identifier: "Yoga".to_string(),
                name: None,
                description: None,
                frequency: Some("null".to_string()),
                active: None,
            },
        },
        now,
        6,
    );
    assert!(matches!(r, Ok(Outcome::Edited { .. })));
    assert_eq!(store.habits[0].target_frequency, None);
}

#[test]
fn add_blank_name_is_refused() {
    let now = ts(2026, 5, 6, 10, 0, 0);
    let mut store = HabitStore::empty();
    let r = run(
        &mut store,
        Cli {
            command: Commands::Add { name: " \t ".to_string(), description: None, frequency: None },
        },
        now,
        1,
    );
    assert!(matches!(r, Err(HabitError::InvalidName(_))));
    assert_eq!(store.habits.len(), 0);
}

#[test]
fn complete_unknown_identifier_is_not_found() {
    let now = ts(2026, 5, 6, 10, 0, 0);
    let mut store = HabitStore::empty();
    let r = run(
        &mut store,
        Cli { command: Commands::Complete { identifier: "nothing".to_string() } },
        now,
        1,
    );
    match r {
        Err(HabitError::NotFound(ident)) => assert_eq!(ident, "nothing"),
        other => panic!("unexpected outcome: {:?}", outcome_tag(&other)),
    }
}

#[test]
fn inactive_habits_are_hidden_from_active_listing() {
    let now = ts(2026, 5, 6, 10, 0, 0);
    let mut store = HabitStore::empty();
    let mut h = habit_with(1, "Old");
    h.is_active = false;
    store.add(h);
    store.add(habit_with(2, "New"));
    let r = run(&mut store, Cli { command: Commands::List { active: true } }, now, 3);
    match r {
        Ok(Outcome::Listed { habits }) => {
            assert_eq!(habits.len(), 1);
            assert_eq!(habits[0].name_ref(), "New");
        },
        other => panic!("unexpected outcome: {:?}", outcome_tag(&other)),
    }
    let r = run(&mut store, Cli { command: Commands::List { active: false } }, now, 4);
    match r {
        Ok(Outcome::Listed { habits }) => assert_eq!(habits.len(), 2),
        other => panic!("unexpected outcome: {:?}", outcome_tag(&other)),
    }
}

#[test]
fn parse_u32_str_matches_standard_parsing() {
    assert_eq!(parse_u32_str("0"), Some(0));
    assert_eq!(parse_u32_str("123"), Some(123));
    assert_eq!(parse_u32_str("+7"), Some(7));
    assert_eq!(parse_u32_str("4294967295"), Some(4294967295));
    assert_eq!(parse_u32_str("4294967296"), None);
    assert_eq!(parse_u32_str(""), None);
    assert_eq!(parse_u32_str("+"), None);
    assert_eq!(parse_u32_str("12a"), None);
    assert_eq!(parse_u32_str("-3"), None);
}

#[test]
fn case_insensitive_comparison() {
    assert!(eq_ignore_case_str("Habit", "hABIT"));
    assert!(!eq_ignore_case_str("Habit", "Habits"));
    assert!(eq_ignore_case_str("", ""));
    // non-ascii characters must match exactly
    assert!(eq_ignore_case_str("café", "CAFé"));
    assert!(!eq_ignore_case_str("café", "CAFÉ"));
}

fn outcome_tag(r: &Result<Outcome, HabitError>) -> String {
    format!("{}", match r {
        Ok(Outcome::Added { .. }) => "added",
        Ok(Outcome::Listed { .. }) => "listed",
        Ok(Outcome::Completed { .. }) => "completed",
        Ok(Outcome::Removed { .. }) => "removed",
        Ok(Outcome::Edited { .. }) => "edited",
        Err(HabitError::NotFound(_)) => "not found",
        Err(HabitError::InvalidName(_)) => "invalid name",
        Err(HabitError::AlreadyCompleted(_)) => "already completed",
        Err(HabitError::Io(_)) => "io",
        Err(HabitError::Corrupt(_)) => "corrupt",
    })
}
