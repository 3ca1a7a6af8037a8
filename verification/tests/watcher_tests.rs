//! The watcher's coalescing decisions.

use anchor::watcher::{plan_flush, WatchAction, WatchEvent};

fn ev(path: &str, exists: bool) -> WatchEvent {
    WatchEvent {
        path: path.to_string(),
        exists,
    }
}

#[test]
fn test_plan_coalesces_by_path() {
    let events = vec![
        ev("src/a.rs", true),
        ev("src/b.rs", true),
        ev("src/a.rs", false),
    ];
    let plan = plan_flush(&events);
    assert_eq!(plan.len(), 2);
    assert_eq!(plan[0].0, "src/a.rs");
    assert_eq!(plan[0].1, WatchAction::Remove);
    assert_eq!(plan[1].0, "src/b.rs");
    assert_eq!(plan[1].1, WatchAction::Rebuild);
}

#[test]
fn test_plan_ignores_unsupported() {
    let events = vec![ev("notes.txt", true), ev("src/a.py", true)];
    let plan = plan_flush(&events);
    assert_eq!(plan.len(), 2);
    assert_eq!(plan[0].1, WatchAction::Ignore);
    assert_eq!(plan[1].1, WatchAction::Rebuild);
}

#[test]
fn test_plan_last_event_wins() {
    let events = vec![
        ev("src/a.rs", false),
        ev("src/a.rs", true),
        ev("src/a.rs", false),
        ev("src/a.rs", true),
    ];
    let plan = plan_flush(&events);
    assert_eq!(plan.len(), 1);
    assert_eq!(plan[0].1, WatchAction::Rebuild);
}

#[test]
fn test_plan_empty_window() {
    let plan = plan_flush(&Vec::new());
    assert!(plan.is_empty());
}
