use fm::location::Location;
use fm::ops::{
    accepts_drop, handle_drop, move_description, restore_target, trash_report, Operations,
    Progress, RestoreError, TrashOutcome,
};

fn loc(path: &str) -> Location {
    Location::from_path(&b"file".to_vec(), &path.as_bytes().to_vec()).unwrap()
}

fn outcome(name: &str, result: Result<(), &str>) -> TrashOutcome {
    TrashOutcome { name: name.to_string(), result: result.map_err(|e| e.to_string()) }
}

#[test]
fn trash_with_one_entry_already_gone() {
    let r = trash_report(&vec![
        outcome("report.pdf", Ok(())),
        outcome("gone.txt", Err("Error trashing file gone.txt: No such file or directory")),
    ]);
    assert_eq!(r.toast.as_deref(), Some("'report.pdf' moved to trash"));
    assert_eq!(r.errors, vec!["Error trashing file gone.txt: No such file or directory".to_string()]);
}

#[test]
fn trash_of_several_entries_is_counted() {
    let r = trash_report(&vec![
        outcome("a", Ok(())),
        outcome("b", Ok(())),
        outcome("c", Err("denied")),
        outcome("d", Ok(())),
        outcome("e", Err("busy")),
    ]);
    assert_eq!(r.toast.as_deref(), Some("3 files moved to trash"));
    assert_eq!(r.errors, vec!["denied".to_string(), "busy".to_string()]);
}

#[test]
fn trash_where_everything_failed_has_no_toast() {
    let r = trash_report(&vec![outcome("a", Err("x"))]);
    assert!(r.toast.is_none());
    assert_eq!(r.errors.len(), 1);
    let r = trash_report(&vec![]);
    assert!(r.toast.is_none());
    assert!(r.errors.is_empty());
}

#[test]
fn operations_are_numbered_updated_and_finished() {
    let mut ops = Operations::new();
    assert!(ops.can_begin());
    let a = ops.begin("Moving 'a' to 'b'".to_string());
    let b = ops.begin("Moving 'c' to 'd'".to_string());
    assert_eq!((a, b), (0, 1));
    assert_eq!(ops.active().len(), 2);
    assert_eq!((ops.active()[0].current, ops.active()[0].total), (0, 1));
    assert!(ops.update(Progress { id: b, current: 50, total: 100 }));
    assert_eq!(ops.active()[1].current, 50);
    assert_eq!(ops.active()[1].total, 100);
    assert_eq!(ops.active()[0].current, 0);
    assert!(!ops.update(Progress { id: 7, current: 1, total: 1 }));
    assert_eq!(ops.finish(a, Ok(())), None);
    assert_eq!(ops.active().len(), 1);
    assert_eq!(ops.active()[0].id, b);
    assert_eq!(ops.finish(b, Err("disk full".to_string())), Some("disk full".to_string()));
    assert!(ops.active().is_empty());
    let c = ops.begin("x".to_string());
    assert_eq!(c, 2);
}

#[test]
fn progress_completion() {
    assert!(Progress { id: 1, current: 5, total: 5 }.is_complete());
    assert!(!Progress { id: 1, current: 4, total: 5 }.is_complete());
}

#[test]
fn move_descriptions() {
    assert_eq!(move_description(Some("a.txt"), Some("Documents")), "Moving 'a.txt' to 'Documents'");
    assert_eq!(move_description(None, None), "Moving 'file' to 'destination'");
    assert_eq!(move_description(Some("x"), None), "Moving 'x' to 'destination'");
}

#[test]
fn drop_into_the_same_directory_is_refused() {
    let file = loc("/home/alice/a.txt");
    assert!(!accepts_drop(&file, &loc("/home/alice")));
    assert!(accepts_drop(&file, &loc("/home/bob")));
    assert!(accepts_drop(&loc("/"), &loc("/home")));
    let d = handle_drop(&file, &loc("/home/bob")).unwrap();
    assert!(d.same_as(&loc("/home/bob/a.txt")));
    assert!(handle_drop(&file, &loc("/home/alice")).is_none());
    assert!(handle_drop(&loc("/"), &loc("/home")).is_none());
}

#[test]
fn restore_reads_the_recorded_path() {
    assert_eq!(restore_target(None).err(), Some(RestoreError::MissingOriginalPath));
    assert_eq!(restore_target(Some(&b"relative/a".to_vec())).err(), Some(RestoreError::BadOriginalPath));
    assert_eq!(restore_target(Some(&Vec::new())).err(), Some(RestoreError::BadOriginalPath));
    let l = restore_target(Some(&b"/home/alice/a.txt".to_vec())).unwrap();
    assert!(l.same_as(&loc("/home/alice/a.txt")));
}

#[test]
fn trash_then_restore_returns_to_the_same_location() {
    let e = loc("/home/alice/report.pdf");
    let recorded = e.to_path();
    let back = restore_target(Some(&recorded)).unwrap();
    assert!(back.same_as(&e));
}
