use fm::location::{diff, Location, Step};
use fm::panes::{Entry, FileSelection, PaneEvent, PaneStack, Selection, SyncError};

fn loc(path: &str) -> Location {
    Location::from_path(&b"file".to_vec(), &path.as_bytes().to_vec()).unwrap()
}

fn paths(s: &PaneStack) -> Vec<String> {
    s.panes()
        .iter()
        .map(|l| String::from_utf8(l.to_path()).unwrap())
        .collect()
}

fn stack(dirs: &[&str]) -> PaneStack {
    let mut s = PaneStack::new(loc(dirs[0]));
    for d in &dirs[1..] {
        let sel = single(d, true);
        s.apply_selection(&sel).unwrap();
    }
    s
}

fn single(path: &str, is_dir: bool) -> Selection {
    let l = loc(path);
    Selection::Files(FileSelection {
        parent: l.parent().unwrap(),
        files: vec![Entry { location: l, is_dir }],
    })
}

#[test]
fn selecting_a_file_in_a_sibling_directory() {
    let mut s = stack(&["/home", "/home/alice"]);
    assert_eq!(paths(&s), vec!["/home", "/home/alice"]);
    let steps = diff(s.deepest(), &loc("/home/bob/report.pdf")).unwrap();
    assert!(matches!(steps[0], Step::Ascend));
    assert!(matches!(&steps[1], Step::Descend(n) if n == b"bob"));
    assert!(matches!(&steps[2], Step::Descend(n) if n == b"report.pdf"));
    assert_eq!(steps.len(), 3);
    s.apply_selection(&single("/home/bob/report.pdf", false)).unwrap();
    assert_eq!(paths(&s), vec!["/home", "/home/bob"]);
}

#[test]
fn selecting_from_a_three_pane_stack() {
    let mut s = stack(&["/", "/home", "/home/alice"]);
    assert_eq!(paths(&s), vec!["/", "/home", "/home/alice"]);
    s.apply_selection(&single("/home/bob/report.pdf", false)).unwrap();
    assert_eq!(paths(&s), vec!["/", "/home", "/home/bob"]);
}

#[test]
fn selecting_a_directory_opens_it() {
    let mut s = stack(&["/home"]);
    s.apply_selection(&single("/home/alice", true)).unwrap();
    assert_eq!(paths(&s), vec!["/home", "/home/alice"]);
    s.apply_selection(&single("/home/alice/music", true)).unwrap();
    assert_eq!(paths(&s), vec!["/home", "/home/alice", "/home/alice/music"]);
    // a jump two levels up and one down pops twice, then pushes
    s.apply_selection(&single("/home/bob", true)).unwrap();
    assert_eq!(paths(&s), vec!["/home", "/home/bob"]);
}

#[test]
fn selecting_nothing_keeps_the_panes() {
    let mut s = stack(&["/home", "/home/alice"]);
    s.apply_selection(&Selection::Nothing).unwrap();
    assert_eq!(paths(&s), vec!["/home", "/home/alice"]);
}

#[test]
fn multi_selection_targets_the_shared_parent() {
    let mut s = stack(&["/home", "/home/alice", "/home/alice/music"]);
    let parent = loc("/home/alice");
    let sel = Selection::Files(FileSelection {
        parent: parent.duplicate(),
        files: vec![
            Entry { location: parent.child(&b"a.txt".to_vec()), is_dir: false },
            Entry { location: parent.child(&b"music".to_vec()), is_dir: true },
        ],
    });
    s.apply_selection(&sel).unwrap();
    assert_eq!(paths(&s), vec!["/home", "/home/alice"]);
}

#[test]
fn selection_above_the_root_pane_is_refused() {
    let mut s = stack(&["/home", "/home/alice"]);
    let r = s.apply_selection(&single("/etc/hosts", false));
    assert_eq!(r, Err(SyncError::PastRoot));
    assert_eq!(paths(&s), vec!["/home", "/home/alice"]);
}

#[test]
fn selection_in_another_address_space_is_refused() {
    let mut s = stack(&["/home"]);
    let t = Location::from_path(&b"trash".to_vec(), &b"/a.txt".to_vec()).unwrap();
    let sel = Selection::Files(FileSelection {
        parent: t.parent().unwrap(),
        files: vec![Entry { location: t, is_dir: false }],
    });
    assert_eq!(s.apply_selection(&sel), Err(SyncError::NotRelated));
    assert_eq!(paths(&s), vec!["/home"]);
}

#[test]
fn new_root_replaces_every_pane() {
    let mut s = stack(&["/home", "/home/alice", "/home/alice/music"]);
    s.new_root(loc("/usr"));
    assert_eq!(paths(&s), vec!["/usr"]);
}

#[test]
fn panes_never_empty_over_events() {
    let mut s = PaneStack::new(loc("/home"));
    let events = vec![
        PaneEvent::NewSelection(single("/home/alice", true)),
        PaneEvent::NewSelection(single("/etc/passwd", false)),
        PaneEvent::NewRoot(loc("/")),
        PaneEvent::NewSelection(Selection::Nothing),
        PaneEvent::NewSelection(single("/usr/lib", true)),
        PaneEvent::NewSelection(single("/usr", true)),
        PaneEvent::NewSelection(single("/home/alice/x", false)),
    ];
    for e in &events {
        let _ = s.handle(e);
        assert!(!s.panes().is_empty());
    }
    assert_eq!(paths(&s), vec!["/", "/home", "/home/alice"]);
}
