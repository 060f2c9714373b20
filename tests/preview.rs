use fm::classify::{classify, has_null_byte, needs_contents, ContentClass};
use fm::describe::{DateSpan, EntryMeta};
use fm::location::Location;
use fm::panes::{Entry, FileSelection, Selection};
use fm::preview::{FileMeta, Preview, PreviewRequest, PreviewResolver, PreviewState};

fn loc(path: &str) -> Location {
    Location::from_path(&b"file".to_vec(), &path.as_bytes().to_vec()).unwrap()
}

fn single(path: &str, is_dir: bool) -> Selection {
    let l = loc(path);
    Selection::Files(FileSelection {
        parent: l.parent().unwrap(),
        files: vec![Entry { location: l, is_dir }],
    })
}

fn group(parent: &str, names: &[&str]) -> Selection {
    let p = loc(parent);
    let files = names
        .iter()
        .map(|n| Entry { location: p.child(&n.as_bytes().to_vec()), is_dir: false })
        .collect();
    Selection::Files(FileSelection { parent: p, files })
}

fn meta(name: &str, mime: &str, size: u64) -> FileMeta {
    FileMeta {
        display_name: name.to_string(),
        mime: mime.to_string(),
        size,
        created: None,
        modified: None,
        is_symlink: false,
    }
}

#[test]
fn classify_by_media_type() {
    assert_eq!(classify("image/png", None), ContentClass::Image);
    assert_eq!(classify("image/svg+xml", None), ContentClass::Image);
    assert_eq!(classify("video/mp4", None), ContentClass::Video);
    assert_eq!(classify("application/pdf", None), ContentClass::Paged);
    assert_eq!(classify("application/octet-stream", None), ContentClass::Opaque);
    assert_eq!(classify("not a media type", None), ContentClass::Opaque);
}

#[test]
fn classify_text_by_contents() {
    let text = b"fn main() {}\n".to_vec();
    assert_eq!(classify("text/plain", Some(&text)), ContentClass::Text);
    assert_eq!(classify("TEXT/X-Rust; charset=utf-8", Some(&text)), ContentClass::Text);
    assert_eq!(classify("application/json", Some(&text)), ContentClass::Text);
    assert_eq!(classify("application/toml", Some(&text)), ContentClass::Text);
    assert_eq!(classify("application/x-shellscript", Some(&text)), ContentClass::Text);
    assert_eq!(classify("application/xml", Some(&text)), ContentClass::Text);
    assert_eq!(classify("application/javascript", Some(&text)), ContentClass::Text);
    assert_eq!(classify("application/zip", Some(&text)), ContentClass::Opaque);
    let binary = vec![b'a', 0, b'b'];
    assert_eq!(classify("text/plain", Some(&binary)), ContentClass::Opaque);
    assert_eq!(classify("text/plain", None), ContentClass::Opaque);
}

#[test]
fn null_byte_after_the_preview_window_is_not_seen() {
    let mut late = vec![b'x'; 4096];
    late.push(0);
    assert!(!has_null_byte(&late));
    assert_eq!(classify("text/plain", Some(&late)), ContentClass::Text);
    let mut edge = vec![b'x'; 4095];
    edge.push(0);
    assert!(has_null_byte(&edge));
    assert!(!has_null_byte(&Vec::new()));
}

#[test]
fn only_text_candidates_need_contents() {
    assert!(needs_contents("text/plain"));
    assert!(needs_contents("application/json"));
    assert!(!needs_contents("image/png"));
    assert!(!needs_contents("application/pdf"));
    assert!(!needs_contents("garbage"));
}

#[test]
fn directory_file_and_group_take_different_paths() {
    let mut r = PreviewResolver::new();
    let req = r.begin(&single("/home/alice", true));
    assert!(matches!(req, PreviewRequest::Nothing));
    assert!(matches!(r.state(), PreviewState::Empty));
    assert_eq!(r.generation(), 1);

    let req = r.begin(&single("/home/alice/notes.txt", false));
    let g = match req {
        PreviewRequest::File { generation, location } => {
            assert!(location.same_as(&loc("/home/alice/notes.txt")));
            generation
        }
        _ => panic!("expected a file request"),
    };
    assert_eq!(g, 2);
    assert!(matches!(r.state(), PreviewState::Loading(2)));
    let contents = b"hello".to_vec();
    assert!(r.complete_file(g, Ok((meta("notes.txt", "text/plain", 5), Some(contents)))));
    match r.state() {
        PreviewState::Resolved(Preview::File(p)) => {
            assert_eq!(p.class, ContentClass::Text);
            assert_eq!(p.text.as_deref(), Some(&b"hello"[..]));
            assert_eq!(p.meta.display_name, "notes.txt");
        }
        _ => panic!("expected a file preview"),
    }

    let req = r.begin(&group("/home/alice", &["a.txt", "b.txt"]));
    let g = match req {
        PreviewRequest::Group { generation, locations } => {
            assert_eq!(locations.len(), 2);
            assert!(locations[1].same_as(&loc("/home/alice/b.txt")));
            generation
        }
        _ => panic!("expected a group request"),
    };
    let entries = vec![
        EntryMeta { is_dir: false, size: 10, created: None, modified: None },
        EntryMeta { is_dir: true, size: 4096, created: None, modified: None },
    ];
    assert!(r.complete_group(g, Ok(entries)));
    match r.state() {
        PreviewState::Resolved(Preview::Group(s)) => {
            assert_eq!(s.count, 2);
            assert_eq!(s.documents, 1);
            assert_eq!(s.folders, 1);
            assert_eq!(s.total_size, 4106);
            assert_eq!(s.created, DateSpan::Missing);
        }
        _ => panic!("expected a group preview"),
    }
}

#[test]
fn nothing_selected_empties_the_preview() {
    let mut r = PreviewResolver::new();
    let _ = r.begin(&single("/a.txt", false));
    let req = r.begin(&Selection::Nothing);
    assert!(matches!(req, PreviewRequest::Nothing));
    assert!(matches!(r.state(), PreviewState::Empty));
    assert!(!r.complete_file(1, Ok((meta("a.txt", "text/plain", 1), None))));
    assert!(matches!(r.state(), PreviewState::Empty));
}

#[test]
fn older_resolution_arriving_first_is_discarded() {
    let mut r = PreviewResolver::new();
    let a = match r.begin(&single("/a.png", false)) {
        PreviewRequest::File { generation, .. } => generation,
        _ => panic!(),
    };
    let b = match r.begin(&single("/b.png", false)) {
        PreviewRequest::File { generation, .. } => generation,
        _ => panic!(),
    };
    assert!(a < b);
    assert!(!r.complete_file(a, Ok((meta("a.png", "image/png", 1), None))));
    assert!(matches!(r.state(), PreviewState::Loading(g) if *g == b));
    assert!(r.complete_file(b, Ok((meta("b.png", "image/png", 1), None))));
    match r.state() {
        PreviewState::Resolved(Preview::File(p)) => assert_eq!(p.meta.display_name, "b.png"),
        _ => panic!(),
    }
}

#[test]
fn older_resolution_arriving_last_is_discarded() {
    let mut r = PreviewResolver::new();
    let _ = r.begin(&single("/a.png", false));
    let _ = r.begin(&single("/b.png", false));
    assert!(r.complete_file(2, Ok((meta("b.png", "image/png", 1), None))));
    assert!(!r.complete_file(1, Ok((meta("a.png", "image/png", 1), None))));
    assert!(!r.complete_file(2, Err("again".to_string())));
    match r.state() {
        PreviewState::Resolved(Preview::File(p)) => {
            assert_eq!(p.meta.display_name, "b.png");
            assert_eq!(p.class, ContentClass::Image);
            assert!(p.text.is_none());
        }
        _ => panic!(),
    }
}

#[test]
fn failed_query_shows_the_reason() {
    let mut r = PreviewResolver::new();
    let _ = r.begin(&single("/gone.txt", false));
    assert!(r.complete_file(1, Err("No such file".to_string())));
    assert!(matches!(r.state(), PreviewState::Failed(e) if e == "No such file"));
    let _ = r.begin(&group("/", &["a", "b"]));
    assert!(r.complete_group(2, Err("denied".to_string())));
    assert!(matches!(r.state(), PreviewState::Failed(e) if e == "denied"));
}

#[test]
fn text_preview_keeps_only_the_window() {
    let mut r = PreviewResolver::new();
    let _ = r.begin(&single("/big.txt", false));
    let contents = vec![b'y'; 5000];
    assert!(r.complete_file(1, Ok((meta("big.txt", "text/plain", 5000), Some(contents)))));
    match r.state() {
        PreviewState::Resolved(Preview::File(p)) => assert_eq!(p.text.as_ref().unwrap().len(), 4096),
        _ => panic!(),
    }
    assert!(r.can_begin());
}
