use fm::location::{diff, Location, NotRelated, Step};

fn loc(path: &str) -> Location {
    Location::from_path(&b"file".to_vec(), &path.as_bytes().to_vec()).unwrap()
}

fn names(l: &Location) -> Vec<String> {
    l.names.iter().map(|n| String::from_utf8(n.clone()).unwrap()).collect()
}

fn steps_text(steps: &[Step]) -> Vec<String> {
    steps
        .iter()
        .map(|s| match s {
            Step::Ascend => "..".to_string(),
            Step::Descend(n) => String::from_utf8(n.clone()).unwrap(),
        })
        .collect()
}

#[test]
fn diff_to_self_is_empty() {
    let a = loc("/home/alice/docs");
    assert!(diff(&a, &a).unwrap().is_empty());
    let root = loc("/");
    assert!(diff(&root, &root).unwrap().is_empty());
}

#[test]
fn diff_to_ancestor_is_only_ascents() {
    let a = loc("/home/alice/docs/letters");
    let p = loc("/home");
    let steps = diff(&a, &p).unwrap();
    assert_eq!(steps_text(&steps), vec!["..", "..", ".."]);
    let root = loc("/");
    assert_eq!(diff(&a, &root).unwrap().len(), 4);
}

#[test]
fn diff_to_child_is_one_descent() {
    let a = loc("/home/alice");
    let c = a.child(&b"music".to_vec());
    assert_eq!(steps_text(&diff(&a, &c).unwrap()), vec!["music"]);
}

#[test]
fn diff_across_branches_ascends_then_descends() {
    let from = loc("/home/alice");
    let to = loc("/home/bob/report.pdf");
    assert_eq!(
        steps_text(&diff(&from, &to).unwrap()),
        vec!["..", "bob", "report.pdf"]
    );
    let from = loc("/home/alice/a/b");
    let to = loc("/usr/share");
    assert_eq!(
        steps_text(&diff(&from, &to).unwrap()),
        vec!["..", "..", "..", "..", "usr", "share"]
    );
}

#[test]
fn diff_between_address_spaces_is_not_related() {
    let a = loc("/home/alice");
    let t = Location::from_path(&b"trash".to_vec(), &b"/a.txt".to_vec()).unwrap();
    assert!(matches!(diff(&a, &t), Err(NotRelated::NotRelated)));
}

#[test]
fn parse_and_write_paths() {
    let l = loc("/home//alice/");
    assert_eq!(names(&l), vec!["home", "alice"]);
    assert_eq!(l.to_path(), b"/home/alice".to_vec());
    assert_eq!(loc("/").to_path(), b"/".to_vec());
    assert!(loc("/").names.is_empty());
    assert!(Location::from_path(&b"file".to_vec(), &b"home".to_vec()).is_none());
    assert!(Location::from_path(&b"file".to_vec(), &Vec::new()).is_none());
}

#[test]
fn parent_child_and_name() {
    let l = loc("/home/alice");
    let p = l.parent().unwrap();
    assert!(p.same_as(&loc("/home")));
    assert_eq!(l.name().unwrap(), b"alice".to_vec());
    assert!(loc("/").parent().is_none());
    assert!(loc("/").name().is_none());
    assert!(p.child(&b"alice".to_vec()).same_as(&l));
    assert!(!l.same_as(&loc("/home/bob")));
    assert!(loc("/home").is_ancestor_or_self_of(&l));
    assert!(l.is_ancestor_or_self_of(&l));
    assert!(!l.is_ancestor_or_self_of(&loc("/home")));
    assert!(!loc("/home/al").is_ancestor_or_self_of(&l));
}

#[test]
fn root_location_has_no_names() {
    let r = Location::root(&b"file".to_vec());
    assert!(r.names.is_empty());
    assert!(r.same_as(&loc("/")));
    assert!(loc("/a/b").duplicate().same_as(&loc("/a/b")));
}
