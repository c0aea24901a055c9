use fm_player::suggest::{
    complete_from, filter_entries, split_target, split_with_siblings, suggestion_path, SplitStep,
};
use fm_player::utils::DirItem;

fn items(paths: &[&str]) -> Vec<DirItem> {
    paths.iter().map(|p| DirItem::new(p.to_string())).collect()
}

fn paths(v: &[DirItem]) -> Vec<String> {
    v.iter().map(|d| d.path().to_string()).collect()
}

#[test]
fn completion_paths() {
    assert_eq!(suggestion_path(""), "./");
    assert_eq!(suggestion_path("abc"), "./abc");
    assert_eq!(suggestion_path("./abc"), "./abc");
    assert_eq!(suggestion_path("../x"), "../x");
    assert_eq!(suggestion_path("/tmp"), "/tmp");
}

#[test]
fn where_to_look() {
    assert!(matches!(split_target("abc.", "./abc.", false),
        SplitStep::Split(d, Some(p)) if d == "." && p == "abc."));
    assert!(matches!(split_target(".", "./.", true),
        SplitStep::Split(d, Some(p)) if d == "." && p == "."));
    assert!(matches!(split_target("src/", "./src/", true),
        SplitStep::Split(d, None) if d == "./src/"));
    assert!(matches!(split_target("src", "./src", true),
        SplitStep::ListParent(d, Some(n)) if d == "." && n == "src"));
    assert!(matches!(split_target("foo", "./foo", false),
        SplitStep::Split(d, Some(p)) if d == "." && p == "foo"));
    assert!(matches!(split_target("/", "/", false), SplitStep::NoTarget));
}

#[test]
fn directory_or_its_parent() {
    let many = vec!["src".to_string(), "src2".to_string(), "x".to_string()];
    let (d, p) = split_with_siblings("./src", ".".to_string(), Some("src".to_string()), &many);
    assert_eq!((d.as_str(), p.as_deref()), (".", Some("src")));
    let one = vec!["src".to_string(), "x".to_string()];
    let (d, p) = split_with_siblings("./src", ".".to_string(), Some("src".to_string()), &one);
    assert_eq!((d.as_str(), p), ("./src", None));
    let (d, _) = split_with_siblings("./src", ".".to_string(), None, &one);
    assert_eq!(d, ".");
}

#[test]
fn entries_filtered_by_prefix() {
    let all = items(&["./a1", "./b", "./a2", "/"]);
    assert_eq!(paths(&filter_entries(all, Some("a"))), vec!["./a1", "./a2"]);
    let all = items(&["./a1", "./b", "/"]);
    assert_eq!(paths(&filter_entries(all, None)), vec!["./a1", "./b", "/"]);
}

#[test]
fn line_completed() {
    let (u, e) = complete_from("s", ".", Some("s"), vec![], false);
    assert!(!u.is_update());
    assert_eq!(u.get_content(), "s");
    assert!(e.is_none());
    let (u, e) = complete_from("so", ".", Some("so"), items(&["./songs"]), true);
    assert!(u.is_update());
    assert_eq!(u.get_content(), "./songs/");
    assert!(e.is_none());
    let (u, _) = complete_from("so", ".", Some("so"), items(&["./song.mid"]), false);
    assert_eq!(u.get_content(), "./song.mid");
    let (u, e) = complete_from("s", ".", Some("s"), items(&["./song1.mid", "./song2.mid"]), false);
    assert!(u.is_update());
    assert_eq!(u.get_content(), "./song");
    assert_eq!(paths(&e.unwrap()), vec!["./song1.mid", "./song2.mid"]);
    let (u, e) = complete_from("./song", ".", Some("song"), items(&["./song1", "./song2"]), false);
    assert!(!u.is_update());
    assert_eq!(u.get_content(), "./song");
    assert_eq!(e.unwrap().len(), 2);
    let (u, e) = complete_from("x", ".", None, items(&["./a", "./b"]), false);
    assert!(!u.is_update());
    assert_eq!(e.unwrap().len(), 2);
}
