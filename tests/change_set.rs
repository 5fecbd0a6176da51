use git2::Delta;
use git_push::change::{classify, latest_two_commits, recipe_modified, ChangeKind, DealFile, DeltaRecord, RepoError};
use git_push::path::PathName;

fn p(text: &str) -> PathName {
    let parts: Vec<Vec<u8>> = text
        .split('/')
        .filter(|s| !s.is_empty())
        .map(|s| s.as_bytes().to_vec())
        .collect();
    PathName::from_parts(text.starts_with('/'), parts).unwrap()
}

fn text(path: &PathName) -> String {
    String::from_utf8(path.to_bytes()).unwrap()
}

fn texts(v: &Vec<PathName>) -> Vec<String> {
    v.iter().map(text).collect()
}

fn delta(status: Delta, old: Option<&str>, new: Option<&str>) -> DeltaRecord {
    DeltaRecord { status, old_path: old.map(p), new_path: new.map(p) }
}

#[test]
fn last_commit_adds_modifies_and_deletes() {
    let deltas = vec![
        delta(Delta::Added, None, Some("a.txt")),
        delta(Delta::Modified, Some("b.txt"), Some("b.txt")),
        delta(Delta::Deleted, Some("c.txt"), None),
    ];
    let mut set = recipe_modified(&deltas).unwrap();
    assert_eq!(texts(set.changed()), vec!["a.txt", "b.txt"]);
    assert_eq!(texts(set.deleted()), vec!["c.txt"]);
    assert!(set.others().is_empty());
}

#[test]
fn no_differences_gives_three_empty_lists() {
    let mut set = recipe_modified(&vec![]).unwrap();
    assert!(set.changed().is_empty());
    assert!(set.deleted().is_empty());
    assert!(set.others().is_empty());
}

#[test]
fn other_statuses_are_kept_aside() {
    let deltas = vec![
        delta(Delta::Renamed, Some("old.txt"), Some("new.txt")),
        delta(Delta::Typechange, Some("link"), Some("link")),
        delta(Delta::Copied, Some("x.txt"), Some("y.txt")),
        delta(Delta::Added, None, Some("dir/z.txt")),
    ];
    let set = recipe_modified(&deltas).unwrap();
    assert_eq!(texts(&set.others), vec!["new.txt", "link", "y.txt"]);
    assert_eq!(texts(&set.changed), vec!["dir/z.txt"]);
    assert!(set.deleted.is_empty());
}

#[test]
fn deletion_is_filed_under_its_old_path() {
    let deltas = vec![delta(Delta::Deleted, Some("docs/gone.md"), Some("elsewhere.md"))];
    let set = recipe_modified(&deltas).unwrap();
    assert_eq!(texts(&set.deleted), vec!["docs/gone.md"]);
}

#[test]
fn entry_without_its_path_is_a_diff_error() {
    let deltas = vec![
        delta(Delta::Added, None, Some("a.txt")),
        delta(Delta::Modified, Some("b.txt"), None),
    ];
    assert!(matches!(recipe_modified(&deltas), Err(RepoError::DiffComputation)));
    let deleted = vec![delta(Delta::Deleted, None, Some("c.txt"))];
    assert!(matches!(recipe_modified(&deleted), Err(RepoError::DiffComputation)));
}

#[test]
fn statuses_are_classified() {
    assert_eq!(classify(Delta::Added), ChangeKind::Changed);
    assert_eq!(classify(Delta::Modified), ChangeKind::Changed);
    assert_eq!(classify(Delta::Deleted), ChangeKind::Deleted);
    assert_eq!(classify(Delta::Renamed), ChangeKind::Other);
    assert_eq!(classify(Delta::Unmodified), ChangeKind::Other);
    assert_eq!(classify(Delta::Conflicted), ChangeKind::Other);
}

#[test]
fn single_commit_is_insufficient_history() {
    assert_eq!(latest_two_commits(&vec![7u32]), Err(RepoError::InsufficientHistory));
    assert_eq!(latest_two_commits::<u32>(&vec![]), Err(RepoError::InsufficientHistory));
}

#[test]
fn head_is_newer_and_its_predecessor_older() {
    assert_eq!(latest_two_commits(&vec![30u32, 20, 10]), Ok((20, 30)));
}

#[test]
fn new_change_set_is_empty() {
    let mut set = DealFile::new();
    assert!(set.changed().is_empty() && set.deleted().is_empty() && set.others().is_empty());
    set.changed().push(p("a"));
    assert_eq!(set.changed.len(), 1);
}

#[test]
fn change_set_is_listed_under_three_headings() {
    let deltas = vec![
        delta(Delta::Added, None, Some("a.txt")),
        delta(Delta::Deleted, Some("dir/c.txt"), None),
    ];
    let set = recipe_modified(&deltas).unwrap();
    let shown = String::from_utf8(set.describe()).unwrap();
    assert_eq!(shown, "CHANGED : [\n\ta.txt,\n]\nDELETED : [\n\tdir/c.txt,\n]\nOTHERS : []\n");
}
