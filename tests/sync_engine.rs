use git_push::change::DealFile;
use git_push::memory::MemoryRemote;
use git_push::path::PathName;
use git_push::remote::{RemoteFileEntry, SyncError, Transport, TransportError};
use git_push::sync::deal_git_files;

fn p(text: &str) -> PathName {
    let parts: Vec<Vec<u8>> = text
        .split('/')
        .filter(|s| !s.is_empty())
        .map(|s| s.as_bytes().to_vec())
        .collect();
    PathName::from_parts(text.starts_with('/'), parts).unwrap()
}

fn text(path: &PathName) -> String {
    String::from_utf8(path.to_bytes()).unwrap()
}

fn is_there(remote: &MemoryRemote, t: &str) -> bool {
    RemoteFileEntry::path_exists(&p(t), remote).unwrap()
}

fn change_set(changed: &[&str], deleted: &[&str], others: &[&str]) -> DealFile {
    let mut set = DealFile::new();
    for c in changed {
        set.changed().push(p(c));
    }
    for d in deleted {
        set.deleted().push(p(d));
    }
    for o in others {
        set.others().push(p(o));
    }
    set
}

#[test]
fn sync_uploads_then_moves_deleted_files_to_trash() {
    let mut remote = MemoryRemote::new();
    RemoteFileEntry::upload(&mut remote, &p("/site/b.txt"), &b"old b".to_vec()).unwrap();
    RemoteFileEntry::upload(&mut remote, &p("/site/c.txt"), &b"c".to_vec()).unwrap();
    let set = change_set(&["a.txt", "b.txt"], &["c.txt"], &[]);
    let contents = vec![Some(b"new a".to_vec()), Some(b"new b".to_vec())];
    let report = deal_git_files(&mut remote, &set, &contents, &p("/site"), &p("/site/.trash")).unwrap();
    assert_eq!(remote.read(&p("/site/a.txt")).unwrap(), b"new a".to_vec());
    assert_eq!(remote.read(&p("/site/b.txt")).unwrap(), b"new b".to_vec());
    assert!(matches!(remote.read(&p("/site/c.txt")), Err(TransportError::NotFound)));
    assert_eq!(remote.read(&p("/site/.trash/c.txt")).unwrap(), b"c".to_vec());
    assert_eq!(report.uploaded_count(), 2);
    assert_eq!(report.moved_count(), 1);
    assert!(report.failed().is_empty());
    assert!(report.all_succeeded());
    assert!(report.others.is_empty());
}

#[test]
fn trash_exists_even_when_nothing_is_deleted() {
    let mut remote = MemoryRemote::new();
    let set = change_set(&["a.txt"], &[], &[]);
    let contents = vec![Some(b"a".to_vec())];
    deal_git_files(&mut remote, &set, &contents, &p("/site"), &p("/site/.trash")).unwrap();
    assert!(is_there(&remote, "/site/.trash"));
    let mut empty_remote = MemoryRemote::new();
    let nothing = change_set(&[], &[], &[]);
    deal_git_files(&mut empty_remote, &nothing, &vec![], &p("/site"), &p("/site/.trash")).unwrap();
    assert!(is_there(&empty_remote, "/site/.trash"));
}

#[test]
fn one_failed_upload_does_not_stop_the_other() {
    let mut remote = MemoryRemote::new();
    remote.refuse_writes_to(&p("/site/b.txt"));
    let set = change_set(&["a.txt", "b.txt"], &[], &[]);
    let contents = vec![Some(b"a".to_vec()), Some(b"b".to_vec())];
    let report = deal_git_files(&mut remote, &set, &contents, &p("/site"), &p("/site/.trash")).unwrap();
    assert_eq!(remote.read(&p("/site/a.txt")).unwrap(), b"a".to_vec());
    let failed = report.failed();
    assert_eq!(failed.len(), 1);
    assert_eq!(text(&failed[0]), "b.txt");
    assert_eq!(report.uploaded_count(), 1);
    assert!(matches!(report.uploads[1].error, Some(SyncError::RemoteIo(_))));
    assert!(!report.all_succeeded());
}

#[test]
fn unreadable_local_file_is_recorded() {
    let mut remote = MemoryRemote::new();
    let set = change_set(&["a.txt", "b.txt"], &[], &[]);
    let contents = vec![None, Some(b"b".to_vec())];
    let report = deal_git_files(&mut remote, &set, &contents, &p("/site"), &p("/site/.trash")).unwrap();
    assert!(matches!(report.uploads[0].error, Some(SyncError::LocalRead)));
    assert!(!is_there(&remote, "/site/a.txt"));
    assert_eq!(remote.read(&p("/site/b.txt")).unwrap(), b"b".to_vec());
    assert_eq!(report.uploaded_count(), 1);
}

#[test]
fn deleting_a_file_that_is_not_there_is_no_failure() {
    let mut remote = MemoryRemote::new();
    let set = change_set(&[], &["gone.txt"], &[]);
    let report = deal_git_files(&mut remote, &set, &vec![], &p("/site"), &p("/site/.trash")).unwrap();
    assert_eq!(report.moved_count(), 1);
    assert!(report.failed().is_empty());
    assert!(!is_there(&remote, "/site/.trash/gone.txt"));
}

#[test]
fn other_paths_are_only_reported() {
    let mut remote = MemoryRemote::new();
    let set = change_set(&[], &[], &["renamed.txt", "link"]);
    let report = deal_git_files(&mut remote, &set, &vec![], &p("/site"), &p("/site/.trash")).unwrap();
    let others: Vec<String> = report.others.iter().map(text).collect();
    assert_eq!(others, vec!["renamed.txt", "link"]);
    assert!(!is_there(&remote, "/site/renamed.txt"));
}

#[test]
fn trash_that_cannot_be_made_ends_the_sync() {
    let mut remote = MemoryRemote::new();
    RemoteFileEntry::upload(&mut remote, &p("/site"), &b"a file".to_vec()).unwrap();
    let set = change_set(&[], &["c.txt"], &[]);
    let r = deal_git_files(&mut remote, &set, &vec![], &p("/other"), &p("/site/.trash"));
    assert!(matches!(r, Err(SyncError::RemoteIo(_))));
}

#[test]
fn local_sources_are_under_the_source_root() {
    let set = change_set(&["a.txt", "dir/b.txt"], &[], &[]);
    let local: Vec<String> = set.local_sources(&p("/home/me/repo")).iter().map(text).collect();
    assert_eq!(local, vec!["/home/me/repo/a.txt", "/home/me/repo/dir/b.txt"]);
}
