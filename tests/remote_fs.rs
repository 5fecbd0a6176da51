use std::cmp::Ordering;
use git_push::memory::MemoryRemote;
use git_push::path::PathName;
use git_push::remote::{FileEntry, RemoteFileEntry, SyncError, Transport, TransportError};

fn p(text: &str) -> PathName {
    let parts: Vec<Vec<u8>> = text
        .split('/')
        .filter(|s| !s.is_empty())
        .map(|s| s.as_bytes().to_vec())
        .collect();
    PathName::from_parts(text.starts_with('/'), parts).unwrap()
}

fn is_there(remote: &MemoryRemote, text: &str) -> bool {
    RemoteFileEntry::path_exists(&p(text), remote).unwrap()
}

#[test]
fn create_dir_all_makes_every_level() {
    let mut remote = MemoryRemote::new();
    assert!(!is_there(&remote, "/a"));
    RemoteFileEntry::create_dir_all(&mut remote, &p("/a/b/c")).unwrap();
    assert!(is_there(&remote, "/a"));
    assert!(is_there(&remote, "/a/b"));
    assert!(is_there(&remote, "/a/b/c"));
    assert!(!is_there(&remote, "/a/b/c/d"));
}

#[test]
fn create_dir_all_twice_changes_nothing_the_second_time() {
    let mut remote = MemoryRemote::new();
    RemoteFileEntry::create_dir_all(&mut remote, &p("/a/b")).unwrap();
    assert!(RemoteFileEntry::create_dir_all(&mut remote, &p("/a/b")).is_ok());
    assert!(is_there(&remote, "/a/b"));
    assert!(!is_there(&remote, "/a/b/b"));
    // the directory is there once: making it by hand is refused
    assert!(matches!(remote.mkdir(&p("/a/b")), Err(TransportError::Failed(_))));
}

#[test]
fn create_dir_all_of_the_empty_path_does_nothing() {
    let mut remote = MemoryRemote::new();
    assert!(RemoteFileEntry::create_dir_all(&mut remote, &PathName::empty()).is_ok());
    assert!(RemoteFileEntry::create_dir_all(&mut remote, &PathName::root()).is_ok());
    assert!(remote.mkdir(&p("/x")).is_ok());
}

#[test]
fn create_dir_all_below_a_file_fails() {
    let mut remote = MemoryRemote::new();
    RemoteFileEntry::upload(&mut remote, &p("/f"), &b"x".to_vec()).unwrap();
    let r = RemoteFileEntry::create_dir_all(&mut remote, &p("/f/g"));
    assert!(matches!(r, Err(SyncError::RemoteIo(_))));
}

#[test]
fn upload_then_read_back_gives_the_same_bytes() {
    let mut remote = MemoryRemote::new();
    let data = vec![0u8, 1, 2, 255, 10, 13];
    RemoteFileEntry::upload(&mut remote, &p("/site/deep/dir/file.bin"), &data).unwrap();
    assert_eq!(remote.read(&p("/site/deep/dir/file.bin")).unwrap(), data);
    RemoteFileEntry::upload(&mut remote, &p("/site/deep/dir/file.bin"), &b"new".to_vec()).unwrap();
    assert_eq!(remote.read(&p("/site/deep/dir/file.bin")).unwrap(), b"new".to_vec());
}

#[test]
fn upload_to_a_refused_path_is_a_remote_error() {
    let mut remote = MemoryRemote::new();
    remote.refuse_writes_to(&p("/site/x"));
    let r = RemoteFileEntry::upload(&mut remote, &p("/site/x"), &b"x".to_vec());
    assert!(matches!(r, Err(SyncError::RemoteIo(_))));
    assert!(matches!(remote.read(&p("/site/x")), Err(TransportError::NotFound)));
}

#[test]
fn moving_a_missing_file_is_no_error_and_leaves_the_trash_alone() {
    let mut remote = MemoryRemote::new();
    RemoteFileEntry::create_dir_all(&mut remote, &p("/site/.trash")).unwrap();
    RemoteFileEntry::move_to(&mut remote, &p("/site/missing.txt"), &p("/site/.trash/missing.txt")).unwrap();
    assert!(!is_there(&remote, "/site/.trash/missing.txt"));
    assert!(is_there(&remote, "/site/.trash"));
}

#[test]
fn moving_a_file_takes_it_to_its_new_place() {
    let mut remote = MemoryRemote::new();
    RemoteFileEntry::upload(&mut remote, &p("/site/c.txt"), &b"c".to_vec()).unwrap();
    RemoteFileEntry::create_dir_all(&mut remote, &p("/trash")).unwrap();
    RemoteFileEntry::move_to(&mut remote, &p("/site/c.txt"), &p("/trash/c.txt")).unwrap();
    assert!(!is_there(&remote, "/site/c.txt"));
    assert_eq!(remote.read(&p("/trash/c.txt")).unwrap(), b"c".to_vec());
}

#[test]
fn moving_into_a_missing_directory_is_a_remote_error() {
    let mut remote = MemoryRemote::new();
    RemoteFileEntry::upload(&mut remote, &p("/site/c.txt"), &b"c".to_vec()).unwrap();
    let r = RemoteFileEntry::move_to(&mut remote, &p("/site/c.txt"), &p("/nowhere/c.txt"));
    assert!(matches!(r, Err(SyncError::RemoteIo(_))));
    assert!(is_there(&remote, "/site/c.txt"));
}

#[test]
fn file_entry_gives_its_path() {
    let f = FileEntry::File(p("/a"), 3);
    let d = FileEntry::Directory(p("/b"));
    assert_eq!(f.path().to_bytes(), b"/a".to_vec());
    assert_eq!(d.path().to_bytes(), b"/b".to_vec());
}

#[test]
fn file_entries_are_ordered_by_path_bytes() {
    let a = FileEntry::File(p("/a"), 1);
    let ab = FileEntry::Directory(p("/a/b"));
    let b = FileEntry::File(p("/b"), 2);
    assert_eq!(a.partial_cmp(&b), Some(Ordering::Less));
    assert_eq!(b.partial_cmp(&ab), Some(Ordering::Greater));
    assert_eq!(a.partial_cmp(&ab), Some(Ordering::Less));
    assert_eq!(ab.partial_cmp(&FileEntry::File(p("/a/b"), 9)), Some(Ordering::Equal));
}
