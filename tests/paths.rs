use git_push::path::PathName;

fn seg(s: &str) -> Vec<u8> {
    s.as_bytes().to_vec()
}

#[test]
fn invalid_segments_are_refused() {
    assert!(PathName::from_parts(false, vec![seg("..")]).is_none());
    assert!(PathName::from_parts(false, vec![seg("a"), seg(".")]).is_none());
    assert!(PathName::from_parts(true, vec![seg("")]).is_none());
    assert!(PathName::from_parts(true, vec![seg("a/b")]).is_none());
    assert!(PathName::from_parts(true, vec![seg("..."), seg(".hidden")]).is_some());
}

#[test]
fn paths_are_written_with_separators() {
    let site = PathName::from_parts(true, vec![seg("site")]).unwrap();
    let rel = PathName::from_parts(false, vec![seg("dir"), seg("a.txt")]).unwrap();
    assert_eq!(site.join(&rel).to_bytes(), b"/site/dir/a.txt".to_vec());
    assert_eq!(rel.to_bytes(), b"dir/a.txt".to_vec());
    assert_eq!(PathName::root().to_bytes(), b"/".to_vec());
    assert_eq!(PathName::empty().to_bytes(), Vec::<u8>::new());
}

#[test]
fn parent_drops_the_last_segment() {
    let rel = PathName::from_parts(false, vec![seg("dir"), seg("a.txt")]).unwrap();
    let up = rel.parent().unwrap();
    assert_eq!(up.to_bytes(), b"dir".to_vec());
    assert!(up.parent().unwrap().is_empty());
    assert!(PathName::empty().parent().is_none());
    assert!(PathName::root().parent().is_none());
}

#[test]
fn sameness_is_segment_by_segment() {
    let a = PathName::from_parts(true, vec![seg("x"), seg("y")]).unwrap();
    let b = PathName::from_parts(true, vec![seg("x"), seg("y")]).unwrap();
    let c = PathName::from_parts(false, vec![seg("x"), seg("y")]).unwrap();
    let d = PathName::from_parts(true, vec![seg("x"), seg("z")]).unwrap();
    assert!(a.same_as(&b));
    assert!(!a.same_as(&c));
    assert!(!a.same_as(&d));
    assert!(a.same_as(&a.duplicate()));
}
