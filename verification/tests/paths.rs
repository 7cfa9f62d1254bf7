use structfile::path::EntryPath;

#[test]
fn root_has_no_segments() {
    let root = EntryPath::root();
    assert!(root.segments.is_empty());
}

#[test]
fn join_appends_one_segment() {
    let child = EntryPath::root().join("sub");
    assert_eq!(child.segments, vec!["sub".to_string()]);
    let grandchild = child.join("b.txt");
    assert_eq!(grandchild.segments, vec!["sub".to_string(), "b.txt".to_string()]);
    assert_eq!(child.segments, vec!["sub".to_string()]);
}

#[test]
fn join_takes_the_key_verbatim() {
    let child = EntryPath::root().join("a/b").join("..").join("");
    assert_eq!(child.segments, vec!["a/b".to_string(), "..".to_string(), String::new()]);
}

#[test]
fn clone_is_equal() {
    let path = EntryPath::root().join("x").join("y");
    assert_eq!(path.clone(), path);
}
