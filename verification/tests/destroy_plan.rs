use structfile::destroy::destroy_entry;
use structfile::errors::Error;
use structfile::path::EntryPath;
use structfile::plan::Step;
use structfile::tree::{Entry, Key, Tree};

fn place(names: &[&str]) -> EntryPath {
    EntryPath { segments: names.iter().map(|name| name.to_string()).collect() }
}

fn rm(names: &[&str]) -> Step {
    Step::RemoveFile { path: place(names) }
}

fn rmdir(names: &[&str]) -> Step {
    Step::RemoveDir { path: place(names) }
}

fn leaf(name: &str, text: &str) -> Entry {
    Entry { key: Key::Text(name.to_string()), value: Tree::Scalar(text.to_string()) }
}

fn branch(name: &str, entries: Vec<Entry>) -> Entry {
    Entry { key: Key::Text(name.to_string()), value: Tree::Mapping(entries) }
}

#[test]
fn destroy_plans_the_documented_example() {
    let root = Tree::Mapping(vec![
        leaf("a.txt", "hello"),
        branch("sub", vec![leaf("b.txt", "world")]),
    ]);
    let plan = destroy_entry(EntryPath::root(), &root);
    assert_eq!(plan.fault, None);
    assert_eq!(plan.steps, vec![rm(&["a.txt"]), rmdir(&["sub"])]);
}

#[test]
fn destroy_of_a_scalar_root_does_nothing() {
    let plan = destroy_entry(EntryPath::root(), &Tree::Scalar("text".to_string()));
    assert_eq!(plan.steps, vec![]);
    assert_eq!(plan.fault, None);
}

#[test]
fn destroy_of_another_root_does_nothing() {
    let plan = destroy_entry(place(&["anywhere"]), &Tree::Other);
    assert_eq!(plan.steps, vec![]);
    assert_eq!(plan.fault, None);
}

#[test]
fn destroy_of_an_empty_mapping_does_nothing() {
    let plan = destroy_entry(EntryPath::root(), &Tree::Mapping(vec![]));
    assert_eq!(plan.steps, vec![]);
    assert_eq!(plan.fault, None);
}

#[test]
fn destroy_never_removes_the_root() {
    let root = Tree::Mapping(vec![leaf("a", "1"), branch("b", vec![]), leaf("c", "3")]);
    let plan = destroy_entry(place(&["base"]), &root);
    assert_eq!(plan.steps, vec![rm(&["base", "a"]), rmdir(&["base", "b"]), rm(&["base", "c"])]);
    for step in &plan.steps {
        assert_eq!(step.target().segments.len(), 2);
        assert!(step.is_removal());
    }
}

#[test]
fn destroy_does_not_look_into_a_nested_mapping() {
    let root = Tree::Mapping(vec![branch(
        "sub",
        vec![
            Entry { key: Key::Other, value: Tree::Other },
            Entry { key: Key::Text("list".to_string()), value: Tree::Other },
        ],
    )]);
    let plan = destroy_entry(EntryPath::root(), &root);
    assert_eq!(plan.fault, None);
    assert_eq!(plan.steps, vec![rmdir(&["sub"])]);
}

#[test]
fn destroy_stops_at_a_key_that_is_no_string() {
    let root = Tree::Mapping(vec![
        leaf("first", "1"),
        Entry { key: Key::Other, value: Tree::Scalar("unnamed".to_string()) },
        leaf("last", "3"),
    ]);
    let plan = destroy_entry(EntryPath::root(), &root);
    assert_eq!(plan.steps, vec![rm(&["first"])]);
    assert_eq!(plan.fault, Some(Error::InvalidKey(place(&[]))));
}

#[test]
fn destroy_stops_at_a_value_of_the_wrong_type() {
    let root = Tree::Mapping(vec![
        branch("first", vec![]),
        Entry { key: Key::Text("number".to_string()), value: Tree::Other },
        leaf("last", "3"),
    ]);
    let plan = destroy_entry(place(&["out"]), &root);
    assert_eq!(plan.steps, vec![rmdir(&["out", "first"])]);
    assert_eq!(plan.fault, Some(Error::WrongValueType(place(&["out", "number"]))));
}

#[test]
fn destroy_is_planned_the_same_each_time() {
    let root = Tree::Mapping(vec![leaf("a", "1"), branch("b", vec![leaf("c", "2")])]);
    let first = destroy_entry(EntryPath::root(), &root);
    let second = destroy_entry(EntryPath::root(), &root);
    assert_eq!(first, second);
}
