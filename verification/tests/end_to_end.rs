use std::collections::BTreeMap;

use structfile::cli::{Action, Cli};
use structfile::errors::{Error, FailureKind, IoFailure};
use structfile::loader::load_tree;
use structfile::path::EntryPath;
use structfile::plan::{Plan, Step};
use structfile::run::{Directive, Run};
use structfile::tree::{Entry, Key, Tree};

/// What a directory tree in memory holds at one path.
#[derive(Debug, PartialEq)]
enum Node {
    File(Vec<u8>),
    Dir,
}

/// A directory tree in memory that behaves as a disk does for the four
/// operations of a plan. Paths are relative to the destination; the
/// destination itself is the empty path.
#[derive(Debug)]
struct Disk {
    nodes: BTreeMap<Vec<String>, Node>,
}

fn failure(kind: FailureKind, message: &str) -> Result<(), IoFailure> {
    Err(IoFailure { kind, message: message.to_string() })
}

fn at(names: &[&str]) -> Vec<String> {
    names.iter().map(|name| name.to_string()).collect()
}

impl Disk {
    fn with_destination() -> Disk {
        let mut nodes = BTreeMap::new();
        nodes.insert(Vec::new(), Node::Dir);
        Disk { nodes }
    }

    fn without_destination() -> Disk {
        Disk { nodes: BTreeMap::new() }
    }

    fn is_dir(&self, names: &[&str]) -> bool {
        self.nodes.get(&at(names)) == Some(&Node::Dir)
    }

    fn holds(&self, names: &[&str]) -> bool {
        self.nodes.contains_key(&at(names))
    }

    fn read(&self, names: &[&str]) -> Option<Vec<u8>> {
        match self.nodes.get(&at(names)) {
            Some(Node::File(bytes)) => Some(bytes.clone()),
            _ => None,
        }
    }

    fn write(&mut self, path: &[String], contents: &[u8]) -> Result<(), IoFailure> {
        if let Some((_, parent)) = path.split_last() {
            match self.nodes.get(parent) {
                Some(Node::Dir) => {}
                Some(Node::File(_)) => return failure(FailureKind::Other, "not a directory"),
                None => return failure(FailureKind::NotFound, "no such file or directory"),
            }
        }
        if self.nodes.get(path) == Some(&Node::Dir) {
            return failure(FailureKind::Other, "is a directory");
        }
        self.nodes.insert(path.to_vec(), Node::File(contents.to_vec()));
        Ok(())
    }

    fn create_dir_all(&mut self, path: &[String]) -> Result<(), IoFailure> {
        for length in 0..=path.len() {
            if let Some(Node::File(_)) = self.nodes.get(&path[..length]) {
                return failure(FailureKind::Other, "file exists");
            }
        }
        for length in 0..=path.len() {
            self.nodes.insert(path[..length].to_vec(), Node::Dir);
        }
        Ok(())
    }

    fn remove_file(&mut self, path: &[String]) -> Result<(), IoFailure> {
        match self.nodes.get(path) {
            None => failure(FailureKind::NotFound, "no such file or directory"),
            Some(Node::Dir) => failure(FailureKind::Other, "is a directory"),
            Some(Node::File(_)) => {
                self.nodes.remove(path);
                Ok(())
            }
        }
    }

    fn remove_dir_all(&mut self, path: &[String]) -> Result<(), IoFailure> {
        match self.nodes.get(path) {
            None => failure(FailureKind::NotFound, "no such file or directory"),
            Some(Node::File(_)) => failure(FailureKind::Other, "not a directory"),
            Some(Node::Dir) => {
                self.nodes.retain(|other, _| !other.starts_with(path));
                Ok(())
            }
        }
    }

    fn perform(&mut self, step: &Step) -> Result<(), IoFailure> {
        match step {
            Step::WriteFile { path, .. } => {
                self.write(&path.segments, step.payload().expect("a file has bytes to write"))
            }
            Step::CreateDir { path } => self.create_dir_all(&path.segments),
            Step::RemoveFile { path } => self.remove_file(&path.segments),
            Step::RemoveDir { path } => self.remove_dir_all(&path.segments),
        }
    }

    fn carry_out(&mut self, plan: Plan) -> Result<(), String> {
        let mut run = Run::new(plan);
        loop {
            let outcome = match run.directive() {
                Directive::Perform(step) => self.perform(step),
                Directive::Succeed => return Ok(()),
                Directive::Fail(error) => return Err(format!("{:?}", error)),
            };
            run.record(outcome);
        }
    }
}

fn file(name: &str, text: &str) -> Entry {
    Entry { key: Key::Text(name.to_string()), value: Tree::Scalar(text.to_string()) }
}

fn directory(name: &str, entries: Vec<Entry>) -> Entry {
    Entry { key: Key::Text(name.to_string()), value: Tree::Mapping(entries) }
}

fn example() -> Tree {
    Tree::Mapping(vec![file("a.txt", "hello"), directory("sub", vec![file("b.txt", "world")])])
}

fn request(action: Action) -> Cli {
    Cli { action, file: "Structfile.yml".to_string(), destination: ".".to_string() }
}

#[test]
fn create_then_destroy_leaves_the_destination_empty() {
    let mut disk = Disk::with_destination();
    let tree = example();

    disk.carry_out(request(Action::Create).plan(&tree)).unwrap();
    assert_eq!(disk.read(&["a.txt"]), Some(b"hello".to_vec()));
    assert!(disk.is_dir(&["sub"]));
    assert_eq!(disk.read(&["sub", "b.txt"]), Some(b"world".to_vec()));
    assert_eq!(disk.nodes.len(), 4);

    disk.carry_out(request(Action::Destroy).plan(&tree)).unwrap();
    assert!(!disk.holds(&["a.txt"]));
    assert!(!disk.holds(&["sub"]));
    assert!(!disk.holds(&["sub", "b.txt"]));
    assert!(disk.is_dir(&[]));
    assert_eq!(disk.nodes.len(), 1);
}

#[test]
fn destroy_twice_succeeds_the_second_time() {
    let mut disk = Disk::with_destination();
    let tree = example();
    disk.carry_out(request(Action::Create).plan(&tree)).unwrap();
    assert_eq!(disk.carry_out(request(Action::Destroy).plan(&tree)), Ok(()));
    assert_eq!(disk.carry_out(request(Action::Destroy).plan(&tree)), Ok(()));
    assert!(disk.is_dir(&[]));
    assert_eq!(disk.nodes.len(), 1);
}

#[test]
fn destroy_of_what_was_never_created_succeeds() {
    let mut disk = Disk::with_destination();
    assert_eq!(disk.carry_out(request(Action::Destroy).plan(&example())), Ok(()));
    assert_eq!(disk.nodes.len(), 1);
}

#[test]
fn create_writes_the_text_byte_for_byte() {
    let mut disk = Disk::with_destination();
    let text = "line one\nl\u{00ec}ne tw\u{00f6} \u{2713}\n\ttabbed  \n";
    let tree = Tree::Mapping(vec![file("notes.txt", text)]);
    disk.carry_out(request(Action::Create).plan(&tree)).unwrap();
    assert_eq!(disk.read(&["notes.txt"]), Some(text.as_bytes().to_vec()));
}

#[test]
fn create_overwrites_an_existing_file() {
    let mut disk = Disk::with_destination();
    disk.write(&at(&["a.txt"]), b"something much longer than before").unwrap();
    let tree = Tree::Mapping(vec![file("a.txt", "short")]);
    disk.carry_out(request(Action::Create).plan(&tree)).unwrap();
    assert_eq!(disk.read(&["a.txt"]), Some(b"short".to_vec()));
}

#[test]
fn create_makes_a_missing_destination() {
    let mut disk = Disk::without_destination();
    disk.carry_out(request(Action::Create).plan(&example())).unwrap();
    assert!(disk.is_dir(&[]));
    assert_eq!(disk.read(&["sub", "b.txt"]), Some(b"world".to_vec()));
}

#[test]
fn create_is_repeatable() {
    let mut disk = Disk::with_destination();
    disk.carry_out(request(Action::Create).plan(&example())).unwrap();
    assert_eq!(disk.carry_out(request(Action::Create).plan(&example())), Ok(()));
    assert_eq!(disk.nodes.len(), 4);
}

#[test]
fn destroy_removes_a_directory_with_unlisted_contents() {
    let mut disk = Disk::with_destination();
    disk.create_dir_all(&at(&["sub", "extra"])).unwrap();
    disk.write(&at(&["sub", "extra", "c.txt"]), b"unlisted").unwrap();
    disk.carry_out(request(Action::Destroy).plan(&example())).unwrap();
    assert!(!disk.holds(&["sub"]));
    assert!(!disk.holds(&["sub", "extra", "c.txt"]));
    assert!(disk.is_dir(&[]));
}

#[test]
fn destroy_of_a_scalar_root_touches_nothing() {
    let mut disk = Disk::with_destination();
    disk.write(&at(&["a.txt"]), b"kept").unwrap();
    let tree = Tree::Scalar("text".to_string());
    assert_eq!(disk.carry_out(request(Action::Destroy).plan(&tree)), Ok(()));
    assert_eq!(disk.read(&["a.txt"]), Some(b"kept".to_vec()));
}

#[test]
fn failed_operation_stops_the_run() {
    let mut disk = Disk::with_destination();
    disk.write(&at(&["sub"]), b"a file where a directory is wanted").unwrap();
    let tree = Tree::Mapping(vec![
        file("a.txt", "hello"),
        directory("sub", vec![file("b.txt", "world")]),
        file("z.txt", "never written"),
    ]);
    let ended = disk.carry_out(request(Action::Create).plan(&tree));
    assert!(ended.is_err());
    assert_eq!(disk.read(&["a.txt"]), Some(b"hello".to_vec()));
    assert!(!disk.holds(&["z.txt"]));
}

#[test]
fn destroy_stops_at_a_failure_other_than_absence() {
    let mut disk = Disk::with_destination();
    disk.create_dir_all(&at(&["a.txt"])).unwrap();
    disk.create_dir_all(&at(&["sub"])).unwrap();
    let ended = disk.carry_out(request(Action::Destroy).plan(&example()));
    assert!(ended.is_err());
    assert!(disk.is_dir(&["a.txt"]));
    assert!(disk.is_dir(&["sub"]));
}

#[test]
fn wrong_value_leaves_its_subtree_untouched() {
    let mut disk = Disk::with_destination();
    let tree = Tree::Mapping(vec![
        file("a.txt", "hello"),
        Entry { key: Key::Text("bad".to_string()), value: Tree::Other },
        file("z.txt", "never written"),
    ]);
    let plan = request(Action::Create).plan(&tree);
    assert_eq!(
        plan.fault,
        Some(Error::WrongValueType(EntryPath { segments: vec!["bad".to_string()] }))
    );
    assert!(disk.carry_out(plan).is_err());
    assert_eq!(disk.read(&["a.txt"]), Some(b"hello".to_vec()));
    assert!(!disk.holds(&["bad"]));
    assert!(!disk.holds(&["z.txt"]));
}

#[test]
fn invalid_key_stops_before_later_siblings() {
    let mut disk = Disk::with_destination();
    let tree = Tree::Mapping(vec![
        file("a.txt", "hello"),
        Entry { key: Key::Other, value: Tree::Scalar("unnamed".to_string()) },
        file("z.txt", "never written"),
    ]);
    assert!(disk.carry_out(request(Action::Create).plan(&tree)).is_err());
    assert_eq!(disk.read(&["a.txt"]), Some(b"hello".to_vec()));
    assert!(!disk.holds(&["z.txt"]));

    assert!(disk.carry_out(request(Action::Destroy).plan(&tree)).is_err());
    assert!(!disk.holds(&["a.txt"]));
    assert!(disk.is_dir(&[]));
}

#[test]
fn loaded_document_is_created() {
    let mut disk = Disk::with_destination();
    let tree = load_tree("a.txt: hello\nsub:\n  b.txt: world\n").unwrap();
    assert_eq!(tree, example());
    disk.carry_out(request(Action::Create).plan(&tree)).unwrap();
    assert_eq!(disk.read(&["sub", "b.txt"]), Some(b"world".to_vec()));
}
