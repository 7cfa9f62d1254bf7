use structfile::cli::{Action, Cli};
use structfile::create::create_entry;
use structfile::destroy::destroy_entry;
use structfile::errors::{Error, FailureKind, IoFailure};
use structfile::loader::{first_document, load_tree, FileRead, LoadError};
use structfile::path::EntryPath;
use structfile::tree::{Entry, Key, Tree};

fn text(name: &str, contents: &str) -> Entry {
    Entry { key: Key::Text(name.to_string()), value: Tree::Scalar(contents.to_string()) }
}

fn cli(action: Action) -> Cli {
    Cli { action, file: "Structfile.yml".to_string(), destination: ".".to_string() }
}

#[test]
fn load_reads_mappings_and_strings() {
    let tree = load_tree("a.txt: hello\nsub:\n  b.txt: world\n").unwrap();
    assert_eq!(
        tree,
        Tree::Mapping(vec![
            text("a.txt", "hello"),
            Entry {
                key: Key::Text("sub".to_string()),
                value: Tree::Mapping(vec![text("b.txt", "world")]),
            },
        ])
    );
}

#[test]
fn load_keeps_the_order_of_the_document() {
    let tree = load_tree("zeta: '1'\nalpha: '2'\nmid: '3'\n").unwrap();
    assert_eq!(tree, Tree::Mapping(vec![text("zeta", "1"), text("alpha", "2"), text("mid", "3")]));
}

#[test]
fn load_keeps_the_text_of_a_block_scalar() {
    let tree = load_tree("notes.txt: |\n  line one\n  line two\n").unwrap();
    assert_eq!(tree, Tree::Mapping(vec![text("notes.txt", "line one\nline two\n")]));
}

#[test]
fn load_of_a_string_document_is_a_scalar() {
    assert_eq!(load_tree("just text").unwrap(), Tree::Scalar("just text".to_string()));
}

#[test]
fn load_takes_numbers_lists_booleans_and_nulls_as_other() {
    let tree = load_tree("n: 12\nr: 1.5\nl: [a, b]\nb: true\nz: ~\ns: '12'\n").unwrap();
    assert_eq!(
        tree,
        Tree::Mapping(vec![
            Entry { key: Key::Text("n".to_string()), value: Tree::Other },
            Entry { key: Key::Text("r".to_string()), value: Tree::Other },
            Entry { key: Key::Text("l".to_string()), value: Tree::Other },
            Entry { key: Key::Text("b".to_string()), value: Tree::Other },
            Entry { key: Key::Text("z".to_string()), value: Tree::Other },
            text("s", "12"),
        ])
    );
    assert_eq!(load_tree("[1, 2, 3]").unwrap(), Tree::Other);
    assert_eq!(load_tree("42").unwrap(), Tree::Other);
}

#[test]
fn load_marks_keys_that_are_no_strings() {
    let tree = load_tree("a: x\n1: y\n").unwrap();
    assert_eq!(
        tree,
        Tree::Mapping(vec![
            text("a", "x"),
            Entry { key: Key::Other, value: Tree::Scalar("y".to_string()) },
        ])
    );
}

#[test]
fn load_takes_the_first_of_several_documents() {
    let tree = load_tree("first: one\n---\nsecond: two\n").unwrap();
    assert_eq!(tree, Tree::Mapping(vec![text("first", "one")]));
}

#[test]
fn load_of_no_document_is_empty() {
    assert_eq!(load_tree(""), Err(LoadError::Empty));
    assert_eq!(load_tree("# only a comment\n"), Err(LoadError::Empty));
}

#[test]
fn load_of_broken_yaml_is_a_syntax_error() {
    match load_tree("a: [unclosed\n") {
        Err(LoadError::Syntax(_)) => {}
        other => panic!("unexpected {:?}", other),
    }
    match load_tree("a: 'unclosed\n") {
        Err(LoadError::Syntax(_)) => {}
        other => panic!("unexpected {:?}", other),
    }
}

#[test]
fn first_document_of_none_is_empty() {
    assert_eq!(first_document(vec![]), Err(LoadError::Empty));
}

#[test]
fn first_document_is_the_first() {
    let documents = vec![Tree::Scalar("one".to_string()), Tree::Other, Tree::Mapping(vec![])];
    assert_eq!(first_document(documents), Ok(Tree::Scalar("one".to_string())));
    assert_eq!(first_document(vec![Tree::Other]), Ok(Tree::Other));
}

#[test]
fn load_yaml_without_a_file_is_missing() {
    assert_eq!(cli(Action::Create).load_yaml(FileRead::Missing), Err(LoadError::MissingFile));
    assert_eq!(cli(Action::Destroy).load_yaml(FileRead::Missing), Err(LoadError::MissingFile));
}

#[test]
fn load_yaml_of_a_file_that_cannot_be_read_is_unreadable() {
    let failure = IoFailure { kind: FailureKind::Other, message: "is a directory".to_string() };
    let same = IoFailure { kind: FailureKind::Other, message: "is a directory".to_string() };
    assert_eq!(
        cli(Action::Create).load_yaml(FileRead::Unreadable(failure)),
        Err(LoadError::Unreadable(same))
    );
}

#[test]
fn load_yaml_loads_what_the_file_holds() {
    let loaded = cli(Action::Create).load_yaml(FileRead::Text("a.txt: hello\n"));
    assert_eq!(loaded, Ok(Tree::Mapping(vec![text("a.txt", "hello")])));
    assert_eq!(cli(Action::Create).load_yaml(FileRead::Text("")), Err(LoadError::Empty));
}

#[test]
fn load_yaml_of_broken_yaml_is_a_syntax_error() {
    match cli(Action::Create).load_yaml(FileRead::Text("a: [unclosed\n")) {
        Err(LoadError::Syntax(_)) => {}
        other => panic!("unexpected {:?}", other),
    }
}

#[test]
fn plan_follows_the_action() {
    let tree = Tree::Mapping(vec![text("a.txt", "hello")]);
    assert_eq!(cli(Action::Create).plan(&tree), create_entry(EntryPath::root(), &tree));
    assert_eq!(cli(Action::Destroy).plan(&tree), destroy_entry(EntryPath::root(), &tree));
    assert_ne!(cli(Action::Create).plan(&tree), cli(Action::Destroy).plan(&tree));
}

#[test]
fn plan_of_a_loaded_list_fails_for_create_and_does_nothing_for_destroy() {
    let tree = load_tree("- a\n- b\n").unwrap();
    let create = cli(Action::Create).plan(&tree);
    assert_eq!(create.steps, vec![]);
    assert_eq!(create.fault, Some(Error::WrongValueType(EntryPath::root())));
    let destroy = cli(Action::Destroy).plan(&tree);
    assert_eq!(destroy.steps, vec![]);
    assert_eq!(destroy.fault, None);
}
