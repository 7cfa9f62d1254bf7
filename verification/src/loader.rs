//! From the text of a document to its tree.

use vstd::prelude::*;
use yaml_rust::{ScanError, Yaml, YamlLoader};
use crate::errors::{IoFailure, IoFailureView};
use crate::tree::{Entry, Key, Tree, TreeView};

verus! {

/// `yaml_rust::Yaml`, a node of a parsed document; opaque here.
#[verifier::external_type_specification]
#[verifier::external_body]
pub struct ExYaml(yaml_rust::Yaml);

/// `yaml_rust::ScanError`, the error of a failed scan; opaque here, and
/// carried through to the caller as it is.
#[verifier::external_type_specification]
#[verifier::external_body]
pub struct ExScanError(yaml_rust::ScanError);

/// What `yaml_rust` reads from the text `source`: its documents, in order,
/// each as a tree, or `None` where the text is not YAML.
pub uninterp spec fn yaml_documents(source: Seq<char>) -> Option<Seq<TreeView>>;

/// The trees of a sequence as values.
pub open spec fn trees_view(trees: Seq<Tree>) -> Seq<TreeView> {
    Seq::new(trees.len(), |i: int| trees[i]@)
}

/// What reading the file of a document gave.
#[derive(Debug, PartialEq, Eq)]
pub enum FileRead<'a> {
    /// The file does not exist.
    Missing,
    /// The file is there, and reading it failed.
    Unreadable(IoFailure),
    /// The text of the file.
    Text(&'a str),
}

/// The mathematical value of a [`FileRead`].
pub enum FileReadView {
    Missing,
    Unreadable(IoFailureView),
    Text(Seq<char>),
}

impl<'a> View for FileRead<'a> {
    type V = FileReadView;

    open spec fn view(&self) -> FileReadView {
        match self {
            FileRead::Missing => FileReadView::Missing,
            FileRead::Unreadable(failure) => FileReadView::Unreadable(failure@),
            FileRead::Text(text) => FileReadView::Text(text@),
        }
    }
}

/// Why no tree could be loaded.
#[derive(Debug, PartialEq, Eq)]
pub enum LoadError {
    /// There is no file to load from.
    MissingFile,
    /// The file could not be read.
    Unreadable(IoFailure),
    /// The text is not YAML.
    Syntax(ScanError),
    /// The text holds no document.
    Empty,
}

/// The mathematical value of a [`LoadError`]; of a text that is not YAML it
/// says no more than that.
pub enum LoadErrorView {
    MissingFile,
    Unreadable(IoFailureView),
    Syntax,
    Empty,
}

impl View for LoadError {
    type V = LoadErrorView;

    open spec fn view(&self) -> LoadErrorView {
        match self {
            LoadError::MissingFile => LoadErrorView::MissingFile,
            LoadError::Unreadable(failure) => LoadErrorView::Unreadable(failure@),
            LoadError::Syntax(_) => LoadErrorView::Syntax,
            LoadError::Empty => LoadErrorView::Empty,
        }
    }
}

/// The library's tree for a YAML node: a string is a scalar, a hash is a
/// mapping with the entries of the hash in its order, a string key is a
/// name, and anything else is `Other`.
///
/// Trusted: tells the variants of `yaml_rust::Yaml` apart and hands the
/// entries of its hash over through `LinkedHashMap::into_iter`. Nothing is
/// claimed of the result here; `load_documents` names what it is used for.
#[verifier::external_body]
fn tree_of_yaml(node: Yaml) -> Tree {
    match node {
        Yaml::String(text) => Tree::Scalar(text),
        Yaml::Hash(hash) => Tree::Mapping(
            hash.into_iter().map(|(key, value)| Entry {
                key: match key {
                    Yaml::String(name) => Key::Text(name),
                    _ => Key::Other,
                },
                value: tree_of_yaml(value),
            }).collect(),
        ),
        _ => Tree::Other,
    }
}

/// Parses `source` as YAML.
///
/// Trusted: calls `yaml_rust::YamlLoader::load_from_str`, which scans and
/// parses the whole text and returns its documents, or the first error of
/// the scan. The contract gives that result the name `yaml_documents`,
/// each document taken as the library's tree for it, and so claims that
/// the result depends on `source` alone. The parser goes one call deeper
/// for each level of nesting: a text nested tens of thousands of levels
/// deep runs it out of stack.
#[verifier::external_body]
fn load_documents(source: &str) -> (loaded: Result<Vec<Tree>, ScanError>)
    ensures
        match loaded {
            Ok(documents) => yaml_documents(source@) == Some(trees_view(documents@)),
            Err(_) => yaml_documents(source@) is None,
        },
{
    match YamlLoader::load_from_str(source) {
        Ok(documents) => Ok(documents.into_iter().map(tree_of_yaml).collect()),
        Err(error) => Err(error),
    }
}

/// The tree that a text with these documents describes: the first of them.
pub open spec fn first_of(documents: Seq<TreeView>) -> Result<TreeView, LoadErrorView> {
    if documents.len() == 0 {
        Err(LoadErrorView::Empty)
    } else {
        Ok(documents[0])
    }
}

/// The tree that `source` describes.
pub open spec fn loaded_tree(source: Seq<char>) -> Result<TreeView, LoadErrorView> {
    match yaml_documents(source) {
        Some(documents) => first_of(documents),
        None => Err(LoadErrorView::Syntax),
    }
}

/// The outcome of a load as a value.
pub open spec fn load_view(loaded: Result<Tree, LoadError>) -> Result<TreeView, LoadErrorView> {
    match loaded {
        Ok(tree) => Ok(tree@),
        Err(error) => Err(error@),
    }
}

/// Picks the first of the documents of a text.
pub fn first_document(documents: Vec<Tree>) -> (first: Result<Tree, LoadError>)
    ensures
        load_view(first) == first_of(trees_view(documents@)),
{
    let mut documents = documents;
    if documents.len() == 0 {
        Err(LoadError::Empty)
    } else {
        Ok(documents.swap_remove(0))
    }
}

/// Loads the tree that the YAML text `source` describes.
pub fn load_tree(source: &str) -> (loaded: Result<Tree, LoadError>)
    ensures
        load_view(loaded) == loaded_tree(source@),
{
    match load_documents(source) {
        Ok(documents) => first_document(documents),
        Err(error) => Err(LoadError::Syntax(error)),
    }
}

} // verus!
