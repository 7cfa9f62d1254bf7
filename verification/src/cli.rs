//! What a run is asked to do.

use vstd::prelude::*;
use vstd::string::StringExecFns;
use crate::create::{create_entry, create_plan};
use crate::destroy::{destroy_entry, destroy_plan};
use crate::loader::{
    load_tree, load_view, loaded_tree, FileRead, FileReadView, LoadError, LoadErrorView,
};
use crate::path::EntryPath;
use crate::plan::{Plan, PlanView};
use crate::tree::{Tree, TreeView};

verus! {

/// Whether the file structure should be created or destroyed.
#[derive(Clone, Copy, Debug, PartialEq, Eq)]
pub enum Action {
    Create,
    Destroy,
}

/// The request of one run.
#[derive(Debug, PartialEq, Eq)]
pub struct Cli {
    /// Whether the file structure should be created or destroyed.
    pub action: Action,
    /// The path to the YAML file.
    pub file: String,
    /// Destination directory for the generated structure.
    pub destination: String,
}

/// What `action` takes for `tree`, from the destination root.
pub open spec fn planned(action: Action, tree: TreeView) -> PlanView {
    match action {
        Action::Create => create_plan(Seq::empty(), tree),
        Action::Destroy => destroy_plan(Seq::empty(), tree),
    }
}

/// The tree loaded from what reading the file gave: the tree that its text
/// describes, or the error for a file that is not there or cannot be read.
pub open spec fn loaded_from(read: FileReadView) -> Result<TreeView, LoadErrorView> {
    match read {
        FileReadView::Missing => Err(LoadErrorView::MissingFile),
        FileReadView::Unreadable(failure) => Err(LoadErrorView::Unreadable(failure)),
        FileReadView::Text(source) => loaded_tree(source),
    }
}

/// What the user is told of the destination: nothing where it is there,
/// else that it is yet to be made.
pub open spec fn destination_notice(destination: Seq<char>, present: bool) -> Option<Seq<char>> {
    if present {
        None
    } else {
        Some("Destination directory "@ + destination + " does not exist. Creating it now..."@)
    }
}

/// What the user is told where the load of `file` fails: that the file is
/// not there, that it cannot be read, that it is not YAML, or that it is
/// empty. Every failed load has its message, and every message names the
/// file.
pub open spec fn load_complaint(file: Seq<char>, error: LoadErrorView) -> Seq<char> {
    "File "@ + file + match error {
        LoadErrorView::MissingFile => " does not exist. "@,
        LoadErrorView::Unreadable(_) => " could not be read. "@,
        LoadErrorView::Syntax => " is not valid YAML. "@,
        LoadErrorView::Empty => " is empty. "@,
    } + "Try using the `-f` flag to specify a different file."@
}

/// An optional text as a value.
pub open spec fn text_view(text: Option<String>) -> Option<Seq<char>> {
    match text {
        Some(text) => Some(text@),
        None => None,
    }
}

impl Cli {
    /// The notice for the user where the destination directory does not
    /// exist; `present` says whether it does.
    pub fn assert_destination_exists(&self, present: bool) -> (notice: Option<String>)
        ensures
            text_view(notice) == destination_notice(self.destination@, present),
    {
        if present {
            None
        } else {
            Some(
                String::from_str("Destination directory ").concat(self.destination.as_str()).concat(
                    " does not exist. Creating it now...",
                ),
            )
        }
    }

    /// The message for the user where the load of the file has failed with
    /// `error`.
    pub fn load_complaint(&self, error: &LoadError) -> (message: String)
        ensures
            message@ == load_complaint(self.file@, error@),
    {
        let reason = match error {
            LoadError::MissingFile => " does not exist. ",
            LoadError::Unreadable(_) => " could not be read. ",
            LoadError::Syntax(_) => " is not valid YAML. ",
            LoadError::Empty => " is empty. ",
        };
        String::from_str("File ").concat(self.file.as_str()).concat(reason).concat(
            "Try using the `-f` flag to specify a different file.",
        )
    }

    /// Loads the tree from what reading the file gave.
    pub fn load_yaml(&self, read: FileRead<'_>) -> (loaded: Result<Tree, LoadError>)
        ensures
            load_view(loaded) == loaded_from(read@),
    {
        match read {
            FileRead::Missing => Err(LoadError::MissingFile),
            FileRead::Unreadable(failure) => Err(LoadError::Unreadable(failure)),
            FileRead::Text(source) => load_tree(source),
        }
    }

    /// Plans the run: the creation or the destruction of `tree` at the
    /// destination root.
    pub fn plan(&self, tree: &Tree) -> (plan: Plan)
        ensures
            plan@ == planned(self.action, tree@),
    {
        match self.action {
            Action::Create => create_entry(EntryPath::root(), tree),
            Action::Destroy => destroy_entry(EntryPath::root(), tree),
        }
    }
}

} // verus!
