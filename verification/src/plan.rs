//! Filesystem operations, and the plans made of them.

use vstd::prelude::*;
use vstd::string::StringExecFns;
use vstd::utf8::encode_utf8;
use crate::errors::{Error, ErrorView};
use crate::path::EntryPath;

verus! {

/// One filesystem operation, on an entry below the destination root.
#[derive(Debug, PartialEq, Eq)]
pub enum Step {
    /// Write `contents` to the file at `path`, creating the file or
    /// replacing what it held.
    WriteFile { path: EntryPath, contents: String },
    /// Create the directory at `path` and every missing directory above it;
    /// a directory that is already there is left as it is.
    CreateDir { path: EntryPath },
    /// Remove the file at `path`.
    RemoveFile { path: EntryPath },
    /// Remove the directory at `path` with everything in it.
    RemoveDir { path: EntryPath },
}

/// The mathematical value of a [`Step`].
pub enum StepView {
    WriteFile { path: Seq<Seq<char>>, contents: Seq<char> },
    CreateDir { path: Seq<Seq<char>> },
    RemoveFile { path: Seq<Seq<char>> },
    RemoveDir { path: Seq<Seq<char>> },
}

impl StepView {
    /// The entry that the step operates on.
    pub open spec fn target(self) -> Seq<Seq<char>> {
        match self {
            StepView::WriteFile { path, .. } => path,
            StepView::CreateDir { path } => path,
            StepView::RemoveFile { path } => path,
            StepView::RemoveDir { path } => path,
        }
    }

    /// Whether the step removes an entry.
    pub open spec fn is_removal(self) -> bool {
        self is RemoveFile || self is RemoveDir
    }

    /// What the user is told before the step is performed; `located` is
    /// where on the disk the entry is.
    pub open spec fn announcement(self, located: Seq<char>) -> Seq<char> {
        match self {
            StepView::WriteFile { contents, .. } => "Creating file "@ + located
                + " with contents "@ + contents,
            StepView::CreateDir { .. } => "Creating directory "@ + located,
            StepView::RemoveFile { .. } => "Removing file "@ + located,
            StepView::RemoveDir { .. } => "Removing directory "@ + located,
        }
    }

    /// The bytes that the step writes, where it writes a file: its contents
    /// in UTF-8.
    pub open spec fn payload(self) -> Option<Seq<u8>> {
        match self {
            StepView::WriteFile { contents, .. } => Some(encode_utf8(contents)),
            _ => None,
        }
    }
}

/// Optional bytes as a value.
pub open spec fn bytes_view(bytes: Option<&[u8]>) -> Option<Seq<u8>> {
    match bytes {
        Some(bytes) => Some(bytes@),
        None => None,
    }
}

impl View for Step {
    type V = StepView;

    open spec fn view(&self) -> StepView {
        match self {
            Step::WriteFile { path, contents } => StepView::WriteFile {
                path: path@,
                contents: contents@,
            },
            Step::CreateDir { path } => StepView::CreateDir { path: path@ },
            Step::RemoveFile { path } => StepView::RemoveFile { path: path@ },
            Step::RemoveDir { path } => StepView::RemoveDir { path: path@ },
        }
    }
}

impl Step {
    /// The entry that the step operates on.
    pub fn target(&self) -> (path: &EntryPath)
        ensures
            path@ == self@.target(),
    {
        match self {
            Step::WriteFile { path, .. } => path,
            Step::CreateDir { path } => path,
            Step::RemoveFile { path } => path,
            Step::RemoveDir { path } => path,
        }
    }

    /// The line that tells the user what the step is about to do; `located`
    /// is where on the disk the entry is.
    pub fn announcement(&self, located: &str) -> (line: String)
        ensures
            line@ == self@.announcement(located@),
    {
        match self {
            Step::WriteFile { contents, .. } => String::from_str("Creating file ").concat(
                located,
            ).concat(" with contents ").concat(contents.as_str()),
            Step::CreateDir { .. } => String::from_str("Creating directory ").concat(located),
            Step::RemoveFile { .. } => String::from_str("Removing file ").concat(located),
            Step::RemoveDir { .. } => String::from_str("Removing directory ").concat(located),
        }
    }

    /// The bytes to write, where the step writes a file: its contents in
    /// UTF-8.
    pub fn payload(&self) -> (bytes: Option<&[u8]>)
        ensures
            bytes_view(bytes) == self@.payload(),
    {
        match self {
            Step::WriteFile { contents, .. } => Some(contents.as_str().as_bytes()),
            _ => None,
        }
    }

    /// Whether the step removes an entry.
    pub fn is_removal(&self) -> (removal: bool)
        ensures
            removal == self@.is_removal(),
    {
        match self {
            Step::RemoveFile { .. } => true,
            Step::RemoveDir { .. } => true,
            _ => false,
        }
    }
}

/// The steps of a sequence as values.
pub open spec fn steps_view(steps: Seq<Step>) -> Seq<StepView> {
    Seq::new(steps.len(), |i: int| steps[i]@)
}

/// An optional error as a value.
pub open spec fn fault_view(fault: Option<Error>) -> Option<ErrorView> {
    match fault {
        Some(error) => Some(error@),
        None => None,
    }
}

/// What a run is to do: the steps to perform, in order, and the error to
/// report once they are all done, if the document calls for one.
#[derive(Debug, PartialEq, Eq)]
pub struct Plan {
    pub steps: Vec<Step>,
    pub fault: Option<Error>,
}

/// The mathematical value of a [`Plan`].
pub struct PlanView {
    pub steps: Seq<StepView>,
    pub fault: Option<ErrorView>,
}

impl PlanView {
    /// The plan that does nothing and reports no error.
    pub open spec fn empty() -> PlanView {
        PlanView { steps: Seq::empty(), fault: None }
    }

    /// The plan of one step.
    pub open spec fn only(step: StepView) -> PlanView {
        PlanView { steps: seq![step], fault: None }
    }

    /// The plan that does nothing and reports `error`.
    pub open spec fn failed(error: ErrorView) -> PlanView {
        PlanView { steps: Seq::empty(), fault: Some(error) }
    }

    /// This plan, followed by `next` unless this plan ends in an error:
    /// nothing is planned past an error.
    pub open spec fn followed_by(self, next: PlanView) -> PlanView {
        if self.fault is Some {
            self
        } else {
            PlanView { steps: self.steps + next.steps, fault: next.fault }
        }
    }
}

impl View for Plan {
    type V = PlanView;

    open spec fn view(&self) -> PlanView {
        PlanView { steps: steps_view(self.steps@), fault: fault_view(self.fault) }
    }
}

} // verus!
