//! A model of the directory tree under the destination, and what the
//! operations of a plan do to it.
//!
//! The model knows entries by their paths from the destination root and
//! takes every key as one name. It serves to state what a run leaves behind;
//! no operation of the library touches a disk.

use vstd::prelude::*;
use vstd::utf8::encode_utf8;
use crate::errors::{FailureKind, IoFailureView};
use crate::plan::{PlanView, StepView};
use crate::run::{conclusion, lemma_run_follows_plan, replay, settled, RunView};

verus! {

/// What the tree holds at one path.
pub enum Node {
    /// A file, with the bytes that it holds.
    File(Seq<u8>),
    /// A directory.
    Dir,
}

/// The entries under the destination, by path. The destination itself is
/// the entry at the empty path.
pub type Disk = Map<Seq<Seq<char>>, Node>;

/// Whether `path` is `root` or lies below it.
pub open spec fn within(path: Seq<Seq<char>>, root: Seq<Seq<char>>) -> bool {
    root.len() <= path.len() && path.take(root.len() as int) =~= root
}

/// Whether `disk` holds a directory at `path`.
pub open spec fn holds_dir(disk: Disk, path: Seq<Seq<char>>) -> bool {
    disk.dom().contains(path) && disk[path] is Dir
}

/// Whether `disk` holds a file at `path`.
pub open spec fn holds_file(disk: Disk, path: Seq<Seq<char>>) -> bool {
    disk.dom().contains(path) && disk[path] is File
}

/// Whether `disk` is a tree: every entry but the destination lies in a
/// directory.
pub open spec fn sound(disk: Disk) -> bool {
    forall|path: Seq<Seq<char>>| #[trigger]
        disk.dom().contains(path) && path.len() > 0 ==> holds_dir(disk, path.drop_last())
}

/// `disk` with directories at `path` and at every path above it.
pub open spec fn with_dirs(disk: Disk, path: Seq<Seq<char>>) -> Disk {
    Map::new(
        |other: Seq<Seq<char>>| disk.dom().contains(other) || within(path, other),
        |other: Seq<Seq<char>>|
            if within(path, other) {
                Node::Dir
            } else {
                disk[other]
            },
    )
}

/// `disk` without the entry at `path` and without whatever lies below it.
pub open spec fn without(disk: Disk, path: Seq<Seq<char>>) -> Disk {
    Map::new(
        |other: Seq<Seq<char>>| disk.dom().contains(other) && !within(other, path),
        |other: Seq<Seq<char>>| disk[other],
    )
}

/// What `step` does to `disk`: the tree after it, or why it fails.
///
/// A file is written, with its text in UTF-8, into a directory that is
/// there, and not over a directory. Directories are made down to the path unless a file is in
/// the way. A file is removed where there is a file, a directory with all
/// below it where there is a directory.
pub open spec fn effect(disk: Disk, step: StepView) -> Result<Disk, FailureKind> {
    match step {
        StepView::WriteFile { path, contents } => {
            if path.len() > 0 && !disk.dom().contains(path.drop_last()) {
                Err(FailureKind::NotFound)
            } else if path.len() > 0 && !holds_dir(disk, path.drop_last()) {
                Err(FailureKind::Other)
            } else if holds_dir(disk, path) {
                Err(FailureKind::Other)
            } else {
                Ok(disk.insert(path, Node::File(encode_utf8(contents))))
            }
        },
        StepView::CreateDir { path } => {
            if forall|length: int|
                0 <= length <= path.len() ==> !holds_file(disk, #[trigger] path.take(length)) {
                Ok(with_dirs(disk, path))
            } else {
                Err(FailureKind::Other)
            }
        },
        StepView::RemoveFile { path } => {
            if !disk.dom().contains(path) {
                Err(FailureKind::NotFound)
            } else if holds_dir(disk, path) {
                Err(FailureKind::Other)
            } else {
                Ok(disk.remove(path))
            }
        },
        StepView::RemoveDir { path } => {
            if !disk.dom().contains(path) {
                Err(FailureKind::NotFound)
            } else if holds_file(disk, path) {
                Err(FailureKind::Other)
            } else {
                Ok(without(disk, path))
            }
        },
    }
}

/// The tree after `step` where the run goes on past it: the effect of the
/// step, or the tree as it was where an entry to remove is not there.
/// `None` where the step fails the run.
pub open spec fn passed(disk: Disk, step: StepView) -> Option<Disk> {
    match effect(disk, step) {
        Ok(next) => Some(next),
        Err(kind) => if step.is_removal() && kind is NotFound {
            Some(disk)
        } else {
            None
        },
    }
}

/// The tree after all of `steps`, in order; `None` where one of them fails
/// the run.
pub open spec fn after(disk: Disk, steps: Seq<StepView>) -> Option<Disk>
    decreases steps.len(),
{
    if steps.len() == 0 {
        Some(disk)
    } else {
        match after(disk, steps.drop_last()) {
            Some(reached) => passed(reached, steps.last()),
            None => None,
        }
    }
}

/// Doing `first` and then `second` is doing their concatenation.
pub proof fn lemma_after_concat(disk: Disk, first: Seq<StepView>, second: Seq<StepView>)
    ensures
        after(disk, first + second) == match after(disk, first) {
            Some(reached) => after(reached, second),
            None => None,
        },
    decreases second.len(),
{
    if second.len() > 0 {
        assert((first + second).drop_last() =~= first + second.drop_last());
        lemma_after_concat(disk, first, second.drop_last());
    }
}

/// Doing one step is letting it pass.
pub proof fn lemma_after_one(disk: Disk, step: StepView)
    ensures
        after(disk, seq![step]) == passed(disk, step),
{
    assert(after(disk, seq![step].drop_last()) == Some(disk));
}

/// In a tree, whatever lies above an entry is a directory.
pub proof fn lemma_above_are_dirs(disk: Disk, path: Seq<Seq<char>>, above: Seq<Seq<char>>)
    requires
        sound(disk),
        disk.dom().contains(path),
        within(path, above),
        above != path,
    ensures
        holds_dir(disk, above),
    decreases path.len(),
{
    assert(path.len() > above.len()) by {
        if path.len() == above.len() {
            assert(path.take(above.len() as int) =~= path);
        }
    }
    let parent = path.drop_last();
    if parent != above {
        assert(within(parent, above));
        lemma_above_are_dirs(disk, parent, above);
    }
}

/// Where all of `steps` pass, so do the first `count` of them.
pub proof fn lemma_after_take(disk: Disk, steps: Seq<StepView>, count: int)
    requires
        after(disk, steps) is Some,
        0 <= count <= steps.len(),
    ensures
        after(disk, steps.take(count)) is Some,
        count < steps.len() ==> passed(after(disk, steps.take(count))->Some_0, steps[count])
            == after(disk, steps.take(count + 1)),
    decreases steps.len() - count,
{
    if count == steps.len() {
        assert(steps.take(count) =~= steps);
    } else {
        lemma_after_take(disk, steps, count + 1);
        assert(steps.take(count + 1).drop_last() =~= steps.take(count));
    }
}

/// What a step removes is gone once all the steps have passed, whether the
/// step found it or not.
pub proof fn lemma_removed_is_gone(disk: Disk, steps: Seq<StepView>, index: int)
    requires
        forall|i: int| 0 <= i < steps.len() ==> (#[trigger] steps[i]).is_removal(),
        after(disk, steps) is Some,
        0 <= index < steps.len(),
    ensures
        !after(disk, steps)->Some_0.dom().contains(steps[index].target()),
    decreases steps.len(),
{
    if index < steps.len() - 1 {
        lemma_removed_is_gone(disk, steps.drop_last(), index);
    }
}

/// Steps that remove what is not there all pass and change nothing.
pub proof fn lemma_nothing_to_remove(disk: Disk, steps: Seq<StepView>)
    requires
        forall|i: int|
            0 <= i < steps.len() ==> (#[trigger] steps[i]).is_removal() && !disk.dom().contains(
                steps[i].target(),
            ),
    ensures
        after(disk, steps) == Some(disk),
    decreases steps.len(),
{
    if steps.len() > 0 {
        lemma_nothing_to_remove(disk, steps.drop_last());
    }
}

/// Whether `outcome` is what the model says of `step` on `disk`: success
/// where the step has an effect, else a failure of the kind that the model
/// gives.
pub open spec fn told(disk: Disk, step: StepView, outcome: Result<(), IoFailureView>) -> bool {
    match effect(disk, step) {
        Ok(_) => outcome is Ok,
        Err(kind) => outcome matches Err(failure) && failure.kind == kind,
    }
}

/// A run that is told, step by step, what the model says, and whose steps
/// all pass in the model, asks for every step of its plan and ends as the
/// plan says.
pub proof fn lemma_run_on_disk(
    disk: Disk,
    plan: PlanView,
    outcomes: Seq<Result<(), IoFailureView>>,
)
    requires
        after(disk, plan.steps) is Some,
        outcomes.len() == plan.steps.len(),
        forall|i: int|
            0 <= i < plan.steps.len() ==> told(
                after(disk, plan.steps.take(i))->Some_0,
                plan.steps[i],
                #[trigger] outcomes[i],
            ),
    ensures
        replay(RunView::start(plan), outcomes).directive() == conclusion(plan),
{
    assert forall|i: int| 0 <= i < outcomes.len() implies settled(
        plan.steps[i],
        #[trigger] outcomes[i],
    ) is Ok by {
        lemma_after_take(disk, plan.steps, i);
        lemma_after_take(disk, plan.steps, i + 1);
    }
    lemma_run_follows_plan(plan, outcomes);
}

} // verus!
