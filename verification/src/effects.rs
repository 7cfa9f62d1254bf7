//! What the plans of a document leave behind in the model of the disk.

use vstd::prelude::*;
use vstd::utf8::encode_utf8;
use crate::create::{create_entries, create_plan};
use crate::destroy::{
    destroy_entries, destroy_plan, lemma_destroy_removes_children_only, lemma_entries_removable,
    removal,
};
use crate::disk::{
    after, effect, holds_dir, holds_file, lemma_above_are_dirs, lemma_after_concat,
    lemma_after_one, lemma_nothing_to_remove, lemma_removed_is_gone, lemma_run_on_disk, sound,
    told, with_dirs, within, without, Disk, Node,
};
use crate::errors::{ErrorView, FailureKind, IoFailureView};
use crate::plan::{PlanView, StepView};
use crate::run::{replay, DirectiveView, RunView};
use crate::tree::{EntryView, KeyView, TreeView};

verus! {

/// Whether `node` is what creating `tree` makes: a file for a scalar, a
/// directory for a mapping.
pub open spec fn kind_matches(node: Node, tree: TreeView) -> bool {
    match tree {
        TreeView::Scalar(_) => node is File,
        TreeView::Mapping(_) => node is Dir,
        TreeView::Other => false,
    }
}

/// Whether `built` holds what creating `entry` under `path` makes.
pub open spec fn entry_built(built: Disk, path: Seq<Seq<char>>, entry: EntryView) -> bool {
    &&& entry.key matches KeyView::Text(name)
    &&& built.dom().contains(path.push(name))
    &&& kind_matches(built[path.push(name)], entry.value)
}

/// Whether `later` holds, at and below every path that is not within `root`,
/// what `earlier` holds there, and nothing more but directories above
/// `root`.
pub open spec fn kept_outside(earlier: Disk, later: Disk, root: Seq<Seq<char>>) -> bool {
    forall|path: Seq<Seq<char>>|
        !#[trigger] within(path, root) ==> {
            &&& earlier.dom().contains(path) ==> later.dom().contains(path) && later[path]
                == earlier[path]
            &&& later.dom().contains(path) ==> earlier.dom().contains(path) || (within(root, path)
                && later[path] is Dir)
        }
}

/// Whether the two trees hold the same at every path that is not within
/// `root`.
pub open spec fn same_outside(earlier: Disk, later: Disk, root: Seq<Seq<char>>) -> bool {
    forall|path: Seq<Seq<char>>|
        !#[trigger] within(path, root) ==> {
            &&& earlier.dom().contains(path) <==> later.dom().contains(path)
            &&& earlier.dom().contains(path) ==> later[path] == earlier[path]
        }
}

/// Making directories down to `path` keeps a tree a tree, and changes
/// nothing but what lies above `path`.
proof fn lemma_with_dirs(disk: Disk, path: Seq<Seq<char>>)
    requires
        sound(disk),
        effect(disk, StepView::CreateDir { path }) is Ok,
    ensures
        sound(with_dirs(disk, path)),
        holds_dir(with_dirs(disk, path), path),
        kept_outside(disk, with_dirs(disk, path), path),
{
}

/// Writing a file into a tree keeps it a tree, and changes nothing but the
/// file.
proof fn lemma_with_file(disk: Disk, path: Seq<Seq<char>>, contents: Seq<char>)
    requires
        sound(disk),
        effect(disk, StepView::WriteFile { path, contents }) is Ok,
    ensures
        sound(disk.insert(path, Node::File(encode_utf8(contents)))),
        kept_outside(disk, disk.insert(path, Node::File(encode_utf8(contents))), path),
{
}

/// Creating a tree in the model: where every step passes, the result is
/// again a tree; outside `path` nothing changes but for directories made
/// above it; and where the plan holds no error, `path` holds a file with
/// the scalar's text in UTF-8, byte for byte, or the mapping's directory.
pub proof fn lemma_create_builds(disk: Disk, path: Seq<Seq<char>>, tree: TreeView)
    requires
        sound(disk),
        after(disk, create_plan(path, tree).steps) is Some,
    ensures
        ({
            let built = after(disk, create_plan(path, tree).steps)->Some_0;
            &&& sound(built)
            &&& kept_outside(disk, built, path)
            &&& create_plan(path, tree).fault is None ==> built.dom().contains(path)
                && kind_matches(built[path], tree)
            &&& tree matches TreeView::Scalar(text) ==> built.dom().contains(path) && built[path]
                == Node::File(encode_utf8(text))
        }),
    decreases tree, 0nat,
{
    match tree {
        TreeView::Scalar(text) => {
            let step = StepView::WriteFile { path, contents: text };
            lemma_after_one(disk, step);
            lemma_with_file(disk, path, text);
        },
        TreeView::Mapping(entries) => {
            let step = StepView::CreateDir { path };
            let inner = create_entries(path, entries, entries.len());
            lemma_after_concat(disk, seq![step], inner.steps);
            lemma_after_one(disk, step);
            lemma_with_dirs(disk, path);
            lemma_create_entries_builds(with_dirs(disk, path), path, entries, entries.len());
        },
        TreeView::Other => {},
    }
}

/// Creating the first `count` entries of a mapping in the model, in a tree
/// that holds the mapping's directory: where every step passes, the result
/// is again a tree with that directory; nothing changes outside it; and
/// where the entries hold no error, each has its file or its directory.
pub proof fn lemma_create_entries_builds(
    disk: Disk,
    path: Seq<Seq<char>>,
    entries: Seq<EntryView>,
    count: nat,
)
    requires
        sound(disk),
        holds_dir(disk, path),
        count <= entries.len(),
        after(disk, create_entries(path, entries, count).steps) is Some,
    ensures
        ({
            let built = after(disk, create_entries(path, entries, count).steps)->Some_0;
            &&& sound(built)
            &&& holds_dir(built, path)
            &&& same_outside(disk, built, path)
            &&& create_entries(path, entries, count).fault is None ==> forall|i: int|
                0 <= i < count ==> entry_built(built, path, #[trigger] entries[i])
        }),
    decreases entries, count,
{
    if count > 0 {
        let entry = entries[count - 1];
        let before = create_entries(path, entries, (count - 1) as nat);
        if before.fault is Some {
            lemma_create_entries_builds(disk, path, entries, (count - 1) as nat);
        } else {
            let child = match entry.key {
                KeyView::Text(name) => create_plan(path.push(name), entry.value),
                KeyView::Other => PlanView::failed(ErrorView::InvalidKey(path)),
            };
            lemma_after_concat(disk, before.steps, child.steps);
            lemma_create_entries_builds(disk, path, entries, (count - 1) as nat);
            let mid = after(disk, before.steps)->Some_0;
            match entry.key {
                KeyView::Text(name) => {
                    let place = path.push(name);
                    lemma_create_builds(mid, place, entry.value);
                    let built = after(mid, child.steps)->Some_0;
                    assert(!within(path, place));
                    assert forall|other: Seq<Seq<char>>| !#[trigger] within(
                        other,
                        path,
                    ) implies {
                        &&& disk.dom().contains(other) <==> built.dom().contains(other)
                        &&& disk.dom().contains(other) ==> built[other] == disk[other]
                    } by {
                        assert(!within(other, place)) by {
                            if within(other, place) {
                                assert(other.take(path.len() as int) =~= place.take(
                                    path.len() as int,
                                ));
                            }
                        }
                        if built.dom().contains(other) && !mid.dom().contains(other) {
                            assert(other.len() <= path.len());
                            assert(other != path);
                            lemma_above_are_dirs(mid, path, other);
                        }
                    }
                    if create_entries(path, entries, count).fault is None {
                        assert forall|i: int| 0 <= i < count implies entry_built(
                            built,
                            path,
                            #[trigger] entries[i],
                        ) by {
                            if i < count - 1 {
                                lemma_earlier_entry_stays(mid, path, entries[i], entry, name);
                            }
                        }
                    }
                },
                KeyView::Other => {},
            }
        }
    }
}

/// An entry that was built stays built when a later entry of the same
/// mapping is created: a sibling of another name is out of the way, and one
/// of the same name is created only where it is of the same kind.
proof fn lemma_earlier_entry_stays(
    mid: Disk,
    path: Seq<Seq<char>>,
    earlier: EntryView,
    entry: EntryView,
    name: Seq<char>,
)
    requires
        sound(mid),
        entry_built(mid, path, earlier),
        entry.key == KeyView::Text(name),
        create_plan(path.push(name), entry.value).fault is None,
        after(mid, create_plan(path.push(name), entry.value).steps) is Some,
        ({
            let built = after(mid, create_plan(path.push(name), entry.value).steps)->Some_0;
            &&& kept_outside(mid, built, path.push(name))
            &&& built.dom().contains(path.push(name))
            &&& kind_matches(built[path.push(name)], entry.value)
        }),
    ensures
        entry_built(
            after(mid, create_plan(path.push(name), entry.value).steps)->Some_0,
            path,
            earlier,
        ),
{
    let place = path.push(name);
    let earlier_name = earlier.key->Text_0;
    let earlier_place = path.push(earlier_name);
    if earlier_name == name {
        match entry.value {
            TreeView::Scalar(text) => {
                lemma_after_one(mid, StepView::WriteFile { path: place, contents: text });
            },
            TreeView::Mapping(entries) => {
                let step = StepView::CreateDir { path: place };
                let inner = create_entries(place, entries, entries.len());
                lemma_after_concat(mid, seq![step], inner.steps);
                lemma_after_one(mid, step);
                assert(place.take(place.len() as int) =~= place);
            },
            TreeView::Other => {},
        }
    } else {
        assert(!within(earlier_place, place)) by {
            if within(earlier_place, place) {
                assert(place[path.len() as int] == name);
            }
        }
    }
}

/// `disk` without the first `count` entries of the mapping at `path`, and
/// without whatever lies below them.
pub open spec fn cleared(
    disk: Disk,
    path: Seq<Seq<char>>,
    entries: Seq<EntryView>,
    count: nat,
) -> Disk
    decreases count,
{
    if count == 0 || count > entries.len() {
        disk
    } else {
        match entries[count - 1].key {
            KeyView::Text(name) => without(
                cleared(disk, path, entries, (count - 1) as nat),
                path.push(name),
            ),
            KeyView::Other => cleared(disk, path, entries, (count - 1) as nat),
        }
    }
}

/// Clearing entries away takes out what lies within them, and only that.
pub proof fn lemma_cleared_holds(
    disk: Disk,
    path: Seq<Seq<char>>,
    entries: Seq<EntryView>,
    count: nat,
    other: Seq<Seq<char>>,
)
    requires
        count <= entries.len(),
    ensures
        cleared(disk, path, entries, count).dom().contains(other) <==> disk.dom().contains(other)
            && forall|i: int|
            0 <= i < count && (#[trigger] entries[i]).key is Text ==> !within(
                other,
                path.push(entries[i].key->Text_0),
            ),
        cleared(disk, path, entries, count).dom().contains(other) ==> cleared(
            disk,
            path,
            entries,
            count,
        )[other] == disk[other],
    decreases count,
{
    if count > 0 {
        lemma_cleared_holds(disk, path, entries, (count - 1) as nat, other);
    }
}

/// Taking a whole entry out of a tree leaves a tree.
proof fn lemma_without_is_sound(disk: Disk, path: Seq<Seq<char>>)
    requires
        sound(disk),
    ensures
        sound(without(disk, path)),
{
}

/// In a tree, an entry that is a file or is not there has nothing below
/// it: taking it out with all below it is taking out the entry alone.
proof fn lemma_nothing_below(disk: Disk, path: Seq<Seq<char>>)
    requires
        sound(disk),
        !holds_dir(disk, path),
    ensures
        without(disk, path) == disk.remove(path),
{
    assert forall|other: Seq<Seq<char>>|
        disk.dom().contains(other) && other != path implies !within(other, path) by {
        if within(other, path) {
            lemma_above_are_dirs(disk, other, path);
        }
    }
}

/// Removing the first `count` entries of a mapping from a tree, in the
/// model: where the entries hold no error and every step passes, what is
/// left is the tree without those entries, and is a tree.
pub proof fn lemma_destroy_clears(
    disk: Disk,
    path: Seq<Seq<char>>,
    entries: Seq<EntryView>,
    count: nat,
)
    requires
        sound(disk),
        count <= entries.len(),
        destroy_entries(path, entries, count).fault is None,
        after(disk, destroy_entries(path, entries, count).steps) is Some,
    ensures
        after(disk, destroy_entries(path, entries, count).steps) == Some(
            cleared(disk, path, entries, count),
        ),
        sound(cleared(disk, path, entries, count)),
    decreases count,
{
    if count > 0 {
        let entry = entries[count - 1];
        let before = destroy_entries(path, entries, (count - 1) as nat);
        let step = removal(path, entry);
        let place = path.push(entry.key->Text_0);
        lemma_after_concat(disk, before.steps, step.steps);
        lemma_destroy_clears(disk, path, entries, (count - 1) as nat);
        let mid = cleared(disk, path, entries, (count - 1) as nat);
        lemma_after_one(mid, step.steps[0]);
        lemma_without_is_sound(mid, place);
        if !holds_dir(mid, place) {
            lemma_nothing_below(mid, place);
        }
    }
}

/// Removing, from a tree in which each of them is of the kind that the
/// document gives it or is not there, the first `count` entries of a
/// mapping: every step passes.
pub proof fn lemma_destroy_passes(
    disk: Disk,
    path: Seq<Seq<char>>,
    entries: Seq<EntryView>,
    count: nat,
)
    requires
        sound(disk),
        count <= entries.len(),
        forall|i: int|
            0 <= i < count ==> {
                &&& (#[trigger] entries[i]).key is Text
                &&& !(entries[i].value is Other)
                &&& disk.dom().contains(path.push(entries[i].key->Text_0)) ==> kind_matches(
                    disk[path.push(entries[i].key->Text_0)],
                    entries[i].value,
                )
            },
    ensures
        destroy_entries(path, entries, count).fault is None,
        after(disk, destroy_entries(path, entries, count).steps) is Some,
    decreases count,
{
    if count > 0 {
        let entry = entries[count - 1];
        let before = destroy_entries(path, entries, (count - 1) as nat);
        let step = removal(path, entry);
        let place = path.push(entry.key->Text_0);
        lemma_destroy_passes(disk, path, entries, (count - 1) as nat);
        lemma_destroy_clears(disk, path, entries, (count - 1) as nat);
        let mid = cleared(disk, path, entries, (count - 1) as nat);
        lemma_after_concat(disk, before.steps, step.steps);
        lemma_after_one(mid, step.steps[0]);
        lemma_cleared_holds(disk, path, entries, (count - 1) as nat, place);
    }
}

/// Destroying a mapping, in the model: where the plan holds no error and
/// every step passes, nothing is left of any entry of the mapping, nor of
/// whatever lay below one, and every other entry of the tree, the
/// mapping's own directory among them, is as it was.
pub proof fn theorem_destroy_leaves_nothing(disk: Disk, path: Seq<Seq<char>>, tree: TreeView)
    requires
        sound(disk),
        tree is Mapping,
        destroy_plan(path, tree).fault is None,
        after(disk, destroy_plan(path, tree).steps) is Some,
    ensures
        ({
            let entries = tree->Mapping_0;
            let left = after(disk, destroy_plan(path, tree).steps)->Some_0;
            &&& sound(left)
            &&& forall|i: int| 0 <= i < entries.len() ==> (#[trigger] entries[i]).key is Text
            &&& forall|i: int, other: Seq<Seq<char>>|
                0 <= i < entries.len() && #[trigger] within(
                    other,
                    path.push((#[trigger] entries[i]).key->Text_0),
                ) ==> !left.dom().contains(other)
            &&& forall|other: Seq<Seq<char>>| #[trigger]
                left.dom().contains(other) ==> disk.dom().contains(other) && left[other]
                    == disk[other]
            &&& forall|other: Seq<Seq<char>>|
                disk.dom().contains(other) && !#[trigger] left.dom().contains(other)
                    ==> exists|i: int|
                    0 <= i < entries.len() && within(
                        other,
                        path.push((#[trigger] entries[i]).key->Text_0),
                    )
            &&& disk.dom().contains(path) ==> left.dom().contains(path)
        }),
{
    let entries = tree->Mapping_0;
    lemma_entries_removable(path, entries, entries.len());
    lemma_destroy_clears(disk, path, entries, entries.len());
    let left = cleared(disk, path, entries, entries.len());
    assert forall|other: Seq<Seq<char>>| #[trigger]
        left.dom().contains(other) implies disk.dom().contains(other) && left[other]
        == disk[other] by {
        lemma_cleared_holds(disk, path, entries, entries.len(), other);
    }
    assert(disk.dom().contains(path) ==> left.dom().contains(path)) by {
        lemma_cleared_holds(disk, path, entries, entries.len(), path);
    }
    assert forall|i: int, other: Seq<Seq<char>>|
        0 <= i < entries.len() && #[trigger] within(
            other,
            path.push((#[trigger] entries[i]).key->Text_0),
        ) implies !left.dom().contains(other) by {
        lemma_cleared_holds(disk, path, entries, entries.len(), other);
    }
    assert forall|other: Seq<Seq<char>>|
        disk.dom().contains(other) && !#[trigger] left.dom().contains(other) implies exists|
        i: int,
    |
        0 <= i < entries.len() && within(
            other,
            path.push((#[trigger] entries[i]).key->Text_0),
        ) by {
        lemma_cleared_holds(disk, path, entries, entries.len(), other);
    }
}

/// Creating a mapping and then destroying it, in the model: where the
/// document holds no error and every step of the creation passes, every
/// step of the destruction passes too. Afterwards nothing is left of any
/// entry of the mapping, nor of whatever lay below one; the mapping's own
/// directory is still there; and every other entry is as the creation left
/// it.
pub proof fn theorem_destroy_undoes_create(disk: Disk, path: Seq<Seq<char>>, tree: TreeView)
    requires
        sound(disk),
        tree is Mapping,
        create_plan(path, tree).fault is None,
        after(disk, create_plan(path, tree).steps) is Some,
    ensures
        destroy_plan(path, tree).fault is None,
        after(
            after(disk, create_plan(path, tree).steps)->Some_0,
            destroy_plan(path, tree).steps,
        ) is Some,
        ({
            let entries = tree->Mapping_0;
            let built = after(disk, create_plan(path, tree).steps)->Some_0;
            let left = after(built, destroy_plan(path, tree).steps)->Some_0;
            &&& holds_dir(left, path)
            &&& forall|i: int| 0 <= i < entries.len() ==> (#[trigger] entries[i]).key is Text
            &&& forall|i: int, other: Seq<Seq<char>>|
                0 <= i < entries.len() && #[trigger] within(
                    other,
                    path.push((#[trigger] entries[i]).key->Text_0),
                ) ==> !left.dom().contains(other)
            &&& forall|other: Seq<Seq<char>>| #[trigger]
                left.dom().contains(other) ==> built.dom().contains(other) && left[other]
                    == built[other]
            &&& forall|other: Seq<Seq<char>>|
                built.dom().contains(other) && !#[trigger] left.dom().contains(other)
                    ==> exists|i: int|
                    0 <= i < entries.len() && within(
                        other,
                        path.push((#[trigger] entries[i]).key->Text_0),
                    )
        }),
{
    let entries = tree->Mapping_0;
    let step = StepView::CreateDir { path };
    let inner = create_entries(path, entries, entries.len());
    lemma_after_concat(disk, seq![step], inner.steps);
    lemma_after_one(disk, step);
    let made = with_dirs(disk, path);
    lemma_with_dirs(disk, path);
    lemma_create_entries_builds(made, path, entries, entries.len());
    let built = after(made, inner.steps)->Some_0;
    lemma_destroy_passes(built, path, entries, entries.len());
    theorem_destroy_leaves_nothing(built, path, tree);
}

/// Destroying twice, in the model: where every step of a destruction
/// passes, every step of a second destruction of the same document finds
/// nothing to remove, passes, and leaves the tree as the first left it.
pub proof fn theorem_destroy_twice(disk: Disk, path: Seq<Seq<char>>, tree: TreeView)
    requires
        after(disk, destroy_plan(path, tree).steps) is Some,
    ensures
        after(
            after(disk, destroy_plan(path, tree).steps)->Some_0,
            destroy_plan(path, tree).steps,
        ) == after(disk, destroy_plan(path, tree).steps),
        forall|count: int|
            0 <= count <= destroy_plan(path, tree).steps.len() ==> after(
                after(disk, destroy_plan(path, tree).steps)->Some_0,
                #[trigger] destroy_plan(path, tree).steps.take(count),
            ) == after(disk, destroy_plan(path, tree).steps),
        forall|i: int|
            0 <= i < destroy_plan(path, tree).steps.len() ==> effect(
                after(disk, destroy_plan(path, tree).steps)->Some_0,
                #[trigger] destroy_plan(path, tree).steps[i],
            ) == Err::<Disk, FailureKind>(FailureKind::NotFound),
{
    let steps = destroy_plan(path, tree).steps;
    let left = after(disk, steps)->Some_0;
    assert forall|i: int| 0 <= i < steps.len() implies (#[trigger] steps[i]).is_removal() by {
        lemma_destroy_removes_children_only(path, tree->Mapping_0, tree->Mapping_0.len(), i);
    }
    assert forall|i: int| 0 <= i < steps.len() implies (#[trigger] steps[i]).is_removal()
        && !left.dom().contains(steps[i].target()) by {
        lemma_removed_is_gone(disk, steps, i);
    }
    lemma_nothing_to_remove(left, steps);
    assert forall|count: int| 0 <= count <= steps.len() implies after(
        left,
        #[trigger] steps.take(count),
    ) == Some(left) by {
        lemma_nothing_to_remove(left, steps.take(count));
    }
}

/// A second destruction succeeds: where a first destruction of a document
/// has run to its end without error, a run that destroys the same document
/// again, and is told of each entry what the model says, ends in success.
pub proof fn theorem_second_destroy_succeeds(
    disk: Disk,
    path: Seq<Seq<char>>,
    tree: TreeView,
    outcomes: Seq<Result<(), IoFailureView>>,
)
    requires
        destroy_plan(path, tree).fault is None,
        after(disk, destroy_plan(path, tree).steps) is Some,
        outcomes.len() == destroy_plan(path, tree).steps.len(),
        forall|i: int|
            0 <= i < outcomes.len() ==> told(
                after(disk, destroy_plan(path, tree).steps)->Some_0,
                destroy_plan(path, tree).steps[i],
                #[trigger] outcomes[i],
            ),
    ensures
        replay(RunView::start(destroy_plan(path, tree)), outcomes).directive()
            == DirectiveView::Succeed,
{
    let plan = destroy_plan(path, tree);
    let left = after(disk, plan.steps)->Some_0;
    theorem_destroy_twice(disk, path, tree);
    lemma_run_on_disk(left, plan, outcomes);
}

} // verus!
