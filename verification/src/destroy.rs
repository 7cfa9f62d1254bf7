//! Destroy mode: from a document to the operations that remove its entries.

use vstd::prelude::*;
use crate::errors::{path_error, Error, ErrorView, IoFailureView};
use crate::path::EntryPath;
use crate::plan::{fault_view, steps_view, Plan, PlanView, Step, StepView};
use crate::run::{conclusion, lemma_removals_tolerate_absence, replay, RunView};
use crate::tree::{EntryView, Key, KeyView, Tree, TreeView};

verus! {

/// What removing one entry of the mapping at `path` takes.
///
/// A scalar is a file to remove; a mapping is a directory to remove whole,
/// whatever the document lists in it. The key must be a string, and the
/// value a scalar or a mapping.
pub open spec fn removal(path: Seq<Seq<char>>, entry: EntryView) -> PlanView {
    match entry.key {
        KeyView::Text(name) => match entry.value {
            TreeView::Scalar(_) => PlanView::only(StepView::RemoveFile { path: path.push(name) }),
            TreeView::Mapping(_) => PlanView::only(StepView::RemoveDir { path: path.push(name) }),
            TreeView::Other => PlanView::failed(ErrorView::WrongValueType(path.push(name))),
        },
        KeyView::Other => PlanView::failed(ErrorView::InvalidKey(path)),
    }
}

/// What removing the first `count` entries of the mapping at `path` takes:
/// each entry in turn, up to the first one that ends in an error.
pub open spec fn destroy_entries(
    path: Seq<Seq<char>>,
    entries: Seq<EntryView>,
    count: nat,
) -> PlanView
    decreases count,
{
    if count == 0 || count > entries.len() {
        PlanView::empty()
    } else {
        destroy_entries(path, entries, (count - 1) as nat).followed_by(
            removal(path, entries[count - 1]),
        )
    }
}

/// What destroying `tree` at `path` takes.
///
/// Only the entries of a mapping are removed, never the entry at `path`
/// itself; for a tree that is no mapping there is nothing to do.
pub open spec fn destroy_plan(path: Seq<Seq<char>>, tree: TreeView) -> PlanView {
    match tree {
        TreeView::Mapping(entries) => destroy_entries(path, entries, entries.len()),
        _ => PlanView::empty(),
    }
}

/// Once the first `count` entries end in an error, further entries add
/// nothing.
pub proof fn lemma_destroy_entries_stops(
    path: Seq<Seq<char>>,
    entries: Seq<EntryView>,
    count: nat,
    more: nat,
)
    requires
        destroy_entries(path, entries, count).fault is Some,
        count <= more <= entries.len(),
    ensures
        destroy_entries(path, entries, more) == destroy_entries(path, entries, count),
    decreases more,
{
    if more > count {
        lemma_destroy_entries_stops(path, entries, count, (more - 1) as nat);
    }
}

/// The plan for the first `count` entries looks at no entry past them.
pub proof fn lemma_destroy_entries_prefix(
    path: Seq<Seq<char>>,
    entries: Seq<EntryView>,
    others: Seq<EntryView>,
    count: nat,
)
    requires
        count <= entries.len(),
        count <= others.len(),
        forall|i: int| 0 <= i < count ==> entries[i] == others[i],
    ensures
        destroy_entries(path, entries, count) == destroy_entries(path, others, count),
    decreases count,
{
    if count > 0 {
        lemma_destroy_entries_prefix(path, entries, others, (count - 1) as nat);
    }
}

/// Destroying a tree that is no mapping does nothing and reports no error.
pub proof fn lemma_destroy_spares_other_roots(path: Seq<Seq<char>>, tree: TreeView)
    requires
        !(tree is Mapping),
    ensures
        destroy_plan(path, tree) == PlanView::empty(),
{
}

/// Every step of a destruction removes an entry directly under `path`: not
/// the entry at `path` itself, and nothing further down.
pub proof fn lemma_destroy_removes_children_only(
    path: Seq<Seq<char>>,
    entries: Seq<EntryView>,
    count: nat,
    step: int,
)
    requires
        0 <= step < destroy_entries(path, entries, count).steps.len(),
    ensures
        destroy_entries(path, entries, count).steps[step].is_removal(),
        destroy_entries(path, entries, count).steps[step].target().len() == path.len() + 1,
        destroy_entries(path, entries, count).steps[step].target().drop_last() == path,
    decreases count,
{
    if count > 0 && count <= entries.len() {
        let before = destroy_entries(path, entries, (count - 1) as nat);
        if step < before.steps.len() {
            lemma_destroy_removes_children_only(path, entries, (count - 1) as nat, step);
        } else {
            let target = destroy_entries(path, entries, count).steps[step].target();
            assert(target == path.push(entries[count - 1].key->Text_0));
        }
    }
}

/// Whether the tree can be destroyed: it is no mapping, or each of its
/// entries has a string for its key and a scalar or a mapping for its value.
/// What lies deeper is not looked at.
pub open spec fn removable(tree: TreeView) -> bool {
    tree matches TreeView::Mapping(entries) ==> forall|i: int|
        0 <= i < entries.len() ==> (#[trigger] entries[i]).key is Text && !(entries[i].value
            is Other)
}

/// The first `count` entries of a mapping are removed without error exactly
/// where each has a string for its key and a scalar or a mapping for its
/// value.
pub proof fn lemma_entries_removable(path: Seq<Seq<char>>, entries: Seq<EntryView>, count: nat)
    requires
        count <= entries.len(),
    ensures
        destroy_entries(path, entries, count).fault is None <==> forall|i: int|
            0 <= i < count ==> (#[trigger] entries[i]).key is Text && !(entries[i].value
                is Other),
        match destroy_entries(path, entries, count).fault {
            Some(ErrorView::WrongValueType(place)) => exists|i: int|
                0 <= i < count && (#[trigger] entries[i]).key is Text && entries[i].value
                    is Other && place == path.push(entries[i].key->Text_0),
            Some(ErrorView::InvalidKey(place)) => place == path && exists|i: int|
                0 <= i < count && (#[trigger] entries[i]).key is Other,
            Some(ErrorView::Io(_)) => false,
            None => true,
        },
    decreases count,
{
    if count > 0 {
        let before = destroy_entries(path, entries, (count - 1) as nat);
        lemma_entries_removable(path, entries, (count - 1) as nat);
        if destroy_entries(path, entries, count).fault is None {
            assert forall|i: int| 0 <= i < count implies (#[trigger] entries[i]).key is Text
                && !(entries[i].value is Other) by {}
        }
        if before.fault is Some {
            match before.fault {
                Some(ErrorView::WrongValueType(place)) => {
                    let i = choose|i: int|
                        0 <= i < count - 1 && (#[trigger] entries[i]).key is Text
                            && entries[i].value is Other && place == path.push(
                            entries[i].key->Text_0,
                        );
                    assert(entries[i].value is Other);
                },
                Some(ErrorView::InvalidKey(place)) => {
                    let i = choose|i: int|
                        0 <= i < count - 1 && (#[trigger] entries[i]).key is Other;
                    assert(entries[i].key is Other);
                },
                _ => {},
            }
        }
    }
}

/// A destruction is planned without error exactly for the trees that can be
/// destroyed.
pub proof fn lemma_destroy_succeeds_iff_removable(path: Seq<Seq<char>>, tree: TreeView)
    ensures
        destroy_plan(path, tree).fault is None <==> removable(tree),
{
    if let TreeView::Mapping(entries) = tree {
        lemma_entries_removable(path, entries, entries.len());
    }
}

/// The error of a destruction names what is wrong with the document: an
/// entry of the mapping whose value is neither a scalar nor a mapping, by
/// the path of that entry, or the mapping itself where one of its keys is
/// not a string. It is never a failure of the disk.
pub proof fn lemma_destroy_fault_names_offender(path: Seq<Seq<char>>, tree: TreeView)
    ensures
        match destroy_plan(path, tree).fault {
            Some(ErrorView::WrongValueType(place)) => tree is Mapping && exists|i: int|
                0 <= i < tree->Mapping_0.len() && (#[trigger] tree->Mapping_0[i]).key is Text
                    && tree->Mapping_0[i].value is Other && place == path.push(
                    tree->Mapping_0[i].key->Text_0,
                ),
            Some(ErrorView::InvalidKey(place)) => place == path && tree.has_invalid_key(),
            Some(ErrorView::Io(_)) => false,
            None => true,
        },
{
    if let TreeView::Mapping(entries) = tree {
        lemma_entries_removable(path, entries, entries.len());
    }
}

/// An entry that ends in an error is the last one looked at: the plan of a
/// mapping is the plan of the mapping cut off after that entry.
pub proof fn lemma_destroy_stops_at_fault(
    path: Seq<Seq<char>>,
    entries: Seq<EntryView>,
    index: int,
)
    requires
        0 <= index < entries.len(),
        destroy_entries(path, entries, (index + 1) as nat).fault is Some,
    ensures
        destroy_plan(path, TreeView::Mapping(entries)) == destroy_plan(
            path,
            TreeView::Mapping(entries.take(index + 1)),
        ),
{
    let cut = entries.take(index + 1);
    lemma_destroy_entries_stops(path, entries, (index + 1) as nat, entries.len());
    lemma_destroy_entries_prefix(path, entries, cut, (index + 1) as nat);
}

/// A key that is not a string ends the destruction of its mapping: the
/// entries before it are removed, the entry itself and its later siblings
/// are not, and the error names the mapping.
pub proof fn lemma_invalid_key_stops_destroy(
    path: Seq<Seq<char>>,
    entries: Seq<EntryView>,
    index: int,
)
    requires
        0 <= index < entries.len(),
        entries[index].key is Other,
    ensures
        destroy_plan(path, TreeView::Mapping(entries)) == destroy_plan(
            path,
            TreeView::Mapping(entries.take(index + 1)),
        ),
        destroy_entries(path, entries, index as nat).fault is None ==> destroy_plan(
            path,
            TreeView::Mapping(entries),
        ) == (PlanView {
            steps: destroy_entries(path, entries, index as nat).steps,
            fault: Some(ErrorView::InvalidKey(path)),
        }),
{
    lemma_destroy_stops_at_fault(path, entries, index);
    lemma_destroy_entries_stops(path, entries, (index + 1) as nat, entries.len());
}

/// An entry whose value is neither a scalar nor a mapping ends the
/// destruction of its mapping: the entries before it are removed, nothing is
/// done for the entry or for its later siblings, and the error names the
/// entry.
pub proof fn lemma_wrong_value_stops_destroy(
    path: Seq<Seq<char>>,
    entries: Seq<EntryView>,
    index: int,
    name: Seq<char>,
)
    requires
        0 <= index < entries.len(),
        entries[index] == (EntryView { key: KeyView::Text(name), value: TreeView::Other }),
    ensures
        destroy_plan(path, TreeView::Mapping(entries)) == destroy_plan(
            path,
            TreeView::Mapping(entries.take(index + 1)),
        ),
        destroy_entries(path, entries, index as nat).fault is None ==> destroy_plan(
            path,
            TreeView::Mapping(entries),
        ) == (PlanView {
            steps: destroy_entries(path, entries, index as nat).steps,
            fault: Some(ErrorView::WrongValueType(path.push(name))),
        }),
{
    lemma_destroy_stops_at_fault(path, entries, index);
    lemma_destroy_entries_stops(path, entries, (index + 1) as nat, entries.len());
}

/// A destruction for which every entry is either removed or not there runs
/// to its end: with no error of the document, it succeeds. So does a second
/// destruction after a first, which finds nothing left to remove.
pub proof fn lemma_destroy_tolerates_absence(
    path: Seq<Seq<char>>,
    tree: TreeView,
    outcomes: Seq<Result<(), IoFailureView>>,
)
    requires
        outcomes.len() == destroy_plan(path, tree).steps.len(),
        forall|i: int|
            0 <= i < outcomes.len() ==> outcomes[i] is Ok || outcomes[i]->Err_0.kind is NotFound,
    ensures
        replay(RunView::start(destroy_plan(path, tree)), outcomes).directive() == conclusion(
            destroy_plan(path, tree),
        ),
{
    let plan = destroy_plan(path, tree);
    assert forall|i: int| 0 <= i < plan.steps.len() implies plan.steps[i].is_removal() by {
        lemma_destroy_removes_children_only(
            path,
            tree->Mapping_0,
            tree->Mapping_0.len(),
            i,
        );
    }
    lemma_removals_tolerate_absence(plan, outcomes);
}

/// Plans the removal of the entries that `value` names under `path`.
pub fn destroy_entry(path: EntryPath, value: &Tree) -> (plan: Plan)
    ensures
        plan@ == destroy_plan(path@, value@),
{
    let mut steps: Vec<Step> = Vec::new();
    if let Tree::Mapping(entries) = value {
        let mut i: usize = 0;
        while i < entries.len()
            invariant
                i <= entries.len(),
                value@ == TreeView::Mapping(value@->Mapping_0),
                *value == Tree::Mapping(*entries),
                destroy_entries(path@, value@->Mapping_0, i as nat).fault is None,
                steps_view(steps@) == destroy_entries(path@, value@->Mapping_0, i as nat).steps,
            decreases entries.len() - i,
        {
            let entry = &entries[i];
            assert(value@->Mapping_0[i as int] == entry@);
            let fault = match &entry.key {
                Key::Text(name) => {
                    let subpath = path.join(name.as_str());
                    match &entry.value {
                        Tree::Scalar(_) => {
                            steps.push(Step::RemoveFile { path: subpath });
                            None
                        },
                        Tree::Mapping(_) => {
                            steps.push(Step::RemoveDir { path: subpath });
                            None
                        },
                        Tree::Other => path_error(subpath).err(),
                    }
                },
                Key::Other => Some(Error::InvalidKey(path.clone())),
            };
            i += 1;
            if fault.is_some() {
                proof {
                    lemma_destroy_entries_stops(
                        path@,
                        value@->Mapping_0,
                        i as nat,
                        entries.len() as nat,
                    );
                }
                return Plan { steps, fault };
            }
        }
        Plan { steps, fault: None }
    } else {
        assert(steps_view(steps@) =~= Seq::<StepView>::empty());
        Plan { steps, fault: None }
    }
}

} // verus!
