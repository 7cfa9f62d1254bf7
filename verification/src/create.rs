//! Create mode: from a document to the operations that build its tree.

use vstd::prelude::*;
use vstd::utf8::encode_utf8;
use crate::errors::{path_error, Error, ErrorView};
use crate::path::EntryPath;
use crate::plan::{fault_view, steps_view, Plan, PlanView, Step, StepView};
use crate::tree::{entry_has_node, has_node, EntryView, Key, KeyView, Tree, TreeView};

verus! {

/// What creating `tree` at `path` takes.
///
/// A scalar is one file, written with the scalar's text. A mapping is its
/// directory, made first, and then its entries in document order. Anything
/// else is an error that names `path`.
pub open spec fn create_plan(path: Seq<Seq<char>>, tree: TreeView) -> PlanView
    decreases tree, 0nat,
{
    match tree {
        TreeView::Scalar(text) => PlanView::only(StepView::WriteFile { path, contents: text }),
        TreeView::Mapping(entries) => PlanView::only(StepView::CreateDir { path }).followed_by(
            create_entries(path, entries, entries.len()),
        ),
        TreeView::Other => PlanView::failed(ErrorView::WrongValueType(path)),
    }
}

/// What creating the first `count` entries of the mapping at `path` takes:
/// each entry in turn, up to the first one that ends in an error.
pub open spec fn create_entries(
    path: Seq<Seq<char>>,
    entries: Seq<EntryView>,
    count: nat,
) -> PlanView
    decreases entries, count,
{
    if count == 0 || count > entries.len() {
        PlanView::empty()
    } else {
        create_entries(path, entries, (count - 1) as nat).followed_by(
            match entries[count - 1].key {
                KeyView::Text(name) => create_plan(path.push(name), entries[count - 1].value),
                KeyView::Other => PlanView::failed(ErrorView::InvalidKey(path)),
            },
        )
    }
}

/// Appends to `steps` what creating `value` at `path` takes, and returns the
/// error that those steps end in.
fn create_into(path: EntryPath, value: &Tree, steps: &mut Vec<Step>) -> (fault: Option<Error>)
    ensures
        steps_view(final(steps)@) == steps_view(old(steps)@) + create_plan(path@, value@).steps,
        fault_view(fault) == create_plan(path@, value@).fault,
    decreases value,
{
    match value {
        Tree::Scalar(content) => {
            steps.push(Step::WriteFile { path, contents: content.clone() });
            None
        },
        Tree::Mapping(entries) => {
            let ghost made = steps_view(old(steps)@).push(StepView::CreateDir { path: path@ });
            steps.push(Step::CreateDir { path: path.clone() });
            let mut i: usize = 0;
            while i < entries.len()
                invariant
                    i <= entries.len(),
                    made == steps_view(old(steps)@).push(StepView::CreateDir { path: path@ }),
                    value@ == TreeView::Mapping(value@->Mapping_0),
                    *value == Tree::Mapping(*entries),
                    create_entries(path@, value@->Mapping_0, i as nat).fault is None,
                    steps_view(steps@) == made + create_entries(
                        path@,
                        value@->Mapping_0,
                        i as nat,
                    ).steps,
                decreases entries.len() - i,
            {
                let entry = &entries[i];
                let fault = match &entry.key {
                    Key::Text(name) => create_into(path.join(name.as_str()), &entry.value, steps),
                    Key::Other => Some(Error::InvalidKey(path.clone())),
                };
                i += 1;
                if fault.is_some() {
                    proof {
                        lemma_create_entries_stops(
                            path@,
                            value@->Mapping_0,
                            i as nat,
                            entries.len() as nat,
                        );
                    }
                    return fault;
                }
            }
            None
        },
        Tree::Other => path_error(path).err(),
    }
}

/// Once the first `count` entries end in an error, further entries add
/// nothing.
pub proof fn lemma_create_entries_stops(
    path: Seq<Seq<char>>,
    entries: Seq<EntryView>,
    count: nat,
    more: nat,
)
    requires
        create_entries(path, entries, count).fault is Some,
        count <= more <= entries.len(),
    ensures
        create_entries(path, entries, more) == create_entries(path, entries, count),
    decreases more,
{
    if more > count {
        lemma_create_entries_stops(path, entries, count, (more - 1) as nat);
    }
}

/// The plan for the first `count` entries looks at no entry past them.
pub proof fn lemma_create_entries_prefix(
    path: Seq<Seq<char>>,
    entries: Seq<EntryView>,
    others: Seq<EntryView>,
    count: nat,
)
    requires
        count <= entries.len(),
        count <= others.len(),
        forall|i: int| 0 <= i < count ==> entries[i] == others[i],
    ensures
        create_entries(path, entries, count) == create_entries(path, others, count),
    decreases count,
{
    if count > 0 {
        lemma_create_entries_prefix(path, entries, others, (count - 1) as nat);
    }
}

/// A scalar is written as one file that holds exactly the scalar's text:
/// the bytes to write are the text in UTF-8.
pub proof fn lemma_scalar_written_verbatim(path: Seq<Seq<char>>, text: Seq<char>)
    ensures
        create_plan(path, TreeView::Scalar(text)) == (PlanView {
            steps: seq![StepView::WriteFile { path, contents: text }],
            fault: None,
        }),
        create_plan(path, TreeView::Scalar(text)).steps[0].payload() == Some(encode_utf8(text)),
{
}

/// The step that puts `node` in its `place`: the file of a scalar, written
/// with its text, or the directory of a mapping.
pub open spec fn step_for(place: Seq<Seq<char>>, node: TreeView) -> Option<StepView> {
    match node {
        TreeView::Scalar(text) => Some(StepView::WriteFile { path: place, contents: text }),
        TreeView::Mapping(_) => Some(StepView::CreateDir { path: place }),
        TreeView::Other => None,
    }
}

/// The steps that a document without error is created with are the steps
/// for its nodes: one for each scalar and each mapping, at its place, and
/// no other.
pub proof fn lemma_steps_are_nodes(path: Seq<Seq<char>>, tree: TreeView, step: StepView)
    requires
        create_plan(path, tree).fault is None,
    ensures
        create_plan(path, tree).steps.contains(step) <==> exists|node: TreeView| #[trigger]
            has_node(path, tree, step.target(), node) && step_for(step.target(), node) == Some(
                step,
            ),
    decreases tree, 0nat,
{
    let steps = create_plan(path, tree).steps;
    let place = step.target();
    match tree {
        TreeView::Scalar(text) => {
            if step == steps[0] {
                assert(has_node(path, tree, place, tree) && step_for(place, tree) == Some(step));
            }
        },
        TreeView::Mapping(entries) => {
            let inner = create_entries(path, entries, entries.len());
            lemma_entries_steps_are_nodes(path, entries, entries.len(), step);
            if steps.contains(step) {
                let at = choose|at: int| 0 <= at < steps.len() && steps[at] == step;
                if at == 0 {
                    assert(has_node(path, tree, place, tree) && step_for(place, tree) == Some(
                        step,
                    ));
                } else {
                    let (i, node) = choose|i: int, node: TreeView|
                        0 <= i < entries.len() && #[trigger] entry_has_node(
                            path,
                            entries[i],
                            place,
                            node,
                        ) && step_for(place, node) == Some(step);
                    assert(entry_has_node(path, entries[i], place, node));
                    assert(has_node(path, tree, place, node) && step_for(place, node) == Some(
                        step,
                    ));
                }
            }
            if exists|node: TreeView| #[trigger]
                has_node(path, tree, place, node) && step_for(place, node) == Some(step) {
                let node = choose|node: TreeView| #[trigger]
                    has_node(path, tree, place, node) && step_for(place, node) == Some(step);
                if !(place == path && node == tree) {
                    let i = choose|i: int|
                        0 <= i < entries.len() && entry_has_node(
                            path,
                            #[trigger] entries[i],
                            place,
                            node,
                        );
                    assert(entry_has_node(path, entries[i], place, node));
                    let at = choose|at: int| 0 <= at < inner.steps.len() && inner.steps[at] == step;
                    assert(steps[at + 1] == step);
                }
            }
        },
        TreeView::Other => {},
    }
}

/// The steps that the first `count` entries of a mapping are created with,
/// where they hold no error, are the steps for the nodes of those entries.
pub proof fn lemma_entries_steps_are_nodes(
    path: Seq<Seq<char>>,
    entries: Seq<EntryView>,
    count: nat,
    step: StepView,
)
    requires
        count <= entries.len(),
        create_entries(path, entries, count).fault is None,
    ensures
        create_entries(path, entries, count).steps.contains(step) <==> exists|
            i: int,
            node: TreeView,
        |
            0 <= i < count && #[trigger] entry_has_node(path, entries[i], step.target(), node)
                && step_for(step.target(), node) == Some(step),
    decreases entries, count,
{
    let steps = create_entries(path, entries, count).steps;
    let place = step.target();
    if count > 0 {
        let entry = entries[count - 1];
        let before = create_entries(path, entries, (count - 1) as nat);
        let name = entry.key->Text_0;
        let child = create_plan(path.push(name), entry.value);
        lemma_entries_steps_are_nodes(path, entries, (count - 1) as nat, step);
        lemma_steps_are_nodes(path.push(name), entry.value, step);
        if steps.contains(step) {
            let at = choose|at: int| 0 <= at < steps.len() && steps[at] == step;
            if at < before.steps.len() {
                let (i, node) = choose|i: int, node: TreeView|
                    0 <= i < count - 1 && #[trigger] entry_has_node(path, entries[i], place, node)
                        && step_for(place, node) == Some(step);
                assert(entry_has_node(path, entries[i], place, node));
            } else {
                let node = choose|node: TreeView| #[trigger]
                    has_node(path.push(name), entry.value, place, node) && step_for(place, node)
                        == Some(step);
                assert(entry_has_node(path, entries[count - 1], place, node));
            }
        }
        if exists|i: int, node: TreeView|
            0 <= i < count && #[trigger] entry_has_node(path, entries[i], place, node)
                && step_for(place, node) == Some(step) {
            let (i, node) = choose|i: int, node: TreeView|
                0 <= i < count && #[trigger] entry_has_node(path, entries[i], place, node)
                    && step_for(place, node) == Some(step);
            if i < count - 1 {
                let at = choose|at: int| 0 <= at < before.steps.len() && before.steps[at] == step;
                assert(steps[at] == step);
            } else {
                assert(has_node(path.push(name), entry.value, place, node));
                let at = choose|at: int| 0 <= at < child.steps.len() && child.steps[at] == step;
                assert(steps[before.steps.len() + at] == step);
            }
        }
    }
}

/// The files that a document without error is created with are its
/// scalars: each scalar is written at its place with exactly its text, and
/// nothing else is written.
pub proof fn lemma_scalars_written_verbatim(
    path: Seq<Seq<char>>,
    tree: TreeView,
    place: Seq<Seq<char>>,
    text: Seq<char>,
)
    requires
        create_plan(path, tree).fault is None,
    ensures
        has_node(path, tree, place, TreeView::Scalar(text)) <==> create_plan(
            path,
            tree,
        ).steps.contains(StepView::WriteFile { path: place, contents: text }),
{
    let written = StepView::WriteFile { path: place, contents: text };
    lemma_steps_are_nodes(path, tree, written);
}

/// A creation is planned without error exactly for the documents that map
/// to the filesystem throughout.
pub proof fn lemma_create_succeeds_iff_mappable(path: Seq<Seq<char>>, tree: TreeView)
    ensures
        create_plan(path, tree).fault is None <==> tree.mappable(),
    decreases tree, 0nat,
{
    if let TreeView::Mapping(entries) = tree {
        lemma_entries_succeed_iff_mappable(path, entries, entries.len());
    }
}

/// The first `count` entries of a mapping are planned without error exactly
/// where each has a string for its key and a value that maps to the
/// filesystem throughout.
pub proof fn lemma_entries_succeed_iff_mappable(
    path: Seq<Seq<char>>,
    entries: Seq<EntryView>,
    count: nat,
)
    requires
        count <= entries.len(),
    ensures
        create_entries(path, entries, count).fault is None <==> forall|i: int|
            0 <= i < count ==> (#[trigger] entries[i]).key is Text && entries[i].value.mappable(),
    decreases entries, count,
{
    if count > 0 {
        let entry = entries[count - 1];
        lemma_entries_succeed_iff_mappable(path, entries, (count - 1) as nat);
        if let KeyView::Text(name) = entry.key {
            lemma_create_succeeds_iff_mappable(path.push(name), entry.value);
        }
        if create_entries(path, entries, count).fault is None {
            assert forall|i: int| 0 <= i < count implies (#[trigger] entries[i]).key is Text
                && entries[i].value.mappable() by {}
        }
    }
}

/// The error of a creation names what is wrong with the document: a node
/// that is neither a scalar nor a mapping, at the path where the document
/// has such a node, or a key that is not a string, at the path of a mapping
/// that has such a key. It is never a failure of the disk.
pub proof fn lemma_create_fault_names_offender(path: Seq<Seq<char>>, tree: TreeView)
    ensures
        match create_plan(path, tree).fault {
            Some(ErrorView::WrongValueType(place)) => has_node(path, tree, place, TreeView::Other),
            Some(ErrorView::InvalidKey(place)) => exists|node: TreeView| #[trigger]
                has_node(path, tree, place, node) && node.has_invalid_key(),
            Some(ErrorView::Io(_)) => false,
            None => true,
        },
    decreases tree, 0nat,
{
    if let TreeView::Mapping(entries) = tree {
        lemma_entries_fault_names_offender(path, entries, entries.len());
        match create_plan(path, tree).fault {
            Some(ErrorView::WrongValueType(place)) => {
                let i = choose|i: int|
                    0 <= i < entries.len() && entry_has_node(
                        path,
                        #[trigger] entries[i],
                        place,
                        TreeView::Other,
                    );
                assert(entry_has_node(path, entries[i], place, TreeView::Other));
            },
            Some(ErrorView::InvalidKey(place)) => {
                if place == path && exists|i: int|
                    0 <= i < entries.len() && (#[trigger] entries[i]).key is Other {
                    assert(has_node(path, tree, place, tree) && tree.has_invalid_key());
                } else {
                    let (i, node) = choose|i: int, node: TreeView|
                        0 <= i < entries.len() && #[trigger] entry_has_node(
                            path,
                            entries[i],
                            place,
                            node,
                        ) && node.has_invalid_key();
                    assert(entry_has_node(path, entries[i], place, node));
                    assert(has_node(path, tree, place, node) && node.has_invalid_key());
                }
            },
            _ => {},
        }
    }
}

/// The error of the first `count` entries of a mapping names what is wrong
/// with one of them, or a key of the mapping itself.
pub proof fn lemma_entries_fault_names_offender(
    path: Seq<Seq<char>>,
    entries: Seq<EntryView>,
    count: nat,
)
    requires
        count <= entries.len(),
    ensures
        match create_entries(path, entries, count).fault {
            Some(ErrorView::WrongValueType(place)) => exists|i: int|
                0 <= i < count && entry_has_node(
                    path,
                    #[trigger] entries[i],
                    place,
                    TreeView::Other,
                ),
            Some(ErrorView::InvalidKey(place)) => (place == path && exists|i: int|
                0 <= i < count && (#[trigger] entries[i]).key is Other) || exists|
                i: int,
                node: TreeView,
            |
                0 <= i < count && #[trigger] entry_has_node(path, entries[i], place, node)
                    && node.has_invalid_key(),
            Some(ErrorView::Io(_)) => false,
            None => true,
        },
    decreases entries, count,
{
    if count > 0 {
        let entry = entries[count - 1];
        let before = create_entries(path, entries, (count - 1) as nat);
        lemma_entries_fault_names_offender(path, entries, (count - 1) as nat);
        if before.fault is Some {
            match before.fault {
                Some(ErrorView::WrongValueType(place)) => {
                    let i = choose|i: int|
                        0 <= i < count - 1 && entry_has_node(
                            path,
                            #[trigger] entries[i],
                            place,
                            TreeView::Other,
                        );
                    assert(entry_has_node(path, entries[i], place, TreeView::Other));
                },
                Some(ErrorView::InvalidKey(place)) => {
                    if place == path && exists|i: int|
                        0 <= i < count - 1 && (#[trigger] entries[i]).key is Other {
                        let i = choose|i: int|
                            0 <= i < count - 1 && (#[trigger] entries[i]).key is Other;
                        assert(entries[i].key is Other);
                    } else {
                        let (i, node) = choose|i: int, node: TreeView|
                            0 <= i < count - 1 && #[trigger] entry_has_node(
                                path,
                                entries[i],
                                place,
                                node,
                            ) && node.has_invalid_key();
                        assert(entry_has_node(path, entries[i], place, node));
                    }
                },
                _ => {},
            }
        } else {
            match entry.key {
                KeyView::Text(name) => {
                    lemma_create_fault_names_offender(path.push(name), entry.value);
                    match create_plan(path.push(name), entry.value).fault {
                        Some(ErrorView::WrongValueType(place)) => {
                            assert(entry_has_node(path, entries[count - 1], place, TreeView::Other));
                        },
                        Some(ErrorView::InvalidKey(place)) => {
                            let node = choose|node: TreeView| #[trigger]
                                has_node(path.push(name), entry.value, place, node)
                                    && node.has_invalid_key();
                            assert(entry_has_node(path, entries[count - 1], place, node));
                        },
                        _ => {},
                    }
                },
                KeyView::Other => {
                    assert(entries[count - 1].key is Other);
                },
            }
        }
    }
}

/// A node that is neither a scalar nor a mapping is refused with an error
/// that names its path, and nothing is done for it.
pub proof fn lemma_other_refused(path: Seq<Seq<char>>)
    ensures
        create_plan(path, TreeView::Other) == (PlanView {
            steps: Seq::empty(),
            fault: Some(ErrorView::WrongValueType(path)),
        }),
{
}

/// An entry that ends in an error is the last one looked at: the plan of a
/// mapping is the plan of the mapping cut off after that entry.
pub proof fn lemma_create_stops_at_fault(
    path: Seq<Seq<char>>,
    entries: Seq<EntryView>,
    index: int,
)
    requires
        0 <= index < entries.len(),
        create_entries(path, entries, (index + 1) as nat).fault is Some,
    ensures
        create_plan(path, TreeView::Mapping(entries)) == create_plan(
            path,
            TreeView::Mapping(entries.take(index + 1)),
        ),
{
    let cut = entries.take(index + 1);
    lemma_create_entries_stops(path, entries, (index + 1) as nat, entries.len());
    lemma_create_entries_prefix(path, entries, cut, (index + 1) as nat);
}

/// A key that is not a string ends the creation of its mapping: the entries
/// before it are created, the entry itself and its later siblings are not,
/// and the error names the mapping.
pub proof fn lemma_invalid_key_stops_create(
    path: Seq<Seq<char>>,
    entries: Seq<EntryView>,
    index: int,
)
    requires
        0 <= index < entries.len(),
        entries[index].key is Other,
    ensures
        create_plan(path, TreeView::Mapping(entries)) == create_plan(
            path,
            TreeView::Mapping(entries.take(index + 1)),
        ),
        create_entries(path, entries, index as nat).fault is None ==> create_plan(
            path,
            TreeView::Mapping(entries),
        ) == (PlanView {
            steps: seq![StepView::CreateDir { path }] + create_entries(
                path,
                entries,
                index as nat,
            ).steps,
            fault: Some(ErrorView::InvalidKey(path)),
        }),
{
    lemma_create_stops_at_fault(path, entries, index);
    lemma_create_entries_stops(path, entries, (index + 1) as nat, entries.len());
}

/// An entry whose value is neither a scalar nor a mapping ends the creation
/// of its mapping: the entries before it are created, nothing is done for
/// the entry or for its later siblings, and the error names the entry.
pub proof fn lemma_wrong_value_stops_create(
    path: Seq<Seq<char>>,
    entries: Seq<EntryView>,
    index: int,
    name: Seq<char>,
)
    requires
        0 <= index < entries.len(),
        entries[index] == (EntryView { key: KeyView::Text(name), value: TreeView::Other }),
    ensures
        create_plan(path, TreeView::Mapping(entries)) == create_plan(
            path,
            TreeView::Mapping(entries.take(index + 1)),
        ),
        create_entries(path, entries, index as nat).fault is None ==> create_plan(
            path,
            TreeView::Mapping(entries),
        ) == (PlanView {
            steps: seq![StepView::CreateDir { path }] + create_entries(
                path,
                entries,
                index as nat,
            ).steps,
            fault: Some(ErrorView::WrongValueType(path.push(name))),
        }),
{
    lemma_other_refused(path.push(name));
    lemma_create_stops_at_fault(path, entries, index);
    lemma_create_entries_stops(path, entries, (index + 1) as nat, entries.len());
}

/// Plans the creation of `value` at `path`.
pub fn create_entry(path: EntryPath, value: &Tree) -> (plan: Plan)
    ensures
        plan@ == create_plan(path@, value@),
{
    let mut steps: Vec<Step> = Vec::new();
    let fault = create_into(path, value, &mut steps);
    Plan { steps, fault }
}

} // verus!
