//! The document that describes a file tree.

use vstd::prelude::*;

verus! {

/// The key of a mapping entry.
#[derive(Debug, PartialEq, Eq)]
pub enum Key {
    /// A string: the name of the entry.
    Text(String),
    /// Anything else; never a valid name.
    Other,
}

/// One entry of a mapping.
#[derive(Debug, PartialEq, Eq)]
pub struct Entry {
    pub key: Key,
    pub value: Tree,
}

/// A node of the document.
#[derive(Debug, PartialEq, Eq)]
pub enum Tree {
    /// A file, with its contents.
    Scalar(String),
    /// A directory, with its entries in document order.
    Mapping(Vec<Entry>),
    /// A number, a list, a boolean, a null: nothing that maps to the
    /// filesystem.
    Other,
}

/// The mathematical value of a [`Key`].
pub enum KeyView {
    Text(Seq<char>),
    Other,
}

/// The mathematical value of an [`Entry`].
pub struct EntryView {
    pub key: KeyView,
    pub value: TreeView,
}

/// The mathematical value of a [`Tree`].
pub enum TreeView {
    Scalar(Seq<char>),
    Mapping(Seq<EntryView>),
    Other,
}

impl View for Key {
    type V = KeyView;

    open spec fn view(&self) -> KeyView {
        match self {
            Key::Text(name) => KeyView::Text(name@),
            Key::Other => KeyView::Other,
        }
    }
}

/// The value of a tree: its strings as characters, its entries as a sequence.
pub open spec fn tree_view(tree: Tree) -> TreeView
    decreases tree,
{
    match tree {
        Tree::Scalar(text) => TreeView::Scalar(text@),
        Tree::Mapping(entries) => TreeView::Mapping(
            Seq::new(
                entries@.len(),
                |i: int|
                    if 0 <= i < entries@.len() {
                        EntryView { key: entries@[i].key@, value: tree_view(entries@[i].value) }
                    } else {
                        EntryView { key: KeyView::Other, value: TreeView::Other }
                    },
            ),
        ),
        Tree::Other => TreeView::Other,
    }
}

impl View for Tree {
    type V = TreeView;

    open spec fn view(&self) -> TreeView {
        tree_view(*self)
    }
}

impl View for Entry {
    type V = EntryView;

    open spec fn view(&self) -> EntryView {
        EntryView { key: self.key@, value: self.value@ }
    }
}

impl TreeView {
    /// Whether the tree maps to the filesystem throughout: every node is a
    /// scalar or a mapping, and every key is a string.
    pub open spec fn mappable(self) -> bool
        decreases self,
    {
        match self {
            TreeView::Scalar(_) => true,
            TreeView::Mapping(entries) => forall|i: int|
                0 <= i < entries.len() ==> (#[trigger] entries[i]).key is Text
                    && entries[i].value.mappable(),
            TreeView::Other => false,
        }
    }
}

impl TreeView {
    /// Whether the tree is a mapping with a key that is not a string.
    pub open spec fn has_invalid_key(self) -> bool {
        self matches TreeView::Mapping(entries) && exists|i: int|
            0 <= i < entries.len() && (#[trigger] entries[i]).key is Other
    }
}

/// Whether `tree`, placed at `path`, has `node` at `place`: as the tree
/// itself, or under an entry whose keys lead from `path` to `place`.
pub open spec fn has_node(
    path: Seq<Seq<char>>,
    tree: TreeView,
    place: Seq<Seq<char>>,
    node: TreeView,
) -> bool
    decreases tree,
{
    ||| place == path && node == tree
    ||| tree matches TreeView::Mapping(entries) && exists|i: int|
        0 <= i < entries.len() && entry_has_node(path, #[trigger] entries[i], place, node)
}

/// Whether `entry`, in the mapping at `path`, has `node` at `place`.
pub open spec fn entry_has_node(
    path: Seq<Seq<char>>,
    entry: EntryView,
    place: Seq<Seq<char>>,
    node: TreeView,
) -> bool
    decreases entry,
{
    match entry.key {
        KeyView::Text(name) => has_node(path.push(name), entry.value, place, node),
        KeyView::Other => false,
    }
}

} // verus!
