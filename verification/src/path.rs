//! Paths of entries, relative to the destination root.

use vstd::prelude::*;

verus! {

/// The location of an entry: the mapping keys that lead to it from the
/// destination root, outermost first. The root itself has no segments.
///
/// A key is one segment, taken verbatim.
#[derive(Debug, PartialEq, Eq)]
pub struct EntryPath {
    pub segments: Vec<String>,
}

/// The segments of a path as sequences of characters.
pub open spec fn segments_view(segments: Seq<String>) -> Seq<Seq<char>> {
    Seq::new(segments.len(), |i: int| segments[i]@)
}

impl View for EntryPath {
    type V = Seq<Seq<char>>;

    open spec fn view(&self) -> Seq<Seq<char>> {
        segments_view(self.segments@)
    }
}

impl Clone for EntryPath {
    fn clone(&self) -> (copy: EntryPath)
        ensures
            copy@ == self@,
    {
        let mut segments: Vec<String> = Vec::new();
        let mut i: usize = 0;
        while i < self.segments.len()
            invariant
                i <= self.segments.len(),
                segments@.len() == i,
                forall|j: int| 0 <= j < i ==> segments@[j]@ == self.segments@[j]@,
            decreases self.segments.len() - i,
        {
            segments.push(self.segments[i].clone());
            i += 1;
        }
        EntryPath { segments }
    }
}

impl EntryPath {
    /// The path of the destination root.
    pub fn root() -> (path: EntryPath)
        ensures
            path@ == Seq::<Seq<char>>::empty(),
    {
        EntryPath { segments: Vec::new() }
    }

    /// The path of the entry named `key` directly under this one.
    pub fn join(&self, key: &str) -> (child: EntryPath)
        ensures
            child@ == self@.push(key@),
    {
        let mut child = self.clone();
        child.segments.push(key.to_owned());
        child
    }
}

} // verus!
