//! Run-scoped sets of labels (transaction hashes, address labels), kept in a
//! hash set so that a re-fetched copy of an entity is recognised by its label.

use vstd::prelude::*;

verus! {

/// A set of labels. The hash set is held opaquely (its type carries an
/// allocator parameter bound by a trait that hashbrown does not export, so it
/// cannot be declared by itself); its contents are named by
/// `label_set_contents`, over which every operation is stated.
#[verifier::external_body]
pub struct LabelSet {
    inner: hashbrown::HashSet<String>,
}

/// The labels that a set holds.
pub uninterp spec fn label_set_contents(s: LabelSet) -> Set<Seq<char>>;

impl View for LabelSet {
    type V = Set<Seq<char>>;

    open spec fn view(&self) -> Set<Seq<char>> {
        label_set_contents(*self)
    }
}

impl LabelSet {
    /// Relies on `hashbrown::HashSet::new`: the new set is empty.
    #[verifier::external_body]
    pub(crate) fn new() -> (r: LabelSet)
        ensures
            label_set_contents(r) == Set::<Seq<char>>::empty(),
    {
        LabelSet { inner: hashbrown::HashSet::new() }
    }

    /// Relies on `hashbrown::HashSet::contains`: whether an equal string is in
    /// the set (strings are equal when their characters are).
    #[verifier::external_body]
    pub(crate) fn contains(&self, label: &String) -> (r: bool)
        ensures
            r == label_set_contents(*self).contains(label@),
    {
        self.inner.contains(label)
    }

    /// Relies on `hashbrown::HashSet::insert`: the label is in the set
    /// afterwards, nothing else changes, and the result says whether it was
    /// absent before.
    #[verifier::external_body]
    pub(crate) fn insert(&mut self, label: String) -> (r: bool)
        ensures
            label_set_contents(*final(self)) == label_set_contents(*old(self)).insert(label@),
            r == !label_set_contents(*old(self)).contains(label@),
    {
        self.inner.insert(label)
    }
}

} // verus!
