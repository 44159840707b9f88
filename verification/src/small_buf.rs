//! Small inline vectors (`smallvec::SmallVec`): the parser's component
//! buffer, with room for eight components inline (the common size of a
//! complex selector), the names of `:lang()` and `::part()`, with room for
//! one, and the invalidation map's entry lists (per name, and of the
//! structural selectors), with room for eight entries.
//!
//! `SmallVec<A>` is generic over the outside trait `smallvec::Array`,
//! which Verus cannot take as a bound, so each vector sits in a private
//! field of a struct of this module. Its contents are named ([`buf_items`],
//! [`entry_items`], [`atom_items`]), and each method below calls one method
//! of `SmallVec` and states what the smallvec source shows it does to the
//! contents.

use vstd::prelude::*;
use smallvec::SmallVec;
use crate::atom::Atom;
use crate::invalidation::InvalidationEntry;
use crate::types::Component;

verus! {

/// Components collected left to right while a selector is parsed.
#[verifier::external_body]
#[derive(Debug)]
pub struct ComponentBuf {
    items: SmallVec<[Component; 8]>,
}

/// The components a buffer holds, in order.
pub uninterp spec fn buf_items(v: ComponentBuf) -> Seq<Component>;

impl ComponentBuf {
    /// `SmallVec::new`: an empty buffer.
    #[verifier::external_body]
    pub(crate) fn new() -> (r: ComponentBuf)
        ensures
            buf_items(r) == Seq::<Component>::empty(),
    {
        ComponentBuf { items: SmallVec::new() }
    }

    /// `SmallVec::len`: the number of components.
    #[verifier::external_body]
    pub(crate) fn len(&self) -> (r: usize)
        ensures
            r == buf_items(*self).len(),
    {
        self.items.len()
    }

    /// `SmallVec::push`: appends a component.
    #[verifier::external_body]
    pub(crate) fn push(&mut self, c: Component)
        ensures
            buf_items(*final(self)) == buf_items(*old(self)).push(c),
    {
        self.items.push(c);
    }

    /// `SmallVec::remove`: takes out the component at `i`, shifting the
    /// rest left (it panics when `i` is out of bounds).
    #[verifier::external_body]
    pub(crate) fn remove(&mut self, i: usize) -> (r: Component)
        requires
            i < buf_items(*old(self)).len(),
        ensures
            r == buf_items(*old(self))[i as int],
            buf_items(*final(self)) == buf_items(*old(self)).remove(i as int),
    {
        self.items.remove(i)
    }

    /// `SmallVec::truncate`: keeps the first `len` components; a longer
    /// `len` changes nothing.
    #[verifier::external_body]
    pub(crate) fn truncate(&mut self, len: usize)
        ensures
            len <= buf_items(*old(self)).len() ==> buf_items(*final(self)) == buf_items(
                *old(self),
            ).subrange(0, len as int),
            len > buf_items(*old(self)).len() ==> buf_items(*final(self)) == buf_items(*old(self)),
    {
        self.items.truncate(len);
    }

    /// `SmallVec::clear`: removes every component.
    #[verifier::external_body]
    pub(crate) fn clear(&mut self)
        ensures
            buf_items(*final(self)) == Seq::<Component>::empty(),
    {
        self.items.clear();
    }

    /// Indexing (through `SmallVec`'s slice `Deref`): the component at `i`.
    #[verifier::external_body]
    pub(crate) fn get(&self, i: usize) -> (r: &Component)
        requires
            i < buf_items(*self).len(),
        ensures
            *r == buf_items(*self)[i as int],
    {
        &self.items[i]
    }

    /// `SmallVec::as_slice`: the components as a slice.
    #[verifier::external_body]
    pub(crate) fn as_slice(&self) -> (r: &[Component])
        ensures
            r@ == buf_items(*self),
    {
        self.items.as_slice()
    }

    /// `SmallVec::into_vec`: the components moved into a `Vec`.
    #[verifier::external_body]
    pub(crate) fn into_vec(self) -> (r: Vec<Component>)
        ensures
            r@ == buf_items(self),
    {
        self.items.into_vec()
    }
}

/// Invalidation entries kept in insertion order.
#[verifier::external_body]
#[derive(Debug)]
pub struct EntryBuf {
    items: SmallVec<[InvalidationEntry; 8]>,
}

/// The entries a buffer holds, in order.
pub uninterp spec fn entry_items(v: EntryBuf) -> Seq<InvalidationEntry>;

impl View for EntryBuf {
    type V = Seq<InvalidationEntry>;

    open spec fn view(&self) -> Seq<InvalidationEntry> {
        entry_items(*self)
    }
}

impl EntryBuf {
    /// `SmallVec::new`: an empty buffer.
    #[verifier::external_body]
    pub(crate) fn new() -> (r: EntryBuf)
        ensures
            entry_items(r) == Seq::<InvalidationEntry>::empty(),
    {
        EntryBuf { items: SmallVec::new() }
    }

    /// `SmallVec::push`: appends an entry.
    #[verifier::external_body]
    pub(crate) fn push(&mut self, e: InvalidationEntry)
        ensures
            entry_items(*final(self)) == entry_items(*old(self)).push(e),
    {
        self.items.push(e);
    }

    /// `SmallVec::as_slice`: the entries as a slice.
    #[verifier::external_body]
    pub(crate) fn as_slice(&self) -> (r: &[InvalidationEntry])
        ensures
            r@ == entry_items(*self),
    {
        self.items.as_slice()
    }
}

/// Names kept in order (the arguments of `:lang()` or `::part()`).
#[verifier::external_body]
#[derive(Debug, PartialEq, Eq)]
pub struct AtomBuf {
    items: SmallVec<[Atom; 1]>,
}

/// The names a buffer holds, in order.
pub uninterp spec fn atom_items(v: AtomBuf) -> Seq<Atom>;

impl View for AtomBuf {
    type V = Seq<Atom>;

    open spec fn view(&self) -> Seq<Atom> {
        atom_items(*self)
    }
}

impl AtomBuf {
    /// `SmallVec::new`: an empty buffer.
    #[verifier::external_body]
    pub(crate) fn new() -> (r: AtomBuf)
        ensures
            atom_items(r) == Seq::<Atom>::empty(),
    {
        AtomBuf { items: SmallVec::new() }
    }

    /// `SmallVec::push`: appends a name.
    #[verifier::external_body]
    pub(crate) fn push(&mut self, a: Atom)
        ensures
            atom_items(*final(self)) == atom_items(*old(self)).push(a),
    {
        self.items.push(a);
    }

    /// `SmallVec::as_slice`: the names as a slice.
    #[verifier::external_body]
    pub(crate) fn as_slice(&self) -> (r: &[Atom])
        ensures
            r@ == atom_items(*self),
    {
        self.items.as_slice()
    }
}

impl core::ops::Deref for AtomBuf {
    type Target = [Atom];

    /// The names as a slice (`SmallVec`'s own `Deref`).
    #[verifier::external_body]
    fn deref(&self) -> (r: &[Atom])
        ensures
            r@ == atom_items(*self),
    {
        self.items.as_slice()
    }
}

} // verus!
