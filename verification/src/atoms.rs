//! Atoms: the smallest units of data.

use vstd::prelude::*;

use crate::values::{Value, ValueView};

verus! {

/// One statement: a subject has a value for a property.
#[derive(Debug)]
pub struct Atom {
    pub subject: String,
    pub property: String,
    pub value: Value,
}

/// An atom, with texts as sequences of characters.
pub struct AtomView {
    pub subject: Seq<char>,
    pub property: Seq<char>,
    pub value: ValueView,
}

impl View for Atom {
    type V = AtomView;

    open spec fn view(&self) -> AtomView {
        AtomView { subject: self.subject@, property: self.property@, value: self.value@ }
    }
}

/// The atoms that a vector holds, in order.
pub open spec fn atom_views(v: Seq<Atom>) -> Seq<AtomView> {
    Seq::new(v.len(), |i: int| v[i]@)
}

impl Atom {
    /// The atom that says that `subject` has `value` for `property`.
    pub fn new(subject: String, property: String, value: Value) -> (r: Atom)
        ensures
            r@ == (AtomView { subject: subject@, property: property@, value: value@ }),
    {
        Atom { subject, property, value }
    }
}

impl Clone for Atom {
    fn clone(&self) -> (r: Self)
        ensures
            r@ == self@,
    {
        Atom {
            subject: self.subject.clone(),
            property: self.property.clone(),
            value: self.value.clone(),
        }
    }
}

} // verus!
