//! Resources: for one subject, an ordered mapping from property to value.

use vstd::prelude::*;

use crate::atoms::{atom_views, Atom, AtomView};
use crate::errors::{AtomicError, ErrorView};
use crate::values::{Value, ValueView};

verus! {

/// One entry of a resource: a property and its value.
#[derive(Debug)]
pub struct PropVal {
    pub property: String,
    pub value: Value,
}

impl View for PropVal {
    type V = (Seq<char>, ValueView);

    open spec fn view(&self) -> (Seq<char>, ValueView) {
        (self.property@, self.value@)
    }
}

impl Clone for PropVal {
    fn clone(&self) -> (r: Self)
        ensures
            r@ == self@,
    {
        PropVal { property: self.property.clone(), value: self.value.clone() }
    }
}

/// The entries that a vector holds, in order.
pub open spec fn propval_views(v: Seq<PropVal>) -> Seq<(Seq<char>, ValueView)> {
    Seq::new(v.len(), |i: int| v[i]@)
}

/// Whether no property occurs twice.
pub open spec fn distinct_props(pvs: Seq<(Seq<char>, ValueView)>) -> bool {
    forall|i: int, j: int| 0 <= i < j < pvs.len() ==> (#[trigger] pvs[i]).0 != (#[trigger] pvs[j]).0
}

/// Whether `p` is one of the properties.
pub open spec fn has_prop(pvs: Seq<(Seq<char>, ValueView)>, p: Seq<char>) -> bool {
    exists|i: int| 0 <= i < pvs.len() && (#[trigger] pvs[i]).0 == p
}

/// A position that holds `p`, where there is one.
pub open spec fn prop_index(pvs: Seq<(Seq<char>, ValueView)>, p: Seq<char>) -> int {
    choose|i: int| 0 <= i < pvs.len() && (#[trigger] pvs[i]).0 == p
}

/// The value of `p`, where it has one.
pub open spec fn lookup(pvs: Seq<(Seq<char>, ValueView)>, p: Seq<char>) -> Option<ValueView> {
    if has_prop(pvs, p) {
        Some(pvs[prop_index(pvs, p)].1)
    } else {
        None
    }
}

/// The entries after `p` is given the value `v`: in place where `p` had a
/// value, at the end where it had none.
pub open spec fn upsert(pvs: Seq<(Seq<char>, ValueView)>, p: Seq<char>, v: ValueView) -> Seq<
    (Seq<char>, ValueView),
> {
    if has_prop(pvs, p) {
        pvs.update(prop_index(pvs, p), (p, v))
    } else {
        pvs.push((p, v))
    }
}

/// The entries without that of `p`.
pub open spec fn without(pvs: Seq<(Seq<char>, ValueView)>, p: Seq<char>) -> Seq<
    (Seq<char>, ValueView),
> {
    if has_prop(pvs, p) {
        pvs.remove(prop_index(pvs, p))
    } else {
        pvs
    }
}

/// A resource, with texts as sequences of characters.
pub struct ResourceView {
    pub subject: Seq<char>,
    pub propvals: Seq<(Seq<char>, ValueView)>,
    /// The identity of the last commit that was applied to the subject.
    pub head: Option<Seq<char>>,
}

/// The atoms of a resource: one for each entry, in order.
pub open spec fn atoms_of(r: ResourceView) -> Seq<AtomView> {
    Seq::new(
        r.propvals.len(),
        |i: int| AtomView { subject: r.subject, property: r.propvals[i].0, value: r.propvals[i].1 },
    )
}

/// With distinct properties, the entry found at a position is the one that
/// `lookup` gives.
pub proof fn lemma_lookup_at(pvs: Seq<(Seq<char>, ValueView)>, i: int)
    requires
        distinct_props(pvs),
        0 <= i < pvs.len(),
    ensures
        has_prop(pvs, pvs[i].0),
        prop_index(pvs, pvs[i].0) == i,
        lookup(pvs, pvs[i].0) == Some(pvs[i].1),
{
    assert(pvs[i].0 == pvs[i].0);
    let j = prop_index(pvs, pvs[i].0);
    assert(0 <= j < pvs.len() && pvs[j].0 == pvs[i].0);
    if j < i {
        assert(pvs[j].0 != pvs[i].0);
    } else if i < j {
        assert(pvs[i].0 != pvs[j].0);
    }
}

/// Giving a property a value keeps the properties distinct, makes that
/// value the one found, and leaves the other properties as they were.
pub proof fn lemma_upsert(pvs: Seq<(Seq<char>, ValueView)>, p: Seq<char>, v: ValueView)
    requires
        distinct_props(pvs),
    ensures
        distinct_props(upsert(pvs, p, v)),
        lookup(upsert(pvs, p, v), p) == Some(v),
        forall|q: Seq<char>| q != p ==> lookup(upsert(pvs, p, v), q) == lookup(pvs, q),
{
    let out = upsert(pvs, p, v);
    if has_prop(pvs, p) {
        let k = prop_index(pvs, p);
        assert forall|i: int, j: int| 0 <= i < j < out.len() implies (#[trigger] out[i]).0 != (
        #[trigger] out[j]).0 by {
            assert(pvs[i].0 != pvs[j].0);
        }
        assert(out[k] == (p, v));
        lemma_lookup_at(out, k);
        assert forall|q: Seq<char>| q != p implies lookup(out, q) == lookup(pvs, q) by {
            if has_prop(pvs, q) {
                let i = prop_index(pvs, q);
                assert(out[i] == pvs[i]);
                lemma_lookup_at(pvs, i);
                lemma_lookup_at(out, i);
            } else if has_prop(out, q) {
                let i = prop_index(out, q);
                assert(pvs[i].0 == q);
            }
        }
    } else {
        let k = pvs.len() as int;
        assert forall|i: int, j: int| 0 <= i < j < out.len() implies (#[trigger] out[i]).0 != (
        #[trigger] out[j]).0 by {
            if j < k {
                assert(pvs[i].0 != pvs[j].0);
            } else {
                assert(out[i] == pvs[i]);
            }
        }
        assert(out[k] == (p, v));
        lemma_lookup_at(out, k);
        assert forall|q: Seq<char>| q != p implies lookup(out, q) == lookup(pvs, q) by {
            if has_prop(pvs, q) {
                let i = prop_index(pvs, q);
                assert(out[i] == pvs[i]);
                lemma_lookup_at(pvs, i);
                lemma_lookup_at(out, i);
            } else if has_prop(out, q) {
                let i = prop_index(out, q);
                assert(pvs[i].0 == q);
            }
        }
    }
}

/// Taking a property out keeps the properties distinct, leaves that
/// property without a value and the others as they were.
pub proof fn lemma_without(pvs: Seq<(Seq<char>, ValueView)>, p: Seq<char>)
    requires
        distinct_props(pvs),
    ensures
        distinct_props(without(pvs, p)),
        lookup(without(pvs, p), p) is None,
        forall|q: Seq<char>| q != p ==> lookup(without(pvs, p), q) == lookup(pvs, q),
{
    let out = without(pvs, p);
    if has_prop(pvs, p) {
        let k = prop_index(pvs, p);
        assert forall|i: int| 0 <= i < out.len() implies #[trigger] out[i] == pvs[if i < k {
            i
        } else {
            i + 1
        }] by {}
        assert forall|i: int, j: int| 0 <= i < j < out.len() implies (#[trigger] out[i]).0 != (
        #[trigger] out[j]).0 by {
            let a = if i < k { i } else { i + 1 };
            let b = if j < k { j } else { j + 1 };
            assert(pvs[a].0 != pvs[b].0);
        }
        if has_prop(out, p) {
            let i = prop_index(out, p);
            let a = if i < k { i } else { i + 1 };
            assert(out[i] == pvs[a]);
            lemma_lookup_at(pvs, a);
        }
        assert forall|q: Seq<char>| q != p implies lookup(out, q) == lookup(pvs, q) by {
            if has_prop(pvs, q) {
                let i = prop_index(pvs, q);
                let a = if i < k { i } else { i - 1 };
                assert(out[a] == pvs[i]);
                lemma_lookup_at(pvs, i);
                lemma_lookup_at(out, a);
            } else if has_prop(out, q) {
                let i = prop_index(out, q);
                let a = if i < k { i } else { i + 1 };
                assert(out[i] == pvs[a]);
                assert(pvs[a].0 == q);
            }
        }
    }
}

/// The entries of one subject. No property occurs twice.
#[derive(Debug)]
pub struct Resource {
    subject: String,
    propvals: Vec<PropVal>,
    head: Option<String>,
}

impl View for Resource {
    type V = ResourceView;

    closed spec fn view(&self) -> ResourceView {
        ResourceView {
            subject: self.subject@,
            propvals: propval_views(self.propvals@),
            head: match self.head {
                Some(h) => Some(h@),
                None => None,
            },
        }
    }
}

impl Resource {
    #[verifier::type_invariant]
    spec fn inv(self) -> bool {
        distinct_props(propval_views(self.propvals@))
    }

    /// A resource without entries.
    pub fn new(subject: String) -> (r: Resource)
        ensures
            r@ == (ResourceView { subject: subject@, propvals: Seq::empty(), head: None }),
    {
        let r = Resource { subject, propvals: Vec::new(), head: None };
        assert(propval_views(r.propvals@) =~= Seq::empty());
        r
    }

    /// The subject.
    pub fn get_subject(&self) -> (r: &String)
        ensures
            r@ == self@.subject,
    {
        &self.subject
    }

    /// The entries, in order. No property occurs twice among them.
    pub fn get_propvals(&self) -> (r: &Vec<PropVal>)
        ensures
            propval_views(r@) == self@.propvals,
            distinct_props(self@.propvals),
    {
        proof {
            use_type_invariant(self);
        }
        &self.propvals
    }

    /// The identity of the last commit that was applied to the subject.
    pub fn get_head(&self) -> (r: Option<String>)
        ensures
            match self@.head {
                Some(h) => r matches Some(x) && x@ == h,
                None => r is None,
            },
    {
        match &self.head {
            Some(h) => Some(h.clone()),
            None => None,
        }
    }

    /// Records the identity of the last commit that was applied.
    pub fn set_head(&mut self, head: Option<String>)
        ensures
            final(self)@.subject == old(self)@.subject,
            final(self)@.propvals == old(self)@.propvals,
            match head {
                Some(h) => final(self)@.head == Some(h@),
                None => final(self)@.head is None,
            },
    {
        proof {
            use_type_invariant(&*self);
        }
        self.head = head;
    }

    /// The position of `property` among the entries.
    fn position(&self, property: &String) -> (r: Option<usize>)
        ensures
            distinct_props(self@.propvals),
            match r {
                Some(i) => has_prop(self@.propvals, property@) && i == prop_index(
                    self@.propvals,
                    property@,
                ) && i < self.propvals@.len(),
                None => !has_prop(self@.propvals, property@),
            },
    {
        proof {
            use_type_invariant(self);
        }
        let ghost pvs = propval_views(self.propvals@);
        let mut i: usize = 0;
        while i < self.propvals.len()
            invariant
                i <= self.propvals@.len(),
                pvs == propval_views(self.propvals@),
                distinct_props(pvs),
                forall|j: int| 0 <= j < i ==> (#[trigger] pvs[j]).0 != property@,
            decreases self.propvals@.len() - i,
        {
            if self.propvals[i].property == *property {
                proof {
                    assert(pvs[i as int].0 == property@);
                    lemma_lookup_at(pvs, i as int);
                }
                return Some(i);
            }
            i = i + 1;
        }
        None
    }

    /// The value of `property`. A property without a value is not found.
    pub fn get(&self, property: &str) -> (r: Result<&Value, AtomicError>)
        ensures
            match lookup(self@.propvals, property@) {
                Some(v) => r matches Ok(x) && x@ == v,
                None => r matches Err(e) && e@ == ErrorView::NotFound(property@),
            },
    {
        let key = property.to_owned();
        match self.position(&key) {
            Some(i) => Ok(&self.propvals[i].value),
            None => Err(AtomicError::NotFound(key)),
        }
    }

    /// Gives `property` the value `value`, in place where it had one and at
    /// the end where it had none, without asking whether the value fits the
    /// property's datatype.
    pub fn set_propval_unsafe(&mut self, property: String, value: Value)
        ensures
            final(self)@.subject == old(self)@.subject,
            final(self)@.head == old(self)@.head,
            final(self)@.propvals == upsert(old(self)@.propvals, property@, value@),
    {
        let ghost pvs = self@.propvals;
        proof {
            use_type_invariant(&*self);
            lemma_upsert(pvs, property@, value@);
        }
        match self.position(&property) {
            Some(i) => {
                let mut entries: Vec<PropVal> = Vec::new();
                assert(propval_views(entries@) =~= Seq::empty());
                std::mem::swap(&mut self.propvals, &mut entries);
                entries.set(i, PropVal { property, value });
                assert(propval_views(entries@) =~= upsert(pvs, property@, value@));
                std::mem::swap(&mut self.propvals, &mut entries);
            },
            None => {
                let mut entries: Vec<PropVal> = Vec::new();
                assert(propval_views(entries@) =~= Seq::empty());
                std::mem::swap(&mut self.propvals, &mut entries);
                entries.push(PropVal { property, value });
                assert(propval_views(entries@) =~= upsert(pvs, property@, value@));
                std::mem::swap(&mut self.propvals, &mut entries);
            },
        }
    }

    /// Takes the entry of `property` out, where there is one.
    pub fn remove_propval(&mut self, property: &str)
        ensures
            final(self)@.subject == old(self)@.subject,
            final(self)@.head == old(self)@.head,
            final(self)@.propvals == without(old(self)@.propvals, property@),
    {
        let ghost pvs = self@.propvals;
        proof {
            use_type_invariant(&*self);
            lemma_without(pvs, property@);
        }
        let key = property.to_owned();
        match self.position(&key) {
            Some(i) => {
                let mut entries: Vec<PropVal> = Vec::new();
                assert(propval_views(entries@) =~= Seq::empty());
                std::mem::swap(&mut self.propvals, &mut entries);
                entries.remove(i);
                assert(propval_views(entries@) =~= without(pvs, property@));
                std::mem::swap(&mut self.propvals, &mut entries);
            },
            None => {},
        }
    }

    /// The atoms of this resource: one for each entry, in order.
    pub fn to_atoms(&self) -> (r: Vec<Atom>)
        ensures
            atom_views(r@) == atoms_of(self@),
    {
        let mut out: Vec<Atom> = Vec::new();
        let mut i: usize = 0;
        while i < self.propvals.len()
            invariant
                i <= self.propvals@.len(),
                out@.len() == i,
                forall|j: int| 0 <= j < i ==> (#[trigger] out@[j])@ == atoms_of(self@)[j],
            decreases self.propvals@.len() - i,
        {
            let pv = &self.propvals[i];
            out.push(Atom::new(self.subject.clone(), pv.property.clone(), pv.value.clone()));
            i = i + 1;
        }
        assert(atom_views(out@) =~= atoms_of(self@));
        out
    }
}

impl Clone for Resource {
    fn clone(&self) -> (r: Self)
        ensures
            r@ == self@,
    {
        proof {
            use_type_invariant(self);
        }
        let mut propvals: Vec<PropVal> = Vec::new();
        let mut i: usize = 0;
        while i < self.propvals.len()
            invariant
                i <= self.propvals@.len(),
                propvals@.len() == i,
                forall|j: int| 0 <= j < i ==> (#[trigger] propvals@[j])@ == self.propvals@[j]@,
            decreases self.propvals@.len() - i,
        {
            propvals.push(self.propvals[i].clone());
            i = i + 1;
        }
        assert(propval_views(propvals@) =~= propval_views(self.propvals@));
        let head = match &self.head {
            Some(h) => Some(h.clone()),
            None => None,
        };
        Resource { subject: self.subject.clone(), propvals, head }
    }
}

} // verus!
