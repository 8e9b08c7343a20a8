//! The value index: for a property and the text of a value, the subjects
//! that have it. An array is indexed under its own text and under each of
//! its items, so that the index answers as a triple pattern does.

use vstd::prelude::*;

use crate::json_array::parse_json_array;
use crate::atoms::AtomView;
use crate::model::{
    atom_matches, distinct_subjects, find_resource, has_subject, internal, lemma_find_at,
    lemma_select_contains, select, select_all, subject_index, tpf_result, value_matches, visible,
};
use crate::resources::{atoms_of, prop_index};
use crate::text::has_prefix;
use crate::resources::{
    distinct_props, has_prop, lemma_lookup_at, lookup, propval_views, Resource, ResourceView,
};
use crate::text::{starts_with, views};
use crate::values::{value_text, Value, ValueView};

verus! {

/// One entry of the index.
#[derive(Debug)]
pub struct IndexEntry {
    pub property: String,
    pub value: String,
    pub subject: String,
}

/// Whether the entries say that `subject` has `value` for `property`.
pub open spec fn entries_hold(
    entries: Seq<IndexEntry>,
    property: Seq<char>,
    value: Seq<char>,
    subject: Seq<char>,
) -> bool {
    exists|i: int|
        0 <= i < entries.len() && (#[trigger] entries[i]).property@ == property
            && entries[i].value@ == value && entries[i].subject@ == subject
}

/// Whether a resource has, for `property`, a value that answers to the
/// text `value`.
pub open spec fn resource_holds(r: ResourceView, property: Seq<char>, value: Seq<char>) -> bool {
    lookup(r.propvals, property) matches Some(v) && value_matches(v, value)
}

/// What an index over the resources of a store holds: that `subject` has
/// `value` for `property`, exactly where the store holds a resource for
/// the subject that has such a value, and the index covers the subject.
/// An index that leaves external resources out covers the subjects under
/// the base URL.
pub open spec fn indexed(
    rs: Seq<ResourceView>,
    base: Seq<char>,
    include_external: bool,
    property: Seq<char>,
    value: Seq<char>,
    subject: Seq<char>,
) -> bool {
    &&& include_external || has_prefix(subject, base)
    &&& find_resource(rs, subject) matches Some(r) && resource_holds(r, property, value)
}

/// Whether one of the entries from the start to `n` answers for a value
/// to the text `q`.
pub open spec fn prefix_holds(
    pvs: Seq<(Seq<char>, ValueView)>,
    n: int,
    property: Seq<char>,
    q: Seq<char>,
) -> bool {
    exists|j: int| 0 <= j < n && j < pvs.len() && (#[trigger] pvs[j]).0 == property && value_matches(
        pvs[j].1,
        q,
    )
}

/// With distinct properties, a resource holds a value for a property
/// exactly where one of its entries does.
pub proof fn lemma_resource_holds(r: ResourceView, property: Seq<char>, q: Seq<char>)
    requires
        distinct_props(r.propvals),
    ensures
        resource_holds(r, property, q) == prefix_holds(
            r.propvals,
            r.propvals.len() as int,
            property,
            q,
        ),
{
    let pvs = r.propvals;
    if prefix_holds(pvs, pvs.len() as int, property, q) {
        let j = choose|j: int|
            0 <= j < pvs.len() && (#[trigger] pvs[j]).0 == property && value_matches(pvs[j].1, q);
        lemma_lookup_at(pvs, j);
    }
    if resource_holds(r, property, q) {
        assert(has_prop(pvs, property));
        let j = crate::resources::prop_index(pvs, property);
        assert(pvs[j].0 == property && value_matches(pvs[j].1, q));
    }
}

/// The resources of a store's own base URL are those of its resources
/// whose subject starts with it.
pub proof fn lemma_internal_contains(rs: Seq<ResourceView>, base: Seq<char>, r: ResourceView)
    ensures
        internal(rs, base).contains(r) <==> rs.contains(r) && has_prefix(r.subject, base),
    decreases rs.len(),
{
    if rs.len() > 0 {
        let rest = rs.drop_last();
        let kept = internal(rest, base);
        let out = internal(rs, base);
        lemma_internal_contains(rest, base, r);
        if rs.contains(r) {
            let i = choose|i: int| 0 <= i < rs.len() && rs[i] == r;
            if i < rest.len() {
                assert(rest[i] == r);
            }
        }
        if rest.contains(r) {
            let i = choose|i: int| 0 <= i < rest.len() && rest[i] == r;
            assert(rs[i] == r);
        }
        if has_prefix(rs.last().subject, base) {
            if out.contains(r) {
                let i = choose|i: int| 0 <= i < out.len() && out[i] == r;
                if i < kept.len() {
                    assert(kept[i] == r);
                } else {
                    assert(rs[rs.len() - 1] == r);
                }
            }
            if kept.contains(r) {
                let i = choose|i: int| 0 <= i < kept.len() && kept[i] == r;
                assert(out[i] == r);
            }
            if r == rs.last() {
                assert(out[out.len() - 1] == r);
            }
        }
    }
}

/// An atom is selected from a row of resources exactly where it is an
/// atom of one of them and answers to the pattern.
pub proof fn lemma_select_all_contains(
    w: Seq<ResourceView>,
    q_property: Option<Seq<char>>,
    q_value: Option<Seq<char>>,
    a: AtomView,
)
    ensures
        select_all(w, q_property, q_value).contains(a) <==> atom_matches(a, q_property, q_value)
            && exists|i: int| 0 <= i < w.len() && atoms_of(#[trigger] w[i]).contains(a),
    decreases w.len(),
{
    if w.len() > 0 {
        let rest = w.drop_last();
        let before = select_all(rest, q_property, q_value);
        let last = select(atoms_of(w.last()), q_property, q_value);
        let out = select_all(w, q_property, q_value);
        lemma_select_all_contains(rest, q_property, q_value, a);
        lemma_select_contains(atoms_of(w.last()), q_property, q_value, a);
        assert(out == before + last);
        if out.contains(a) {
            let k = choose|k: int| 0 <= k < out.len() && out[k] == a;
            if k < before.len() {
                assert(before[k] == a);
                let i = choose|i: int| 0 <= i < rest.len() && atoms_of(#[trigger] rest[i]).contains(a);
                assert(w[i] == rest[i]);
            } else {
                assert(last[k - before.len()] == a);
                assert(atoms_of(w[w.len() - 1]).contains(a));
            }
        }
        if atom_matches(a, q_property, q_value) && exists|i: int|
            0 <= i < w.len() && atoms_of(#[trigger] w[i]).contains(a) {
            let i = choose|i: int| 0 <= i < w.len() && atoms_of(#[trigger] w[i]).contains(a);
            if i < rest.len() {
                assert(rest[i] == w[i]);
                assert(before.contains(a));
                let k = choose|k: int| 0 <= k < before.len() && before[k] == a;
                assert(out[k] == a);
            } else {
                assert(last.contains(a));
                let k = choose|k: int| 0 <= k < last.len() && last[k] == a;
                assert(out[before.len() + k] == a);
            }
        }
    }
}

/// The index and the walk agree. In a store whose subjects are distinct
/// and whose resources have distinct properties, an index over it holds
/// that `subject` has `value` for `property` exactly where the triple
/// pattern of that property and value selects an atom of that subject.
pub proof fn lemma_index_agrees_with_walk(
    rs: Seq<ResourceView>,
    base: Seq<char>,
    include_external: bool,
    property: Seq<char>,
    value: Seq<char>,
    subject: Seq<char>,
)
    requires
        distinct_subjects(rs),
        forall|i: int| 0 <= i < rs.len() ==> distinct_props((#[trigger] rs[i]).propvals),
    ensures
        indexed(rs, base, include_external, property, value, subject) <==> exists|a: AtomView|
            #[trigger] tpf_result(
                rs,
                base,
                None,
                Some(property),
                Some(value),
                include_external,
            ).contains(a) && a.subject == subject,
{
    let w = visible(rs, base, include_external);
    let found = tpf_result(rs, base, None, Some(property), Some(value), include_external);
    assert(found == select_all(w, Some(property), Some(value)));
    if indexed(rs, base, include_external, property, value, subject) {
        let k = subject_index(rs, subject);
        let r = rs[k];
        let j = prop_index(r.propvals, property);
        let a = atoms_of(r)[j];
        assert(atoms_of(r).contains(a));
        assert(rs.contains(r));
        if !include_external {
            lemma_internal_contains(rs, base, r);
        }
        let i = choose|i: int| 0 <= i < w.len() && w[i] == r;
        assert(atoms_of(w[i]).contains(a));
        lemma_select_all_contains(w, Some(property), Some(value), a);
        assert(found.contains(a) && a.subject == subject);
    }
    if exists|a: AtomView| #[trigger] found.contains(a) && a.subject == subject {
        let a = choose|a: AtomView| #[trigger] found.contains(a) && a.subject == subject;
        lemma_select_all_contains(w, Some(property), Some(value), a);
        let i = choose|i: int| 0 <= i < w.len() && atoms_of(#[trigger] w[i]).contains(a);
        let r = w[i];
        let j = choose|j: int| 0 <= j < atoms_of(r).len() && atoms_of(r)[j] == a;
        assert(w.contains(r));
        if !include_external {
            lemma_internal_contains(rs, base, r);
        }
        let k = choose|k: int| 0 <= k < rs.len() && rs[k] == r;
        lemma_find_at(rs, k);
        assert(distinct_props(rs[k].propvals));
        lemma_lookup_at(r.propvals, j);
    }
}

/// Whether one of the first `n` resources of a walk is that of `subject`
/// and has, for `property`, a value that answers to the text `value`.
pub open spec fn walk_holds(
    w: Seq<ResourceView>,
    n: int,
    property: Seq<char>,
    value: Seq<char>,
    subject: Seq<char>,
) -> bool {
    exists|k: int|
        0 <= k < n && k < w.len() && (#[trigger] w[k]).subject == subject && prefix_holds(
            w[k].propvals,
            w[k].propvals.len() as int,
            property,
            value,
        )
}

/// A walk of a store meets a resource of `subject` with such a value
/// exactly where an index over the store would hold it, in a store whose
/// subjects are distinct and whose resources have distinct properties.
pub proof fn lemma_walk_is_indexed(
    rs: Seq<ResourceView>,
    base: Seq<char>,
    include_external: bool,
    property: Seq<char>,
    value: Seq<char>,
    subject: Seq<char>,
)
    requires
        distinct_subjects(rs),
        forall|k: int|
            0 <= k < visible(rs, base, include_external).len() ==> distinct_props(
                (#[trigger] visible(rs, base, include_external)[k]).propvals,
            ),
    ensures
        walk_holds(
            visible(rs, base, include_external),
            visible(rs, base, include_external).len() as int,
            property,
            value,
            subject,
        ) == indexed(rs, base, include_external, property, value, subject),
{
    let w = visible(rs, base, include_external);
    if walk_holds(w, w.len() as int, property, value, subject) {
        let k = choose|k: int|
            0 <= k < w.len() && (#[trigger] w[k]).subject == subject && prefix_holds(
                w[k].propvals,
                w[k].propvals.len() as int,
                property,
                value,
            );
        let r = w[k];
        assert(w.contains(r));
        if !include_external {
            lemma_internal_contains(rs, base, r);
        }
        let m = choose|m: int| 0 <= m < rs.len() && rs[m] == r;
        lemma_find_at(rs, m);
        lemma_resource_holds(r, property, value);
    }
    if indexed(rs, base, include_external, property, value, subject) {
        let m = subject_index(rs, subject);
        let r = rs[m];
        assert(rs.contains(r));
        if !include_external {
            lemma_internal_contains(rs, base, r);
        }
        assert(w.contains(r));
        let k = choose|k: int| 0 <= k < w.len() && w[k] == r;
        assert(distinct_props(w[k].propvals));
        lemma_resource_holds(r, property, value);
    }
}

/// The value index.
#[derive(Debug)]
pub struct ValueIndex {
    pub entries: Vec<IndexEntry>,
}

impl ValueIndex {
    /// An index without entries.
    pub fn new() -> (r: ValueIndex)
        ensures
            forall|p: Seq<char>, q: Seq<char>, s: Seq<char>| !#[trigger] entries_hold(r.entries@, p, q, s),
    {
        ValueIndex { entries: Vec::new() }
    }

    /// Takes every entry of `subject` out.
    pub fn remove_subject(&mut self, subject: &str)
        ensures
            forall|p: Seq<char>, q: Seq<char>, s: Seq<char>|
                #[trigger] entries_hold(final(self).entries@, p, q, s) == (entries_hold(old(self).entries@, p, q, s) && s
                    != subject@),
    {
        let key = subject.to_owned();
        let mut kept: Vec<IndexEntry> = Vec::new();
        let mut all: Vec<IndexEntry> = Vec::new();
        std::mem::swap(&mut self.entries, &mut all);
        let ghost before = all@;
        let ghost n = all@.len();
        while all.len() > 0
            invariant
                key@ == subject@,
                n == before.len(),
                all@.len() <= n,
                all@ == before.take(all@.len() as int),
                forall|i: int|
                    0 <= i < kept@.len() ==> (#[trigger] kept@[i]).subject@ != subject@
                        && entries_hold(
                        before,
                        kept@[i].property@,
                        kept@[i].value@,
                        kept@[i].subject@,
                    ),
                forall|i: int|
                    all@.len() <= i < n && (#[trigger] before[i]).subject@ != subject@
                        ==> entries_hold(
                        kept@,
                        before[i].property@,
                        before[i].value@,
                        before[i].subject@,
                    ),
            decreases all@.len(),
        {
            let ghost m = all@.len() as int;
            let ghost old_kept = kept@;
            let entry = all.pop().unwrap();
            assert(entry == before[m - 1]);
            assert(all@ =~= before.take(m - 1));
            if entry.subject != key {
                kept.push(entry);
                assert(kept@[old_kept.len() as int] == entry);
                assert forall|i: int|
                    all@.len() <= i < n && (#[trigger] before[i]).subject@
                        != subject@ implies entries_hold(
                    kept@,
                    before[i].property@,
                    before[i].value@,
                    before[i].subject@,
                ) by {
                    if i == m - 1 {
                        assert(kept@[old_kept.len() as int].property@ == before[i].property@);
                    } else {
                        let k = choose|k: int|
                            0 <= k < old_kept.len() && (#[trigger] old_kept[k]).property@
                                == before[i].property@ && old_kept[k].value@ == before[i].value@
                                && old_kept[k].subject@ == before[i].subject@;
                        assert(kept@[k] == old_kept[k]);
                    }
                }
                assert forall|i: int| 0 <= i < kept@.len() implies (#[trigger] kept@[i]).subject@
                    != subject@ && entries_hold(
                    before,
                    kept@[i].property@,
                    kept@[i].value@,
                    kept@[i].subject@,
                ) by {
                    if i < old_kept.len() {
                        assert(kept@[i] == old_kept[i]);
                    } else {
                        assert(before[m - 1].property@ == kept@[i].property@);
                    }
                }
            }
        }
        std::mem::swap(&mut self.entries, &mut kept);
        assert forall|p: Seq<char>, q: Seq<char>, s: Seq<char>| #[trigger]
            entries_hold(self.entries@, p, q, s) == (entries_hold(before, p, q, s) && s != subject@) by {
            if entries_hold(self.entries@, p, q, s) {
                let i = choose|i: int|
                    0 <= i < self.entries@.len() && (#[trigger] self.entries@[i]).property@ == p
                        && self.entries@[i].value@ == q && self.entries@[i].subject@ == s;
                assert(entries_hold(
                    before,
                    self.entries@[i].property@,
                    self.entries@[i].value@,
                    self.entries@[i].subject@,
                ));
            }
            if entries_hold(before, p, q, s) && s != subject@ {
                let i = choose|i: int|
                    0 <= i < before.len() && (#[trigger] before[i]).property@ == p
                        && before[i].value@ == q && before[i].subject@ == s;
                assert(entries_hold(
                    self.entries@,
                    before[i].property@,
                    before[i].value@,
                    before[i].subject@,
                ));
            }
        }
    }

    /// Adds the entry that says that `subject` has `value` for `property`.
    pub fn add(&mut self, property: &str, value: &str, subject: &str)
        ensures
            forall|p: Seq<char>, q: Seq<char>, s: Seq<char>|
                #[trigger] entries_hold(final(self).entries@, p, q, s) == (entries_hold(old(self).entries@, p, q, s) || (p
                    == property@ && q == value@ && s == subject@)),
    {
        let ghost before = self.entries@;
        self.entries.push(
            IndexEntry {
                property: property.to_owned(),
                value: value.to_owned(),
                subject: subject.to_owned(),
            },
        );
        let ghost n = before.len() as int;
        assert forall|p: Seq<char>, q: Seq<char>, s: Seq<char>| #[trigger]
            entries_hold(self.entries@, p, q, s) == (entries_hold(before, p, q, s) || (p == property@ && q == value@
                && s == subject@)) by {
            if entries_hold(self.entries@, p, q, s) {
                let i = choose|i: int|
                    0 <= i < self.entries@.len() && (#[trigger] self.entries@[i]).property@ == p
                        && self.entries@[i].value@ == q && self.entries@[i].subject@ == s;
                if i < n {
                    assert(before[i] == self.entries@[i]);
                }
            }
            if entries_hold(before, p, q, s) {
                let i = choose|i: int|
                    0 <= i < before.len() && (#[trigger] before[i]).property@ == p
                        && before[i].value@ == q && before[i].subject@ == s;
                assert(self.entries@[i] == before[i]);
            }
            if p == property@ && q == value@ && s == subject@ {
                assert(self.entries@[n].property@ == p);
            }
        }
    }

    /// Adds the entries for one value: one under its text and, where the
    /// text reads as an array, one under each item.
    pub fn add_value(&mut self, property: &str, value: &Value, subject: &str)
        ensures
            forall|p: Seq<char>, q: Seq<char>, s: Seq<char>|
                #[trigger] entries_hold(final(self).entries@, p, q, s) == (entries_hold(old(self).entries@, p, q, s) || (p
                    == property@ && s == subject@ && value_matches(value@, q))),
    {
        let ghost before = self.entries@;
        let text = value.to_string();
        self.add(property, text.as_str(), subject);
        proof {
            reveal_strlit("[");
        }
        if starts_with(text.as_str(), "[") {
            assert(text@.take(1)[0] == '[');
            match parse_json_array(text.as_str()) {
                Some(items) => {
                    let ghost listed = views(items@);
                    let mut i: usize = 0;
                    while i < items.len()
                        invariant
                            i <= items@.len(),
                            listed == views(items@),
                            forall|p: Seq<char>, q: Seq<char>, s: Seq<char>|
                                #[trigger] entries_hold(self.entries@, p, q, s) == (entries_hold(before, p, q, s)
                                    || (p == property@ && s == subject@ && (q == text@
                                    || listed.take(i as int).contains(q)))),
                        decreases items@.len() - i,
                    {
                        let ghost mid = self.entries@;
                        self.add(property, items[i].as_str(), subject);
                        assert forall|p: Seq<char>, q: Seq<char>, s: Seq<char>| #[trigger]
                            entries_hold(self.entries@, p, q, s) == (entries_hold(before, p, q, s) || (p
                                == property@ && s == subject@ && (q == text@ || listed.take(
                                i + 1,
                            ).contains(q)))) by {
                            assert(entries_hold(mid, p, q, s) == (entries_hold(before, p, q, s)
                                || (p == property@ && s == subject@ && (q == text@
                                || listed.take(i as int).contains(q)))));
                            assert(listed[i as int] == items@[i as int]@);
                            let t0 = listed.take(i as int);
                            let t1 = listed.take(i + 1);
                            if t1.contains(q) {
                                let k = choose|k: int| 0 <= k < t1.len() && #[trigger] t1[k] == q;
                                if k < i {
                                    assert(t0[k] == q);
                                }
                            }
                            if t0.contains(q) {
                                let k = choose|k: int| 0 <= k < t0.len() && #[trigger] t0[k] == q;
                                assert(t1[k] == q);
                            }
                            if q == listed[i as int] {
                                assert(t1[i as int] == q);
                            }
                        }
                        i = i + 1;
                    }
                    assert(listed.take(i as int) =~= listed);
                },
                None => {},
            }
        } else {
            assert(text@.len() > 0 && text@[0] == '[' ==> text@.take(1) =~= "["@);
        }
    }

    /// Adds the entries for every value of `resource`.
    pub fn add_resource(&mut self, resource: &Resource)
        ensures
            forall|p: Seq<char>, q: Seq<char>, s: Seq<char>|
                #[trigger] entries_hold(final(self).entries@, p, q, s) == (entries_hold(old(self).entries@, p, q, s) || (s
                    == resource@.subject && resource_holds(resource@, p, q))),
    {
        let ghost before = self.entries@;
        let ghost pvs = resource@.propvals;
        let propvals = resource.get_propvals();
        let mut i: usize = 0;
        while i < propvals.len()
            invariant
                i <= propvals@.len(),
                pvs == propval_views(propvals@),
                forall|p: Seq<char>, q: Seq<char>, s: Seq<char>|
                    #[trigger] entries_hold(self.entries@, p, q, s) == (entries_hold(before, p, q, s) || (s
                        == resource@.subject && prefix_holds(pvs, i as int, p, q))),
            decreases propvals@.len() - i,
        {
            let ghost mid = self.entries@;
            assert(pvs[i as int] == propvals@[i as int]@);
            self.add_value(
                propvals[i].property.as_str(),
                &propvals[i].value,
                resource.get_subject().as_str(),
            );
            assert forall|p: Seq<char>, q: Seq<char>, s: Seq<char>| #[trigger]
                entries_hold(self.entries@, p, q, s) == (entries_hold(before, p, q, s) || (s == resource@.subject
                    && prefix_holds(pvs, i + 1, p, q))) by {
                assert(entries_hold(mid, p, q, s) == (entries_hold(before, p, q, s) || (s
                    == resource@.subject && prefix_holds(pvs, i as int, p, q))));
                if prefix_holds(pvs, i + 1, p, q) {
                    let j = choose|j: int|
                        0 <= j < i + 1 && j < pvs.len() && (#[trigger] pvs[j]).0 == p
                            && value_matches(pvs[j].1, q);
                    if j < i {
                        assert(prefix_holds(pvs, i as int, p, q));
                    }
                }
                if prefix_holds(pvs, i as int, p, q) {
                    let j = choose|j: int|
                        0 <= j < i && j < pvs.len() && (#[trigger] pvs[j]).0 == p && value_matches(
                            pvs[j].1,
                            q,
                        );
                    assert(prefix_holds(pvs, i + 1, p, q));
                }
                if p == pvs[i as int].0 && value_matches(pvs[i as int].1, q) {
                    assert(prefix_holds(pvs, i + 1, p, q));
                }
            }
            i = i + 1;
        }
        proof {
            assert forall|p: Seq<char>, q: Seq<char>, s: Seq<char>| #[trigger]
                entries_hold(self.entries@, p, q, s) == (entries_hold(before, p, q, s) || (s == resource@.subject
                    && resource_holds(resource@, p, q))) by {
                lemma_resource_holds(resource@, p, q);
            }
        }
    }

    /// The subjects that the index has for `property` and `value`, each
    /// once.
    pub fn subjects(&self, property: &str, value: &str) -> (r: Vec<String>)
        ensures
            forall|s: Seq<char>| views(r@).contains(s) == entries_hold(self.entries@, property@, value@, s),
    {
        let p = property.to_owned();
        let q = value.to_owned();
        let mut out: Vec<String> = Vec::new();
        let mut i: usize = 0;
        while i < self.entries.len()
            invariant
                i <= self.entries@.len(),
                p@ == property@,
                q@ == value@,
                forall|s: Seq<char>|
                    views(out@).contains(s) == entries_hold(
                        self.entries@.take(i as int),
                        property@,
                        value@,
                        s,
                    ),
            decreases self.entries@.len() - i,
        {
            let entry = &self.entries[i];
            let ghost done = self.entries@.take(i as int);
            let ghost next = self.entries@.take(i + 1);
            let ghost before = views(out@);
            let fresh = entry.property == p && entry.value == q && !crate::text::contains_str(
                &out,
                entry.subject.as_str(),
            );
            if fresh {
                out.push(entry.subject.clone());
                assert(views(out@) =~= before.push(entry.subject@));
            }
            assert forall|s: Seq<char>|
                views(out@).contains(s) == entries_hold(next, property@, value@, s) by {
                assert(before.contains(s) == entries_hold(done, property@, value@, s));
                if entries_hold(done, property@, value@, s) {
                    let k = choose|k: int|
                        0 <= k < done.len() && (#[trigger] done[k]).property@ == property@
                            && done[k].value@ == value@ && done[k].subject@ == s;
                    assert(next[k] == done[k]);
                }
                if entries_hold(next, property@, value@, s) {
                    let k = choose|k: int|
                        0 <= k < next.len() && (#[trigger] next[k]).property@ == property@
                            && next[k].value@ == value@ && next[k].subject@ == s;
                    if k < i {
                        assert(done[k] == next[k]);
                    } else {
                        assert(next[k] == *entry);
                    }
                }
                if entry.property@ == property@ && entry.value@ == value@ && entry.subject@ == s {
                    assert(next[i as int] == *entry);
                }
                if fresh {
                    if views(out@).contains(s) {
                        let now = views(out@);
                        let k = choose|k: int| 0 <= k < now.len() && #[trigger] now[k] == s;
                        if k < before.len() {
                            assert(before[k] == s);
                        }
                    }
                    if before.contains(s) {
                        let k = choose|k: int| 0 <= k < before.len() && #[trigger] before[k] == s;
                        assert(views(out@)[k] == s);
                    }
                    assert(views(out@)[before.len() as int] == entry.subject@);
                }
            }
            i = i + 1;
        }
        assert(self.entries@.take(i as int) =~= self.entries@);
        out
    }
}

} // verus!
