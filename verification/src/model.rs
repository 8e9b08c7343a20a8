//! The mathematical model of a store: its resources in the order in which
//! it walks them, and what a triple pattern selects from them.

use vstd::prelude::*;

use crate::atoms::AtomView;
use crate::json_array::array_items;
use crate::resources::{atoms_of, Resource, ResourceView};
use crate::text::has_prefix;
use crate::values::{value_text, ValueView};

verus! {

/// The resources that a vector holds, in order.
pub open spec fn resource_views(v: Seq<Resource>) -> Seq<ResourceView> {
    Seq::new(v.len(), |i: int| v[i]@)
}

/// Whether no subject occurs twice.
pub open spec fn distinct_subjects(rs: Seq<ResourceView>) -> bool {
    forall|i: int, j: int|
        0 <= i < j < rs.len() ==> (#[trigger] rs[i]).subject != (#[trigger] rs[j]).subject
}

/// Whether `rs` holds a resource for `subject`.
pub open spec fn has_subject(rs: Seq<ResourceView>, subject: Seq<char>) -> bool {
    exists|i: int| 0 <= i < rs.len() && (#[trigger] rs[i]).subject == subject
}

/// A position that holds the resource of `subject`, where there is one.
pub open spec fn subject_index(rs: Seq<ResourceView>, subject: Seq<char>) -> int {
    choose|i: int| 0 <= i < rs.len() && (#[trigger] rs[i]).subject == subject
}

/// The resource of `subject`, where there is one.
pub open spec fn find_resource(rs: Seq<ResourceView>, subject: Seq<char>) -> Option<
    ResourceView,
> {
    if has_subject(rs, subject) {
        Some(rs[subject_index(rs, subject)])
    } else {
        None
    }
}

/// The resources after `r` is stored: in the place of the one with its
/// subject, or at the end where there was none.
pub open spec fn put_resource(rs: Seq<ResourceView>, r: ResourceView) -> Seq<ResourceView> {
    if has_subject(rs, r.subject) {
        rs.update(subject_index(rs, r.subject), r)
    } else {
        rs.push(r)
    }
}

/// The resources without that of `subject`.
pub open spec fn drop_resource(rs: Seq<ResourceView>, subject: Seq<char>) -> Seq<ResourceView> {
    if has_subject(rs, subject) {
        rs.remove(subject_index(rs, subject))
    } else {
        rs
    }
}

/// The resources whose subject starts with `base`.
pub open spec fn internal(rs: Seq<ResourceView>, base: Seq<char>) -> Seq<ResourceView>
    decreases rs.len(),
{
    if rs.len() == 0 {
        Seq::empty()
    } else if has_prefix(rs.last().subject, base) {
        internal(rs.drop_last(), base).push(rs.last())
    } else {
        internal(rs.drop_last(), base)
    }
}

/// The resources that a walk of the store meets: all of them, or only
/// those of the store's own base URL.
pub open spec fn visible(rs: Seq<ResourceView>, base: Seq<char>, include_external: bool) -> Seq<
    ResourceView,
> {
    if include_external {
        rs
    } else {
        internal(rs, base)
    }
}

/// Whether a stored value answers to the text `q`: its text is `q`, or it
/// looks like an array, reads as one, and `q` is among its items.
pub open spec fn value_matches(v: ValueView, q: Seq<char>) -> bool {
    let t = value_text(v);
    t == q || (t.len() > 0 && t[0] == '[' && match array_items(t) {
        Some(items) => items.contains(q),
        None => false,
    })
}

/// Whether an atom answers to a pattern of property and value, where an
/// absent component admits everything.
pub open spec fn atom_matches(
    a: AtomView,
    q_property: Option<Seq<char>>,
    q_value: Option<Seq<char>>,
) -> bool {
    &&& q_property matches Some(p) ==> a.property == p
    &&& q_value matches Some(v) ==> value_matches(a.value, v)
}

/// The atoms among `atoms` that answer to the pattern, in order.
pub open spec fn select(
    atoms: Seq<AtomView>,
    q_property: Option<Seq<char>>,
    q_value: Option<Seq<char>>,
) -> Seq<AtomView>
    decreases atoms.len(),
{
    if atoms.len() == 0 {
        Seq::empty()
    } else if atom_matches(atoms.last(), q_property, q_value) {
        select(atoms.drop_last(), q_property, q_value).push(atoms.last())
    } else {
        select(atoms.drop_last(), q_property, q_value)
    }
}

/// The atoms of all of `rs`, resource after resource.
pub open spec fn atoms_of_all(rs: Seq<ResourceView>) -> Seq<AtomView>
    decreases rs.len(),
{
    if rs.len() == 0 {
        Seq::empty()
    } else {
        atoms_of_all(rs.drop_last()) + atoms_of(rs.last())
    }
}

/// The atoms of all of `rs` that answer to the pattern, resource after
/// resource.
pub open spec fn select_all(
    rs: Seq<ResourceView>,
    q_property: Option<Seq<char>>,
    q_value: Option<Seq<char>>,
) -> Seq<AtomView>
    decreases rs.len(),
{
    if rs.len() == 0 {
        Seq::empty()
    } else {
        select_all(rs.drop_last(), q_property, q_value) + select(
            atoms_of(rs.last()),
            q_property,
            q_value,
        )
    }
}

/// The resources after each of `new` is stored, in order.
pub open spec fn put_all(rs: Seq<ResourceView>, new: Seq<ResourceView>) -> Seq<ResourceView>
    decreases new.len(),
{
    if new.len() == 0 {
        rs
    } else {
        put_resource(put_all(rs, new.drop_last()), new.last())
    }
}

/// What a triple pattern selects. With a subject: the matching atoms of
/// that one resource, none where the store does not hold it. Without: the
/// matching atoms of every resource that the walk meets.
pub open spec fn tpf_result(
    rs: Seq<ResourceView>,
    base: Seq<char>,
    q_subject: Option<Seq<char>>,
    q_property: Option<Seq<char>>,
    q_value: Option<Seq<char>>,
    include_external: bool,
) -> Seq<AtomView> {
    match q_subject {
        Some(s) => match find_resource(rs, s) {
            Some(r) => select(atoms_of(r), q_property, q_value),
            None => Seq::empty(),
        },
        None => select_all(visible(rs, base, include_external), q_property, q_value),
    }
}

/// With distinct subjects, the resource at a position is the one that
/// `find_resource` gives for its subject.
pub proof fn lemma_find_at(rs: Seq<ResourceView>, i: int)
    requires
        distinct_subjects(rs),
        0 <= i < rs.len(),
    ensures
        has_subject(rs, rs[i].subject),
        subject_index(rs, rs[i].subject) == i,
        find_resource(rs, rs[i].subject) == Some(rs[i]),
{
    assert(rs[i].subject == rs[i].subject);
    let j = subject_index(rs, rs[i].subject);
    if j < i {
        assert(rs[j].subject != rs[i].subject);
    } else if i < j {
        assert(rs[i].subject != rs[j].subject);
    }
}

/// Storing a resource keeps the subjects distinct, makes it the one found
/// for its subject, and leaves the other subjects as they were.
pub proof fn lemma_put_resource(rs: Seq<ResourceView>, r: ResourceView)
    requires
        distinct_subjects(rs),
    ensures
        distinct_subjects(put_resource(rs, r)),
        find_resource(put_resource(rs, r), r.subject) == Some(r),
        forall|s: Seq<char>|
            s != r.subject ==> find_resource(put_resource(rs, r), s) == find_resource(rs, s),
{
    let out = put_resource(rs, r);
    let k = if has_subject(rs, r.subject) {
        subject_index(rs, r.subject)
    } else {
        rs.len() as int
    };
    assert(out[k] == r);
    assert forall|i: int, j: int| 0 <= i < j < out.len() implies (#[trigger] out[i]).subject != (
    #[trigger] out[j]).subject by {
        if j < rs.len() {
            assert(rs[i].subject != rs[j].subject);
        } else {
            assert(out[i] == rs[i]);
        }
    }
    lemma_find_at(out, k);
    assert forall|s: Seq<char>| s != r.subject implies find_resource(out, s) == find_resource(
        rs,
        s,
    ) by {
        if has_subject(rs, s) {
            let i = subject_index(rs, s);
            assert(out[i] == rs[i]);
            lemma_find_at(rs, i);
            lemma_find_at(out, i);
        } else if has_subject(out, s) {
            let i = subject_index(out, s);
            assert(rs[i].subject == s);
        }
    }
}

/// Taking a subject out keeps the subjects distinct, leaves that subject
/// without a resource and the others as they were.
pub proof fn lemma_drop_resource(rs: Seq<ResourceView>, subject: Seq<char>)
    requires
        distinct_subjects(rs),
    ensures
        distinct_subjects(drop_resource(rs, subject)),
        find_resource(drop_resource(rs, subject), subject) is None,
        forall|s: Seq<char>|
            s != subject ==> find_resource(drop_resource(rs, subject), s) == find_resource(rs, s),
{
    let out = drop_resource(rs, subject);
    if has_subject(rs, subject) {
        let k = subject_index(rs, subject);
        assert forall|i: int, j: int| 0 <= i < j < out.len() implies (#[trigger] out[i]).subject
            != (#[trigger] out[j]).subject by {
            let a = if i < k { i } else { i + 1 };
            let b = if j < k { j } else { j + 1 };
            assert(out[i] == rs[a] && out[j] == rs[b]);
            assert(rs[a].subject != rs[b].subject);
        }
        if has_subject(out, subject) {
            let i = subject_index(out, subject);
            let a = if i < k { i } else { i + 1 };
            assert(out[i] == rs[a]);
            lemma_find_at(rs, a);
        }
        assert forall|s: Seq<char>| s != subject implies find_resource(out, s) == find_resource(
            rs,
            s,
        ) by {
            if has_subject(rs, s) {
                let i = subject_index(rs, s);
                let a = if i < k { i } else { i - 1 };
                assert(out[a] == rs[i]);
                lemma_find_at(rs, i);
                lemma_find_at(out, a);
            } else if has_subject(out, s) {
                let i = subject_index(out, s);
                let a = if i < k { i } else { i + 1 };
                assert(out[i] == rs[a]);
                assert(rs[a].subject == s);
            }
        }
    }
}

/// Storing resources of distinct subjects in an empty store gives those
/// resources, in order.
pub proof fn lemma_put_all_fresh(v: Seq<ResourceView>)
    requires
        distinct_subjects(v),
    ensures
        put_all(Seq::empty(), v) == v,
    decreases v.len(),
{
    if v.len() == 0 {
        assert(v =~= Seq::empty());
    } else {
        let rest = v.drop_last();
        assert forall|i: int, j: int| 0 <= i < j < rest.len() implies (#[trigger] rest[i]).subject
            != (#[trigger] rest[j]).subject by {
            assert(v[i].subject != v[j].subject);
        }
        lemma_put_all_fresh(rest);
        if has_subject(rest, v.last().subject) {
            let k = subject_index(rest, v.last().subject);
            assert(v[k].subject != v[v.len() - 1].subject);
        }
        assert(rest.push(v.last()) =~= v);
    }
}

/// What a pattern selects from two rows of resources, one after the
/// other, is what it selects from the first, then what it selects from
/// the second.
pub proof fn lemma_select_all_concat(
    a: Seq<ResourceView>,
    b: Seq<ResourceView>,
    q_property: Option<Seq<char>>,
    q_value: Option<Seq<char>>,
)
    ensures
        select_all(a + b, q_property, q_value) == select_all(a, q_property, q_value) + select_all(
            b,
            q_property,
            q_value,
        ),
    decreases b.len(),
{
    if b.len() == 0 {
        assert(a + b =~= a);
        assert(select_all(a, q_property, q_value) + select_all(b, q_property, q_value)
            =~= select_all(a, q_property, q_value));
    } else {
        lemma_select_all_concat(a, b.drop_last(), q_property, q_value);
        assert((a + b).drop_last() =~= a + b.drop_last());
        assert((a + b).last() == b.last());
        assert(select_all(a + b, q_property, q_value) =~= select_all(a, q_property, q_value)
            + select_all(b, q_property, q_value));
    }
}

/// Where a pattern selects an atom from each resource of a row, it
/// selects at least as many atoms as the row has resources.
pub proof fn lemma_select_all_at_least(
    w: Seq<ResourceView>,
    q_property: Option<Seq<char>>,
    q_value: Option<Seq<char>>,
)
    requires
        forall|i: int|
            0 <= i < w.len() ==> select(atoms_of(#[trigger] w[i]), q_property, q_value).len() >= 1,
    ensures
        select_all(w, q_property, q_value).len() >= w.len(),
    decreases w.len(),
{
    if w.len() > 0 {
        let rest = w.drop_last();
        assert forall|i: int| 0 <= i < rest.len() implies select(
            atoms_of(#[trigger] rest[i]),
            q_property,
            q_value,
        ).len() >= 1 by {
            assert(rest[i] == w[i]);
        }
        lemma_select_all_at_least(rest, q_property, q_value);
        assert(select(atoms_of(w[w.len() - 1]), q_property, q_value).len() >= 1);
    }
}

/// A pattern without property and value selects every atom.
pub proof fn lemma_select_everything(atoms: Seq<AtomView>)
    ensures
        select(atoms, None, None) == atoms,
    decreases atoms.len(),
{
    if atoms.len() > 0 {
        lemma_select_everything(atoms.drop_last());
        assert(atoms.drop_last().push(atoms.last()) =~= atoms);
    } else {
        assert(atoms =~= Seq::empty());
    }
}

/// An atom is selected exactly where it is among the atoms and answers to
/// the pattern.
pub proof fn lemma_select_contains(
    atoms: Seq<AtomView>,
    q_property: Option<Seq<char>>,
    q_value: Option<Seq<char>>,
    a: AtomView,
)
    ensures
        select(atoms, q_property, q_value).contains(a) <==> atoms.contains(a) && atom_matches(
            a,
            q_property,
            q_value,
        ),
    decreases atoms.len(),
{
    let out = select(atoms, q_property, q_value);
    if atoms.len() > 0 {
        let rest = atoms.drop_last();
        let sel = select(rest, q_property, q_value);
        lemma_select_contains(rest, q_property, q_value, a);
        if atoms.contains(a) {
            let i = choose|i: int| 0 <= i < atoms.len() && atoms[i] == a;
            if i < rest.len() {
                assert(rest[i] == a);
            }
        }
        if rest.contains(a) {
            let i = choose|i: int| 0 <= i < rest.len() && rest[i] == a;
            assert(atoms[i] == a);
        }
        if atom_matches(atoms.last(), q_property, q_value) {
            assert(out == sel.push(atoms.last()));
            if out.contains(a) {
                let i = choose|i: int| 0 <= i < out.len() && out[i] == a;
                if i < sel.len() {
                    assert(sel[i] == a);
                } else {
                    assert(atoms[atoms.len() - 1] == a);
                }
            }
            if sel.contains(a) {
                let i = choose|i: int| 0 <= i < sel.len() && sel[i] == a;
                assert(out[i] == a);
            }
            if a == atoms.last() {
                assert(out[out.len() - 1] == a);
            }
        }
    }
}

/// A pattern without subject, property and value, over all resources,
/// selects the atoms of every resource: each atom of each resource is in
/// the result, and the result holds nothing else.
pub proof fn lemma_tpf_complete(rs: Seq<ResourceView>, base: Seq<char>)
    ensures
        tpf_result(rs, base, None, None, None, true) == atoms_of_all(rs),
        forall|i: int, j: int|
            0 <= i < rs.len() && 0 <= j < atoms_of(rs[i]).len() ==> atoms_of_all(rs).contains(
                #[trigger] atoms_of(rs[i])[j],
            ),
        forall|a: AtomView|
            atoms_of_all(rs).contains(a) ==> exists|i: int, j: int|
                0 <= i < rs.len() && 0 <= j < atoms_of(rs[i]).len() && #[trigger] atoms_of(
                    rs[i],
                )[j] == a,
    decreases rs.len(),
{
    if rs.len() == 0 {
    } else {
        let rest = rs.drop_last();
        lemma_tpf_complete(rest, base);
        lemma_select_everything(atoms_of(rs.last()));
        let all = atoms_of_all(rs);
        let before = atoms_of_all(rest);
        let last = atoms_of(rs.last());
        assert(all == before + last);
        assert forall|i: int, j: int|
            0 <= i < rs.len() && 0 <= j < atoms_of(rs[i]).len() implies all.contains(
            #[trigger] atoms_of(rs[i])[j],
        ) by {
            if i < rest.len() {
                assert(rest[i] == rs[i]);
                let k = choose|k: int|
                    0 <= k < before.len() && before[k] == atoms_of(rest[i])[j];
                assert(all[k] == atoms_of(rs[i])[j]);
            } else {
                assert(all[before.len() + j] == last[j]);
            }
        }
        assert forall|a: AtomView| all.contains(a) implies exists|i: int, j: int|
            0 <= i < rs.len() && 0 <= j < atoms_of(rs[i]).len() && #[trigger] atoms_of(rs[i])[j]
                == a by {
            let k = choose|k: int| 0 <= k < all.len() && all[k] == a;
            if k < before.len() {
                assert(before[k] == a);
                assert(before.contains(a));
                let (i, j) = choose|i: int, j: int|
                    0 <= i < rest.len() && 0 <= j < atoms_of(rest[i]).len() && #[trigger] atoms_of(
                        rest[i],
                    )[j] == a;
                assert(rest[i] == rs[i]);
                assert(atoms_of(rs[i])[j] == a);
            } else {
                let j = k - before.len();
                assert(atoms_of(rs[rs.len() - 1])[j] == a);
            }
        }
    }
}

} // verus!
