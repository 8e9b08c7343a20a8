//! What every store offers, however it keeps its resources.

use vstd::prelude::*;

use crate::agents::{
    agent_from_key, agent_resource, option_text, option_view, Agent, AgentView,
};
use crate::crypto::{base64_text, encode_base64, random_seed};
use crate::datetime_helpers::now;
use crate::atoms::{atom_views, Atom, AtomView};
use crate::errors::{AtomicError, ErrorView};
use crate::hierarchy::{parents_fault, read_resource, rights_of, Right, MAX_DEPTH};
use crate::index::{indexed, lemma_walk_is_indexed, prefix_holds, walk_holds};
use crate::resources::distinct_props;
use crate::decimal::parse_u32;
use crate::json_array::parse_json_array;
use crate::mapping::{is_url, looks_like_url, Mapping};
use crate::model::{
    atoms_of_all, distinct_subjects, drop_resource, find_resource, has_subject, put_all,
    put_resource, resource_views, select, select_all, tpf_result, value_matches, visible,
};
use crate::paths::{path_result, path_tokens, property_named, resolve_property, split_path, walk};
use crate::resources::{atoms_of, propval_views, upsert, Resource, ResourceView};
use crate::json::{json_ld, json_named, resource_to_json_named};
use crate::schema::{
    class_at, class_views, classes_from, classes_of, export_order, get_url_list, is_property,
    names_from, others_of, properties_of, property_at, row_views, rows_from, rows_of, Class,
    ClassView, Property, Row,
};
use crate::text::has_prefix;
use crate::populate::{base_model_resources, base_models};
use crate::resources::PropVal;
use crate::validate::{
    add_outcome, classes_check, counted, fault_views, faults_of, first_absent, put_atoms,
    reports, required_check, resource_fault, set_fault, with_atom, Fault, ValidationReport,
};
use crate::text::{contains_str, starts_with, str_eq, views};
use crate::urls;
use crate::values::Value;

verus! {

/// What a path leads to.
#[derive(Debug)]
pub enum PathReturn {
    Subject(String),
    Atom(Box<Atom>),
}

/// What a path leads to, with texts as sequences of characters.
pub enum PathView {
    Subject(Seq<char>),
    Atom(AtomView),
}

impl View for PathReturn {
    type V = PathView;

    open spec fn view(&self) -> PathView {
        match self {
            PathReturn::Subject(s) => PathView::Subject(s@),
            PathReturn::Atom(a) => PathView::Atom(a@),
        }
    }
}

/// The map that an optional mapping holds.
pub open spec fn mapping_view(mapping: Option<&Mapping>) -> Option<Map<Seq<char>, Seq<char>>> {
    match mapping {
        Some(m) => Some(m@),
        None => None,
    }
}

/// Whether a stored value answers to the text `q`.
pub fn value_answers(value: &Value, q: &str) -> (r: bool)
    ensures
        r == value_matches(value@, q@),
{
    let text = value.to_string();
    if str_eq(text.as_str(), q) {
        return true;
    }
    proof {
        reveal_strlit("[");
    }
    if starts_with(text.as_str(), "[") {
        assert(text@.take(1)[0] == '[');
        match parse_json_array(text.as_str()) {
            Some(items) => contains_str(&items, q),
            None => false,
        }
    } else {
        assert(text@.len() > 0 && text@[0] == '[' ==> text@.take(1) =~= "["@);
        false
    }
}

/// The first of `required` that has no value in `resource`.
pub fn find_absent(resource: &Resource, required: &Vec<String>) -> (r: Option<String>)
    ensures
        match first_absent(resource@.propvals, views(required@), 0) {
            Some(p) => r matches Some(x) && x@ == p,
            None => r is None,
        },
{
    let mut j: usize = 0;
    while j < required.len()
        invariant
            j <= required@.len(),
            first_absent(resource@.propvals, views(required@), j as int) == first_absent(
                resource@.propvals,
                views(required@),
                0,
            ),
        decreases required@.len() - j,
    {
        assert(views(required@)[j as int] == required@[j as int]@);
        match resource.get(required[j].as_str()) {
            Ok(_) => {},
            Err(_) => {
                return Some(required[j].clone());
            },
        }
        j = j + 1;
    }
    None
}

/// Adds to `out` the atoms of `resource` that answer to the pattern.
pub fn find_in_resource(
    resource: &Resource,
    q_property: Option<&str>,
    q_value: Option<&str>,
    out: &mut Vec<Atom>,
)
    ensures
        atom_views(final(out)@) == atom_views(old(out)@) + select(
            atoms_of(resource@),
            option_text(q_property),
            option_text(q_value),
        ),
{
    let ghost before = atom_views(out@);
    let ghost atoms = atoms_of(resource@);
    let ghost qp = option_text(q_property);
    let ghost qv = option_text(q_value);
    let propvals = resource.get_propvals();
    let mut i: usize = 0;
    assert(atoms.take(0) =~= Seq::<AtomView>::empty());
    assert(atom_views(out@) =~= before + select(atoms.take(0), qp, qv));
    while i < propvals.len()
        invariant
            i <= propvals@.len(),
            propval_views(propvals@) == resource@.propvals,
            atoms == atoms_of(resource@),
            qp == option_text(q_property),
            qv == option_text(q_value),
            atom_views(out@) == before + select(atoms.take(i as int), qp, qv),
        decreases propvals@.len() - i,
    {
        let pv = &propvals[i];
        let ghost a = atoms[i as int];
        proof {
            assert(propval_views(propvals@)[i as int] == pv@);
            assert(a.property == pv.property@ && a.value == pv.value@);
            assert(atoms.take(i + 1).drop_last() =~= atoms.take(i as int));
            assert(atoms.take(i + 1).last() == a);
        }
        let property_ok = match q_property {
            Some(p) => str_eq(pv.property.as_str(), p),
            None => true,
        };
        let value_ok = property_ok && match q_value {
            Some(v) => value_answers(&pv.value, v),
            None => true,
        };
        if value_ok {
            let ghost old_out = atom_views(out@);
            out.push(
                Atom::new(resource.get_subject().clone(), pv.property.clone(), pv.value.clone()),
            );
            assert(atom_views(out@) =~= old_out.push(a));
            assert(atom_views(out@) =~= before + select(atoms.take(i + 1), qp, qv));
        }
        i = i + 1;
    }
    assert(atoms.take(i as int) =~= atoms);
}

/// What making an agent of a private key and storing the resource that
/// describes it gives: the resources of the store afterwards and the
/// agent, or the reason why there is none. The agent is the one that the
/// private key makes under the base URL. Its resource is stored with
/// every check, so the store must hold the class of agents.
pub open spec fn agent_outcome(
    rs: Seq<ResourceView>,
    base: Seq<char>,
    name: Option<Seq<char>>,
    private_key: Seq<char>,
    created_at: i64,
) -> Result<(Seq<ResourceView>, AgentView), ErrorView> {
    match agent_from_key(name, base, private_key, created_at) {
        Err(e) => Err(e),
        Ok(agent) => match add_outcome(rs, agent_resource(agent), true, true) {
            Err(e) => Err(e),
            Ok(after) => Ok((after, agent)),
        },
    }
}

/// What to do about a subject that the store does not hold.
#[derive(Debug)]
pub enum NotFoundAction {
    /// The subject is the store's own: there is nowhere else to look, and
    /// the error stands.
    Fail(AtomicError),
    /// The subject lives elsewhere and can be fetched from there.
    Fetch(String),
}

/// The pattern component that a text stands for: a single dot stands for
/// anything.
pub open spec fn pattern_of(text: Seq<char>) -> Option<Seq<char>> {
    if text == seq!['.'] {
        None
    } else {
        Some(text)
    }
}

/// Reads a component of a triple pattern: a single dot stands for
/// anything.
pub fn tpf_value(string: &str) -> (r: Option<&str>)
    ensures
        option_text(r) == pattern_of(string@),
{
    proof {
        reveal_strlit(".");
        assert("."@ =~= seq!['.']);
    }
    if str_eq(string, ".") {
        None
    } else {
        Some(string)
    }
}

/// A store of resources. A backend says how it keeps them; what is built
/// on that is the same for every backend.
pub trait Storelike: Sized {
    /// The resources of the store, in the order in which it walks them.
    spec fn resources(&self) -> Seq<ResourceView>;

    /// The URL under which the store's own resources live.
    spec fn base_url(&self) -> Seq<char>;

    /// All resources, or only those of the store's own base URL. No
    /// subject occurs twice in a store.
    fn all_resources(&self, include_external: bool) -> (r: Vec<Resource>)
        ensures
            resource_views(r@) == visible(self.resources(), self.base_url(), include_external),
            distinct_subjects(self.resources()),
    ;

    /// The URL under which the store's own resources live.
    fn get_base_url(&self) -> (r: &str)
        ensures
            r@ == self.base_url(),
    ;

    /// The resource of `subject`. An absent subject is not found.
    fn get_resource(&self, subject: &str) -> (r: Result<Resource, AtomicError>)
        ensures
            match find_resource(self.resources(), subject@) {
                Some(v) => r matches Ok(x) && x@ == v,
                None => r matches Err(e) && e@ == ErrorView::NotFound(subject@),
            },
    ;

    /// The URL under which this store is served; none for a mere client.
    spec fn self_url(&self) -> Option<Seq<char>>;

    /// Whether the store has a value index that is current, and if so,
    /// whether it covers the resources outside the base URL too. A store
    /// without an index, or with one that is not current, has none.
    spec fn index_scope(&self) -> Option<bool>;

    /// Whether the store keeps a value index at all.
    spec fn keeps_index(&self) -> bool;

    /// Whether the index of the store says that `subject` has, for
    /// `property`, a value that answers to the text `value`.
    spec fn index_holds(&self, property: Seq<char>, value: Seq<char>, subject: Seq<char>) -> bool;

    /// The subjects that have, for `property`, a value that answers to
    /// `value`, each once, as the index has them. Where the index is not
    /// current for this scope, it gives nothing, and the caller walks the
    /// store.
    fn subjects_with(&self, property: &str, value: &str, include_external: bool) -> (r: Option<
        Vec<String>,
    >)
        ensures
            r is Some == (self.index_scope() == Some(include_external)),
            r matches Some(v) ==> forall|s: Seq<char>|
                #[trigger] views(v@).contains(s) == indexed(
                    self.resources(),
                    self.base_url(),
                    include_external,
                    property@,
                    value@,
                    s,
                ),
    ;

    /// The agent that signs where no other is named.
    spec fn default_agent(&self) -> Option<AgentView>;

    /// The URL under which this store is served; none for a mere client.
    fn get_self_url(&self) -> (r: Option<String>)
        ensures
            option_view(r) == self.self_url(),
    ;

    /// The agent that signs where no other is named. A store without one
    /// does not offer this.
    fn get_default_agent(&self) -> (r: Result<Agent, AtomicError>)
        ensures
            match self.default_agent() {
                Some(a) => r matches Ok(x) && x@ == a,
                None => r matches Err(e) && e@ == ErrorView::Unsupported,
            },
    ;

    /// Makes `agent` the one that signs where no other is named.
    fn set_default_agent(&mut self, agent: Agent)
        ensures
            final(self).default_agent() == Some(agent@),
            final(self).resources() == old(self).resources(),
            final(self).base_url() == old(self).base_url(),
            final(self).self_url() == old(self).self_url(),
            final(self).index_scope() == old(self).index_scope(),
    ;

    /// Stores `resource`, in the place of the one with its subject or
    /// after all others. Where `check_required_props` is set, a resource
    /// that lacks a property that one of its classes requires is refused.
    /// Where `overwrite_existing` is not set, a subject that the store
    /// holds is refused. A refusal leaves the store as it was.
    fn add_resource_opts(
        &mut self,
        resource: &Resource,
        check_required_props: bool,
        update_index: bool,
        overwrite_existing: bool,
    ) -> (r: Result<(), AtomicError>)
        ensures
            final(self).base_url() == old(self).base_url(),
            final(self).self_url() == old(self).self_url(),
            final(self).default_agent() == old(self).default_agent(),
            final(self).index_scope() == if r is Ok && !update_index {
                None
            } else {
                old(self).index_scope()
            },
            match add_outcome(
                old(self).resources(),
                resource@,
                check_required_props,
                overwrite_existing,
            ) {
                Ok(rs) => r is Ok && final(self).resources() == rs,
                Err(e) => r matches Err(x) && x@ == e && final(self).resources() == old(self).resources(),
            },
    ;

    /// Takes the resource of `subject` out of the store. An absent
    /// subject is not found.
    fn remove_resource(&mut self, subject: &str) -> (r: Result<(), AtomicError>)
        ensures
            final(self).base_url() == old(self).base_url(),
            final(self).self_url() == old(self).self_url(),
            final(self).default_agent() == old(self).default_agent(),
            final(self).index_scope() == old(self).index_scope(),
            final(self).resources() == drop_resource(old(self).resources(), subject@),
            if has_subject(old(self).resources(), subject@) {
                r is Ok
            } else {
                r matches Err(e) && e@ == ErrorView::NotFound(subject@)
            },
    ;

    /// Tells the index of one atom. In a store that keeps an index, the
    /// index then holds, besides what it held, that the atom's subject has
    /// the atom's value for the atom's property: under the text of the
    /// value and, where that reads as an array, under each of its items. A
    /// store without an index holds what it held. The resources stay as
    /// they are. An index that is told of single atoms is no longer known
    /// to be current.
    fn add_atom_to_index(&mut self, atom: &Atom) -> (r: Result<(), AtomicError>)
        ensures
            r is Ok,
            final(self).resources() == old(self).resources(),
            final(self).base_url() == old(self).base_url(),
            final(self).self_url() == old(self).self_url(),
            final(self).default_agent() == old(self).default_agent(),
            final(self).keeps_index() == old(self).keeps_index(),
            final(self).index_scope() is None || final(self).index_scope() == old(
                self,
            ).index_scope(),
            forall|p: Seq<char>, q: Seq<char>, s: Seq<char>|
                #[trigger] final(self).index_holds(p, q, s) == (old(self).index_holds(p, q, s) || (
                old(self).keeps_index() && p == atom@.property && s == atom@.subject
                    && value_matches(atom@.value, q))),
    ;

    /// Takes one atom out of the index. A store without an index does
    /// nothing. The resources stay as they are. An index that has single
    /// atoms taken out is no longer known to be current.
    fn remove_atom_from_index(&mut self, atom: &Atom) -> (r: Result<(), AtomicError>)
        ensures
            r is Ok,
            final(self).resources() == old(self).resources(),
            final(self).base_url() == old(self).base_url(),
            final(self).self_url() == old(self).self_url(),
            final(self).default_agent() == old(self).default_agent(),
            final(self).index_scope() is None || final(self).index_scope() == old(
                self,
            ).index_scope(),
    {
        Ok(())
    }

    /// Builds the index from the resources that a walk of the store
    /// meets, atom by atom. In a store that keeps an index, the index then
    /// holds every atom of every resource that the walk meets: for each
    /// resource that the store holds and the walk covers, and each of its
    /// properties, the subject under the text of the value and under each
    /// item of an array. It holds nothing besides that and what it held
    /// before. A store without an index holds what it held. The resources
    /// stay as they are.
    fn build_index(&mut self, include_external: bool) -> (r: Result<(), AtomicError>)
        ensures
            r is Ok,
            final(self).resources() == old(self).resources(),
            final(self).base_url() == old(self).base_url(),
            final(self).self_url() == old(self).self_url(),
            final(self).default_agent() == old(self).default_agent(),
            final(self).keeps_index() == old(self).keeps_index(),
            final(self).index_scope() is None || final(self).index_scope() == old(
                self,
            ).index_scope() || final(self).index_scope() == Some(include_external),
            old(self).keeps_index() ==> forall|p: Seq<char>, q: Seq<char>, s: Seq<char>|
                indexed(old(self).resources(), old(self).base_url(), include_external, p, q, s)
                    ==> #[trigger] final(self).index_holds(p, q, s),
            forall|p: Seq<char>, q: Seq<char>, s: Seq<char>|
                #[trigger] final(self).index_holds(p, q, s) ==> old(self).index_holds(p, q, s)
                    || indexed(
                    old(self).resources(),
                    old(self).base_url(),
                    include_external,
                    p,
                    q,
                    s,
                ),
    {
        let ghost scope = self.index_scope();
        let ghost keeps = self.keeps_index();
        let ghost rs = self.resources();
        let ghost base = self.base_url();
        let all = self.all_resources(include_external);
        let ghost w = resource_views(all@);
        let mut i: usize = 0;
        while i < all.len()
            invariant
                i <= all@.len(),
                w == resource_views(all@),
                w == visible(rs, base, include_external),
                rs == old(self).resources(),
                base == old(self).base_url(),
                keeps == old(self).keeps_index(),
                scope == old(self).index_scope(),
                distinct_subjects(rs),
                self.resources() == old(self).resources(),
                self.base_url() == old(self).base_url(),
                self.self_url() == old(self).self_url(),
                self.default_agent() == old(self).default_agent(),
                self.keeps_index() == keeps,
                self.index_scope() is None || self.index_scope() == scope,
                forall|k: int| 0 <= k < i ==> distinct_props((#[trigger] w[k]).propvals),
                forall|p: Seq<char>, q: Seq<char>, s: Seq<char>|
                    #[trigger] self.index_holds(p, q, s) == (old(self).index_holds(p, q, s) || (
                    keeps && walk_holds(w, i as int, p, q, s))),
            decreases all@.len() - i,
        {
            let resource = &all[i];
            let ghost pvs = resource@.propvals;
            let propvals = resource.get_propvals();
            let atoms = resource.to_atoms();
            assert(w[i as int] == resource@);
            assert(atoms@.len() == pvs.len()) by {
                assert(atom_views(atoms@).len() == atoms_of(resource@).len());
            }
            let mut j: usize = 0;
            while j < atoms.len()
                invariant
                    j <= atoms@.len(),
                    i < all@.len(),
                    w == resource_views(all@),
                    pvs == w[i as int].propvals,
                    atoms@.len() == pvs.len(),
                    atom_views(atoms@) == atoms_of(w[i as int]),
                    keeps == old(self).keeps_index(),
                    self.resources() == old(self).resources(),
                    self.base_url() == old(self).base_url(),
                    self.self_url() == old(self).self_url(),
                    self.default_agent() == old(self).default_agent(),
                    self.keeps_index() == keeps,
                    self.index_scope() is None || self.index_scope() == scope,
                    forall|p: Seq<char>, q: Seq<char>, s: Seq<char>|
                        #[trigger] self.index_holds(p, q, s) == (old(self).index_holds(p, q, s)
                            || (keeps && (walk_holds(w, i as int, p, q, s) || (s
                            == w[i as int].subject && prefix_holds(pvs, j as int, p, q))))),
                decreases atoms@.len() - j,
            {
                let ghost before = *self;
                let ghost a = atoms@[j as int]@;
                assert(a == atoms_of(w[i as int])[j as int]) by {
                    assert(atom_views(atoms@)[j as int] == atoms@[j as int]@);
                }
                let _ = self.add_atom_to_index(&atoms[j]);
                assert forall|p: Seq<char>, q: Seq<char>, s: Seq<char>| #[trigger]
                    self.index_holds(p, q, s) == (old(self).index_holds(p, q, s) || (keeps && (
                    walk_holds(w, i as int, p, q, s) || (s == w[i as int].subject && prefix_holds(
                        pvs,
                        j + 1,
                        p,
                        q,
                    ))))) by {
                    assert(before.index_holds(p, q, s) == (old(self).index_holds(p, q, s) || (
                    keeps && (walk_holds(w, i as int, p, q, s) || (s == w[i as int].subject
                        && prefix_holds(pvs, j as int, p, q))))));
                    assert(a.property == pvs[j as int].0 && a.value == pvs[j as int].1
                        && a.subject == w[i as int].subject);
                    if prefix_holds(pvs, j + 1, p, q) {
                        let k = choose|k: int|
                            0 <= k < j + 1 && k < pvs.len() && (#[trigger] pvs[k]).0 == p
                                && value_matches(pvs[k].1, q);
                        if k < j {
                            assert(prefix_holds(pvs, j as int, p, q));
                        }
                    }
                    if prefix_holds(pvs, j as int, p, q) {
                        let k = choose|k: int|
                            0 <= k < j && k < pvs.len() && (#[trigger] pvs[k]).0 == p
                                && value_matches(pvs[k].1, q);
                        assert(prefix_holds(pvs, j + 1, p, q));
                    }
                    if p == pvs[j as int].0 && value_matches(pvs[j as int].1, q) {
                        assert(prefix_holds(pvs, j + 1, p, q));
                    }
                }
                j = j + 1;
            }
            assert forall|p: Seq<char>, q: Seq<char>, s: Seq<char>| #[trigger]
                self.index_holds(p, q, s) == (old(self).index_holds(p, q, s) || (keeps
                    && walk_holds(w, i + 1, p, q, s))) by {
                let here = s == w[i as int].subject && prefix_holds(pvs, pvs.len() as int, p, q);
                assert(self.index_holds(p, q, s) == (old(self).index_holds(p, q, s) || (keeps && (
                walk_holds(w, i as int, p, q, s) || here))));
                if walk_holds(w, i + 1, p, q, s) {
                    let k = choose|k: int|
                        0 <= k < i + 1 && k < w.len() && (#[trigger] w[k]).subject == s
                            && prefix_holds(w[k].propvals, w[k].propvals.len() as int, p, q);
                    if k < i {
                        assert(walk_holds(w, i as int, p, q, s));
                    }
                }
                if walk_holds(w, i as int, p, q, s) {
                    let k = choose|k: int|
                        0 <= k < i && k < w.len() && (#[trigger] w[k]).subject == s
                            && prefix_holds(w[k].propvals, w[k].propvals.len() as int, p, q);
                    assert(walk_holds(w, i + 1, p, q, s));
                }
                if here {
                    assert(w[i as int].subject == s);
                    assert(walk_holds(w, i + 1, p, q, s));
                }
            }
            i = i + 1;
        }
        proof {
            assert forall|p: Seq<char>, q: Seq<char>, s: Seq<char>|
                walk_holds(w, w.len() as int, p, q, s) == indexed(
                    rs,
                    base,
                    include_external,
                    p,
                    q,
                    s,
                ) by {
                lemma_walk_is_indexed(rs, base, include_external, p, q, s);
            }
            assert forall|p: Seq<char>, q: Seq<char>, s: Seq<char>| #[trigger]
                self.index_holds(p, q, s) == (old(self).index_holds(p, q, s) || (keeps && indexed(
                    rs,
                    base,
                    include_external,
                    p,
                    q,
                    s,
                ))) by {
                assert(walk_holds(w, w.len() as int, p, q, s) == indexed(
                    rs,
                    base,
                    include_external,
                    p,
                    q,
                    s,
                ));
            }
        }
        Ok(())
    }

    /// Stores `resource` with every check: its required properties are
    /// asked for, the index follows, and a resource of the same subject is
    /// replaced.
    fn add_resource(&mut self, resource: &Resource) -> (r: Result<(), AtomicError>)
        ensures
            final(self).base_url() == old(self).base_url(),
            final(self).self_url() == old(self).self_url(),
            final(self).default_agent() == old(self).default_agent(),
            final(self).index_scope() == old(self).index_scope(),
            match add_outcome(old(self).resources(), resource@, true, true) {
                Ok(rs) => r is Ok && final(self).resources() == rs,
                Err(e) => r matches Err(x) && x@ == e && final(self).resources() == old(self).resources(),
            },
    {
        self.add_resource_opts(resource, true, true, true)
    }

    /// Asks whether `resource` has every property that its classes
    /// require, and says what is wrong where it has not.
    fn check_required_props(&self, resource: &Resource) -> (r: Result<(), AtomicError>)
        ensures
            match required_check(self.resources(), resource@) {
                None => r is Ok,
                Some(e) => r matches Err(x) && x@ == e,
            },
    {
        let ghost rs = self.resources();
        let classes = match get_url_list(resource, urls::IS_A) {
            Ok(classes) => classes,
            Err(e) => {
                return Err(e);
            },
        };
        let mut i: usize = 0;
        while i < classes.len()
            invariant
                i <= classes@.len(),
                rs == self.resources(),
                required_check(rs, resource@) == classes_check(
                    rs,
                    resource@,
                    views(classes@),
                    i as int,
                ),
            decreases classes@.len() - i,
        {
            assert(views(classes@)[i as int] == classes@[i as int]@);
            let class = match self.get_resource(classes[i].as_str()) {
                Ok(class) => class,
                Err(e) => {
                    return Err(e);
                },
            };
            let required = match get_url_list(&class, urls::REQUIRES) {
                Ok(required) => required,
                Err(e) => {
                    return Err(e);
                },
            };
            match find_absent(resource, &required) {
                Some(p) => {
                    return Err(AtomicError::Validation(p));
                },
                None => {},
            }
            i = i + 1;
        }
        Ok(())
    }

    /// Asks whether each of `entries` fits the property that the store
    /// describes for it: the property must be there, and the value must be
    /// of its datatype and hold what the datatype admits.
    fn check_entries(&self, entries: &Vec<PropVal>) -> (r: Result<(), AtomicError>)
        ensures
            match set_fault(self.resources(), propval_views(entries@), 0) {
                None => r is Ok,
                Some(e) => r matches Err(x) && x@ == e,
            },
    {
        let ghost rs = self.resources();
        let ghost set = propval_views(entries@);
        let mut i: usize = 0;
        while i < entries.len()
            invariant
                i <= entries@.len(),
                rs == self.resources(),
                set == propval_views(entries@),
                set_fault(rs, set, i as int) == set_fault(rs, set, 0),
            decreases entries@.len() - i,
        {
            let entry = &entries[i];
            assert(set[i as int] == entry@);
            let fits = match self.get_resource(entry.property.as_str()) {
                Ok(described) => match Property::from_resource(&described) {
                    Ok(p) => p.data_type == entry.value.datatype() && entry.value.is_valid(),
                    Err(_) => false,
                },
                Err(_) => false,
            };
            if !fits {
                return Err(AtomicError::Validation(entry.property.clone()));
            }
            i = i + 1;
        }
        Ok(())
    }

    /// Gives `property` of `resource` the value `value`, where the store
    /// describes the property and the value is of its datatype and holds
    /// what the datatype admits. Else the resource stays as it is, and the
    /// validation error holds the property.
    fn set_propval(&self, resource: &mut Resource, property: &str, value: Value) -> (r: Result<
        (),
        AtomicError,
    >)
        ensures
            final(resource)@.subject == old(resource)@.subject,
            final(resource)@.head == old(resource)@.head,
            match set_fault(self.resources(), seq![(property@, value@)], 0) {
                None => r is Ok && final(resource)@.propvals == upsert(
                    old(resource)@.propvals,
                    property@,
                    value@,
                ),
                Some(e) => r matches Err(x) && x@ == e && final(resource)@.propvals == old(
                    resource,
                )@.propvals,
            },
    {
        let mut entries: Vec<PropVal> = Vec::new();
        entries.push(PropVal { property: property.to_owned(), value: value.clone() });
        assert(propval_views(entries@) =~= seq![(property@, value@)]);
        match self.check_entries(&entries) {
            Ok(_) => {
                resource.set_propval_unsafe(property.to_owned(), value);
                Ok(())
            },
            Err(e) => Err(e),
        }
    }

    /// Walks up the chain of parents above `resource`, following at most
    /// `max_depth` of them, and says what is wrong with it: a parent that
    /// the store does not hold, or a chain that does not end, as a cycle
    /// makes one.
    fn check_parents(&self, resource: &Resource, max_depth: usize) -> (r: Result<(), AtomicError>)
        ensures
            match parents_fault(self.resources(), resource@, max_depth as nat) {
                None => r is Ok,
                Some(e) => r matches Err(x) && x@ == e,
            },
    {
        let ghost rs = self.resources();
        let mut current = resource.clone();
        let mut depth = max_depth;
        loop
            invariant
                rs == self.resources(),
                parents_fault(rs, current@, depth as nat) == parents_fault(
                    rs,
                    resource@,
                    max_depth as nat,
                ),
            decreases depth,
        {
            let parent = match current.get(urls::PARENT) {
                Err(_) => {
                    return Ok(());
                },
                Ok(v) => v.to_string(),
            };
            if depth == 0 {
                return Err(AtomicError::Validation(current.get_subject().clone()));
            }
            match self.get_resource(parent.as_str()) {
                Err(e) => {
                    return Err(e);
                },
                Ok(p) => {
                    current = p;
                    depth = depth - 1;
                },
            }
        }
    }

    /// Adds atoms to the store, one after the other, without any check:
    /// each gives its property the value that it holds, in the resource
    /// of its subject, which is made where the store does not hold it.
    /// Commits are the way to write; this is for loading data in bulk.
    fn add_atoms(&mut self, atoms: &Vec<Atom>) -> (r: Result<(), AtomicError>)
        ensures
            r is Ok,
            final(self).resources() == put_atoms(old(self).resources(), atom_views(atoms@)),
            final(self).base_url() == old(self).base_url(),
            final(self).self_url() == old(self).self_url(),
            final(self).default_agent() == old(self).default_agent(),
            final(self).index_scope() == old(self).index_scope(),
    {
        let ghost start = self.resources();
        let ghost all = atom_views(atoms@);
        let mut i: usize = 0;
        assert(all.take(0) =~= Seq::<AtomView>::empty());
        while i < atoms.len()
            invariant
                i <= atoms@.len(),
                all == atom_views(atoms@),
                self.resources() == put_atoms(start, all.take(i as int)),
                self.base_url() == old(self).base_url(),
                self.self_url() == old(self).self_url(),
                self.default_agent() == old(self).default_agent(),
                self.index_scope() == old(self).index_scope(),
            decreases atoms@.len() - i,
        {
            proof {
                assert(all.take(i + 1).drop_last() =~= all.take(i as int));
                assert(all.take(i + 1).last() == atoms@[i as int]@);
            }
            let atom = &atoms[i];
            let mut resource = match self.get_resource(atom.subject.as_str()) {
                Ok(resource) => resource,
                Err(_) => Resource::new(atom.subject.clone()),
            };
            resource.set_propval_unsafe(atom.property.clone(), atom.value.clone());
            assert(resource@ == with_atom(self.resources(), atom@));
            let _ = self.add_resource_opts(&resource, false, true, true);
            i = i + 1;
        }
        assert(all.take(i as int) =~= all);
        Ok(())
    }

    /// Looks at every resource of the store and reports what is wrong:
    /// for each resource its first fault, be it an entry that does not fit
    /// its property, a required property that is missing, or a chain of
    /// parents that is broken, cyclic or too deep.
    fn validate(&self) -> (r: ValidationReport)
        ensures
            reports(r, self.resources()),
    {
        let all = self.all_resources(true);
        let ghost rs = self.resources();
        let mut faults: Vec<Fault> = Vec::new();
        let mut atom_count: usize = 0;
        let mut i: usize = 0;
        assert(rs.take(0) =~= Seq::<ResourceView>::empty());
        assert(fault_views(faults@) =~= Seq::empty());
        while i < all.len()
            invariant
                i <= all@.len(),
                rs == self.resources(),
                rs == resource_views(all@),
                atom_count == counted(atoms_of_all(rs.take(i as int)).len()),
                fault_views(faults@) == faults_of(rs, rs.take(i as int)),
            decreases all@.len() - i,
        {
            let resource = &all[i];
            proof {
                assert(rs.take(i + 1).drop_last() =~= rs.take(i as int));
                assert(rs.take(i + 1).last() == resource@);
            }
            let n = resource.get_propvals().len();
            atom_count = if atom_count > usize::MAX - n {
                usize::MAX
            } else {
                atom_count + n
            };
            let fault = match self.check_entries(resource.get_propvals()) {
                Err(e) => Some(e),
                Ok(_) => match self.check_required_props(resource) {
                    Err(e) => Some(e),
                    Ok(_) => match self.check_parents(resource, MAX_DEPTH) {
                        Err(e) => Some(e),
                        Ok(_) => None,
                    },
                },
            };
            let ghost before = fault_views(faults@);
            match fault {
                Some(error) => {
                    faults.push(Fault { subject: resource.get_subject().clone(), error });
                    assert(fault_views(faults@) =~= before.push((resource@.subject, error@)));
                },
                None => {},
            }
            i = i + 1;
        }
        assert(rs.take(i as int) =~= rs);
        ValidationReport { resource_count: all.len(), atom_count, faults }
    }

    /// Stores the resources of the default vocabulary: the properties,
    /// datatypes and classes that a store knows before it holds anything
    /// else.
    fn populate(&mut self) -> (r: Result<(), AtomicError>)
        ensures
            r is Ok,
            final(self).resources() == put_all(old(self).resources(), base_models()),
            final(self).base_url() == old(self).base_url(),
            final(self).self_url() == old(self).self_url(),
            final(self).default_agent() == old(self).default_agent(),
            final(self).index_scope() == old(self).index_scope(),
    {
        let models = base_model_resources();
        let _ = self.import(&models);
        Ok(())
    }

    /// The atoms that answer to a pattern of subject, property and value,
    /// where an absent component admits everything. With a subject, the
    /// atoms come from that one resource, and an absent subject gives none.
    /// Without, they come from every resource that a walk of the store
    /// meets, in the order of the walk.
    fn tpf(
        &self,
        q_subject: Option<&str>,
        q_property: Option<&str>,
        q_value: Option<&str>,
        include_external: bool,
    ) -> (r: Result<Vec<Atom>, AtomicError>)
        ensures
            r matches Ok(v) && atom_views(v@) == tpf_result(
                self.resources(),
                self.base_url(),
                option_text(q_subject),
                option_text(q_property),
                option_text(q_value),
                include_external,
            ),
    {
        let mut vec: Vec<Atom> = Vec::new();
        assert(atom_views(vec@) =~= Seq::<AtomView>::empty());
        match q_subject {
            Some(sub) => match self.get_resource(sub) {
                Ok(resource) => {
                    find_in_resource(&resource, q_property, q_value, &mut vec);
                    assert(atom_views(vec@) =~= select(
                        atoms_of(resource@),
                        option_text(q_property),
                        option_text(q_value),
                    ));
                    Ok(vec)
                },
                Err(_) => Ok(vec),
            },
            None => {
                let all = self.all_resources(include_external);
                let ghost rs = resource_views(all@);
                let ghost qp = option_text(q_property);
                let ghost qv = option_text(q_value);
                let mut i: usize = 0;
                assert(rs.take(0) =~= Seq::<ResourceView>::empty());
                while i < all.len()
                    invariant
                        i <= all@.len(),
                        rs == resource_views(all@),
                        qp == option_text(q_property),
                        qv == option_text(q_value),
                        atom_views(vec@) == select_all(rs.take(i as int), qp, qv),
                    decreases all@.len() - i,
                {
                    proof {
                        assert(rs.take(i + 1).drop_last() =~= rs.take(i as int));
                        assert(rs.take(i + 1).last() == all@[i as int]@);
                    }
                    find_in_resource(&all[i], q_property, q_value, &mut vec);
                    i = i + 1;
                }
                assert(rs.take(i as int) =~= rs);
                Ok(vec)
            },
        }
    }

    /// Whether `agent` has `right` on `resource`, following at most
    /// `max_depth` parents: the nearest declaration of the right decides.
    fn check_rights(&self, resource: &Resource, agent: &str, right: Right, max_depth: usize) -> (r:
        Result<bool, AtomicError>)
        ensures
            match rights_of(self.resources(), resource@, agent@, right, max_depth as nat) {
                Ok(b) => r matches Ok(x) && x == b,
                Err(e) => r matches Err(x) && x@ == e,
            },
    {
        let ghost rs = self.resources();
        let mut current = resource.clone();
        let mut depth = max_depth;
        loop
            invariant
                rs == self.resources(),
                rights_of(rs, current@, agent@, right, depth as nat) == rights_of(
                    rs,
                    resource@,
                    agent@,
                    right,
                    max_depth as nat,
                ),
            decreases depth,
        {
            let declared = match right {
                Right::Read => current.get(urls::READ),
                Right::Write => current.get(urls::WRITE),
            };
            match declared {
                Ok(Value::ResourceArray(list)) => {
                    let listed = contains_str(list, agent);
                    let public = match right {
                        Right::Read => contains_str(list, urls::PUBLIC_AGENT),
                        Right::Write => false,
                    };
                    return Ok(listed || public);
                },
                Ok(_) => {
                    let url = match right {
                        Right::Read => urls::READ.to_owned(),
                        Right::Write => urls::WRITE.to_owned(),
                    };
                    return Err(AtomicError::Validation(url));
                },
                Err(_) => {},
            }
            let parent = match current.get(urls::PARENT) {
                Err(_) => {
                    return Ok(false);
                },
                Ok(v) => v.to_string(),
            };
            if depth == 0 {
                return Err(AtomicError::Validation(current.get_subject().clone()));
            }
            match self.get_resource(parent.as_str()) {
                Err(e) => {
                    return Err(e);
                },
                Ok(p) => {
                    current = p;
                    depth = depth - 1;
                },
            }
        }
    }

    /// The resource of `subject`, read on behalf of `for_agent`. Without
    /// an agent no right is asked for. With one, the agent must have the
    /// right to read, by the resource's own declaration or by that of the
    /// nearest ancestor that has one.
    fn get_resource_extended(
        &self,
        subject: &str,
        skip_dynamic: bool,
        for_agent: Option<&str>,
    ) -> (r: Result<Resource, AtomicError>)
        ensures
            match read_resource(self.resources(), subject@, option_text(for_agent)) {
                Ok(v) => r matches Ok(x) && x@ == v,
                Err(e) => r matches Err(x) && x@ == e,
            },
    {
        let resource = match self.get_resource(subject) {
            Ok(resource) => resource,
            Err(e) => {
                return Err(e);
            },
        };
        match for_agent {
            Some(agent) => match self.check_rights(&resource, agent, Right::Read, MAX_DEPTH) {
                Ok(true) => Ok(resource),
                Ok(false) => Err(AtomicError::Unauthorized(subject.to_owned())),
                Err(e) => Err(e),
            },
            None => Ok(resource),
        }
    }

    /// The property of `resource` that `token` names: the token itself
    /// where it has the shape of a URL, else the first property of the
    /// resource that the store describes under that short name.
    fn resolve_shortname(&self, resource: &Resource, token: &str) -> (r: Result<
        String,
        AtomicError,
    >)
        ensures
            match resolve_property(self.resources(), resource@, token@) {
                Ok(p) => r matches Ok(x) && x@ == p,
                Err(e) => r matches Err(x) && x@ == e,
            },
    {
        if is_url(token) {
            return Ok(token.to_owned());
        }
        let ghost rs = self.resources();
        let ghost pvs = resource@.propvals;
        let propvals = resource.get_propvals();
        let mut i: usize = 0;
        while i < propvals.len()
            invariant
                i <= propvals@.len(),
                rs == self.resources(),
                pvs == propval_views(propvals@),
                pvs == resource@.propvals,
                !looks_like_url(token@),
                property_named(rs, pvs, token@, i as int) == property_named(rs, pvs, token@, 0),
            decreases propvals@.len() - i,
        {
            assert(pvs[i as int].0 == propvals@[i as int].property@);
            match self.get_resource(propvals[i].property.as_str()) {
                Ok(described) => match Property::from_resource(&described) {
                    Ok(p) => if str_eq(p.shortname.as_str(), token) {
                        return Ok(propvals[i].property.clone());
                    },
                    Err(_) => {},
                },
                Err(_) => {},
            }
            i = i + 1;
        }
        Err(AtomicError::NotFound(token.to_owned()))
    }

    /// What a path leads to: a subject or an atom.
    ///
    /// The first token names the subject where the walk starts, through
    /// `mapping` where there is one. What follows are the names of
    /// properties, which lead from a subject to an atom, and indices, which
    /// lead from an atom that holds an array to the subject at that
    /// position. Each subject on the way is read on behalf of `for_agent`;
    /// the first step that fails ends the walk with its error.
    fn get_path(&self, atomic_path: &str, mapping: Option<&Mapping>, for_agent: Option<&str>) -> (r:
        Result<PathReturn, AtomicError>)
        ensures
            match path_result(
                self.resources(),
                atomic_path@,
                mapping_view(mapping),
                option_text(for_agent),
            ) {
                Ok(v) => r matches Ok(x) && x@ == v,
                Err(e) => r matches Err(x) && x@ == e,
            },
    {
        let ghost rs = self.resources();
        let ghost agent = option_text(for_agent);
        let tokens = split_path(atomic_path);
        let ghost toks = path_tokens(atomic_path@);
        if tokens.len() == 0 {
            return Err(AtomicError::NotFound(atomic_path.to_owned()));
        }
        assert(toks[0] == tokens@[0]@);
        let id_url = match mapping {
            None => tokens[0].clone(),
            Some(m) => match m.try_mapping_or_url(tokens[0].as_str()) {
                Some(url) => url,
                None => {
                    return Err(AtomicError::NotFound(tokens[0].clone()));
                },
            },
        };
        if tokens.len() == 1 {
            return Ok(PathReturn::Subject(id_url));
        }
        let mut resource = match self.get_resource_extended(id_url.as_str(), false, for_agent) {
            Ok(resource) => resource,
            Err(e) => {
                return Err(e);
            },
        };
        let mut current = PathReturn::Subject(id_url);
        let ghost goal = walk(rs, toks, 1, current@, resource@, agent);
        let mut i: usize = 1;
        while i < tokens.len()
            invariant
                1 <= i <= tokens@.len(),
                rs == self.resources(),
                agent == option_text(for_agent),
                toks == views(tokens@),
                walk(rs, toks, i as int, current@, resource@, agent) == goal,
                goal == path_result(
                    self.resources(),
                    atomic_path@,
                    mapping_view(mapping),
                    option_text(for_agent),
                ),
            decreases tokens@.len() - i,
        {
            assert(toks[i as int] == tokens@[i as int]@);
            let token = tokens[i].as_str();
            match parse_u32(token) {
                Some(n) => {
                    let target: String = match &current {
                        PathReturn::Subject(_) => {
                            return Err(AtomicError::InvalidPath);
                        },
                        PathReturn::Atom(atom) => match &atom.value {
                            Value::ResourceArray(items) => {
                                if (n as usize) < items.len() {
                                    assert(views(items@)[n as int] == items@[n as int]@);
                                    items[n as usize].clone()
                                } else {
                                    return Err(
                                        AtomicError::IndexOutOfBounds {
                                            index: n,
                                            len: items.len(),
                                        },
                                    );
                                }
                            },
                            _ => {
                                return Err(AtomicError::InvalidPath);
                            },
                        },
                    };
                    resource =
                    match self.get_resource_extended(target.as_str(), false, for_agent) {
                        Ok(resource) => resource,
                        Err(e) => {
                            return Err(e);
                        },
                    };
                    current = PathReturn::Subject(target);
                },
                None => {
                    let subject: String = match &current {
                        PathReturn::Atom(_) => {
                            return Err(AtomicError::InvalidPath);
                        },
                        PathReturn::Subject(s) => s.clone(),
                    };
                    let property = match self.resolve_shortname(&resource, token) {
                        Ok(property) => property,
                        Err(e) => {
                            return Err(e);
                        },
                    };
                    let value = match resource.get(property.as_str()) {
                        Ok(value) => value.clone(),
                        Err(e) => {
                            return Err(e);
                        },
                    };
                    current = PathReturn::Atom(Box::new(Atom::new(subject, property, value)));
                },
            }
            i = i + 1;
        }
        Ok(current)
    }

    /// The property that the store describes under `subject`.
    fn get_property(&self, subject: &str) -> (r: Result<Property, AtomicError>)
        ensures
            match property_at(self.resources(), subject@) {
                Ok(p) => r matches Ok(x) && x@ == p,
                Err(e) => r matches Err(x) && x@ == e,
            },
    {
        match self.get_resource(subject) {
            Ok(resource) => Property::from_resource(&resource),
            Err(e) => Err(e),
        }
    }

    /// The class that the store describes under `subject`.
    fn get_class(&self, subject: &str) -> (r: Result<Class, AtomicError>)
        ensures
            match class_at(self.resources(), subject@) {
                Ok(c) => r matches Ok(x) && x@ == c,
                Err(e) => r matches Err(x) && x@ == e,
            },
    {
        match self.get_resource(subject) {
            Ok(resource) => Class::from_resource(&resource),
            Err(e) => Err(e),
        }
    }

    /// The classes of `subject`, in the order in which it declares them;
    /// none where it declares none.
    fn get_classes_for_subject(&self, subject: &str) -> (r: Result<Vec<Class>, AtomicError>)
        ensures
            match classes_of(self.resources(), subject@) {
                Ok(cs) => r matches Ok(x) && class_views(x@) == cs,
                Err(e) => r matches Err(x) && x@ == e,
            },
    {
        let ghost rs = self.resources();
        let resource = match self.get_resource(subject) {
            Ok(resource) => resource,
            Err(e) => {
                return Err(e);
            },
        };
        let urls = match get_url_list(&resource, urls::IS_A) {
            Ok(urls) => urls,
            Err(e) => {
                return Err(e);
            },
        };
        let mut out: Vec<Class> = Vec::new();
        let mut i: usize = 0;
        assert(class_views(out@) =~= Seq::<ClassView>::empty());
        while i < urls.len()
            invariant
                i <= urls@.len(),
                rs == self.resources(),
                classes_from(rs, views(urls@), i as int, class_views(out@)) == classes_of(
                    rs,
                    subject@,
                ),
            decreases urls@.len() - i,
        {
            assert(views(urls@)[i as int] == urls@[i as int]@);
            let class = match self.get_class(urls[i].as_str()) {
                Ok(class) => class,
                Err(e) => {
                    return Err(e);
                },
            };
            let ghost before = class_views(out@);
            out.push(class);
            assert(class_views(out@) =~= before.push(class@));
            i = i + 1;
        }
        Ok(out)
    }

    /// A resource as a JSON object whose keys are the short names that the
    /// store has for the properties, as JSON-LD where `with_context` is
    /// set. A property that the store does not describe gives its error.
    fn to_json(&self, resource: &Resource, with_context: bool) -> (r: Result<String, AtomicError>)
        ensures
            match names_from(self.resources(), resource@.propvals, 0, Seq::empty()) {
                Ok(names) => r matches Ok(x) && x@ == if with_context {
                    json_ld(resource@, names)
                } else {
                    json_named(resource@, names)
                },
                Err(e) => r matches Err(x) && x@ == e,
            },
    {
        let ghost rs = self.resources();
        let propvals = resource.get_propvals();
        let ghost pvs = resource@.propvals;
        let mut names: Vec<String> = Vec::new();
        let mut i: usize = 0;
        assert(views(names@) =~= Seq::<Seq<char>>::empty());
        while i < propvals.len()
            invariant
                i <= propvals@.len(),
                names@.len() == i,
                rs == self.resources(),
                pvs == propval_views(propvals@),
                pvs == resource@.propvals,
                names_from(rs, pvs, i as int, views(names@)) == names_from(
                    rs,
                    pvs,
                    0,
                    Seq::empty(),
                ),
            decreases propvals@.len() - i,
        {
            assert(pvs[i as int] == propvals@[i as int]@);
            let property = match self.get_property(propvals[i].property.as_str()) {
                Ok(property) => property,
                Err(e) => {
                    return Err(e);
                },
            };
            let ghost before = views(names@);
            names.push(property.shortname);
            assert(views(names@) =~= before.push(property@.shortname));
            i = i + 1;
        }
        Ok(resource_to_json_named(resource, &names, with_context))
    }

    /// The rows that describe the resource of `subject` to a reader: for
    /// each entry the short name of its property and the text of its
    /// value, and the subject at the end.
    fn describe(&self, subject: &str) -> (r: Result<Vec<Row>, AtomicError>)
        ensures
            match rows_of(self.resources(), subject@) {
                Ok(rows) => r matches Ok(x) && row_views(x@) == rows,
                Err(e) => r matches Err(x) && x@ == e,
            },
    {
        let ghost rs = self.resources();
        let resource = match self.get_resource(subject) {
            Ok(resource) => resource,
            Err(e) => {
                return Err(e);
            },
        };
        let propvals = resource.get_propvals();
        let ghost pvs = resource@.propvals;
        let mut out: Vec<Row> = Vec::new();
        let mut i: usize = 0;
        assert(row_views(out@) =~= Seq::empty());
        while i < propvals.len()
            invariant
                i <= propvals@.len(),
                rs == self.resources(),
                pvs == propval_views(propvals@),
                pvs == resource@.propvals,
                find_resource(rs, subject@) == Some(resource@),
                rows_from(rs, pvs, i as int, row_views(out@)) == rows_from(
                    rs,
                    pvs,
                    0,
                    Seq::empty(),
                ),
            decreases propvals@.len() - i,
        {
            assert(pvs[i as int] == propvals@[i as int]@);
            let property = match self.get_property(propvals[i].property.as_str()) {
                Ok(property) => property,
                Err(e) => {
                    return Err(e);
                },
            };
            let ghost before = row_views(out@);
            let row = Row { name: property.shortname, text: propvals[i].value.to_string() };
            out.push(row);
            assert(row_views(out@) =~= before.push(row@));
            i = i + 1;
        }
        let ghost before = row_views(out@);
        out.push(Row { name: "subject".to_owned(), text: subject.to_owned() });
        assert(row_views(out@) =~= before.push(("subject"@, subject@)));
        Ok(out)
    }

    /// The resources in the order in which they are written out: those
    /// that describe properties first, the others after them, each group
    /// in the order of the walk.
    fn export(&self, include_external: bool) -> (r: Vec<Resource>)
        ensures
            resource_views(r@) == export_order(
                visible(self.resources(), self.base_url(), include_external),
            ),
    {
        let resources = self.all_resources(include_external);
        let ghost rs = resource_views(resources@);
        let mut properties: Vec<Resource> = Vec::new();
        let mut other_resources: Vec<Resource> = Vec::new();
        let mut i: usize = 0;
        assert(rs.take(0) =~= Seq::<ResourceView>::empty());
        assert(resource_views(properties@) =~= Seq::<ResourceView>::empty());
        assert(resource_views(other_resources@) =~= Seq::<ResourceView>::empty());
        while i < resources.len()
            invariant
                i <= resources@.len(),
                rs == resource_views(resources@),
                resource_views(properties@) == properties_of(rs.take(i as int)),
                resource_views(other_resources@) == others_of(rs.take(i as int)),
            decreases resources@.len() - i,
        {
            proof {
                assert(rs.take(i + 1).drop_last() =~= rs.take(i as int));
                assert(rs.take(i + 1).last() == resources@[i as int]@);
            }
            let ghost p = resource_views(properties@);
            let ghost o = resource_views(other_resources@);
            if is_property(&resources[i]) {
                properties.push(resources[i].clone());
                assert(resource_views(properties@) =~= p.push(resources@[i as int]@));
            } else {
                other_resources.push(resources[i].clone());
                assert(resource_views(other_resources@) =~= o.push(resources@[i as int]@));
            }
            i = i + 1;
        }
        assert(rs.take(i as int) =~= rs);
        let ghost p = resource_views(properties@);
        let ghost o = resource_views(other_resources@);
        properties.append(&mut other_resources);
        assert(resource_views(properties@) =~= p + o);
        properties
    }

    /// Stores each of `resources`, in order, without asking what their
    /// classes require, and says how many there were.
    fn import(&mut self, resources: &Vec<Resource>) -> (r: Result<usize, AtomicError>)
        ensures
            r == Ok::<usize, AtomicError>(resources@.len() as usize),
            final(self).resources() == put_all(old(self).resources(), resource_views(resources@)),
            final(self).base_url() == old(self).base_url(),
            final(self).self_url() == old(self).self_url(),
            final(self).default_agent() == old(self).default_agent(),
            final(self).index_scope() == old(self).index_scope(),
    {
        let ghost start = self.resources();
        let ghost new = resource_views(resources@);
        let mut i: usize = 0;
        assert(new.take(0) =~= Seq::<ResourceView>::empty());
        while i < resources.len()
            invariant
                i <= resources@.len(),
                new == resource_views(resources@),
                self.resources() == put_all(start, new.take(i as int)),
                self.base_url() == old(self).base_url(),
                self.self_url() == old(self).self_url(),
                self.default_agent() == old(self).default_agent(),
                self.index_scope() == old(self).index_scope(),
            decreases resources@.len() - i,
        {
            proof {
                assert(new.take(i + 1).drop_last() =~= new.take(i as int));
                assert(new.take(i + 1).last() == resources@[i as int]@);
            }
            let _ = self.add_resource_opts(&resources[i], false, true, true);
            i = i + 1;
        }
        assert(new.take(i as int) =~= new);
        Ok(resources.len())
    }

    /// Stores a resource that was fetched for `subject` from where it
    /// lives, with every check. A resource with another subject is a
    /// validation error that holds the subject that was asked for.
    fn fetch_resource(&mut self, subject: &str, fetched: Resource) -> (r: Result<
        Resource,
        AtomicError,
    >)
        ensures
            final(self).base_url() == old(self).base_url(),
            final(self).self_url() == old(self).self_url(),
            final(self).default_agent() == old(self).default_agent(),
            final(self).index_scope() == old(self).index_scope(),
            if fetched@.subject != subject@ {
                r matches Err(x) && x@ == ErrorView::Validation(subject@) && final(self).resources() == old(self).resources()
            } else {
                match add_outcome(old(self).resources(), fetched@, true, true) {
                    Ok(rs) => r matches Ok(x) && x@ == fetched@ && final(self).resources() == rs,
                    Err(e) => r matches Err(x) && x@ == e && final(self).resources() == old(self).resources(),
                }
            },
    {
        if !str_eq(fetched.get_subject().as_str(), subject) {
            return Err(AtomicError::Validation(subject.to_owned()));
        }
        match self.add_resource_opts(&fetched, true, true, true) {
            Ok(_) => Ok(fetched),
            Err(e) => Err(e),
        }
    }

    /// What to do about `subject`, which the store was found not to hold:
    /// where the store is served and the subject is its own, `error`
    /// stands; else the subject is to be fetched.
    fn handle_not_found(&self, subject: &str, error: AtomicError) -> (r: NotFoundAction)
        ensures
            match self.self_url() {
                Some(url) if has_prefix(subject@, url) => r matches NotFoundAction::Fail(e) && e@
                    == error@,
                _ => r matches NotFoundAction::Fetch(s) && s@ == subject@,
            },
    {
        match self.get_self_url() {
            Some(self_url) => {
                if starts_with(subject, self_url.as_str()) {
                    NotFoundAction::Fail(error)
                } else {
                    NotFoundAction::Fetch(subject.to_owned())
                }
            },
            None => NotFoundAction::Fetch(subject.to_owned()),
        }
    }

    /// Makes the agent of `private_key` under the store's base URL, with
    /// `created_at` as the time of its creation, and stores the resource
    /// that describes it. Where no agent comes back, the store is as it
    /// was.
    fn create_agent_with_key(&mut self, name: Option<&str>, private_key: &str, created_at: i64)
        -> (r: Result<Agent, AtomicError>)
        ensures
            final(self).base_url() == old(self).base_url(),
            final(self).self_url() == old(self).self_url(),
            final(self).default_agent() == old(self).default_agent(),
            final(self).index_scope() == old(self).index_scope(),
            match agent_outcome(
                old(self).resources(),
                old(self).base_url(),
                option_text(name),
                private_key@,
                created_at,
            ) {
                Ok(outcome) => r matches Ok(x) && x@ == outcome.1 && final(self).resources()
                    == outcome.0,
                Err(e) => r matches Err(x) && x@ == e && final(self).resources() == old(
                    self,
                ).resources(),
            },
    {
        let owned_name = match name {
            Some(n) => Some(n.to_owned()),
            None => None,
        };
        let base = self.get_base_url().to_owned();
        let agent = match Agent::from_private_key(
            owned_name,
            base.as_str(),
            private_key,
            created_at,
        ) {
            Ok(agent) => agent,
            Err(e) => {
                return Err(e);
            },
        };
        match self.add_resource(&agent.to_resource()) {
            Ok(_) => Ok(agent),
            Err(e) => Err(e),
        }
    }

    /// Makes an agent with a fresh key pair under the store's base URL
    /// and stores the resource that describes it. The private key is in
    /// the agent that is returned and nowhere else.
    ///
    /// The key comes from 32 bytes that the system gives, and the time of
    /// creation from the clock. Where the system gives no bytes, or the
    /// clock stands before the epoch, there is no agent, the store is as
    /// it was, and the error says that this is not offered. Else, whatever
    /// the bytes and the time are, the outcome is that of making the agent
    /// of the key that encodes the bytes, at that time.
    fn create_agent(&mut self, name: Option<&str>) -> (r: Result<Agent, AtomicError>)
        ensures
            final(self).base_url() == old(self).base_url(),
            final(self).self_url() == old(self).self_url(),
            final(self).default_agent() == old(self).default_agent(),
            final(self).index_scope() == old(self).index_scope(),
            (r matches Err(e) && e@ == ErrorView::Unsupported && final(self).resources() == old(
                self,
            ).resources()) || exists|seed: Seq<u8>, created_at: i64|
                seed.len() == 32 && created_at >= 0 && match #[trigger] agent_outcome(
                    old(self).resources(),
                    old(self).base_url(),
                    option_text(name),
                    base64_text(seed),
                    created_at,
                ) {
                    Ok(outcome) => r matches Ok(x) && x@ == outcome.1 && final(self).resources()
                        == outcome.0,
                    Err(e) => r matches Err(x) && x@ == e && final(self).resources() == old(
                        self,
                    ).resources(),
                },
    {
        let seed = match random_seed() {
            Some(seed) => seed,
            None => {
                return Err(AtomicError::Unsupported);
            },
        };
        let private_key = encode_base64(&seed);
        let created_at = match now() {
            Some(created_at) => created_at,
            None => {
                return Err(AtomicError::Unsupported);
            },
        };
        let r = self.create_agent_with_key(name, private_key.as_str(), created_at);
        assert(seed@.len() == 32 && created_at >= 0 && match agent_outcome(
            old(self).resources(),
            old(self).base_url(),
            option_text(name),
            base64_text(seed@),
            created_at,
        ) {
            Ok(outcome) => r matches Ok(x) && x@ == outcome.1 && self.resources() == outcome.0,
            Err(e) => r matches Err(x) && x@ == e && self.resources() == old(self).resources(),
        });
        r
    }
}

} // verus!
