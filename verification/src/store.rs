//! A store that keeps its resources in memory.

use vstd::prelude::*;

use crate::agents::{clone_option, option_view, Agent, AgentView};
use crate::atoms::Atom;
use crate::errors::{AtomicError, ErrorView};
use crate::index::{entries_hold, indexed, ValueIndex};
use crate::model::{
    distinct_subjects, drop_resource, has_subject, internal, lemma_drop_resource, lemma_find_at,
    lemma_put_resource, put_resource, resource_views, subject_index,
};
use crate::resources::{Resource, ResourceView};
use crate::storelike::Storelike;
use crate::text::starts_with;

verus! {

/// The base URL of a store that was given none.
pub const LOCAL_BASE_URL: &'static str = "local:store";

/// A store in memory. No subject occurs twice in it.
#[derive(Debug)]
pub struct Store {
    resources: Vec<Resource>,
    base_url: String,
    self_url: Option<String>,
    default_agent: Option<Agent>,
    index: ValueIndex,
    /// Whether the index is current, and if so, whether it covers the
    /// resources outside the base URL too.
    index_scope: Option<bool>,
}

impl Store {
    #[verifier::type_invariant]
    spec fn inv(self) -> bool {
        &&& distinct_subjects(resource_views(self.resources@))
        &&& self.index_scope matches Some(external) ==> forall|
            p: Seq<char>,
            q: Seq<char>,
            s: Seq<char>,
        |
            #[trigger] entries_hold(self.index.entries@, p, q, s) == indexed(
                resource_views(self.resources@),
                self.base_url@,
                external,
                p,
                q,
                s,
            )
    }

    /// An empty store for a client: it lives under a local base URL and
    /// is served nowhere.
    pub fn init() -> (r: Result<Store, AtomicError>)
        ensures
            r matches Ok(store) && store.resources() == Seq::<ResourceView>::empty()
                && store.base_url() == LOCAL_BASE_URL@ && store.self_url() is None
                && store.default_agent() is None && store.index_scope() is None,
    {
        let store = Store {
            resources: Vec::new(),
            base_url: LOCAL_BASE_URL.to_owned(),
            self_url: None,
            default_agent: None,
            index: ValueIndex::new(),
            index_scope: None,
        };
        assert(resource_views(store.resources@) =~= Seq::<ResourceView>::empty());
        Ok(store)
    }

    /// An empty store that is served under `base_url`.
    pub fn with_base_url(base_url: &str) -> (store: Store)
        ensures
            store.resources() == Seq::<ResourceView>::empty(),
            store.base_url() == base_url@,
            store.self_url() == Some(base_url@),
            store.default_agent() is None,
            store.index_scope() is None,
    {
        let store = Store {
            resources: Vec::new(),
            base_url: base_url.to_owned(),
            self_url: Some(base_url.to_owned()),
            default_agent: None,
            index: ValueIndex::new(),
            index_scope: None,
        };
        assert(resource_views(store.resources@) =~= Seq::<ResourceView>::empty());
        store
    }

    /// The position of the resource of `subject`.
    fn position(&self, subject: &String) -> (r: Option<usize>)
        ensures
            distinct_subjects(self.resources()),
            match r {
                Some(i) => has_subject(self.resources(), subject@) && i == subject_index(
                    self.resources(),
                    subject@,
                ) && i < self.resources@.len(),
                None => !has_subject(self.resources(), subject@),
            },
    {
        proof {
            use_type_invariant(self);
        }
        let ghost rs = resource_views(self.resources@);
        let mut i: usize = 0;
        while i < self.resources.len()
            invariant
                i <= self.resources@.len(),
                rs == resource_views(self.resources@),
                distinct_subjects(rs),
                forall|j: int| 0 <= j < i ==> (#[trigger] rs[j]).subject != subject@,
            decreases self.resources@.len() - i,
        {
            if *self.resources[i].get_subject() == *subject {
                proof {
                    assert(rs[i as int].subject == subject@);
                    lemma_find_at(rs, i as int);
                }
                return Some(i);
            }
            i = i + 1;
        }
        None
    }
}

impl Storelike for Store {
    closed spec fn resources(&self) -> Seq<ResourceView> {
        resource_views(self.resources@)
    }

    closed spec fn base_url(&self) -> Seq<char> {
        self.base_url@
    }

    closed spec fn self_url(&self) -> Option<Seq<char>> {
        option_view(self.self_url)
    }

    closed spec fn index_scope(&self) -> Option<bool> {
        self.index_scope
    }

    closed spec fn keeps_index(&self) -> bool {
        true
    }

    closed spec fn index_holds(&self, property: Seq<char>, value: Seq<char>, subject: Seq<char>)
        -> bool {
        entries_hold(self.index.entries@, property, value, subject)
    }

    fn subjects_with(&self, property: &str, value: &str, include_external: bool) -> (r: Option<
        Vec<String>,
    >)
    {
        proof {
            use_type_invariant(self);
        }
        match self.index_scope {
            Some(external) => {
                if external == include_external {
                    let v = self.index.subjects(property, value);
                    assert forall|s: Seq<char>| #[trigger]
                        crate::text::views(v@).contains(s) == indexed(
                            self.resources(),
                            self.base_url(),
                            include_external,
                            property@,
                            value@,
                            s,
                        ) by {
                        assert(entries_hold(self.index.entries@, property@, value@, s) == indexed(
                            resource_views(self.resources@),
                            self.base_url@,
                            external,
                            property@,
                            value@,
                            s,
                        ));
                    }
                    Some(v)
                } else {
                    None
                }
            },
            None => None,
        }
    }


    closed spec fn default_agent(&self) -> Option<AgentView> {
        match self.default_agent {
            Some(a) => Some(a@),
            None => None,
        }
    }

    fn all_resources(&self, include_external: bool) -> (r: Vec<Resource>) {
        proof {
            use_type_invariant(self);
        }
        let ghost rs = resource_views(self.resources@);
        let mut out: Vec<Resource> = Vec::new();
        let mut i: usize = 0;
        assert(rs.take(0) =~= Seq::<ResourceView>::empty());
        assert(resource_views(out@) =~= Seq::<ResourceView>::empty());
        while i < self.resources.len()
            invariant
                i <= self.resources@.len(),
                rs == resource_views(self.resources@),
                include_external ==> resource_views(out@) == rs.take(i as int),
                !include_external ==> resource_views(out@) == internal(
                    rs.take(i as int),
                    self.base_url@,
                ),
            decreases self.resources@.len() - i,
        {
            let resource = &self.resources[i];
            proof {
                assert(rs.take(i + 1).drop_last() =~= rs.take(i as int));
                assert(rs.take(i + 1).last() == resource@);
            }
            let ghost before = resource_views(out@);
            if include_external || starts_with(
                resource.get_subject().as_str(),
                self.base_url.as_str(),
            ) {
                out.push(resource.clone());
                assert(resource_views(out@) =~= before.push(resource@));
                assert(rs.take(i + 1) =~= rs.take(i as int).push(resource@));
            }
            i = i + 1;
        }
        assert(rs.take(i as int) =~= rs);
        out
    }

    fn get_base_url(&self) -> (r: &str) {
        self.base_url.as_str()
    }

    fn get_self_url(&self) -> (r: Option<String>) {
        clone_option(&self.self_url)
    }

    fn get_default_agent(&self) -> (r: Result<Agent, AtomicError>) {
        match &self.default_agent {
            Some(agent) => Ok(agent.clone()),
            None => Err(AtomicError::Unsupported),
        }
    }

    fn set_default_agent(&mut self, agent: Agent) {
        proof {
            use_type_invariant(&*self);
        }
        self.default_agent = Some(agent);
    }

    fn get_resource(&self, subject: &str) -> (r: Result<Resource, AtomicError>) {
        let key = subject.to_owned();
        match self.position(&key) {
            Some(i) => Ok(self.resources[i].clone()),
            None => Err(AtomicError::NotFound(key)),
        }
    }

    fn add_resource_opts(
        &mut self,
        resource: &Resource,
        check_required_props: bool,
        update_index: bool,
        overwrite_existing: bool,
    ) -> (r: Result<(), AtomicError>) {
        proof {
            use_type_invariant(&*self);
        }
        if check_required_props {
            match self.check_required_props(resource) {
                Ok(_) => {},
                Err(e) => {
                    return Err(e);
                },
            }
        }
        let ghost rs = self.resources();
        let ghost before = self.index.entries@;
        proof {
            lemma_put_resource(rs, resource@);
        }
        let found = self.position(resource.get_subject());
        if found.is_some() && !overwrite_existing {
            return Err(AtomicError::Validation(resource.get_subject().clone()));
        }
        let scope = self.index_scope;
        self.index_scope = None;
        let mut all: Vec<Resource> = Vec::new();
        assert(resource_views(all@) =~= Seq::<ResourceView>::empty());
        std::mem::swap(&mut self.resources, &mut all);
        match found {
            Some(i) => {
                all.set(i, resource.clone());
            },
            None => {
                all.push(resource.clone());
            },
        }
        assert(resource_views(all@) =~= put_resource(rs, resource@));
        std::mem::swap(&mut self.resources, &mut all);
        let new_scope = match scope {
            Some(external) => {
                if update_index {
                    let mut index = ValueIndex::new();
                    std::mem::swap(&mut self.index, &mut index);
                    index.remove_subject(resource.get_subject().as_str());
                    if external || starts_with(
                        resource.get_subject().as_str(),
                        self.base_url.as_str(),
                    ) {
                        index.add_resource(resource);
                    }
                    std::mem::swap(&mut self.index, &mut index);
                    proof {
                        let after = put_resource(rs, resource@);
                        assert forall|p: Seq<char>, q: Seq<char>, s: Seq<char>| #[trigger]
                            entries_hold(self.index.entries@, p, q, s) == indexed(
                                after,
                                self.base_url@,
                                external,
                                p,
                                q,
                                s,
                            ) by {
                            assert(entries_hold(before, p, q, s) == indexed(
                                rs,
                                self.base_url@,
                                external,
                                p,
                                q,
                                s,
                            ));
                        }
                    }
                    Some(external)
                } else {
                    None
                }
            },
            None => None,
        };
        self.index_scope = new_scope;
        Ok(())
    }

    fn remove_resource(&mut self, subject: &str) -> (r: Result<(), AtomicError>) {
        proof {
            use_type_invariant(&*self);
        }
        let ghost rs = self.resources();
        let ghost before = self.index.entries@;
        proof {
            lemma_drop_resource(rs, subject@);
        }
        let key = subject.to_owned();
        match self.position(&key) {
            Some(i) => {
                let scope = self.index_scope;
                self.index_scope = None;
                let mut all: Vec<Resource> = Vec::new();
                assert(resource_views(all@) =~= Seq::<ResourceView>::empty());
                std::mem::swap(&mut self.resources, &mut all);
                all.remove(i);
                assert(resource_views(all@) =~= drop_resource(rs, subject@));
                std::mem::swap(&mut self.resources, &mut all);
                match scope {
                    Some(external) => {
                        let mut index = ValueIndex::new();
                        std::mem::swap(&mut self.index, &mut index);
                        index.remove_subject(subject);
                        std::mem::swap(&mut self.index, &mut index);
                        proof {
                            let after = drop_resource(rs, subject@);
                            assert forall|p: Seq<char>, q: Seq<char>, s: Seq<char>| #[trigger]
                                entries_hold(self.index.entries@, p, q, s) == indexed(
                                    after,
                                    self.base_url@,
                                    external,
                                    p,
                                    q,
                                    s,
                                ) by {
                                assert(entries_hold(before, p, q, s) == indexed(
                                    rs,
                                    self.base_url@,
                                    external,
                                    p,
                                    q,
                                    s,
                                ));
                            }
                        }
                    },
                    None => {},
                }
                self.index_scope = scope;
                Ok(())
            },
            None => Err(AtomicError::NotFound(key)),
        }
    }

    fn add_atom_to_index(&mut self, atom: &Atom) -> (r: Result<(), AtomicError>)
        ensures
            final(self).index_scope() is None,
    {
        proof {
            use_type_invariant(&*self);
        }
        let ghost before = self.index.entries@;
        self.index_scope = None;
        let mut index = ValueIndex::new();
        std::mem::swap(&mut self.index, &mut index);
        index.add_value(atom.property.as_str(), &atom.value, atom.subject.as_str());
        std::mem::swap(&mut self.index, &mut index);
        assert forall|p: Seq<char>, q: Seq<char>, s: Seq<char>| #[trigger]
            self.index_holds(p, q, s) == (entries_hold(before, p, q, s) || (p == atom@.property
                && s == atom@.subject && crate::model::value_matches(atom@.value, q))) by {
            assert(entries_hold(self.index.entries@, p, q, s) == (entries_hold(before, p, q, s)
                || (p == atom@.property && s == atom@.subject && crate::model::value_matches(
                atom@.value,
                q,
            ))));
        }
        Ok(())
    }

    fn remove_atom_from_index(&mut self, atom: &Atom) -> (r: Result<(), AtomicError>)
        ensures
            final(self).index_scope() is None,
    {
        proof {
            use_type_invariant(&*self);
        }
        self.index_scope = None;
        Ok(())
    }

    fn build_index(&mut self, include_external: bool) -> (r: Result<(), AtomicError>)
        ensures
            final(self).index_scope() == Some(include_external),
    {
        proof {
            use_type_invariant(&*self);
        }
        self.index_scope = None;
        let ghost rs = resource_views(self.resources@);
        let mut index = ValueIndex::new();
        let mut i: usize = 0;
        assert(rs.take(0) =~= Seq::<ResourceView>::empty());
        while i < self.resources.len()
            invariant
                i <= self.resources@.len(),
                rs == resource_views(self.resources@),
                distinct_subjects(rs),
                self.index_scope is None,
                self.base_url() == old(self).base_url(),
                self.self_url() == old(self).self_url(),
                self.default_agent() == old(self).default_agent(),
                self.resources() == old(self).resources(),
                forall|p: Seq<char>, q: Seq<char>, s: Seq<char>|
                    #[trigger] entries_hold(index.entries@, p, q, s) == indexed(
                        rs.take(i as int),
                        self.base_url@,
                        include_external,
                        p,
                        q,
                        s,
                    ),
            decreases self.resources@.len() - i,
        {
            let ghost done = rs.take(i as int);
            let ghost before = index.entries@;
            let resource = &self.resources[i];
            proof {
                assert(resource@ == rs[i as int]);
                assert(distinct_subjects(done)) by {
                    assert forall|a: int, b: int| 0 <= a < b < done.len() implies (
                    #[trigger] done[a]).subject != (#[trigger] done[b]).subject by {
                        assert(rs[a].subject != rs[b].subject);
                    }
                }
                if crate::model::has_subject(done, resource@.subject) {
                    let k = subject_index(done, resource@.subject);
                    assert(rs[k].subject != rs[i as int].subject);
                }
                assert(put_resource(done, resource@) =~= rs.take(i + 1));
                lemma_put_resource(done, resource@);
            }
            if include_external || starts_with(
                resource.get_subject().as_str(),
                self.base_url.as_str(),
            ) {
                index.add_resource(resource);
            }
            proof {
                assert forall|p: Seq<char>, q: Seq<char>, s: Seq<char>| #[trigger]
                    entries_hold(index.entries@, p, q, s) == indexed(
                        rs.take(i + 1),
                        self.base_url@,
                        include_external,
                        p,
                        q,
                        s,
                    ) by {
                    assert(entries_hold(before, p, q, s) == indexed(
                        done,
                        self.base_url@,
                        include_external,
                        p,
                        q,
                        s,
                    ));
                }
            }
            i = i + 1;
        }
        assert(rs.take(i as int) =~= rs);
        std::mem::swap(&mut self.index, &mut index);
        self.index_scope = Some(include_external);
        assert forall|p: Seq<char>, q: Seq<char>, s: Seq<char>| #[trigger]
            self.index_holds(p, q, s) == indexed(rs, self.base_url@, include_external, p, q, s) by {
            assert(entries_hold(self.index.entries@, p, q, s) == indexed(
                rs,
                self.base_url@,
                include_external,
                p,
                q,
                s,
            ));
        }
        Ok(())
    }
}

} // verus!
