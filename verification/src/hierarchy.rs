//! Who may read and who may write: the nearest declaration of rights on
//! the way from a resource up its chain of parents decides.

use vstd::prelude::*;

use crate::errors::{AtomicError, ErrorView};
use crate::model::find_resource;
use crate::resources::{lookup, Resource, ResourceView};
use crate::storelike::Storelike;
use crate::urls;
use crate::values::{value_text, ValueView};

verus! {

/// How many parents a walk up the hierarchy follows before it gives up.
pub const MAX_DEPTH: usize = 64;

/// What an agent asks to do.
#[derive(Debug, Clone, Copy, PartialEq, Eq, Structural)]
pub enum Right {
    Read,
    Write,
}

/// The property under which a resource declares who has `right`.
pub open spec fn right_url(right: Right) -> Seq<char> {
    match right {
        Right::Read => urls::READ@,
        Right::Write => urls::WRITE@,
    }
}

/// Whether a declaration grants `right` to `agent`: the agent is listed,
/// or, for reading, the public agent is.
pub open spec fn grants(list: Seq<Seq<char>>, agent: Seq<char>, right: Right) -> bool {
    list.contains(agent) || (right == Right::Read && list.contains(urls::PUBLIC_AGENT@))
}

/// Whether `agent` has `right` on `r`. Where `r` declares the right, its
/// declaration decides. Where it does not, its parent decides, and a
/// resource without declaration and without parent denies. A declaration
/// that is no array and a chain of more than `depth` parents are validation
/// errors; a parent that the store does not hold is not found.
pub open spec fn rights_of(
    rs: Seq<ResourceView>,
    r: ResourceView,
    agent: Seq<char>,
    right: Right,
    depth: nat,
) -> Result<bool, ErrorView>
    decreases depth,
{
    match lookup(r.propvals, right_url(right)) {
        Some(ValueView::ResourceArray(list)) => Ok(grants(list, agent, right)),
        Some(_) => Err(ErrorView::Validation(right_url(right))),
        None => match lookup(r.propvals, urls::PARENT@) {
            None => Ok(false),
            Some(parent) => if depth == 0 {
                Err(ErrorView::Validation(r.subject))
            } else {
                match find_resource(rs, value_text(parent)) {
                    None => Err(ErrorView::NotFound(value_text(parent))),
                    Some(p) => rights_of(rs, p, agent, right, (depth - 1) as nat),
                }
            },
        },
    }
}

/// What is wrong with the chain of parents above `r`, if anything: a
/// parent that the store does not hold is not found, and a chain of more
/// than `depth` parents, as a cycle makes one, is a validation error that
/// holds the subject where the walk gave up.
pub open spec fn parents_fault(rs: Seq<ResourceView>, r: ResourceView, depth: nat) -> Option<
    ErrorView,
>
    decreases depth,
{
    match lookup(r.propvals, urls::PARENT@) {
        None => None,
        Some(parent) => if depth == 0 {
            Some(ErrorView::Validation(r.subject))
        } else {
            match find_resource(rs, value_text(parent)) {
                None => Some(ErrorView::NotFound(value_text(parent))),
                Some(p) => parents_fault(rs, p, (depth - 1) as nat),
            }
        },
    }
}

/// What reading `subject` on behalf of `agent` gives: the resource, where
/// the store holds it and the agent may read it. Without an agent nothing
/// is asked.
pub open spec fn read_resource(
    rs: Seq<ResourceView>,
    subject: Seq<char>,
    agent: Option<Seq<char>>,
) -> Result<ResourceView, ErrorView> {
    match find_resource(rs, subject) {
        None => Err(ErrorView::NotFound(subject)),
        Some(r) => match agent {
            None => Ok(r),
            Some(a) => match rights_of(rs, r, a, Right::Read, MAX_DEPTH as nat) {
                Ok(true) => Ok(r),
                Ok(false) => Err(ErrorView::Unauthorized(subject)),
                Err(e) => Err(e),
            },
        },
    }
}

/// A resource without a declaration of its own, whose parent declares that
/// nobody may read, can be read by no agent: the denial reaches the child.
pub proof fn lemma_denial_propagates(
    rs: Seq<ResourceView>,
    child: ResourceView,
    parent: ResourceView,
    agent: Seq<char>,
    depth: nat,
)
    requires
        depth >= 1,
        lookup(child.propvals, urls::READ@) is None,
        lookup(child.propvals, urls::PARENT@) matches Some(p) && value_text(p) == parent.subject,
        find_resource(rs, parent.subject) == Some(parent),
        lookup(parent.propvals, urls::READ@) == Some(
            ValueView::ResourceArray(Seq::<Seq<char>>::empty()),
        ),
    ensures
        rights_of(rs, child, agent, Right::Read, depth) == Ok::<bool, ErrorView>(false),
{
    reveal_with_fuel(rights_of, 3);
    assert(!Seq::<Seq<char>>::empty().contains(agent));
    assert(!Seq::<Seq<char>>::empty().contains(urls::PUBLIC_AGENT@));
}

/// A resource without a declaration of its own, whose parent has none
/// either, and whose grandparent lists an agent as a reader, can be read
/// by that agent.
pub proof fn lemma_grant_from_grandparent(
    rs: Seq<ResourceView>,
    child: ResourceView,
    parent: ResourceView,
    grandparent: ResourceView,
    agent: Seq<char>,
    depth: nat,
)
    requires
        depth >= 2,
        lookup(child.propvals, urls::READ@) is None,
        lookup(child.propvals, urls::PARENT@) matches Some(p) && value_text(p) == parent.subject,
        find_resource(rs, parent.subject) == Some(parent),
        lookup(parent.propvals, urls::READ@) is None,
        lookup(parent.propvals, urls::PARENT@) matches Some(p) && value_text(p)
            == grandparent.subject,
        find_resource(rs, grandparent.subject) == Some(grandparent),
        lookup(grandparent.propvals, urls::READ@) matches Some(ValueView::ResourceArray(list))
            && list.contains(agent),
    ensures
        rights_of(rs, child, agent, Right::Read, depth) == Ok::<bool, ErrorView>(true),
{
    reveal_with_fuel(rights_of, 4);
}

/// Whether `agent` may read `resource`.
pub fn check_read<S: Storelike>(store: &S, resource: &Resource, agent: &str) -> (r: Result<
    bool,
    AtomicError,
>)
    ensures
        match rights_of(store.resources(), resource@, agent@, Right::Read, MAX_DEPTH as nat) {
            Ok(b) => r matches Ok(x) && x == b,
            Err(e) => r matches Err(x) && x@ == e,
        },
{
    store.check_rights(resource, agent, Right::Read, MAX_DEPTH)
}

/// Whether `agent` may write `resource`.
pub fn check_write<S: Storelike>(store: &S, resource: &Resource, agent: &str) -> (r: Result<
    bool,
    AtomicError,
>)
    ensures
        match rights_of(store.resources(), resource@, agent@, Right::Write, MAX_DEPTH as nat) {
            Ok(b) => r matches Ok(x) && x == b,
            Err(e) => r matches Err(x) && x@ == e,
        },
{
    store.check_rights(resource, agent, Right::Write, MAX_DEPTH)
}

} // verus!
