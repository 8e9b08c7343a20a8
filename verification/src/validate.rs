//! What the classes of a resource ask of it.

use vstd::prelude::*;

use crate::atoms::AtomView;
use crate::errors::{AtomicError, ErrorView};
use crate::hierarchy::{parents_fault, MAX_DEPTH};
use crate::model::{atoms_of_all, find_resource, has_subject, put_resource};
use crate::resources::{has_prop, ResourceView};
use crate::schema::{property_from, url_list};
use crate::urls;
use crate::values::{datatype_of, valid_value, ValueView};

verus! {

/// The first of `required` from `i` on that has no value among `pvs`.
pub open spec fn first_absent(
    pvs: Seq<(Seq<char>, ValueView)>,
    required: Seq<Seq<char>>,
    i: int,
) -> Option<Seq<char>>
    decreases required.len() - i,
{
    if i < 0 || i >= required.len() {
        None
    } else if !has_prop(pvs, required[i]) {
        Some(required[i])
    } else {
        first_absent(pvs, required, i + 1)
    }
}

/// What the classes from `i` on find wrong with `r`: a class that the
/// store does not hold is not found, a class whose list of required
/// properties is no array is invalid, and a required property without a
/// value is a validation error that holds the property.
pub open spec fn classes_check(
    rs: Seq<ResourceView>,
    r: ResourceView,
    classes: Seq<Seq<char>>,
    i: int,
) -> Option<ErrorView>
    decreases classes.len() - i,
{
    if i < 0 || i >= classes.len() {
        None
    } else {
        match find_resource(rs, classes[i]) {
            None => Some(ErrorView::NotFound(classes[i])),
            Some(class) => match url_list(class, urls::REQUIRES@) {
                Err(e) => Some(e),
                Ok(required) => match first_absent(r.propvals, required, 0) {
                    Some(p) => Some(ErrorView::Validation(p)),
                    None => classes_check(rs, r, classes, i + 1),
                },
            },
        }
    }
}

/// What the classes that `r` declares find wrong with it; nothing where
/// it declares none.
pub open spec fn required_check(rs: Seq<ResourceView>, r: ResourceView) -> Option<ErrorView> {
    match url_list(r, urls::IS_A@) {
        Err(e) => Some(e),
        Ok(classes) => classes_check(rs, r, classes, 0),
    }
}

/// What is wrong with the entries of `set` from `i` on, if anything: the
/// first whose property the store does not describe, or whose value is
/// not of the property's datatype, is a validation error that holds the
/// property.
pub open spec fn set_fault(rs: Seq<ResourceView>, set: Seq<(Seq<char>, ValueView)>, i: int)
    -> Option<ErrorView>
    decreases set.len() - i,
{
    if i < 0 || i >= set.len() {
        None
    } else {
        let fits = match find_resource(rs, set[i].0) {
            Some(described) => match property_from(described) {
                Ok(p) => p.data_type == datatype_of(set[i].1) && valid_value(set[i].1),
                Err(_) => false,
            },
            None => false,
        };
        if fits {
            set_fault(rs, set, i + 1)
        } else {
            Some(ErrorView::Validation(set[i].0))
        }
    }
}

/// What is wrong with a resource, if anything: an entry that does not
/// fit its property, else a property that one of its classes requires
/// and that it lacks, else a chain of parents that is broken, cyclic or
/// too deep.
pub open spec fn resource_fault(rs: Seq<ResourceView>, r: ResourceView) -> Option<ErrorView> {
    match set_fault(rs, r.propvals, 0) {
        Some(e) => Some(e),
        None => match required_check(rs, r) {
            Some(e) => Some(e),
            None => parents_fault(rs, r, MAX_DEPTH as nat),
        },
    }
}

/// The resource of an atom's subject after the atom is added: what the
/// store holds for the subject, or a resource without entries and
/// without head, with the atom's property given the atom's value.
pub open spec fn with_atom(rs: Seq<ResourceView>, a: AtomView) -> ResourceView {
    let start = match find_resource(rs, a.subject) {
        Some(r) => r,
        None => ResourceView { subject: a.subject, propvals: Seq::empty(), head: None },
    };
    ResourceView { propvals: crate::resources::upsert(start.propvals, a.property, a.value), ..start }
}

/// The resources after each of `atoms` is added, in order.
pub open spec fn put_atoms(rs: Seq<ResourceView>, atoms: Seq<AtomView>) -> Seq<ResourceView>
    decreases atoms.len(),
{
    if atoms.len() == 0 {
        rs
    } else {
        let before = put_atoms(rs, atoms.drop_last());
        put_resource(before, with_atom(before, atoms.last()))
    }
}

/// The faults of the resources of `walked`, each with the subject that
/// has it, in order.
pub open spec fn faults_of(rs: Seq<ResourceView>, walked: Seq<ResourceView>) -> Seq<
    (Seq<char>, ErrorView),
>
    decreases walked.len(),
{
    if walked.len() == 0 {
        Seq::empty()
    } else {
        match resource_fault(rs, walked.last()) {
            Some(e) => faults_of(rs, walked.drop_last()).push((walked.last().subject, e)),
            None => faults_of(rs, walked.drop_last()),
        }
    }
}

/// A number of atoms as a report holds it: at most the largest number
/// that the machine counts to.
pub open spec fn counted(n: nat) -> usize {
    if n <= usize::MAX {
        n as usize
    } else {
        usize::MAX
    }
}

/// One fault: the subject that has it and what is wrong.
#[derive(Debug)]
pub struct Fault {
    pub subject: String,
    pub error: AtomicError,
}

impl View for Fault {
    type V = (Seq<char>, ErrorView);

    open spec fn view(&self) -> (Seq<char>, ErrorView) {
        (self.subject@, self.error@)
    }
}

/// The faults that a vector holds, in order.
pub open spec fn fault_views(v: Seq<Fault>) -> Seq<(Seq<char>, ErrorView)> {
    Seq::new(v.len(), |i: int| v[i]@)
}

/// What a validation of the store found.
#[derive(Debug)]
pub struct ValidationReport {
    pub resource_count: usize,
    pub atom_count: usize,
    pub faults: Vec<Fault>,
}

impl ValidationReport {
    /// Whether nothing was found wrong.
    pub fn is_valid(&self) -> (r: bool)
        ensures
            r == (self.faults@.len() == 0),
    {
        self.faults.len() == 0
    }
}

/// Whether a report says of the store what there is to say: how many
/// resources and atoms it holds, and the fault of each resource that has
/// one.
pub open spec fn reports(report: ValidationReport, rs: Seq<ResourceView>) -> bool {
    &&& report.resource_count == rs.len()
    &&& report.atom_count == counted(atoms_of_all(rs).len())
    &&& fault_views(report.faults@) == faults_of(rs, rs)
}

/// What adding `r` to the store gives: the resources with `r` stored, or
/// the reason why it is refused. Where the required properties are asked
/// for, a resource that lacks one is refused. Where nothing may be
/// overwritten, a subject that the store holds is refused with a
/// validation error that holds the subject.
pub open spec fn add_outcome(
    rs: Seq<ResourceView>,
    r: ResourceView,
    check_required_props: bool,
    overwrite_existing: bool,
) -> Result<Seq<ResourceView>, ErrorView> {
    if check_required_props && required_check(rs, r) is Some {
        Err(required_check(rs, r)->0)
    } else if !overwrite_existing && has_subject(rs, r.subject) {
        Err(ErrorView::Validation(r.subject))
    } else {
        Ok(put_resource(rs, r))
    }
}

} // verus!
