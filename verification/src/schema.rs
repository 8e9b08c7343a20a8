//! Properties and classes, as read from the resources that describe them.

use vstd::prelude::*;

use crate::errors::{AtomicError, ErrorView};
use crate::model::find_resource;
use crate::resources::{lookup, Resource, ResourceView};
use crate::text::{clone_strings, views};
use crate::urls;
use crate::values::{datatype_of_url, match_datatype, value_text, DataType, Value, ValueView};

verus! {

/// A property: its URL, its short name and the datatype of its values.
#[derive(Debug)]
pub struct Property {
    pub subject: String,
    pub shortname: String,
    pub data_type: DataType,
}

/// A property, with texts as sequences of characters.
pub struct PropertyView {
    pub subject: Seq<char>,
    pub shortname: Seq<char>,
    pub data_type: DataType,
}

impl View for Property {
    type V = PropertyView;

    open spec fn view(&self) -> PropertyView {
        PropertyView {
            subject: self.subject@,
            shortname: self.shortname@,
            data_type: self.data_type,
        }
    }
}

/// A class: its URL and the properties that it requires and recommends.
#[derive(Debug)]
pub struct Class {
    pub subject: String,
    pub requires: Vec<String>,
    pub recommends: Vec<String>,
}

/// A class, with texts as sequences of characters.
pub struct ClassView {
    pub subject: Seq<char>,
    pub requires: Seq<Seq<char>>,
    pub recommends: Seq<Seq<char>>,
}

impl View for Class {
    type V = ClassView;

    open spec fn view(&self) -> ClassView {
        ClassView {
            subject: self.subject@,
            requires: views(self.requires@),
            recommends: views(self.recommends@),
        }
    }
}

/// The property that a resource describes: it needs a short name and a
/// datatype that is known.
pub open spec fn property_from(r: ResourceView) -> Result<PropertyView, ErrorView> {
    match lookup(r.propvals, urls::SHORTNAME@) {
        None => Err(ErrorView::NotFound(urls::SHORTNAME@)),
        Some(shortname) => match lookup(r.propvals, urls::DATATYPE_PROP@) {
            None => Err(ErrorView::NotFound(urls::DATATYPE_PROP@)),
            Some(datatype) => match datatype_of_url(value_text(datatype)) {
                None => Err(ErrorView::Unsupported),
                Some(d) => Ok(
                    PropertyView {
                        subject: r.subject,
                        shortname: value_text(shortname),
                        data_type: d,
                    },
                ),
            },
        },
    }
}

/// The URLs that a resource lists under `property`: none where it has no
/// such entry. An entry that is no array is a validation error that holds
/// the property.
pub open spec fn url_list(r: ResourceView, property: Seq<char>) -> Result<
    Seq<Seq<char>>,
    ErrorView,
> {
    match lookup(r.propvals, property) {
        None => Ok(Seq::empty()),
        Some(ValueView::ResourceArray(items)) => Ok(items),
        Some(_) => Err(ErrorView::Validation(property)),
    }
}

/// The class that a resource describes.
pub open spec fn class_from(r: ResourceView) -> Result<ClassView, ErrorView> {
    match url_list(r, urls::REQUIRES@) {
        Err(e) => Err(e),
        Ok(required) => match url_list(r, urls::RECOMMENDS@) {
            Err(e) => Err(e),
            Ok(recommended) => Ok(
                ClassView { subject: r.subject, requires: required, recommends: recommended },
            ),
        },
    }
}

/// Whether a resource describes a property: the first of its classes is
/// the class of properties.
pub open spec fn describes_property(r: ResourceView) -> bool {
    url_list(r, urls::IS_A@) matches Ok(classes) && classes.len() > 0 && classes[0]
        == urls::PROPERTY@
}

/// The resources of `rs` that describe properties, in order.
pub open spec fn properties_of(rs: Seq<ResourceView>) -> Seq<ResourceView>
    decreases rs.len(),
{
    if rs.len() == 0 {
        Seq::empty()
    } else if describes_property(rs.last()) {
        properties_of(rs.drop_last()).push(rs.last())
    } else {
        properties_of(rs.drop_last())
    }
}

/// The resources of `rs` that describe no property, in order.
pub open spec fn others_of(rs: Seq<ResourceView>) -> Seq<ResourceView>
    decreases rs.len(),
{
    if rs.len() == 0 {
        Seq::empty()
    } else if describes_property(rs.last()) {
        others_of(rs.drop_last())
    } else {
        others_of(rs.drop_last()).push(rs.last())
    }
}

/// The order in which resources are written out: those that describe
/// properties first, so that a reader knows each property before it
/// meets a value of it.
pub open spec fn export_order(rs: Seq<ResourceView>) -> Seq<ResourceView> {
    properties_of(rs) + others_of(rs)
}

/// The classes that the URLs from `i` on name, added to `acc`; the first
/// URL that names none gives its error.
pub open spec fn classes_from(
    rs: Seq<ResourceView>,
    classes: Seq<Seq<char>>,
    i: int,
    acc: Seq<ClassView>,
) -> Result<Seq<ClassView>, ErrorView>
    decreases classes.len() - i,
{
    if i < 0 || i >= classes.len() {
        Ok(acc)
    } else {
        match class_at(rs, classes[i]) {
            Err(e) => Err(e),
            Ok(c) => classes_from(rs, classes, i + 1, acc.push(c)),
        }
    }
}

/// The property that the store describes under `subject`.
pub open spec fn property_at(rs: Seq<ResourceView>, subject: Seq<char>) -> Result<
    PropertyView,
    ErrorView,
> {
    match find_resource(rs, subject) {
        None => Err(ErrorView::NotFound(subject)),
        Some(r) => property_from(r),
    }
}

/// The class that the store describes under `subject`.
pub open spec fn class_at(rs: Seq<ResourceView>, subject: Seq<char>) -> Result<
    ClassView,
    ErrorView,
> {
    match find_resource(rs, subject) {
        None => Err(ErrorView::NotFound(subject)),
        Some(r) => class_from(r),
    }
}

/// The classes of the resource that the store holds for `subject`.
pub open spec fn classes_of(rs: Seq<ResourceView>, subject: Seq<char>) -> Result<
    Seq<ClassView>,
    ErrorView,
> {
    match find_resource(rs, subject) {
        None => Err(ErrorView::NotFound(subject)),
        Some(r) => match url_list(r, urls::IS_A@) {
            Err(e) => Err(e),
            Ok(classes) => classes_from(rs, classes, 0, Seq::empty()),
        },
    }
}

/// The rows that describe the entries from `i` on, added to `acc`: for
/// each entry the short name of its property and the text of its value.
/// A property that the store does not describe gives its error.
pub open spec fn rows_from(
    rs: Seq<ResourceView>,
    pvs: Seq<(Seq<char>, ValueView)>,
    i: int,
    acc: Seq<(Seq<char>, Seq<char>)>,
) -> Result<Seq<(Seq<char>, Seq<char>)>, ErrorView>
    decreases pvs.len() - i,
{
    if i < 0 || i >= pvs.len() {
        Ok(acc)
    } else {
        match property_at(rs, pvs[i].0) {
            Err(e) => Err(e),
            Ok(p) => rows_from(rs, pvs, i + 1, acc.push((p.shortname, value_text(pvs[i].1)))),
        }
    }
}

/// The short names of the properties of the entries from `i` on, added
/// to `acc`. A property that the store does not describe gives its error.
pub open spec fn names_from(
    rs: Seq<ResourceView>,
    pvs: Seq<(Seq<char>, ValueView)>,
    i: int,
    acc: Seq<Seq<char>>,
) -> Result<Seq<Seq<char>>, ErrorView>
    decreases pvs.len() - i,
{
    if i < 0 || i >= pvs.len() {
        Ok(acc)
    } else {
        match property_at(rs, pvs[i].0) {
            Err(e) => Err(e),
            Ok(p) => names_from(rs, pvs, i + 1, acc.push(p.shortname)),
        }
    }
}

/// The rows that describe the resource of `subject`: one for each entry,
/// and one for the subject itself at the end.
pub open spec fn rows_of(rs: Seq<ResourceView>, subject: Seq<char>) -> Result<
    Seq<(Seq<char>, Seq<char>)>,
    ErrorView,
> {
    match find_resource(rs, subject) {
        None => Err(ErrorView::NotFound(subject)),
        Some(r) => match rows_from(rs, r.propvals, 0, Seq::empty()) {
            Err(e) => Err(e),
            Ok(rows) => Ok(rows.push(("subject"@, subject))),
        },
    }
}

/// One row of a description: a name and a text.
#[derive(Debug)]
pub struct Row {
    pub name: String,
    pub text: String,
}

impl View for Row {
    type V = (Seq<char>, Seq<char>);

    open spec fn view(&self) -> (Seq<char>, Seq<char>) {
        (self.name@, self.text@)
    }
}

/// The rows that a vector holds, in order.
pub open spec fn row_views(v: Seq<Row>) -> Seq<(Seq<char>, Seq<char>)> {
    Seq::new(v.len(), |i: int| v[i]@)
}

/// The classes that a vector holds, in order.
pub open spec fn class_views(v: Seq<Class>) -> Seq<ClassView> {
    Seq::new(v.len(), |i: int| v[i]@)
}

/// Whether `resource` describes a property.
pub fn is_property(resource: &Resource) -> (r: bool)
    ensures
        r == describes_property(resource@),
{
    match get_url_list(resource, urls::IS_A) {
        Ok(classes) => {
            if classes.len() > 0 {
                assert(views(classes@)[0] == classes@[0]@);
                crate::text::str_eq(classes[0].as_str(), urls::PROPERTY)
            } else {
                false
            }
        },
        Err(_) => false,
    }
}

/// The URLs that `resource` lists under `property`.
pub fn get_url_list(resource: &Resource, property: &str) -> (r: Result<Vec<String>, AtomicError>)
    ensures
        match url_list(resource@, property@) {
            Ok(items) => r matches Ok(v) && views(v@) == items,
            Err(e) => r matches Err(x) && x@ == e,
        },
{
    match resource.get(property) {
        Err(_) => {
            let v: Vec<String> = Vec::new();
            assert(views(v@) =~= Seq::<Seq<char>>::empty());
            Ok(v)
        },
        Ok(Value::ResourceArray(items)) => Ok(clone_strings(items)),
        Ok(_) => Err(AtomicError::Validation(property.to_owned())),
    }
}

impl Property {
    /// Reads the property that `resource` describes.
    pub fn from_resource(resource: &Resource) -> (r: Result<Property, AtomicError>)
        ensures
            match property_from(resource@) {
                Ok(p) => r matches Ok(x) && x@ == p,
                Err(e) => r matches Err(x) && x@ == e,
            },
    {
        let shortname = match resource.get(urls::SHORTNAME) {
            Ok(v) => v.to_string(),
            Err(e) => {
                return Err(e);
            },
        };
        let datatype = match resource.get(urls::DATATYPE_PROP) {
            Ok(v) => v.to_string(),
            Err(e) => {
                return Err(e);
            },
        };
        match match_datatype(datatype.as_str()) {
            None => Err(AtomicError::Unsupported),
            Some(d) => Ok(
                Property { subject: resource.get_subject().clone(), shortname, data_type: d },
            ),
        }
    }
}

impl Class {
    /// Reads the class that `resource` describes.
    pub fn from_resource(resource: &Resource) -> (r: Result<Class, AtomicError>)
        ensures
            match class_from(resource@) {
                Ok(c) => r matches Ok(x) && x@ == c,
                Err(e) => r matches Err(x) && x@ == e,
            },
    {
        let required = match get_url_list(resource, urls::REQUIRES) {
            Ok(v) => v,
            Err(e) => {
                return Err(e);
            },
        };
        let recommended = match get_url_list(resource, urls::RECOMMENDS) {
            Ok(v) => v,
            Err(e) => {
                return Err(e);
            },
        };
        Ok(
            Class {
                subject: resource.get_subject().clone(),
                requires: required,
                recommends: recommended,
            },
        )
    }
}

} // verus!
