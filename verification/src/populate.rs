//! The default vocabulary: the properties, datatypes and classes that a
//! store knows before it holds anything else.

use vstd::prelude::*;

use crate::json_array::{all_plain, array_text, is_plain, lemma_array_round_trip};
use crate::model::{
    atom_matches, distinct_subjects, lemma_put_all_fresh, lemma_select_all_at_least,
    lemma_select_all_concat, lemma_select_contains, put_all, resource_views, select, select_all,
    tpf_result, value_matches,
};
use crate::resources::{
    atoms_of, lemma_upsert, lookup, prop_index, upsert, Resource, ResourceView,
};
use crate::text::views;
use crate::urls;
use crate::values::{datatype_url, DataType, Value, ValueView};

verus! {

/// The resource that describes a property.
pub open spec fn property_model(subject: Seq<char>, shortname: Seq<char>, datatype: DataType)
    -> ResourceView {
    let class = upsert(
        Seq::empty(),
        urls::IS_A@,
        ValueView::ResourceArray(seq![urls::PROPERTY@]),
    );
    let named = upsert(class, urls::SHORTNAME@, ValueView::Slug(shortname));
    ResourceView {
        subject,
        propvals: upsert(
            named,
            urls::DATATYPE_PROP@,
            ValueView::AtomicUrl(datatype_url(datatype)),
        ),
        head: None,
    }
}

/// The resource that describes a datatype.
pub open spec fn datatype_model(subject: Seq<char>, shortname: Seq<char>) -> ResourceView {
    let class = upsert(
        Seq::empty(),
        urls::IS_A@,
        ValueView::ResourceArray(seq![urls::DATATYPE@]),
    );
    ResourceView {
        subject,
        propvals: upsert(class, urls::SHORTNAME@, ValueView::Slug(shortname)),
        head: None,
    }
}

/// The resource that describes a class.
pub open spec fn class_model(
    subject: Seq<char>,
    shortname: Seq<char>,
    required: Seq<Seq<char>>,
    recommended: Seq<Seq<char>>,
) -> ResourceView {
    let class = upsert(Seq::empty(), urls::IS_A@, ValueView::ResourceArray(seq![urls::CLASS@]));
    let named = upsert(class, urls::SHORTNAME@, ValueView::Slug(shortname));
    let asked = upsert(named, urls::REQUIRES@, ValueView::ResourceArray(required));
    ResourceView {
        subject,
        propvals: upsert(asked, urls::RECOMMENDS@, ValueView::ResourceArray(recommended)),
        head: None,
    }
}

/// The properties that describe properties, classes, rights and agents.
pub open spec fn schema_properties() -> Seq<ResourceView> {
    seq![
        property_model(urls::SHORTNAME@, "shortname"@, DataType::Slug),
        property_model(urls::DESCRIPTION@, "description"@, DataType::Markdown),
        property_model(urls::IS_A@, "is-a"@, DataType::ResourceArray),
        property_model(urls::DATATYPE_PROP@, "datatype"@, DataType::AtomicUrl),
        property_model(urls::CLASSTYPE_PROP@, "classtype"@, DataType::AtomicUrl),
        property_model(urls::REQUIRES@, "requires"@, DataType::ResourceArray),
        property_model(urls::RECOMMENDS@, "recommends"@, DataType::ResourceArray),
        property_model(urls::PARENT@, "parent"@, DataType::AtomicUrl),
        property_model(urls::READ@, "read"@, DataType::ResourceArray),
        property_model(urls::WRITE@, "write"@, DataType::ResourceArray),
        property_model(urls::NAME@, "name"@, DataType::String),
        property_model(urls::PUBLIC_KEY@, "public-key"@, DataType::String),
        property_model(urls::CREATED_AT@, "created-at"@, DataType::Timestamp),
    ]
}

/// The properties of commits, drives and redirects.
pub open spec fn commit_properties() -> Seq<ResourceView> {
    seq![
        property_model(urls::SUBJECT@, "subject"@, DataType::AtomicUrl),
        property_model(urls::SIGNER@, "signer"@, DataType::AtomicUrl),
        property_model(urls::SIGNATURE@, "signature"@, DataType::String),
        property_model(urls::PREVIOUS_COMMIT@, "previous-commit"@, DataType::AtomicUrl),
        property_model(urls::LAST_COMMIT@, "last-commit"@, DataType::AtomicUrl),
        property_model(urls::DESTROY@, "destroy"@, DataType::Boolean),
        property_model(urls::REMOVE@, "remove"@, DataType::ResourceArray),
        property_model(urls::CHILDREN@, "children"@, DataType::ResourceArray),
        property_model(urls::DESTINATION@, "destination"@, DataType::AtomicUrl),
    ]
}

/// The properties of collections, endpoints, invites, documents, files and bookmarks.
pub open spec fn content_properties() -> Seq<ResourceView> {
    seq![
        property_model(urls::COLLECTION_MEMBERS@, "members"@, DataType::ResourceArray),
        property_model(urls::COLLECTION_PROPERTY@, "property"@, DataType::AtomicUrl),
        property_model(urls::COLLECTION_VALUE@, "value"@, DataType::String),
        property_model(urls::ENDPOINT_PARAMETERS@, "parameters"@, DataType::ResourceArray),
        property_model(urls::INVITE_TARGET@, "target"@, DataType::AtomicUrl),
        property_model(urls::INVITE_USAGES_LEFT@, "usages-left"@, DataType::Integer),
        property_model(urls::DOCUMENT_ELEMENTS@, "elements"@, DataType::ResourceArray),
        property_model(urls::DOWNLOAD_URL@, "download-url"@, DataType::AtomicUrl),
        property_model(urls::MIMETYPE@, "mimetype"@, DataType::String),
        property_model(urls::URL_PROP@, "url"@, DataType::AtomicUrl),
    ]
}

/// The datatypes, each described as a resource.
pub open spec fn core_datatypes() -> Seq<ResourceView> {
    seq![
        datatype_model(urls::ATOMIC_URL@, "atomic-url"@),
        datatype_model(urls::BOOLEAN@, "boolean"@),
        datatype_model(urls::DATE@, "date"@),
        datatype_model(urls::FLOAT@, "float"@),
        datatype_model(urls::INTEGER@, "integer"@),
        datatype_model(urls::MARKDOWN@, "markdown"@),
        datatype_model(urls::RESOURCE_ARRAY@, "resource-array"@),
        datatype_model(urls::SLUG@, "slug"@),
        datatype_model(urls::STRING@, "string"@),
        datatype_model(urls::TIMESTAMP@, "timestamp"@),
    ]
}

/// The classes of the data model itself and of what the store keeps for its own work.
pub open spec fn schema_classes() -> Seq<ResourceView> {
    seq![
        class_model(urls::CLASS@, "class"@, seq![urls::SHORTNAME@], seq![urls::DESCRIPTION@, urls::REQUIRES@, urls::RECOMMENDS@]),
        class_model(urls::PROPERTY@, "property"@, seq![urls::SHORTNAME@, urls::DATATYPE_PROP@], seq![urls::DESCRIPTION@, urls::CLASSTYPE_PROP@]),
        class_model(urls::DATATYPE@, "datatype"@, seq![urls::SHORTNAME@], seq![urls::DESCRIPTION@]),
        class_model(urls::AGENT@, "agent"@, seq![urls::PUBLIC_KEY@], seq![urls::NAME@]),
        class_model(urls::COMMIT@, "commit"@, seq![urls::SUBJECT@, urls::CREATED_AT@, urls::SIGNER@], seq![urls::SIGNATURE@, urls::PREVIOUS_COMMIT@, urls::DESTROY@, urls::REMOVE@]),
        class_model(urls::COLLECTION@, "collection"@, Seq::empty(), seq![urls::COLLECTION_MEMBERS@, urls::COLLECTION_PROPERTY@, urls::COLLECTION_VALUE@]),
        class_model(urls::DRIVE@, "drive"@, Seq::empty(), seq![urls::NAME@, urls::CHILDREN@]),
    ]
}

/// The classes of what users keep in a store.
pub open spec fn content_classes() -> Seq<ResourceView> {
    seq![
        class_model(urls::ENDPOINT@, "endpoint"@, seq![urls::SHORTNAME@], seq![urls::ENDPOINT_PARAMETERS@]),
        class_model(urls::INVITE@, "invite"@, seq![urls::INVITE_TARGET@], seq![urls::INVITE_USAGES_LEFT@]),
        class_model(urls::REDIRECT@, "redirect"@, seq![urls::DESTINATION@], Seq::empty()),
        class_model(urls::DOCUMENT@, "document"@, Seq::empty(), seq![urls::NAME@, urls::DOCUMENT_ELEMENTS@]),
        class_model(urls::PARAGRAPH@, "paragraph"@, seq![urls::DESCRIPTION@], Seq::empty()),
        class_model(urls::FILE@, "file"@, seq![urls::DOWNLOAD_URL@], seq![urls::MIMETYPE@, urls::DESCRIPTION@]),
        class_model(urls::BOOKMARK@, "bookmark"@, seq![urls::URL_PROP@], seq![urls::NAME@]),
    ]
}

/// The classes of the default vocabulary.
pub open spec fn core_classes() -> Seq<ResourceView> {
    schema_classes() + content_classes()
}

/// The properties of the default vocabulary.
pub open spec fn core_properties() -> Seq<ResourceView> {
    schema_properties() + commit_properties() + content_properties()
}

/// The default vocabulary: its properties, then its datatypes, then its
/// classes.
pub open spec fn base_models() -> Seq<ResourceView> {
    core_properties() + core_datatypes() + core_classes()
}

/// A vector of no URL.
fn none() -> (r: Vec<String>)
    ensures
        views(r@) == Seq::<Seq<char>>::empty(),
{
    let v: Vec<String> = Vec::new();
    assert(views(v@) =~= Seq::<Seq<char>>::empty());
    v
}

/// A vector of one URL.
fn one(a: &str) -> (r: Vec<String>)
    ensures
        views(r@) == seq![a@],
{
    let mut v: Vec<String> = Vec::new();
    v.push(a.to_owned());
    assert(views(v@) =~= seq![a@]);
    v
}

/// A vector of two URLs.
fn two(a: &str, b: &str) -> (r: Vec<String>)
    ensures
        views(r@) == seq![a@, b@],
{
    let mut v: Vec<String> = Vec::new();
    v.push(a.to_owned());
    v.push(b.to_owned());
    assert(views(v@) =~= seq![a@, b@]);
    v
}

/// A vector of three URLs.
fn three(a: &str, b: &str, c: &str) -> (r: Vec<String>)
    ensures
        views(r@) == seq![a@, b@, c@],
{
    let mut v: Vec<String> = Vec::new();
    v.push(a.to_owned());
    v.push(b.to_owned());
    v.push(c.to_owned());
    assert(views(v@) =~= seq![a@, b@, c@]);
    v
}

/// A vector of four URLs.
fn four(a: &str, b: &str, c: &str, d: &str) -> (r: Vec<String>)
    ensures
        views(r@) == seq![a@, b@, c@, d@],
{
    let mut v: Vec<String> = Vec::new();
    v.push(a.to_owned());
    v.push(b.to_owned());
    v.push(c.to_owned());
    v.push(d.to_owned());
    assert(views(v@) =~= seq![a@, b@, c@, d@]);
    v
}

/// The resource that describes a property.
pub fn new_property(subject: &str, shortname: &str, datatype: DataType) -> (r: Resource)
    ensures
        r@ == property_model(subject@, shortname@, datatype),
{
    let mut r = Resource::new(subject.to_owned());
    r.set_propval_unsafe(urls::IS_A.to_owned(), Value::ResourceArray(one(urls::PROPERTY)));
    r.set_propval_unsafe(urls::SHORTNAME.to_owned(), Value::Slug(shortname.to_owned()));
    r.set_propval_unsafe(
        urls::DATATYPE_PROP.to_owned(),
        Value::AtomicUrl(datatype.to_url().to_owned()),
    );
    r
}

/// The resource that describes a datatype.
pub fn new_datatype(subject: &str, shortname: &str) -> (r: Resource)
    ensures
        r@ == datatype_model(subject@, shortname@),
{
    let mut r = Resource::new(subject.to_owned());
    r.set_propval_unsafe(urls::IS_A.to_owned(), Value::ResourceArray(one(urls::DATATYPE)));
    r.set_propval_unsafe(urls::SHORTNAME.to_owned(), Value::Slug(shortname.to_owned()));
    r
}

/// The resource that describes a class.
pub fn new_class(
    subject: &str,
    shortname: &str,
    required: Vec<String>,
    recommended: Vec<String>,
) -> (r: Resource)
    ensures
        r@ == class_model(subject@, shortname@, views(required@), views(recommended@)),
{
    let mut r = Resource::new(subject.to_owned());
    r.set_propval_unsafe(urls::IS_A.to_owned(), Value::ResourceArray(one(urls::CLASS)));
    r.set_propval_unsafe(urls::SHORTNAME.to_owned(), Value::Slug(shortname.to_owned()));
    r.set_propval_unsafe(urls::REQUIRES.to_owned(), Value::ResourceArray(required));
    r.set_propval_unsafe(urls::RECOMMENDS.to_owned(), Value::ResourceArray(recommended));
    r
}

/// The resources of the properties that describe properties, classes, rights and agents.
fn schema_property_resources() -> (r: Vec<Resource>)
    ensures
        resource_views(r@) == schema_properties(),
{
    let mut v: Vec<Resource> = Vec::new();
    v.push(new_property(urls::SHORTNAME, "shortname", DataType::Slug));
    v.push(new_property(urls::DESCRIPTION, "description", DataType::Markdown));
    v.push(new_property(urls::IS_A, "is-a", DataType::ResourceArray));
    v.push(new_property(urls::DATATYPE_PROP, "datatype", DataType::AtomicUrl));
    v.push(new_property(urls::CLASSTYPE_PROP, "classtype", DataType::AtomicUrl));
    v.push(new_property(urls::REQUIRES, "requires", DataType::ResourceArray));
    v.push(new_property(urls::RECOMMENDS, "recommends", DataType::ResourceArray));
    v.push(new_property(urls::PARENT, "parent", DataType::AtomicUrl));
    v.push(new_property(urls::READ, "read", DataType::ResourceArray));
    v.push(new_property(urls::WRITE, "write", DataType::ResourceArray));
    v.push(new_property(urls::NAME, "name", DataType::String));
    v.push(new_property(urls::PUBLIC_KEY, "public-key", DataType::String));
    v.push(new_property(urls::CREATED_AT, "created-at", DataType::Timestamp));
    assert(resource_views(v@) =~= schema_properties());
    v
}

/// The resources of the properties of commits, drives and redirects.
fn commit_property_resources() -> (r: Vec<Resource>)
    ensures
        resource_views(r@) == commit_properties(),
{
    let mut v: Vec<Resource> = Vec::new();
    v.push(new_property(urls::SUBJECT, "subject", DataType::AtomicUrl));
    v.push(new_property(urls::SIGNER, "signer", DataType::AtomicUrl));
    v.push(new_property(urls::SIGNATURE, "signature", DataType::String));
    v.push(new_property(urls::PREVIOUS_COMMIT, "previous-commit", DataType::AtomicUrl));
    v.push(new_property(urls::LAST_COMMIT, "last-commit", DataType::AtomicUrl));
    v.push(new_property(urls::DESTROY, "destroy", DataType::Boolean));
    v.push(new_property(urls::REMOVE, "remove", DataType::ResourceArray));
    v.push(new_property(urls::CHILDREN, "children", DataType::ResourceArray));
    v.push(new_property(urls::DESTINATION, "destination", DataType::AtomicUrl));
    assert(resource_views(v@) =~= commit_properties());
    v
}

/// The resources of the properties of what users keep in a store.
fn content_property_resources() -> (r: Vec<Resource>)
    ensures
        resource_views(r@) == content_properties(),
{
    let mut v: Vec<Resource> = Vec::new();
    v.push(new_property(urls::COLLECTION_MEMBERS, "members", DataType::ResourceArray));
    v.push(new_property(urls::COLLECTION_PROPERTY, "property", DataType::AtomicUrl));
    v.push(new_property(urls::COLLECTION_VALUE, "value", DataType::String));
    v.push(new_property(urls::ENDPOINT_PARAMETERS, "parameters", DataType::ResourceArray));
    v.push(new_property(urls::INVITE_TARGET, "target", DataType::AtomicUrl));
    v.push(new_property(urls::INVITE_USAGES_LEFT, "usages-left", DataType::Integer));
    v.push(new_property(urls::DOCUMENT_ELEMENTS, "elements", DataType::ResourceArray));
    v.push(new_property(urls::DOWNLOAD_URL, "download-url", DataType::AtomicUrl));
    v.push(new_property(urls::MIMETYPE, "mimetype", DataType::String));
    v.push(new_property(urls::URL_PROP, "url", DataType::AtomicUrl));
    assert(resource_views(v@) =~= content_properties());
    v
}

/// The resources that describe the datatypes.
fn datatype_resources() -> (r: Vec<Resource>)
    ensures
        resource_views(r@) == core_datatypes(),
{
    let mut v: Vec<Resource> = Vec::new();
    v.push(new_datatype(urls::ATOMIC_URL, "atomic-url"));
    v.push(new_datatype(urls::BOOLEAN, "boolean"));
    v.push(new_datatype(urls::DATE, "date"));
    v.push(new_datatype(urls::FLOAT, "float"));
    v.push(new_datatype(urls::INTEGER, "integer"));
    v.push(new_datatype(urls::MARKDOWN, "markdown"));
    v.push(new_datatype(urls::RESOURCE_ARRAY, "resource-array"));
    v.push(new_datatype(urls::SLUG, "slug"));
    v.push(new_datatype(urls::STRING, "string"));
    v.push(new_datatype(urls::TIMESTAMP, "timestamp"));
    assert(resource_views(v@) =~= core_datatypes());
    v
}

/// The resources of the classes of the data model itself.
fn schema_class_resources() -> (r: Vec<Resource>)
    ensures
        resource_views(r@) == schema_classes(),
{
    let mut v: Vec<Resource> = Vec::new();
    v.push(new_class(urls::CLASS, "class", one(urls::SHORTNAME), three(urls::DESCRIPTION, urls::REQUIRES, urls::RECOMMENDS)));
    v.push(new_class(urls::PROPERTY, "property", two(urls::SHORTNAME, urls::DATATYPE_PROP), two(urls::DESCRIPTION, urls::CLASSTYPE_PROP)));
    v.push(new_class(urls::DATATYPE, "datatype", one(urls::SHORTNAME), one(urls::DESCRIPTION)));
    v.push(new_class(urls::AGENT, "agent", one(urls::PUBLIC_KEY), one(urls::NAME)));
    v.push(new_class(urls::COMMIT, "commit", three(urls::SUBJECT, urls::CREATED_AT, urls::SIGNER), four(urls::SIGNATURE, urls::PREVIOUS_COMMIT, urls::DESTROY, urls::REMOVE)));
    v.push(new_class(urls::COLLECTION, "collection", none(), three(urls::COLLECTION_MEMBERS, urls::COLLECTION_PROPERTY, urls::COLLECTION_VALUE)));
    v.push(new_class(urls::DRIVE, "drive", none(), two(urls::NAME, urls::CHILDREN)));
    assert(resource_views(v@) =~= schema_classes());
    v
}

/// The resources of the classes of what users keep in a store.
fn content_class_resources() -> (r: Vec<Resource>)
    ensures
        resource_views(r@) == content_classes(),
{
    let mut v: Vec<Resource> = Vec::new();
    v.push(new_class(urls::ENDPOINT, "endpoint", one(urls::SHORTNAME), one(urls::ENDPOINT_PARAMETERS)));
    v.push(new_class(urls::INVITE, "invite", one(urls::INVITE_TARGET), one(urls::INVITE_USAGES_LEFT)));
    v.push(new_class(urls::REDIRECT, "redirect", one(urls::DESTINATION), none()));
    v.push(new_class(urls::DOCUMENT, "document", none(), two(urls::NAME, urls::DOCUMENT_ELEMENTS)));
    v.push(new_class(urls::PARAGRAPH, "paragraph", one(urls::DESCRIPTION), none()));
    v.push(new_class(urls::FILE, "file", one(urls::DOWNLOAD_URL), two(urls::MIMETYPE, urls::DESCRIPTION)));
    v.push(new_class(urls::BOOKMARK, "bookmark", one(urls::URL_PROP), one(urls::NAME)));
    assert(resource_views(v@) =~= content_classes());
    v
}

/// Moves the resources of `more` to the end of `all`.
fn extend(all: &mut Vec<Resource>, more: Vec<Resource>)
    ensures
        resource_views(final(all)@) == resource_views(old(all)@) + resource_views(more@),
{
    let mut more = more;
    let ghost added = more@;
    all.append(&mut more);
    assert(resource_views(all@) =~= resource_views(old(all)@) + resource_views(added));
}

/// The resources of the default vocabulary.
pub fn base_model_resources() -> (r: Vec<Resource>)
    ensures
        resource_views(r@) == base_models(),
{
    let mut v = schema_property_resources();
    extend(&mut v, commit_property_resources());
    extend(&mut v, content_property_resources());
    extend(&mut v, datatype_resources());
    extend(&mut v, schema_class_resources());
    extend(&mut v, content_class_resources());
    assert(resource_views(v@) =~= base_models());
    v
}

/// A number that tells the subjects of the default vocabulary apart: its length,
/// its 35th character and the sixth character from its end.
pub open spec fn fingerprint(s: Seq<char>) -> int {
    s.len() * 65536 + (s[34] as int) * 256 + (s[s.len() - 6] as int)
}

/// The fingerprints of the subjects of one part of the vocabulary.
proof fn lemma_fingerprints_schema_properties()
    ensures
        schema_properties().len() == 13,
        fingerprint(schema_properties()[0].subject) == 2847602,
        fingerprint(schema_properties()[1].subject) == 2974825,
        fingerprint(schema_properties()[2].subject) == 2451813,
        fingerprint(schema_properties()[3].subject) == 2778228,
        fingerprint(schema_properties()[4].subject) == 2843507,
        fingerprint(schema_properties()[5].subject) == 2781809,
        fingerprint(schema_properties()[6].subject) == 2912877,
        fingerprint(schema_properties()[7].subject) == 2650224,
        fingerprint(schema_properties()[8].subject) == 2519667,
        fingerprint(schema_properties()[9].subject) == 2586415,
        fingerprint(schema_properties()[10].subject) == 2518643,
        fingerprint(schema_properties()[11].subject) == 2846828,
        fingerprint(schema_properties()[12].subject) == 2843489,
{
    reveal_strlit("https://atomicdata.dev/properties/shortname");
    assert(urls::SHORTNAME@.len() == 43 && urls::SHORTNAME@[34] == 's' && urls::SHORTNAME@[37] == 'r');
    reveal_strlit("https://atomicdata.dev/properties/description");
    assert(urls::DESCRIPTION@.len() == 45 && urls::DESCRIPTION@[34] == 'd' && urls::DESCRIPTION@[39] == 'i');
    reveal_strlit("https://atomicdata.dev/properties/isA");
    assert(urls::IS_A@.len() == 37 && urls::IS_A@[34] == 'i' && urls::IS_A@[31] == 'e');
    reveal_strlit("https://atomicdata.dev/properties/datatype");
    assert(urls::DATATYPE_PROP@.len() == 42 && urls::DATATYPE_PROP@[34] == 'd' && urls::DATATYPE_PROP@[36] == 't');
    reveal_strlit("https://atomicdata.dev/properties/classtype");
    assert(urls::CLASSTYPE_PROP@.len() == 43 && urls::CLASSTYPE_PROP@[34] == 'c' && urls::CLASSTYPE_PROP@[37] == 's');
    reveal_strlit("https://atomicdata.dev/properties/requires");
    assert(urls::REQUIRES@.len() == 42 && urls::REQUIRES@[34] == 'r' && urls::REQUIRES@[36] == 'q');
    reveal_strlit("https://atomicdata.dev/properties/recommends");
    assert(urls::RECOMMENDS@.len() == 44 && urls::RECOMMENDS@[34] == 'r' && urls::RECOMMENDS@[38] == 'm');
    reveal_strlit("https://atomicdata.dev/properties/parent");
    assert(urls::PARENT@.len() == 40 && urls::PARENT@[34] == 'p' && urls::PARENT@[34] == 'p');
    reveal_strlit("https://atomicdata.dev/properties/read");
    assert(urls::READ@.len() == 38 && urls::READ@[34] == 'r' && urls::READ@[32] == 's');
    reveal_strlit("https://atomicdata.dev/properties/write");
    assert(urls::WRITE@.len() == 39 && urls::WRITE@[34] == 'w' && urls::WRITE@[33] == '/');
    reveal_strlit("https://atomicdata.dev/properties/name");
    assert(urls::NAME@.len() == 38 && urls::NAME@[34] == 'n' && urls::NAME@[32] == 's');
    reveal_strlit("https://atomicdata.dev/properties/publicKey");
    assert(urls::PUBLIC_KEY@.len() == 43 && urls::PUBLIC_KEY@[34] == 'p' && urls::PUBLIC_KEY@[37] == 'l');
    reveal_strlit("https://atomicdata.dev/properties/createdAt");
    assert(urls::CREATED_AT@.len() == 43 && urls::CREATED_AT@[34] == 'c' && urls::CREATED_AT@[37] == 'a');
}

/// The fingerprints of the subjects of one part of the vocabulary.
proof fn lemma_fingerprints_commit_properties()
    ensures
        commit_properties().len() == 9,
        fingerprint(commit_properties()[0].subject) == 2716533,
        fingerprint(commit_properties()[1].subject) == 2650995,
        fingerprint(commit_properties()[2].subject) == 2847598,
        fingerprint(commit_properties()[3].subject) == 3174467,
        fingerprint(commit_properties()[4].subject) == 2911299,
        fingerprint(commit_properties()[5].subject) == 2712677,
        fingerprint(commit_properties()[6].subject) == 2650738,
        fingerprint(commit_properties()[7].subject) == 2777961,
        fingerprint(commit_properties()[8].subject) == 2974830,
{
    reveal_strlit("https://atomicdata.dev/properties/subject");
    assert(urls::SUBJECT@.len() == 41 && urls::SUBJECT@[34] == 's' && urls::SUBJECT@[35] == 'u');
    reveal_strlit("https://atomicdata.dev/properties/signer");
    assert(urls::SIGNER@.len() == 40 && urls::SIGNER@[34] == 's' && urls::SIGNER@[34] == 's');
    reveal_strlit("https://atomicdata.dev/properties/signature");
    assert(urls::SIGNATURE@.len() == 43 && urls::SIGNATURE@[34] == 's' && urls::SIGNATURE@[37] == 'n');
    reveal_strlit("https://atomicdata.dev/properties/previousCommit");
    assert(urls::PREVIOUS_COMMIT@.len() == 48 && urls::PREVIOUS_COMMIT@[34] == 'p' && urls::PREVIOUS_COMMIT@[42] == 'C');
    reveal_strlit("https://atomicdata.dev/properties/lastCommit");
    assert(urls::LAST_COMMIT@.len() == 44 && urls::LAST_COMMIT@[34] == 'l' && urls::LAST_COMMIT@[38] == 'C');
    reveal_strlit("https://atomicdata.dev/properties/destroy");
    assert(urls::DESTROY@.len() == 41 && urls::DESTROY@[34] == 'd' && urls::DESTROY@[35] == 'e');
    reveal_strlit("https://atomicdata.dev/properties/remove");
    assert(urls::REMOVE@.len() == 40 && urls::REMOVE@[34] == 'r' && urls::REMOVE@[34] == 'r');
    reveal_strlit("https://atomicdata.dev/properties/children");
    assert(urls::CHILDREN@.len() == 42 && urls::CHILDREN@[34] == 'c' && urls::CHILDREN@[36] == 'i');
    reveal_strlit("https://atomicdata.dev/properties/destination");
    assert(urls::DESTINATION@.len() == 45 && urls::DESTINATION@[34] == 'd' && urls::DESTINATION@[39] == 'n');
}

/// The fingerprints of the subjects of one part of the vocabulary.
proof fn lemma_fingerprints_content_properties()
    ensures
        content_properties().len() == 10,
        fingerprint(content_properties()[0].subject) == 3433317,
        fingerprint(content_properties()[1].subject) == 3498863,
        fingerprint(content_properties()[2].subject) == 3302191,
        fingerprint(content_properties()[3].subject) == 3499373,
        fingerprint(content_properties()[4].subject) == 3107188,
        fingerprint(content_properties()[5].subject) == 3369317,
        fingerprint(content_properties()[6].subject) == 3433573,
        fingerprint(content_properties()[7].subject) == 2974831,
        fingerprint(content_properties()[8].subject) == 2780525,
        fingerprint(content_properties()[9].subject) == 2321524,
{
    reveal_strlit("https://atomicdata.dev/properties/collection/members");
    assert(urls::COLLECTION_MEMBERS@.len() == 52 && urls::COLLECTION_MEMBERS@[34] == 'c' && urls::COLLECTION_MEMBERS@[46] == 'e');
    reveal_strlit("https://atomicdata.dev/properties/collection/property");
    assert(urls::COLLECTION_PROPERTY@.len() == 53 && urls::COLLECTION_PROPERTY@[34] == 'c' && urls::COLLECTION_PROPERTY@[47] == 'o');
    reveal_strlit("https://atomicdata.dev/properties/collection/value");
    assert(urls::COLLECTION_VALUE@.len() == 50 && urls::COLLECTION_VALUE@[34] == 'c' && urls::COLLECTION_VALUE@[44] == '/');
    reveal_strlit("https://atomicdata.dev/properties/endpoint/parameters");
    assert(urls::ENDPOINT_PARAMETERS@.len() == 53 && urls::ENDPOINT_PARAMETERS@[34] == 'e' && urls::ENDPOINT_PARAMETERS@[47] == 'm');
    reveal_strlit("https://atomicdata.dev/properties/invite/target");
    assert(urls::INVITE_TARGET@.len() == 47 && urls::INVITE_TARGET@[34] == 'i' && urls::INVITE_TARGET@[41] == 't');
    reveal_strlit("https://atomicdata.dev/properties/invite/usagesLeft");
    assert(urls::INVITE_USAGES_LEFT@.len() == 51 && urls::INVITE_USAGES_LEFT@[34] == 'i' && urls::INVITE_USAGES_LEFT@[45] == 'e');
    reveal_strlit("https://atomicdata.dev/properties/documents/elements");
    assert(urls::DOCUMENT_ELEMENTS@.len() == 52 && urls::DOCUMENT_ELEMENTS@[34] == 'd' && urls::DOCUMENT_ELEMENTS@[46] == 'e');
    reveal_strlit("https://atomicdata.dev/properties/downloadURL");
    assert(urls::DOWNLOAD_URL@.len() == 45 && urls::DOWNLOAD_URL@[34] == 'd' && urls::DOWNLOAD_URL@[39] == 'o');
    reveal_strlit("https://atomicdata.dev/properties/mimetype");
    assert(urls::MIMETYPE@.len() == 42 && urls::MIMETYPE@[34] == 'm' && urls::MIMETYPE@[36] == 'm');
    reveal_strlit("https://atomicdata.dev/property/url");
    assert(urls::URL_PROP@.len() == 35 && urls::URL_PROP@[34] == 'l' && urls::URL_PROP@[29] == 't');
}

/// The fingerprints of the subjects of one part of the vocabulary.
proof fn lemma_fingerprints_core_datatypes()
    ensures
        core_datatypes().len() == 10,
        fingerprint(core_datatypes()[0].subject) == 2782317,
        fingerprint(core_datatypes()[1].subject) == 2649967,
        fingerprint(core_datatypes()[2].subject) == 2449779,
        fingerprint(core_datatypes()[3].subject) == 2518063,
        fingerprint(core_datatypes()[4].subject) == 2649710,
        fingerprint(core_datatypes()[5].subject) == 2711922,
        fingerprint(core_datatypes()[6].subject) == 3040613,
        fingerprint(core_datatypes()[7].subject) == 2452595,
        fingerprint(core_datatypes()[8].subject) == 2585715,
        fingerprint(core_datatypes()[9].subject) == 2779493,
{
    reveal_strlit("https://atomicdata.dev/datatypes/atomicURL");
    assert(urls::ATOMIC_URL@.len() == 42 && urls::ATOMIC_URL@[34] == 't' && urls::ATOMIC_URL@[36] == 'm');
    reveal_strlit("https://atomicdata.dev/datatypes/boolean");
    assert(urls::BOOLEAN@.len() == 40 && urls::BOOLEAN@[34] == 'o' && urls::BOOLEAN@[34] == 'o');
    reveal_strlit("https://atomicdata.dev/datatypes/date");
    assert(urls::DATE@.len() == 37 && urls::DATE@[34] == 'a' && urls::DATE@[31] == 's');
    reveal_strlit("https://atomicdata.dev/datatypes/float");
    assert(urls::FLOAT@.len() == 38 && urls::FLOAT@[34] == 'l' && urls::FLOAT@[32] == '/');
    reveal_strlit("https://atomicdata.dev/datatypes/integer");
    assert(urls::INTEGER@.len() == 40 && urls::INTEGER@[34] == 'n' && urls::INTEGER@[34] == 'n');
    reveal_strlit("https://atomicdata.dev/datatypes/markdown");
    assert(urls::MARKDOWN@.len() == 41 && urls::MARKDOWN@[34] == 'a' && urls::MARKDOWN@[35] == 'r');
    reveal_strlit("https://atomicdata.dev/datatypes/resourceArray");
    assert(urls::RESOURCE_ARRAY@.len() == 46 && urls::RESOURCE_ARRAY@[34] == 'e' && urls::RESOURCE_ARRAY@[40] == 'e');
    reveal_strlit("https://atomicdata.dev/datatypes/slug");
    assert(urls::SLUG@.len() == 37 && urls::SLUG@[34] == 'l' && urls::SLUG@[31] == 's');
    reveal_strlit("https://atomicdata.dev/datatypes/string");
    assert(urls::STRING@.len() == 39 && urls::STRING@[34] == 't' && urls::STRING@[33] == 's');
    reveal_strlit("https://atomicdata.dev/datatypes/timestamp");
    assert(urls::TIMESTAMP@.len() == 42 && urls::TIMESTAMP@[34] == 'i' && urls::TIMESTAMP@[36] == 'e');
}

/// The fingerprints of the subjects of one part of the vocabulary.
proof fn lemma_fingerprints_schema_classes()
    ensures
        schema_classes().len() == 7,
        fingerprint(schema_classes()[0].subject) == 2388783,
        fingerprint(schema_classes()[1].subject) == 2584687,
        fingerprint(schema_classes()[2].subject) == 2580852,
        fingerprint(schema_classes()[3].subject) == 2387503,
        fingerprint(schema_classes()[4].subject) == 2452803,
        fingerprint(schema_classes()[5].subject) == 2714725,
        fingerprint(schema_classes()[6].subject) == 2389551,
{
    reveal_strlit("https://atomicdata.dev/classes/Class");
    assert(urls::CLASS@.len() == 36 && urls::CLASS@[34] == 's' && urls::CLASS@[30] == '/');
    reveal_strlit("https://atomicdata.dev/classes/Property");
    assert(urls::PROPERTY@.len() == 39 && urls::PROPERTY@[34] == 'p' && urls::PROPERTY@[33] == 'o');
    reveal_strlit("https://atomicdata.dev/classes/Datatype");
    assert(urls::DATATYPE@.len() == 39 && urls::DATATYPE@[34] == 'a' && urls::DATATYPE@[33] == 't');
    reveal_strlit("https://atomicdata.dev/classes/Agent");
    assert(urls::AGENT@.len() == 36 && urls::AGENT@[34] == 'n' && urls::AGENT@[30] == '/');
    reveal_strlit("https://atomicdata.dev/classes/Commit");
    assert(urls::COMMIT@.len() == 37 && urls::COMMIT@[34] == 'm' && urls::COMMIT@[31] == 'C');
    reveal_strlit("https://atomicdata.dev/classes/Collection");
    assert(urls::COLLECTION@.len() == 41 && urls::COLLECTION@[34] == 'l' && urls::COLLECTION@[35] == 'e');
    reveal_strlit("https://atomicdata.dev/classes/Drive");
    assert(urls::DRIVE@.len() == 36 && urls::DRIVE@[34] == 'v' && urls::DRIVE@[30] == '/');
}

/// The fingerprints of the subjects of one part of the vocabulary.
proof fn lemma_fingerprints_content_classes()
    ensures
        content_classes().len() == 7,
        fingerprint(content_classes()[0].subject) == 2584676,
        fingerprint(content_classes()[1].subject) == 2451785,
        fingerprint(content_classes()[2].subject) == 2582884,
        fingerprint(content_classes()[3].subject) == 2585955,
        fingerprint(content_classes()[4].subject) == 3239265,
        fingerprint(content_classes()[5].subject) == 2319731,
        fingerprint(content_classes()[6].subject) == 2449775,
{
    reveal_strlit("https://atomicdata.dev/classes/Endpoint");
    assert(urls::ENDPOINT@.len() == 39 && urls::ENDPOINT@[34] == 'p' && urls::ENDPOINT@[33] == 'd');
    reveal_strlit("https://atomicdata.dev/classes/Invite");
    assert(urls::INVITE@.len() == 37 && urls::INVITE@[34] == 'i' && urls::INVITE@[31] == 'I');
    reveal_strlit("https://atomicdata.dev/classes/Redirect");
    assert(urls::REDIRECT@.len() == 39 && urls::REDIRECT@[34] == 'i' && urls::REDIRECT@[33] == 'd');
    reveal_strlit("https://atomicdata.dev/classes/Document");
    assert(urls::DOCUMENT@.len() == 39 && urls::DOCUMENT@[34] == 'u' && urls::DOCUMENT@[33] == 'c');
    reveal_strlit("https://atomicdata.dev/classes/elements/Paragraph");
    assert(urls::PARAGRAPH@.len() == 49 && urls::PARAGRAPH@[34] == 'm' && urls::PARAGRAPH@[43] == 'a');
    reveal_strlit("https://atomicdata.dev/classes/File");
    assert(urls::FILE@.len() == 35 && urls::FILE@[34] == 'e' && urls::FILE@[29] == 's');
    reveal_strlit("https://atomicdata.dev/class/Bookmark");
    assert(urls::BOOKMARK@.len() == 37 && urls::BOOKMARK@[34] == 'a' && urls::BOOKMARK@[31] == 'o');
}

/// Whether `keys` holds the fingerprint of the subject of each resource
/// of `v`, in order.
pub open spec fn keyed(v: Seq<ResourceView>, keys: Seq<int>) -> bool {
    v.len() == keys.len() && forall|i: int|
        0 <= i < v.len() ==> fingerprint((#[trigger] v[i]).subject) == keys[i]
}

/// Resources whose subjects have fingerprints that differ from one
/// another have subjects that differ from one another.
proof fn lemma_distinct_by_key(v: Seq<ResourceView>, keys: Seq<int>)
    requires
        keyed(v, keys),
        forall|i: int, j: int| 0 <= i < j < keys.len() ==> keys[i] != keys[j],
    ensures
        distinct_subjects(v),
{
    assert forall|i: int, j: int| 0 <= i < j < v.len() implies (#[trigger] v[i]).subject != (
    #[trigger] v[j]).subject by {
        assert(fingerprint(v[i].subject) == keys[i]);
        assert(fingerprint(v[j].subject) == keys[j]);
    }
}

/// Two rows with their fingerprints, one after the other, are a row with
/// its fingerprints.
proof fn lemma_keyed_concat(a: Seq<ResourceView>, ka: Seq<int>, b: Seq<ResourceView>, kb: Seq<int>)
    requires
        keyed(a, ka),
        keyed(b, kb),
    ensures
        keyed(a + b, ka + kb),
{
    assert forall|i: int| 0 <= i < (a + b).len() implies fingerprint(
        (#[trigger] (a + b)[i]).subject,
    ) == (ka + kb)[i] by {
        if i < a.len() {
            assert((a + b)[i] == a[i]);
        } else {
            assert((a + b)[i] == b[i - a.len()]);
        }
    }
}

/// The fingerprints of one part of the vocabulary, in order.
pub open spec fn keys_of_schema_properties() -> Seq<int> {
    seq![2847602int, 2974825int, 2451813int, 2778228int, 2843507int, 2781809int, 2912877int, 2650224int, 2519667int, 2586415int, 2518643int, 2846828int, 2843489int]
}

/// One part of the vocabulary with its fingerprints.
proof fn lemma_keyed_schema_properties()
    ensures
        keyed(schema_properties(), keys_of_schema_properties()),
{
    lemma_fingerprints_schema_properties();
    let v = schema_properties();
    let k = keys_of_schema_properties();
    assert forall|i: int| 0 <= i < v.len() implies fingerprint((#[trigger] v[i]).subject) == k[i] by {
        if i == 0 {
            assert(fingerprint(v[0].subject) == k[0]);
        }         else if i == 1 {
            assert(fingerprint(v[1].subject) == k[1]);
        }         else if i == 2 {
            assert(fingerprint(v[2].subject) == k[2]);
        }         else if i == 3 {
            assert(fingerprint(v[3].subject) == k[3]);
        }         else if i == 4 {
            assert(fingerprint(v[4].subject) == k[4]);
        }         else if i == 5 {
            assert(fingerprint(v[5].subject) == k[5]);
        }         else if i == 6 {
            assert(fingerprint(v[6].subject) == k[6]);
        }         else if i == 7 {
            assert(fingerprint(v[7].subject) == k[7]);
        }         else if i == 8 {
            assert(fingerprint(v[8].subject) == k[8]);
        }         else if i == 9 {
            assert(fingerprint(v[9].subject) == k[9]);
        }         else if i == 10 {
            assert(fingerprint(v[10].subject) == k[10]);
        }         else if i == 11 {
            assert(fingerprint(v[11].subject) == k[11]);
        }         else if i == 12 {
            assert(fingerprint(v[12].subject) == k[12]);
        }
    }
}

/// The fingerprints of one part of the vocabulary, in order.
pub open spec fn keys_of_commit_properties() -> Seq<int> {
    seq![2716533int, 2650995int, 2847598int, 3174467int, 2911299int, 2712677int, 2650738int, 2777961int, 2974830int]
}

/// One part of the vocabulary with its fingerprints.
proof fn lemma_keyed_commit_properties()
    ensures
        keyed(commit_properties(), keys_of_commit_properties()),
{
    lemma_fingerprints_commit_properties();
    let v = commit_properties();
    let k = keys_of_commit_properties();
    assert forall|i: int| 0 <= i < v.len() implies fingerprint((#[trigger] v[i]).subject) == k[i] by {
        if i == 0 {
            assert(fingerprint(v[0].subject) == k[0]);
        }         else if i == 1 {
            assert(fingerprint(v[1].subject) == k[1]);
        }         else if i == 2 {
            assert(fingerprint(v[2].subject) == k[2]);
        }         else if i == 3 {
            assert(fingerprint(v[3].subject) == k[3]);
        }         else if i == 4 {
            assert(fingerprint(v[4].subject) == k[4]);
        }         else if i == 5 {
            assert(fingerprint(v[5].subject) == k[5]);
        }         else if i == 6 {
            assert(fingerprint(v[6].subject) == k[6]);
        }         else if i == 7 {
            assert(fingerprint(v[7].subject) == k[7]);
        }         else if i == 8 {
            assert(fingerprint(v[8].subject) == k[8]);
        }
    }
}

/// The fingerprints of one part of the vocabulary, in order.
pub open spec fn keys_of_content_properties() -> Seq<int> {
    seq![3433317int, 3498863int, 3302191int, 3499373int, 3107188int, 3369317int, 3433573int, 2974831int, 2780525int, 2321524int]
}

/// One part of the vocabulary with its fingerprints.
proof fn lemma_keyed_content_properties()
    ensures
        keyed(content_properties(), keys_of_content_properties()),
{
    lemma_fingerprints_content_properties();
    let v = content_properties();
    let k = keys_of_content_properties();
    assert forall|i: int| 0 <= i < v.len() implies fingerprint((#[trigger] v[i]).subject) == k[i] by {
        if i == 0 {
            assert(fingerprint(v[0].subject) == k[0]);
        }         else if i == 1 {
            assert(fingerprint(v[1].subject) == k[1]);
        }         else if i == 2 {
            assert(fingerprint(v[2].subject) == k[2]);
        }         else if i == 3 {
            assert(fingerprint(v[3].subject) == k[3]);
        }         else if i == 4 {
            assert(fingerprint(v[4].subject) == k[4]);
        }         else if i == 5 {
            assert(fingerprint(v[5].subject) == k[5]);
        }         else if i == 6 {
            assert(fingerprint(v[6].subject) == k[6]);
        }         else if i == 7 {
            assert(fingerprint(v[7].subject) == k[7]);
        }         else if i == 8 {
            assert(fingerprint(v[8].subject) == k[8]);
        }         else if i == 9 {
            assert(fingerprint(v[9].subject) == k[9]);
        }
    }
}

/// The fingerprints of one part of the vocabulary, in order.
pub open spec fn keys_of_core_datatypes() -> Seq<int> {
    seq![2782317int, 2649967int, 2449779int, 2518063int, 2649710int, 2711922int, 3040613int, 2452595int, 2585715int, 2779493int]
}

/// One part of the vocabulary with its fingerprints.
proof fn lemma_keyed_core_datatypes()
    ensures
        keyed(core_datatypes(), keys_of_core_datatypes()),
{
    lemma_fingerprints_core_datatypes();
    let v = core_datatypes();
    let k = keys_of_core_datatypes();
    assert forall|i: int| 0 <= i < v.len() implies fingerprint((#[trigger] v[i]).subject) == k[i] by {
        if i == 0 {
            assert(fingerprint(v[0].subject) == k[0]);
        }         else if i == 1 {
            assert(fingerprint(v[1].subject) == k[1]);
        }         else if i == 2 {
            assert(fingerprint(v[2].subject) == k[2]);
        }         else if i == 3 {
            assert(fingerprint(v[3].subject) == k[3]);
        }         else if i == 4 {
            assert(fingerprint(v[4].subject) == k[4]);
        }         else if i == 5 {
            assert(fingerprint(v[5].subject) == k[5]);
        }         else if i == 6 {
            assert(fingerprint(v[6].subject) == k[6]);
        }         else if i == 7 {
            assert(fingerprint(v[7].subject) == k[7]);
        }         else if i == 8 {
            assert(fingerprint(v[8].subject) == k[8]);
        }         else if i == 9 {
            assert(fingerprint(v[9].subject) == k[9]);
        }
    }
}

/// The fingerprints of one part of the vocabulary, in order.
pub open spec fn keys_of_schema_classes() -> Seq<int> {
    seq![2388783int, 2584687int, 2580852int, 2387503int, 2452803int, 2714725int, 2389551int]
}

/// One part of the vocabulary with its fingerprints.
proof fn lemma_keyed_schema_classes()
    ensures
        keyed(schema_classes(), keys_of_schema_classes()),
{
    lemma_fingerprints_schema_classes();
    let v = schema_classes();
    let k = keys_of_schema_classes();
    assert forall|i: int| 0 <= i < v.len() implies fingerprint((#[trigger] v[i]).subject) == k[i] by {
        if i == 0 {
            assert(fingerprint(v[0].subject) == k[0]);
        }         else if i == 1 {
            assert(fingerprint(v[1].subject) == k[1]);
        }         else if i == 2 {
            assert(fingerprint(v[2].subject) == k[2]);
        }         else if i == 3 {
            assert(fingerprint(v[3].subject) == k[3]);
        }         else if i == 4 {
            assert(fingerprint(v[4].subject) == k[4]);
        }         else if i == 5 {
            assert(fingerprint(v[5].subject) == k[5]);
        }         else if i == 6 {
            assert(fingerprint(v[6].subject) == k[6]);
        }
    }
}

/// The fingerprints of one part of the vocabulary, in order.
pub open spec fn keys_of_content_classes() -> Seq<int> {
    seq![2584676int, 2451785int, 2582884int, 2585955int, 3239265int, 2319731int, 2449775int]
}

/// One part of the vocabulary with its fingerprints.
proof fn lemma_keyed_content_classes()
    ensures
        keyed(content_classes(), keys_of_content_classes()),
{
    lemma_fingerprints_content_classes();
    let v = content_classes();
    let k = keys_of_content_classes();
    assert forall|i: int| 0 <= i < v.len() implies fingerprint((#[trigger] v[i]).subject) == k[i] by {
        if i == 0 {
            assert(fingerprint(v[0].subject) == k[0]);
        }         else if i == 1 {
            assert(fingerprint(v[1].subject) == k[1]);
        }         else if i == 2 {
            assert(fingerprint(v[2].subject) == k[2]);
        }         else if i == 3 {
            assert(fingerprint(v[3].subject) == k[3]);
        }         else if i == 4 {
            assert(fingerprint(v[4].subject) == k[4]);
        }         else if i == 5 {
            assert(fingerprint(v[5].subject) == k[5]);
        }         else if i == 6 {
            assert(fingerprint(v[6].subject) == k[6]);
        }
    }
}

/// The fingerprints of the default vocabulary, in order.
pub open spec fn vocabulary_keys() -> Seq<int> {
    keys_of_schema_properties() + keys_of_commit_properties() + keys_of_content_properties()
        + keys_of_core_datatypes() + (keys_of_schema_classes() + keys_of_content_classes())
}

/// No fingerprint occurs twice in the default vocabulary.
proof fn lemma_keys_distinct()
    ensures
        forall|i: int, j: int|
            0 <= i < j < vocabulary_keys().len() ==> vocabulary_keys()[i] != vocabulary_keys()[j],
{
}

/// No subject occurs twice in the default vocabulary.
pub proof fn lemma_vocabulary_distinct()
    ensures
        distinct_subjects(base_models()),
{
    lemma_keyed_schema_properties();
    lemma_keyed_commit_properties();
    lemma_keyed_content_properties();
    lemma_keyed_core_datatypes();
    lemma_keyed_schema_classes();
    lemma_keyed_content_classes();
    lemma_keyed_concat(
        schema_properties(),
        keys_of_schema_properties(),
        commit_properties(),
        keys_of_commit_properties(),
    );
    lemma_keyed_concat(
        schema_properties() + commit_properties(),
        keys_of_schema_properties() + keys_of_commit_properties(),
        content_properties(),
        keys_of_content_properties(),
    );
    lemma_keyed_concat(
        core_properties(),
        keys_of_schema_properties() + keys_of_commit_properties() + keys_of_content_properties(),
        core_datatypes(),
        keys_of_core_datatypes(),
    );
    lemma_keyed_concat(
        schema_classes(),
        keys_of_schema_classes(),
        content_classes(),
        keys_of_content_classes(),
    );
    lemma_keyed_concat(
        core_properties() + core_datatypes(),
        keys_of_schema_properties() + keys_of_commit_properties() + keys_of_content_properties()
            + keys_of_core_datatypes(),
        core_classes(),
        keys_of_schema_classes() + keys_of_content_classes(),
    );
    lemma_keys_distinct();
    lemma_distinct_by_key(base_models(), vocabulary_keys());
}

/// The URL of the class of classes holds neither a double quote nor a
/// backslash.
proof fn lemma_class_url_is_plain()
    ensures
        is_plain(urls::CLASS@),
{
    reveal_strlit("https://atomicdata.dev/classes/Class");
    let s = urls::CLASS@;
    assert(s.len() == 36);
    assert forall|i: int| 0 <= i < s.len() implies #[trigger] s[i] != '"' && s[i] != '\\' by {
        if i == 0 {
            assert(s[0] == 'h');
        }         else if i == 1 {
            assert(s[1] == 't');
        }         else if i == 2 {
            assert(s[2] == 't');
        }         else if i == 3 {
            assert(s[3] == 'p');
        }         else if i == 4 {
            assert(s[4] == 's');
        }         else if i == 5 {
            assert(s[5] == ':');
        }         else if i == 6 {
            assert(s[6] == '/');
        }         else if i == 7 {
            assert(s[7] == '/');
        }         else if i == 8 {
            assert(s[8] == 'a');
        }         else if i == 9 {
            assert(s[9] == 't');
        }         else if i == 10 {
            assert(s[10] == 'o');
        }         else if i == 11 {
            assert(s[11] == 'm');
        }         else if i == 12 {
            assert(s[12] == 'i');
        }         else if i == 13 {
            assert(s[13] == 'c');
        }         else if i == 14 {
            assert(s[14] == 'd');
        }         else if i == 15 {
            assert(s[15] == 'a');
        }         else if i == 16 {
            assert(s[16] == 't');
        }         else if i == 17 {
            assert(s[17] == 'a');
        }         else if i == 18 {
            assert(s[18] == '.');
        }         else if i == 19 {
            assert(s[19] == 'd');
        }         else if i == 20 {
            assert(s[20] == 'e');
        }         else if i == 21 {
            assert(s[21] == 'v');
        }         else if i == 22 {
            assert(s[22] == '/');
        }         else if i == 23 {
            assert(s[23] == 'c');
        }         else if i == 24 {
            assert(s[24] == 'l');
        }         else if i == 25 {
            assert(s[25] == 'a');
        }         else if i == 26 {
            assert(s[26] == 's');
        }         else if i == 27 {
            assert(s[27] == 's');
        }         else if i == 28 {
            assert(s[28] == 'e');
        }         else if i == 29 {
            assert(s[29] == 's');
        }         else if i == 30 {
            assert(s[30] == '/');
        }         else if i == 31 {
            assert(s[31] == 'C');
        }         else if i == 32 {
            assert(s[32] == 'l');
        }         else if i == 33 {
            assert(s[33] == 'a');
        }         else if i == 34 {
            assert(s[34] == 's');
        }         else if i == 35 {
            assert(s[35] == 's');
        }
    }
}

/// The pattern that asks for the instances of the class of classes
/// selects an atom from every resource that describes a class.
pub proof fn lemma_class_model_selected(
    subject: Seq<char>,
    shortname: Seq<char>,
    required: Seq<Seq<char>>,
    recommended: Seq<Seq<char>>,
)
    ensures
        select(
            atoms_of(class_model(subject, shortname, required, recommended)),
            Some(urls::IS_A@),
            Some(urls::CLASS@),
        ).len() >= 1,
{
    reveal_strlit("https://atomicdata.dev/properties/isA");
    reveal_strlit("https://atomicdata.dev/properties/shortname");
    reveal_strlit("https://atomicdata.dev/properties/requires");
    reveal_strlit("https://atomicdata.dev/properties/recommends");
    assert(urls::IS_A@.len() == 37);
    assert(urls::SHORTNAME@.len() == 43);
    assert(urls::REQUIRES@.len() == 42);
    assert(urls::RECOMMENDS@.len() == 44);
    let classes = seq![urls::CLASS@];
    let v = ValueView::ResourceArray(classes);
    let p1 = upsert(Seq::empty(), urls::IS_A@, v);
    lemma_upsert(Seq::empty(), urls::IS_A@, v);
    let p2 = upsert(p1, urls::SHORTNAME@, ValueView::Slug(shortname));
    lemma_upsert(p1, urls::SHORTNAME@, ValueView::Slug(shortname));
    let p3 = upsert(p2, urls::REQUIRES@, ValueView::ResourceArray(required));
    lemma_upsert(p2, urls::REQUIRES@, ValueView::ResourceArray(required));
    let p4 = upsert(p3, urls::RECOMMENDS@, ValueView::ResourceArray(recommended));
    lemma_upsert(p3, urls::RECOMMENDS@, ValueView::ResourceArray(recommended));
    assert(lookup(p4, urls::IS_A@) == Some(v));
    let r = class_model(subject, shortname, required, recommended);
    assert(r.propvals == p4);
    let j = prop_index(p4, urls::IS_A@);
    let a = atoms_of(r)[j];
    lemma_class_url_is_plain();
    assert(all_plain(classes));
    lemma_array_round_trip(classes);
    assert(array_text(classes)[0] == '[');
    assert(classes[0] == urls::CLASS@);
    assert(classes.contains(urls::CLASS@));
    assert(value_matches(v, urls::CLASS@));
    assert(atom_matches(a, Some(urls::IS_A@), Some(urls::CLASS@)));
    assert(atoms_of(r).contains(a));
    lemma_select_contains(atoms_of(r), Some(urls::IS_A@), Some(urls::CLASS@), a);
    let found = select(atoms_of(r), Some(urls::IS_A@), Some(urls::CLASS@));
    assert(found.contains(a));
}

/// The class pattern selects an atom from each class of one part of the
/// vocabulary.
proof fn lemma_selected_schema_classes()
    ensures
        select_all(schema_classes(), Some(urls::IS_A@), Some(urls::CLASS@)).len() >= 7,
{
    let w = schema_classes();
    assert(w.len() == 7);
    lemma_class_model_selected(urls::CLASS@, "class"@, seq![urls::SHORTNAME@], seq![urls::DESCRIPTION@, urls::REQUIRES@, urls::RECOMMENDS@]);
    lemma_class_model_selected(urls::PROPERTY@, "property"@, seq![urls::SHORTNAME@, urls::DATATYPE_PROP@], seq![urls::DESCRIPTION@, urls::CLASSTYPE_PROP@]);
    lemma_class_model_selected(urls::DATATYPE@, "datatype"@, seq![urls::SHORTNAME@], seq![urls::DESCRIPTION@]);
    lemma_class_model_selected(urls::AGENT@, "agent"@, seq![urls::PUBLIC_KEY@], seq![urls::NAME@]);
    lemma_class_model_selected(urls::COMMIT@, "commit"@, seq![urls::SUBJECT@, urls::CREATED_AT@, urls::SIGNER@], seq![urls::SIGNATURE@, urls::PREVIOUS_COMMIT@, urls::DESTROY@, urls::REMOVE@]);
    lemma_class_model_selected(urls::COLLECTION@, "collection"@, Seq::empty(), seq![urls::COLLECTION_MEMBERS@, urls::COLLECTION_PROPERTY@, urls::COLLECTION_VALUE@]);
    lemma_class_model_selected(urls::DRIVE@, "drive"@, Seq::empty(), seq![urls::NAME@, urls::CHILDREN@]);
    assert forall|i: int| 0 <= i < w.len() implies select(
        atoms_of(#[trigger] w[i]),
        Some(urls::IS_A@),
        Some(urls::CLASS@),
    ).len() >= 1 by {
        if i == 0 {
            assert(w[0] == class_model(urls::CLASS@, "class"@, seq![urls::SHORTNAME@], seq![urls::DESCRIPTION@, urls::REQUIRES@, urls::RECOMMENDS@]));
        }         else if i == 1 {
            assert(w[1] == class_model(urls::PROPERTY@, "property"@, seq![urls::SHORTNAME@, urls::DATATYPE_PROP@], seq![urls::DESCRIPTION@, urls::CLASSTYPE_PROP@]));
        }         else if i == 2 {
            assert(w[2] == class_model(urls::DATATYPE@, "datatype"@, seq![urls::SHORTNAME@], seq![urls::DESCRIPTION@]));
        }         else if i == 3 {
            assert(w[3] == class_model(urls::AGENT@, "agent"@, seq![urls::PUBLIC_KEY@], seq![urls::NAME@]));
        }         else if i == 4 {
            assert(w[4] == class_model(urls::COMMIT@, "commit"@, seq![urls::SUBJECT@, urls::CREATED_AT@, urls::SIGNER@], seq![urls::SIGNATURE@, urls::PREVIOUS_COMMIT@, urls::DESTROY@, urls::REMOVE@]));
        }         else if i == 5 {
            assert(w[5] == class_model(urls::COLLECTION@, "collection"@, Seq::empty(), seq![urls::COLLECTION_MEMBERS@, urls::COLLECTION_PROPERTY@, urls::COLLECTION_VALUE@]));
        }         else if i == 6 {
            assert(w[6] == class_model(urls::DRIVE@, "drive"@, Seq::empty(), seq![urls::NAME@, urls::CHILDREN@]));
        }
    }
    lemma_select_all_at_least(w, Some(urls::IS_A@), Some(urls::CLASS@));
}

/// The class pattern selects an atom from each class of one part of the
/// vocabulary.
proof fn lemma_selected_content_classes()
    ensures
        select_all(content_classes(), Some(urls::IS_A@), Some(urls::CLASS@)).len() >= 7,
{
    let w = content_classes();
    assert(w.len() == 7);
    lemma_class_model_selected(urls::ENDPOINT@, "endpoint"@, seq![urls::SHORTNAME@], seq![urls::ENDPOINT_PARAMETERS@]);
    lemma_class_model_selected(urls::INVITE@, "invite"@, seq![urls::INVITE_TARGET@], seq![urls::INVITE_USAGES_LEFT@]);
    lemma_class_model_selected(urls::REDIRECT@, "redirect"@, seq![urls::DESTINATION@], Seq::empty());
    lemma_class_model_selected(urls::DOCUMENT@, "document"@, Seq::empty(), seq![urls::NAME@, urls::DOCUMENT_ELEMENTS@]);
    lemma_class_model_selected(urls::PARAGRAPH@, "paragraph"@, seq![urls::DESCRIPTION@], Seq::empty());
    lemma_class_model_selected(urls::FILE@, "file"@, seq![urls::DOWNLOAD_URL@], seq![urls::MIMETYPE@, urls::DESCRIPTION@]);
    lemma_class_model_selected(urls::BOOKMARK@, "bookmark"@, seq![urls::URL_PROP@], seq![urls::NAME@]);
    assert forall|i: int| 0 <= i < w.len() implies select(
        atoms_of(#[trigger] w[i]),
        Some(urls::IS_A@),
        Some(urls::CLASS@),
    ).len() >= 1 by {
        if i == 0 {
            assert(w[0] == class_model(urls::ENDPOINT@, "endpoint"@, seq![urls::SHORTNAME@], seq![urls::ENDPOINT_PARAMETERS@]));
        }         else if i == 1 {
            assert(w[1] == class_model(urls::INVITE@, "invite"@, seq![urls::INVITE_TARGET@], seq![urls::INVITE_USAGES_LEFT@]));
        }         else if i == 2 {
            assert(w[2] == class_model(urls::REDIRECT@, "redirect"@, seq![urls::DESTINATION@], Seq::empty()));
        }         else if i == 3 {
            assert(w[3] == class_model(urls::DOCUMENT@, "document"@, Seq::empty(), seq![urls::NAME@, urls::DOCUMENT_ELEMENTS@]));
        }         else if i == 4 {
            assert(w[4] == class_model(urls::PARAGRAPH@, "paragraph"@, seq![urls::DESCRIPTION@], Seq::empty()));
        }         else if i == 5 {
            assert(w[5] == class_model(urls::FILE@, "file"@, seq![urls::DOWNLOAD_URL@], seq![urls::MIMETYPE@, urls::DESCRIPTION@]));
        }         else if i == 6 {
            assert(w[6] == class_model(urls::BOOKMARK@, "bookmark"@, seq![urls::URL_PROP@], seq![urls::NAME@]));
        }
    }
    lemma_select_all_at_least(w, Some(urls::IS_A@), Some(urls::CLASS@));
}

/// A store that held nothing and was given the default vocabulary holds
/// that vocabulary as it stands, and the pattern that asks for the
/// instances of the class of classes selects an atom for each of its 14
/// classes, whatever the base URL.
pub proof fn lemma_populated_classes(base: Seq<char>)
    ensures
        put_all(Seq::empty(), base_models()) == base_models(),
        tpf_result(
            put_all(Seq::empty(), base_models()),
            base,
            None,
            Some(urls::IS_A@),
            Some(urls::CLASS@),
            true,
        ).len() >= 14,
{
    lemma_vocabulary_distinct();
    lemma_put_all_fresh(base_models());
    lemma_selected_schema_classes();
    lemma_selected_content_classes();
    lemma_select_all_concat(
        schema_classes(),
        content_classes(),
        Some(urls::IS_A@),
        Some(urls::CLASS@),
    );
    lemma_select_all_concat(
        core_properties() + core_datatypes(),
        core_classes(),
        Some(urls::IS_A@),
        Some(urls::CLASS@),
    );
}

} // verus!
