use atomic_lib::errors::AtomicError;
use atomic_lib::mapping::Mapping;
use atomic_lib::resources::Resource;
use atomic_lib::store::Store;
use atomic_lib::storelike::{tpf_value, PathReturn, Storelike};
use atomic_lib::urls;
use atomic_lib::values::Value;

const COLLECTION: &str = "https://atomicdata.dev/collections/class";
const MEMBERS: &str = "https://atomicdata.dev/properties/collection/members";

/// The store and the bookmarks that the command line starts with, and the
/// collection of classes that it looks at.
fn context() -> (Store, Mapping) {
    let mut store = Store::init().unwrap();
    store.populate().unwrap();
    let mut members = Resource::new(MEMBERS.to_string());
    members.set_propval_unsafe(
        urls::SHORTNAME.to_string(),
        Value::Slug("members".to_string()),
    );
    members.set_propval_unsafe(
        urls::DATATYPE_PROP.to_string(),
        Value::AtomicUrl(urls::RESOURCE_ARRAY.to_string()),
    );
    store.add_resource(&members).unwrap();
    let mut collection = Resource::new(COLLECTION.to_string());
    collection.set_propval_unsafe(
        urls::IS_A.to_string(),
        Value::ResourceArray(vec![urls::CLASS.to_string()]),
    );
    collection.set_propval_unsafe(
        urls::SHORTNAME.to_string(),
        Value::Slug("classes".to_string()),
    );
    collection.set_propval_unsafe(
        MEMBERS.to_string(),
        Value::ResourceArray(vec![urls::AGENT.to_string(), urls::PROPERTY.to_string()]),
    );
    store.add_resource(&collection).unwrap();
    let mut mapping = Mapping::init();
    mapping.populate();
    (store, mapping)
}

#[test]
fn get_fail() {
    let (store, mapping) = context();
    let r = store.get_path("random-non-existent-shortname", Some(&mapping), None);
    assert!(r.is_err());
}

#[test]
fn get_shortname() {
    let (store, mapping) = context();
    match store.get_path("shortname", Some(&mapping), None).unwrap() {
        PathReturn::Subject(s) => {
            assert_eq!(s, urls::SHORTNAME);
            assert!(store.get_resource_extended(&s, false, None).is_ok());
        }
        PathReturn::Atom(_) => panic!("expected a subject"),
    }
}

#[test]
fn get_url() {
    let (store, mapping) = context();
    match store.get_path(COLLECTION, Some(&mapping), None).unwrap() {
        PathReturn::Subject(s) => assert_eq!(s, COLLECTION),
        PathReturn::Atom(_) => panic!("expected a subject"),
    }
}

#[test]
fn get_path() {
    let (store, mapping) = context();
    let path = format!("{} members", COLLECTION);
    match store.get_path(&path, Some(&mapping), None).unwrap() {
        PathReturn::Atom(a) => {
            assert_eq!(a.subject, COLLECTION);
            assert_eq!(a.property, MEMBERS);
            assert_eq!(
                a.value.to_string(),
                format!("[\"{}\",\"{}\"]", urls::AGENT, urls::PROPERTY)
            );
        }
        PathReturn::Subject(_) => panic!("expected an atom"),
    }
}

#[test]
fn get_path_array() {
    let (store, mapping) = context();
    let path = format!("{} is-a 0", COLLECTION);
    match store.get_path(&path, Some(&mapping), None).unwrap() {
        PathReturn::Subject(s) => assert_eq!(s, urls::CLASS),
        PathReturn::Atom(_) => panic!("expected a subject"),
    }
}

#[test]
fn get_path_array_non_existent() {
    let (store, mapping) = context();
    let path = format!("{} is-a 1", COLLECTION);
    assert!(store.get_path(&path, Some(&mapping), None).is_err());
}

#[test]
fn dot_stands_for_anything() {
    assert_eq!(tpf_value("."), None);
    assert_eq!(tpf_value(".."), Some(".."));
    assert_eq!(tpf_value("https://ex"), Some("https://ex"));
    assert_eq!(tpf_value(""), Some(""));
}

#[test]
fn blanks_between_tokens_are_skipped() {
    let (store, mapping) = context();
    let path = format!("  {}   is-a \t 0 ", COLLECTION);
    match store.get_path(&path, Some(&mapping), None).unwrap() {
        PathReturn::Subject(s) => assert_eq!(s, urls::CLASS),
        PathReturn::Atom(_) => panic!("expected a subject"),
    }
    assert!(store.get_path("   ", Some(&mapping), None).is_err());
}

#[test]
fn invalid_paths() {
    let (store, mapping) = context();
    let index_on_subject = format!("{} 0", COLLECTION);
    assert_eq!(
        store
            .get_path(&index_on_subject, Some(&mapping), None)
            .unwrap_err(),
        AtomicError::InvalidPath
    );
    let two_properties = format!("{} members shortname", COLLECTION);
    assert_eq!(
        store
            .get_path(&two_properties, Some(&mapping), None)
            .unwrap_err(),
        AtomicError::InvalidPath
    );
    let index_on_text = format!("{} shortname 0", COLLECTION);
    assert_eq!(
        store
            .get_path(&index_on_text, Some(&mapping), None)
            .unwrap_err(),
        AtomicError::InvalidPath
    );
    let unknown = format!("{} nothing", COLLECTION);
    assert_eq!(
        store.get_path(&unknown, Some(&mapping), None).unwrap_err(),
        AtomicError::NotFound("nothing".to_string())
    );
    let n = format!("{} members 2", COLLECTION);
    assert_eq!(
        store.get_path(&n, Some(&mapping), None).unwrap_err(),
        AtomicError::IndexOutOfBounds { index: 2, len: 2 }
    );
    let last = format!("{} members 1", COLLECTION);
    assert!(store.get_path(&last, Some(&mapping), None).is_ok());
}
