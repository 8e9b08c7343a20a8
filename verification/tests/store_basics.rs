use atomic_lib::errors::AtomicError;
use atomic_lib::resources::Resource;
use atomic_lib::store::Store;
use atomic_lib::storelike::{PathReturn, Storelike};
use atomic_lib::urls;
use atomic_lib::values::{DataType, Value};

fn property(subject: &str, shortname: &str, datatype: &str) -> Resource {
    let mut r = Resource::new(subject.to_string());
    r.set_propval_unsafe(
        urls::SHORTNAME.to_string(),
        Value::Slug(shortname.to_string()),
    );
    r.set_propval_unsafe(
        urls::DATATYPE_PROP.to_string(),
        Value::AtomicUrl(datatype.to_string()),
    );
    r
}

fn sample_store() -> Store {
    let mut store = Store::with_base_url("https://ex");
    store
        .add_resource(&property(urls::IS_A, "is-a", urls::RESOURCE_ARRAY))
        .unwrap();
    store
        .add_resource(&property("https://ex/title", "title", urls::STRING))
        .unwrap();
    let mut doc = Resource::new("https://ex/doc".to_string());
    doc.set_propval_unsafe(
        "https://ex/title".to_string(),
        Value::String("Hello".to_string()),
    );
    doc.set_propval_unsafe(
        "https://ex/links".to_string(),
        Value::ResourceArray(vec![
            "https://ex/a".to_string(),
            "https://ex/title".to_string(),
        ]),
    );
    store.add_resource(&doc).unwrap();
    store
}

#[test]
fn tpf_all_wildcards_returns_every_atom() {
    let store = sample_store();
    let atoms = store.tpf(None, None, None, true).unwrap();
    assert_eq!(atoms.len(), 6);
    assert_eq!(atoms[4].subject, "https://ex/doc");
    assert_eq!(atoms[4].property, "https://ex/title");
    assert_eq!(atoms[4].value.to_string(), "Hello");
}

#[test]
fn tpf_absent_subject_is_empty() {
    let store = sample_store();
    let atoms = store.tpf(Some("https://ex/none"), None, None, true).unwrap();
    assert!(atoms.is_empty());
}

#[test]
fn tpf_value_matches_array_member() {
    let store = sample_store();
    let atoms = store.tpf(None, None, Some("https://ex/a"), true).unwrap();
    assert_eq!(atoms.len(), 1);
    assert_eq!(atoms[0].property, "https://ex/links");
}

#[test]
fn path_to_subject_atom_and_index() {
    let store = sample_store();
    match store.get_path("https://ex/doc", None, None).unwrap() {
        PathReturn::Subject(s) => assert_eq!(s, "https://ex/doc"),
        PathReturn::Atom(_) => panic!("expected a subject"),
    }
    match store.get_path("https://ex/doc title", None, None).unwrap() {
        PathReturn::Atom(a) => assert_eq!(a.value.to_string(), "Hello"),
        PathReturn::Subject(_) => panic!("expected an atom"),
    }
    match store
        .get_path("https://ex/doc https://ex/links 1", None, None)
        .unwrap()
    {
        PathReturn::Subject(s) => assert_eq!(s, "https://ex/title"),
        PathReturn::Atom(_) => panic!("expected a subject"),
    }
}

#[test]
fn path_index_out_of_bounds() {
    let store = sample_store();
    let r = store.get_path("https://ex/doc https://ex/links 2", None, None);
    assert_eq!(
        r.unwrap_err(),
        AtomicError::IndexOutOfBounds { index: 2, len: 2 }
    );
}

#[test]
fn value_new_rejects_mismatch() {
    assert_eq!(
        Value::new("abc", DataType::Integer).unwrap_err(),
        AtomicError::Validation("abc".to_string())
    );
    assert_eq!(Value::new("-42", DataType::Integer).unwrap().to_string(), "-42");
}
