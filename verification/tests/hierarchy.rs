use atomic_lib::errors::AtomicError;
use atomic_lib::hierarchy::{check_read, check_write, Right};
use atomic_lib::resources::Resource;
use atomic_lib::store::Store;
use atomic_lib::storelike::Storelike;
use atomic_lib::urls;
use atomic_lib::values::Value;

fn node(subject: &str, parent: Option<&str>, read: Option<Vec<&str>>) -> Resource {
    let mut r = Resource::new(subject.to_string());
    if let Some(p) = parent {
        r.set_propval_unsafe(urls::PARENT.to_string(), Value::AtomicUrl(p.to_string()));
    }
    if let Some(list) = read {
        r.set_propval_unsafe(
            urls::READ.to_string(),
            Value::ResourceArray(list.into_iter().map(String::from).collect()),
        );
    }
    r
}

fn store_of(resources: Vec<Resource>) -> Store {
    let mut store = Store::with_base_url("https://ex");
    for r in resources {
        store.add_resource(&r).unwrap();
    }
    store
}

#[test]
fn explicit_empty_read_on_parent_denies_child() {
    let child = node("https://ex/r", Some("https://ex/p"), None);
    let store = store_of(vec![node("https://ex/p", None, Some(vec![])), child.clone()]);
    assert_eq!(check_read(&store, &child, "https://ex/agent"), Ok(false));
    assert_eq!(check_read(&store, &child, urls::PUBLIC_AGENT), Ok(false));
    assert_eq!(
        store
            .get_resource_extended("https://ex/r", false, Some("https://ex/agent"))
            .unwrap_err(),
        AtomicError::Unauthorized("https://ex/r".to_string())
    );
    assert!(store
        .get_resource_extended("https://ex/r", false, None)
        .is_ok());
}

#[test]
fn grandparent_grant_reaches_child() {
    let child = node("https://ex/r", Some("https://ex/p"), None);
    let store = store_of(vec![
        node("https://ex/g", None, Some(vec!["https://ex/x"])),
        node("https://ex/p", Some("https://ex/g"), None),
        child.clone(),
    ]);
    assert_eq!(check_read(&store, &child, "https://ex/x"), Ok(true));
    assert_eq!(check_read(&store, &child, "https://ex/y"), Ok(false));
    assert_eq!(check_write(&store, &child, "https://ex/x"), Ok(false));
}

#[test]
fn nearest_declaration_decides() {
    let child = node("https://ex/r", Some("https://ex/p"), Some(vec!["https://ex/y"]));
    let store = store_of(vec![
        node("https://ex/p", None, Some(vec!["https://ex/x"])),
        child.clone(),
    ]);
    assert_eq!(check_read(&store, &child, "https://ex/x"), Ok(false));
    assert_eq!(check_read(&store, &child, "https://ex/y"), Ok(true));
}

#[test]
fn public_agent_listing_lets_everyone_read() {
    let r = node("https://ex/r", None, Some(vec![urls::PUBLIC_AGENT]));
    let store = store_of(vec![r.clone()]);
    assert_eq!(check_read(&store, &r, "https://ex/anyone"), Ok(true));
}

#[test]
fn no_declaration_anywhere_denies() {
    let r = node("https://ex/r", None, None);
    let store = store_of(vec![r.clone()]);
    assert_eq!(check_read(&store, &r, "https://ex/x"), Ok(false));
}

#[test]
fn cyclic_parents_are_a_validation_error() {
    let a = node("https://ex/a", Some("https://ex/b"), None);
    let store = store_of(vec![a.clone(), node("https://ex/b", Some("https://ex/a"), None)]);
    assert!(matches!(
        check_read(&store, &a, "https://ex/x"),
        Err(AtomicError::Validation(_))
    ));
    assert_eq!(store.check_rights(&a, "https://ex/x", Right::Read, 1), 
        Err(AtomicError::Validation("https://ex/b".to_string())));
}

#[test]
fn missing_parent_is_not_found() {
    let a = node("https://ex/a", Some("https://ex/gone"), None);
    let store = store_of(vec![a.clone()]);
    assert_eq!(
        check_read(&store, &a, "https://ex/x"),
        Err(AtomicError::NotFound("https://ex/gone".to_string()))
    );
}

#[test]
fn denied_hop_aborts_path() {
    let mut doc = node("https://ex/doc", None, Some(vec!["https://ex/x"]));
    doc.set_propval_unsafe(
        "https://ex/links".to_string(),
        Value::ResourceArray(vec!["https://ex/secret".to_string()]),
    );
    let store = store_of(vec![
        doc,
        node("https://ex/secret", None, Some(vec!["https://ex/y"])),
    ]);
    let r = store.get_path(
        "https://ex/doc https://ex/links 0",
        None,
        Some("https://ex/x"),
    );
    assert_eq!(
        r.unwrap_err(),
        AtomicError::Unauthorized("https://ex/secret".to_string())
    );
    assert!(store
        .get_path("https://ex/doc https://ex/links 0", None, None)
        .is_ok());
}
