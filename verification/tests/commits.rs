use atomic_lib::agents::Agent;
use atomic_lib::commit::{apply_changes, apply_commit, check_signature, Commit, CommitBuilder};
use atomic_lib::errors::AtomicError;
use atomic_lib::resources::{PropVal, Resource};
use atomic_lib::store::Store;
use atomic_lib::storelike::Storelike;
use atomic_lib::urls;
use atomic_lib::values::Value;
use base64::Engine;

const BASE: &str = "https://ex";
const ARTICLE: &str = "https://ex/class/Article";
const TITLE: &str = "https://ex/title";
const BODY: &str = "https://ex/body";
const DOC: &str = "https://ex/doc";

fn key(byte: u8) -> String {
    base64::engine::general_purpose::STANDARD.encode([byte; 32])
}

fn agent(byte: u8) -> Agent {
    Agent::from_private_key(Some("tester".to_string()), BASE, &key(byte), 0).unwrap()
}

fn property(subject: &str, shortname: &str, datatype: &str) -> Resource {
    let mut r = Resource::new(subject.to_string());
    r.set_propval_unsafe(
        urls::SHORTNAME.to_string(),
        Value::Slug(shortname.to_string()),
    );
    r.set_propval_unsafe(
        urls::DATATYPE_PROP.to_string(),
        Value::AtomicUrl(datatype.to_string()),
    );
    r
}

/// A store with the properties that the commits below set, the class
/// Article, which requires a title, one agent, and a root that the agent
/// may write.
fn store_with(writer: &Agent) -> Store {
    let mut store = Store::with_base_url(BASE);
    for (subject, shortname, datatype) in [
        (urls::IS_A, "is-a", urls::RESOURCE_ARRAY),
        (urls::PARENT, "parent", urls::ATOMIC_URL),
        (urls::WRITE, "write", urls::RESOURCE_ARRAY),
        (TITLE, "title", urls::STRING),
        (BODY, "body", urls::STRING),
    ] {
        store
            .add_resource(&property(subject, shortname, datatype))
            .unwrap();
    }
    let mut article = Resource::new(ARTICLE.to_string());
    article.set_propval_unsafe(
        urls::REQUIRES.to_string(),
        Value::ResourceArray(vec![TITLE.to_string()]),
    );
    store.add_resource(&article).unwrap();
    store
        .add_resource_opts(&writer.to_resource(), false, true, true)
        .unwrap();
    let mut root = Resource::new(BASE.to_string());
    root.set_propval_unsafe(
        urls::WRITE.to_string(),
        Value::ResourceArray(vec![writer.subject.clone()]),
    );
    store.add_resource(&root).unwrap();
    store
}

fn article_commit(with_title: bool, previous: Option<String>) -> CommitBuilder {
    let mut b = CommitBuilder::new(DOC.to_string());
    b.set(
        urls::IS_A.to_string(),
        Value::ResourceArray(vec![ARTICLE.to_string()]),
    );
    b.set(urls::PARENT.to_string(), Value::AtomicUrl(BASE.to_string()));
    b.set(BODY.to_string(), Value::String("text".to_string()));
    if with_title {
        b.set(TITLE.to_string(), Value::String("Hello".to_string()));
    }
    b.set_previous_commit(previous);
    b
}

#[test]
fn agent_subject_holds_public_key() {
    let a = agent(1);
    assert_eq!(a.subject, format!("{}/agents/{}", BASE, a.public_key));
    assert_eq!(a.public_key.len(), 44);
    assert!(a.public_key != key(1));
    assert!(Agent::from_private_key(None, BASE, "not base64!", 0).is_err());
    assert!(Agent::from_private_key(None, BASE, "AAAA", 0).is_err());
}

#[test]
fn canonical_message_has_length_prefixed_fields() {
    let c = Commit::from_parts(
        "s".to_string(),
        -5,
        "me".to_string(),
        vec![PropVal {
            property: "p".to_string(),
            value: Value::Integer(12),
        }],
        vec!["q".to_string()],
        false,
        Some("prev".to_string()),
        "sig".to_string(),
    );
    assert_eq!(
        c.serialize_deterministically(),
        "1:s,2:me,2:-5,014:prev,1:1,1:p,40:https://atomicdata.dev/datatypes/integer,2:12,1:1,1:q,"
    );
}

#[test]
fn commit_missing_required_property_fails_validation() {
    let a = agent(1);
    let mut store = store_with(&a);
    let commit = article_commit(false, None).sign_at(&a, 10).unwrap();
    let r = apply_commit(&mut store, &commit, Some(&a.subject));
    assert_eq!(r.unwrap_err(), AtomicError::Validation(TITLE.to_string()));
    assert!(store.get_resource(DOC).is_err());
}

#[test]
fn commit_with_required_property_succeeds() {
    let a = agent(1);
    let mut store = store_with(&a);
    let commit = article_commit(true, None).sign_at(&a, 10).unwrap();
    apply_commit(&mut store, &commit, Some(&a.subject)).unwrap();
    let doc = store.get_resource(DOC).unwrap();
    assert_eq!(doc.get(TITLE).unwrap().to_string(), "Hello");
    assert_eq!(doc.get(BODY).unwrap().to_string(), "text");
    assert_eq!(doc.get_head(), Some(commit.hash()));
}

#[test]
fn commit_chain_integrity() {
    let a = agent(1);
    let mut store = store_with(&a);
    let c1 = article_commit(true, None).sign_at(&a, 10).unwrap();
    apply_commit(&mut store, &c1, Some(&a.subject)).unwrap();
    let mut b2 = CommitBuilder::new(DOC.to_string());
    b2.set(BODY.to_string(), Value::String("second".to_string()));
    b2.set_previous_commit(Some(c1.hash()));
    let c2 = b2.sign_at(&a, 20).unwrap();
    apply_commit(&mut store, &c2, Some(&a.subject)).unwrap();
    let mut b3 = CommitBuilder::new(DOC.to_string());
    b3.set(BODY.to_string(), Value::String("third".to_string()));
    b3.set_previous_commit(Some(c1.hash()));
    let c3 = b3.sign_at(&a, 30).unwrap();
    let r = apply_commit(&mut store, &c3, Some(&a.subject));
    assert_eq!(r.unwrap_err(), AtomicError::Conflict);
    let doc = store.get_resource(DOC).unwrap();
    assert_eq!(doc.get(BODY).unwrap().to_string(), "second");
    assert_eq!(doc.get_head(), Some(c2.hash()));
}

#[test]
fn signature_of_another_key_is_invalid() {
    let a = agent(1);
    let mut store = store_with(&a);
    let mut impostor = agent(2);
    impostor.subject = a.subject.clone();
    let forged = article_commit(true, None).sign_at(&impostor, 10).unwrap();
    assert_eq!(forged.get_signer(), &a.subject);
    let r = apply_commit(&mut store, &forged, Some(&a.subject));
    assert_eq!(r.unwrap_err(), AtomicError::InvalidSignature);
    let invalid = article_commit(false, None).sign_at(&impostor, 10).unwrap();
    let r = apply_commit(&mut store, &invalid, Some(&a.subject));
    assert_eq!(r.unwrap_err(), AtomicError::InvalidSignature);
    assert!(store.get_resource(DOC).is_err());
}

#[test]
fn tampered_commit_is_invalid() {
    let a = agent(1);
    let store = store_with(&a);
    let good = article_commit(true, None).sign_at(&a, 10).unwrap();
    assert!(check_signature(&store, &good).is_ok());
    let tampered = Commit::from_parts(
        DOC.to_string(),
        11,
        a.subject.clone(),
        vec![],
        vec![],
        false,
        None,
        good.hash(),
    );
    assert_eq!(
        check_signature(&store, &tampered).unwrap_err(),
        AtomicError::InvalidSignature
    );
    let unreadable = Commit::from_parts(
        DOC.to_string(),
        10,
        a.subject.clone(),
        vec![],
        vec![],
        false,
        None,
        "???".to_string(),
    );
    assert_eq!(
        check_signature(&store, &unreadable).unwrap_err(),
        AtomicError::InvalidSignature
    );
}

#[test]
fn unknown_signer_is_unauthorized() {
    let a = agent(1);
    let stranger = agent(3);
    let mut store = store_with(&a);
    let commit = article_commit(true, None).sign_at(&stranger, 10).unwrap();
    let r = apply_commit(&mut store, &commit, Some(&stranger.subject));
    assert_eq!(
        r.unwrap_err(),
        AtomicError::Unauthorized(stranger.subject.clone())
    );
}

#[test]
fn agent_without_write_right_is_unauthorized() {
    let a = agent(1);
    let other = agent(4);
    let mut store = store_with(&a);
    store
        .add_resource_opts(&other.to_resource(), false, true, true)
        .unwrap();
    let commit = article_commit(true, None).sign_at(&other, 10).unwrap();
    let r = apply_commit(&mut store, &commit, Some(&other.subject));
    assert_eq!(r.unwrap_err(), AtomicError::Unauthorized(DOC.to_string()));
    let commit = article_commit(true, None).sign_at(&other, 10).unwrap();
    assert!(apply_commit(&mut store, &commit, None).is_ok());
}

#[test]
fn unknown_property_and_wrong_datatype_fail_validation() {
    let a = agent(1);
    let mut store = store_with(&a);
    let mut b = CommitBuilder::new(DOC.to_string());
    b.set("https://ex/unknown".to_string(), Value::Integer(1));
    let commit = b.sign_at(&a, 10).unwrap();
    let r = apply_commit(&mut store, &commit, Some(&a.subject));
    assert_eq!(
        r.unwrap_err(),
        AtomicError::Validation("https://ex/unknown".to_string())
    );
    let mut b = CommitBuilder::new(DOC.to_string());
    b.set(TITLE.to_string(), Value::Integer(1));
    let commit = b.sign_at(&a, 10).unwrap();
    let r = apply_changes(&mut store, &commit, Some(&a.subject));
    assert_eq!(r.unwrap_err(), AtomicError::Validation(TITLE.to_string()));
}

#[test]
fn remove_and_destroy() {
    let a = agent(1);
    let mut store = store_with(&a);
    let c1 = article_commit(true, None).sign_at(&a, 10).unwrap();
    apply_commit(&mut store, &c1, Some(&a.subject)).unwrap();
    let mut b = CommitBuilder::new(DOC.to_string());
    b.remove(BODY.to_string());
    b.set_previous_commit(Some(c1.hash()));
    let c2 = b.sign_at(&a, 20).unwrap();
    let doc = apply_commit(&mut store, &c2, Some(&a.subject)).unwrap();
    assert_eq!(
        doc.get(BODY).unwrap_err(),
        AtomicError::NotFound(BODY.to_string())
    );
    let mut b = CommitBuilder::new(DOC.to_string());
    b.remove(TITLE.to_string());
    b.set_previous_commit(Some(c2.hash()));
    let c3 = b.sign_at(&a, 30).unwrap();
    let r = apply_commit(&mut store, &c3, Some(&a.subject));
    assert_eq!(r.unwrap_err(), AtomicError::Validation(TITLE.to_string()));
    let mut b = CommitBuilder::new(DOC.to_string());
    b.destroy(true);
    b.set_previous_commit(Some(c2.hash()));
    let c4 = b.sign_at(&a, 40).unwrap();
    apply_commit(&mut store, &c4, Some(&a.subject)).unwrap();
    assert_eq!(
        store.get_resource(DOC).unwrap_err(),
        AtomicError::NotFound(DOC.to_string())
    );
    assert!(store.tpf(Some(DOC), None, None, true).unwrap().is_empty());
}

#[test]
fn agent_without_private_key_cannot_sign() {
    let mut a = agent(1);
    a.private_key = None;
    let r = article_commit(true, None).sign_at(&a, 10);
    assert_eq!(r.unwrap_err(), AtomicError::Unauthorized(a.subject.clone()));
    let a = agent(1);
    let signed = article_commit(true, None).sign(&a).unwrap();
    assert_eq!(signed.get_subject(), DOC);
}

#[test]
fn agent_of_a_given_key_is_stored() {
    let a = agent(1);
    let mut store = store_with(&a);
    let mut class = Resource::new(urls::AGENT.to_string());
    class.set_propval_unsafe(
        urls::REQUIRES.to_string(),
        Value::ResourceArray(vec![urls::PUBLIC_KEY.to_string()]),
    );
    store.add_resource(&class).unwrap();
    let made = store
        .create_agent_with_key(Some("bob"), &key(7), 42)
        .unwrap();
    let expected = Agent::from_private_key(Some("bob".to_string()), BASE, &key(7), 42).unwrap();
    assert_eq!(made.subject, expected.subject);
    assert_eq!(made.public_key, expected.public_key);
    assert_eq!(made.private_key, Some(key(7)));
    assert_eq!(made.created_at, 42);
    let stored = store.get_resource(&made.subject).unwrap();
    assert_eq!(
        stored.get(urls::CREATED_AT).unwrap().to_string(),
        "42"
    );
    assert_eq!(stored.get(urls::NAME).unwrap().to_string(), "bob");
    let before = store.all_resources(true).len();
    assert_eq!(
        store
            .create_agent_with_key(None, "not a key", 42)
            .unwrap_err(),
        AtomicError::Validation(urls::PUBLIC_KEY.to_string())
    );
    assert_eq!(store.all_resources(true).len(), before);
    let mut bare = Store::with_base_url(BASE);
    assert_eq!(
        bare.create_agent_with_key(None, &key(7), 42).unwrap_err(),
        AtomicError::NotFound(urls::AGENT.to_string())
    );
    assert!(bare.all_resources(true).is_empty());
}

#[test]
fn right_is_asked_of_the_signer() {
    let a = agent(1);
    let other = agent(4);
    let mut store = store_with(&a);
    store
        .add_resource_opts(&other.to_resource(), false, true, true)
        .unwrap();
    let by_other = article_commit(true, None).sign_at(&other, 10).unwrap();
    let r = apply_commit(&mut store, &by_other, Some(&a.subject));
    assert_eq!(r.unwrap_err(), AtomicError::Unauthorized(DOC.to_string()));
    assert!(store.get_resource(DOC).is_err());
    let by_a = article_commit(true, None).sign_at(&a, 10).unwrap();
    assert!(apply_commit(&mut store, &by_a, Some(&other.subject)).is_ok());
}

#[test]
fn keys_and_signatures_have_their_lengths() {
    let a = agent(1);
    let public = base64::engine::general_purpose::STANDARD
        .decode(&a.public_key)
        .unwrap();
    assert_eq!(public.len(), 32);
    let commit = article_commit(true, None).sign_at(&a, 10).unwrap();
    let signature = base64::engine::general_purpose::STANDARD
        .decode(commit.get_signature())
        .unwrap();
    assert_eq!(signature.len(), 64);
    let short = base64::engine::general_purpose::STANDARD.encode([1u8; 31]);
    assert_eq!(
        Agent::from_private_key(None, BASE, &short, 0).unwrap_err(),
        AtomicError::Validation(urls::PUBLIC_KEY.to_string())
    );
    let mut odd = agent(1);
    odd.private_key = Some(short);
    assert_eq!(
        article_commit(true, None).sign_at(&odd, 10).unwrap_err(),
        AtomicError::Validation(odd.subject.clone())
    );
}
