use atomic_lib::atoms::Atom;
use atomic_lib::datetime_helpers::{now, timestamp_from};
use atomic_lib::errors::AtomicError;
use atomic_lib::json_array::{array_to_string, parse_json_array};
use atomic_lib::mapping::{is_url, Mapping};
use atomic_lib::populate::{new_class, new_property};
use atomic_lib::resources::Resource;
use atomic_lib::schema::{Class, Property};
use atomic_lib::store::Store;
use atomic_lib::storelike::{NotFoundAction, Storelike};
use atomic_lib::urls;
use atomic_lib::values::{DataType, Value};

fn doc(subject: &str, links: Vec<&str>) -> Resource {
    let mut r = Resource::new(subject.to_string());
    r.set_propval_unsafe(
        urls::NAME.to_string(),
        Value::String("a name".to_string()),
    );
    r.set_propval_unsafe(
        urls::READ.to_string(),
        Value::ResourceArray(links.into_iter().map(String::from).collect()),
    );
    r
}

fn populated() -> Store {
    let mut store = Store::with_base_url("https://ex");
    store.populate().unwrap();
    store
}

#[test]
fn value_text_round_trips() {
    let values = vec![
        Value::AtomicUrl("https://ex/a".to_string()),
        Value::Boolean(true),
        Value::Boolean(false),
        Value::Date("2021-12-31".to_string()),
        Value::Float("-1.5e10".to_string()),
        Value::Integer(i64::MIN),
        Value::Integer(i64::MAX),
        Value::Integer(0),
        Value::Markdown("# title".to_string()),
        Value::ResourceArray(vec![]),
        Value::ResourceArray(vec!["https://ex/a".to_string(), "b,c".to_string()]),
        Value::Slug("a-slug-1".to_string()),
        Value::String("[not an array".to_string()),
        Value::Timestamp(1_600_000_000_000),
    ];
    for v in values {
        assert!(v.is_valid());
        let text = v.to_string();
        let back = Value::new(&text, v.datatype()).unwrap();
        assert_eq!(back.to_string(), text);
        assert_eq!(back.datatype(), v.datatype());
    }
    assert_eq!(Value::Integer(i64::MIN).to_string(), "-9223372036854775808");
    assert_eq!(
        Value::ResourceArray(vec!["a".to_string(), "b".to_string()]).to_string(),
        "[\"a\",\"b\"]"
    );
}

#[test]
fn value_new_validates_each_datatype() {
    let bad = [
        ("yes", DataType::Boolean),
        ("2021-13-01", DataType::Date),
        ("2021-02-32", DataType::Date),
        ("2021-2-03", DataType::Date),
        ("1.", DataType::Float),
        (".5", DataType::Float),
        ("1e", DataType::Float),
        ("", DataType::Float),
        ("9223372036854775808", DataType::Integer),
        ("-9223372036854775809", DataType::Integer),
        ("12a", DataType::Integer),
        ("", DataType::Integer),
        ("-", DataType::Integer),
        ("[\"a\"", DataType::ResourceArray),
        ("[\"a\",]", DataType::ResourceArray),
        ("[\"a\\\"b\"]", DataType::ResourceArray),
        ("[a]", DataType::ResourceArray),
        ("Upper", DataType::Slug),
        ("-a", DataType::Slug),
        ("a--b", DataType::Slug),
        ("a-", DataType::Slug),
        ("", DataType::Slug),
        ("1.5", DataType::Timestamp),
    ];
    for (text, datatype) in bad {
        assert_eq!(
            Value::new(text, datatype).unwrap_err(),
            AtomicError::Validation(text.to_string()),
            "{:?} as {:?}",
            text,
            datatype
        );
    }
    let good = [
        ("true", DataType::Boolean),
        ("2021-01-09", DataType::Date),
        ("2021-10-30", DataType::Date),
        ("+1.25E-3", DataType::Float),
        ("7", DataType::Float),
        ("+17", DataType::Integer),
        ("-9223372036854775808", DataType::Integer),
        ("007", DataType::Integer),
        (" [ \"a\" , \"b\" ] ", DataType::ResourceArray),
        ("[]", DataType::ResourceArray),
        ("a1-b2", DataType::Slug),
        ("anything at all", DataType::String),
    ];
    for (text, datatype) in good {
        assert!(Value::new(text, datatype).is_ok(), "{:?}", text);
    }
    assert_eq!(Value::new("+17", DataType::Integer).unwrap().to_string(), "17");
    assert_eq!(Value::new("007", DataType::Integer).unwrap().to_string(), "7");
}

#[test]
fn json_array_reads_what_it_writes() {
    let items = vec!["https://ex/a".to_string(), "".to_string(), "x y".to_string()];
    let text = array_to_string(&items);
    assert_eq!(text, "[\"https://ex/a\",\"\",\"x y\"]");
    assert_eq!(parse_json_array(&text), Some(items));
    assert_eq!(parse_json_array("[]"), Some(vec![]));
    assert_eq!(parse_json_array("[] x"), None);
    assert_eq!(parse_json_array(""), None);
}

#[test]
fn index_answers_as_a_scan_does() {
    let mut store = populated();
    assert_eq!(store.subjects_with(urls::NAME, "a name", true), None);
    store
        .add_resource(&doc("https://ex/one", vec!["https://ex/x", "https://ex/y"]))
        .unwrap();
    store
        .add_resource(&doc("https://other/two", vec!["https://ex/x"]))
        .unwrap();
    store.build_index(true).unwrap();
    let mut by_item = store
        .subjects_with(urls::READ, "https://ex/x", true)
        .unwrap();
    by_item.sort();
    assert_eq!(by_item, vec!["https://ex/one", "https://other/two"]);
    assert_eq!(
        store
            .subjects_with(urls::READ, "[\"https://ex/x\"]", true)
            .unwrap(),
        vec!["https://other/two"]
    );
    let scanned = store
        .tpf(None, Some(urls::READ), Some("https://ex/x"), true)
        .unwrap();
    assert_eq!(scanned.len(), 2);
    assert_eq!(store.subjects_with(urls::READ, "https://ex/x", false), None);
    store
        .add_resource(&doc("https://ex/one", vec!["https://ex/z"]))
        .unwrap();
    assert_eq!(
        store
            .subjects_with(urls::READ, "https://ex/x", true)
            .unwrap(),
        vec!["https://other/two"]
    );
    assert_eq!(
        store
            .subjects_with(urls::READ, "https://ex/z", true)
            .unwrap(),
        vec!["https://ex/one"]
    );
    store.remove_resource("https://other/two").unwrap();
    assert!(store
        .subjects_with(urls::READ, "https://ex/x", true)
        .unwrap()
        .is_empty());
    store.build_index(false).unwrap();
    store
        .add_resource(&doc("https://other/three", vec!["https://ex/z"]))
        .unwrap();
    assert_eq!(
        store
            .subjects_with(urls::READ, "https://ex/z", false)
            .unwrap(),
        vec!["https://ex/one"]
    );
    store
        .add_resource_opts(&doc("https://ex/four", vec![]), true, false, true)
        .unwrap();
    assert_eq!(store.subjects_with(urls::READ, "https://ex/z", false), None);
    store.build_index(false).unwrap();
    let atom = Atom::new(
        "https://ex/s".to_string(),
        urls::NAME.to_string(),
        Value::String("v".to_string()),
    );
    store.add_atom_to_index(&atom).unwrap();
    assert_eq!(store.subjects_with(urls::NAME, "v", false), None);
}

#[test]
fn external_resources_are_left_out_on_request() {
    let mut store = populated();
    store.add_resource(&doc("https://ex/one", vec![])).unwrap();
    let all = store.all_resources(true);
    let own = store.all_resources(false);
    assert_eq!(all.len(), 57);
    assert_eq!(own.len(), 1);
    assert_eq!(own[0].get_subject(), "https://ex/one");
    assert_eq!(store.tpf(None, None, None, false).unwrap().len(), 2);
}

#[test]
fn populate_describes_the_core_vocabulary() {
    let store = populated();
    let p = store.get_property(urls::IS_A).unwrap();
    assert_eq!(p.shortname, "is-a");
    assert_eq!(p.data_type, DataType::ResourceArray);
    let c = store.get_class(urls::PROPERTY).unwrap();
    assert_eq!(c.requires, vec![urls::SHORTNAME, urls::DATATYPE_PROP]);
    let classes = store.get_classes_for_subject(urls::IS_A).unwrap();
    assert_eq!(classes.len(), 1);
    assert_eq!(classes[0].subject, urls::PROPERTY);
    assert_eq!(
        store.get_property("https://ex/none").unwrap_err(),
        AtomicError::NotFound("https://ex/none".to_string())
    );
    assert!(store.validate().is_valid());
    assert_eq!(store.validate().resource_count, 56);
    assert_eq!(store.validate().atom_count, 32 * 3 + 10 * 2 + 14 * 4);
}

#[test]
fn validate_reports_each_faulty_resource() {
    let mut store = populated();
    let mut lacking = Resource::new("https://ex/lacking".to_string());
    lacking.set_propval_unsafe(
        urls::IS_A.to_string(),
        Value::ResourceArray(vec![urls::AGENT.to_string()]),
    );
    assert_eq!(
        store.add_resource(&lacking).unwrap_err(),
        AtomicError::Validation(urls::PUBLIC_KEY.to_string())
    );
    store
        .add_resource_opts(&lacking, false, true, true)
        .unwrap();
    let mut mistyped = Resource::new("https://ex/mistyped".to_string());
    mistyped.set_propval_unsafe(urls::NAME.to_string(), Value::Integer(3));
    store.add_resource(&mistyped).unwrap();
    let mut unknown = Resource::new("https://ex/unknown".to_string());
    unknown.set_propval_unsafe("https://ex/p".to_string(), Value::Integer(3));
    store.add_resource(&unknown).unwrap();
    let report = store.validate();
    assert!(!report.is_valid());
    assert_eq!(report.resource_count, 59);
    assert_eq!(report.faults.len(), 3);
    assert_eq!(report.faults[0].subject, "https://ex/lacking");
    assert_eq!(
        report.faults[0].error,
        AtomicError::Validation(urls::PUBLIC_KEY.to_string())
    );
    assert_eq!(
        report.faults[1].error,
        AtomicError::Validation(urls::NAME.to_string())
    );
    assert_eq!(
        report.faults[2].error,
        AtomicError::Validation("https://ex/p".to_string())
    );
}

#[test]
fn add_resource_opts_refuses_overwrite_on_request() {
    let mut store = populated();
    store.add_resource(&doc("https://ex/one", vec![])).unwrap();
    assert_eq!(
        store
            .add_resource_opts(&doc("https://ex/one", vec![]), false, true, false)
            .unwrap_err(),
        AtomicError::Validation("https://ex/one".to_string())
    );
    assert_eq!(
        store.remove_resource("https://ex/none").unwrap_err(),
        AtomicError::NotFound("https://ex/none".to_string())
    );
}

#[test]
fn export_writes_properties_first() {
    let mut store = Store::with_base_url("https://ex");
    store.add_resource(&doc("https://ex/one", vec![])).unwrap();
    store
        .add_resource_opts(
            &new_property("https://ex/p", "p", DataType::String),
            false,
            true,
            true,
        )
        .unwrap();
    store
        .add_resource_opts(
            &new_class("https://ex/c", "c", vec![], vec![]),
            false,
            true,
            true,
        )
        .unwrap();
    store
        .add_resource_opts(
            &new_property("https://other/q", "q", DataType::String),
            false,
            true,
            true,
        )
        .unwrap();
    let subjects: Vec<String> = store
        .export(true)
        .iter()
        .map(|r| r.get_subject().clone())
        .collect();
    assert_eq!(
        subjects,
        vec!["https://ex/p", "https://other/q", "https://ex/one", "https://ex/c"]
    );
    let subjects: Vec<String> = store
        .export(false)
        .iter()
        .map(|r| r.get_subject().clone())
        .collect();
    assert_eq!(subjects, vec!["https://ex/p", "https://ex/one", "https://ex/c"]);
}

#[test]
fn import_counts_and_replaces() {
    let mut store = Store::with_base_url("https://ex");
    let n = store
        .import(&vec![
            doc("https://ex/one", vec![]),
            doc("https://ex/two", vec![]),
            doc("https://ex/one", vec!["https://ex/x"]),
        ])
        .unwrap();
    assert_eq!(n, 3);
    assert_eq!(store.all_resources(true).len(), 2);
    assert_eq!(
        store
            .get_resource("https://ex/one")
            .unwrap()
            .get(urls::READ)
            .unwrap()
            .to_string(),
        "[\"https://ex/x\"]"
    );
}

#[test]
fn not_found_is_fetched_unless_local() {
    let served = Store::with_base_url("https://ex");
    let e = AtomicError::NotFound("https://ex/a".to_string());
    match served.handle_not_found("https://ex/a", e) {
        NotFoundAction::Fail(e) => {
            assert_eq!(e, AtomicError::NotFound("https://ex/a".to_string()))
        }
        NotFoundAction::Fetch(_) => panic!("a local subject cannot be fetched"),
    }
    match served.handle_not_found("https://other/a", AtomicError::Unsupported) {
        NotFoundAction::Fetch(s) => assert_eq!(s, "https://other/a"),
        NotFoundAction::Fail(_) => panic!("an external subject can be fetched"),
    }
    let client = Store::init().unwrap();
    assert_eq!(client.get_self_url(), None);
    assert_eq!(client.get_base_url(), "local:store");
    match client.handle_not_found("local:store/a", AtomicError::Unsupported) {
        NotFoundAction::Fetch(s) => assert_eq!(s, "local:store/a"),
        NotFoundAction::Fail(_) => panic!("a client fetches everything"),
    }
}

#[test]
fn fetched_resource_must_match_its_subject() {
    let mut store = populated();
    let r = store.fetch_resource("https://other/a", doc("https://other/b", vec![]));
    assert_eq!(
        r.unwrap_err(),
        AtomicError::Validation("https://other/a".to_string())
    );
    let r = store.fetch_resource("https://other/a", doc("https://other/a", vec![]));
    assert_eq!(r.unwrap().get_subject(), "https://other/a");
    assert!(store.get_resource("https://other/a").is_ok());
}

#[test]
fn create_agent_stores_its_resource() {
    let mut store = populated();
    let agent = store.create_agent(Some("alice")).unwrap();
    assert!(agent.subject.starts_with("https://ex/agents/"));
    assert!(agent.private_key.is_some());
    assert!(agent.created_at >= 0);
    let stored = store.get_resource(&agent.subject).unwrap();
    assert_eq!(
        stored.get(urls::PUBLIC_KEY).unwrap().to_string(),
        agent.public_key
    );
    assert_eq!(stored.get(urls::NAME).unwrap().to_string(), "alice");
    let other = store.create_agent(None).unwrap();
    assert!(other.subject != agent.subject);
    assert_eq!(store.get_default_agent().unwrap_err(), AtomicError::Unsupported);
    store.set_default_agent(agent.clone());
    assert_eq!(store.get_default_agent().unwrap().subject, agent.subject);
    let mut bare = Store::with_base_url("https://ex");
    assert_eq!(
        bare.create_agent(None).unwrap_err(),
        AtomicError::NotFound(urls::AGENT.to_string())
    );
    assert!(bare.all_resources(true).is_empty());
}

#[test]
fn property_and_class_from_resource() {
    let p = Property::from_resource(&new_property("https://ex/p", "p", DataType::Date)).unwrap();
    assert_eq!(p.subject, "https://ex/p");
    assert_eq!(p.data_type, DataType::Date);
    let bare = Resource::new("https://ex/bare".to_string());
    assert_eq!(
        Property::from_resource(&bare).unwrap_err(),
        AtomicError::NotFound(urls::SHORTNAME.to_string())
    );
    let mut odd = Resource::new("https://ex/odd".to_string());
    odd.set_propval_unsafe(urls::SHORTNAME.to_string(), Value::Slug("odd".to_string()));
    odd.set_propval_unsafe(
        urls::DATATYPE_PROP.to_string(),
        Value::AtomicUrl("https://ex/datatype".to_string()),
    );
    assert_eq!(
        Property::from_resource(&odd).unwrap_err(),
        AtomicError::Unsupported
    );
    let c = Class::from_resource(&bare).unwrap();
    assert!(c.requires.is_empty() && c.recommends.is_empty());
    let mut wrong = Resource::new("https://ex/wrong".to_string());
    wrong.set_propval_unsafe(urls::REQUIRES.to_string(), Value::Integer(1));
    assert_eq!(
        Class::from_resource(&wrong).unwrap_err(),
        AtomicError::Validation(urls::REQUIRES.to_string())
    );
}

#[test]
fn resource_keeps_order_and_replaces_in_place() {
    let mut r = Resource::new("https://ex/r".to_string());
    r.set_propval_unsafe("a".to_string(), Value::Integer(1));
    r.set_propval_unsafe("b".to_string(), Value::Integer(2));
    r.set_propval_unsafe("a".to_string(), Value::Integer(3));
    let atoms = r.to_atoms();
    assert_eq!(atoms.len(), 2);
    assert_eq!(atoms[0].property, "a");
    assert_eq!(atoms[0].value.to_string(), "3");
    assert_eq!(atoms[1].property, "b");
    r.remove_propval("a");
    r.remove_propval("missing");
    assert_eq!(r.get_propvals().len(), 1);
    assert_eq!(
        r.get("a").unwrap_err(),
        AtomicError::NotFound("a".to_string())
    );
}

#[test]
fn mapping_prefers_bookmark_then_url() {
    let mut m = Mapping::init();
    m.insert("doc".to_string(), "https://ex/doc".to_string());
    m.insert("doc".to_string(), "https://ex/doc2".to_string());
    m.insert("https://ex/x".to_string(), "https://ex/y".to_string());
    assert_eq!(m.get("doc").map(|s| s.as_str()), Some("https://ex/doc2"));
    assert!(!m.contains_key("none"));
    assert_eq!(m.try_mapping_or_url("doc").as_deref(), Some("https://ex/doc2"));
    assert_eq!(
        m.try_mapping_or_url("https://ex/x").as_deref(),
        Some("https://ex/y")
    );
    assert_eq!(
        m.try_mapping_or_url("https://ex/z").as_deref(),
        Some("https://ex/z")
    );
    assert_eq!(m.try_mapping_or_url("none"), None);
    assert!(is_url("http://a") && is_url("_:b") && !is_url("ftp://c") && !is_url("htt"));
}

#[test]
fn timestamps_are_bounded() {
    assert_eq!(timestamp_from(0), 0);
    assert_eq!(timestamp_from(1_600_000_000_123), 1_600_000_000_123);
    assert_eq!(timestamp_from(i64::MAX as u128), i64::MAX);
    assert_eq!(timestamp_from(i64::MAX as u128 + 1), i64::MAX);
    assert_eq!(timestamp_from(u128::MAX), i64::MAX);
    assert!(now().unwrap() > 1_600_000_000_000);
}

#[test]
fn tpf_filters_by_property_and_value() {
    let mut store = populated();
    store
        .add_resource(&doc("https://ex/one", vec!["https://ex/x"]))
        .unwrap();
    let by_property = store.tpf(None, Some(urls::SHORTNAME), None, true).unwrap();
    assert_eq!(by_property.len(), 56);
    let both = store
        .tpf(None, Some(urls::SHORTNAME), Some("is-a"), true)
        .unwrap();
    assert_eq!(both.len(), 1);
    assert_eq!(both[0].subject, urls::IS_A);
    let of_subject = store
        .tpf(Some("https://ex/one"), None, Some("a name"), true)
        .unwrap();
    assert_eq!(of_subject.len(), 1);
    assert_eq!(of_subject[0].property, urls::NAME);
    let whole = store.tpf(Some("https://ex/one"), None, None, true).unwrap();
    assert_eq!(whole.len(), 2);
    let array_text = store
        .tpf(None, None, Some("[\"https://ex/x\"]"), true)
        .unwrap();
    assert_eq!(array_text.len(), 1);
    let none = store.tpf(None, Some(urls::NAME), Some("is-a"), true).unwrap();
    assert!(none.is_empty());
}

#[test]
fn validate_finds_cyclic_and_broken_parents() {
    let mut store = populated();
    let mut a = Resource::new("https://ex/a".to_string());
    a.set_propval_unsafe(
        urls::PARENT.to_string(),
        Value::AtomicUrl("https://ex/b".to_string()),
    );
    let mut b = Resource::new("https://ex/b".to_string());
    b.set_propval_unsafe(
        urls::PARENT.to_string(),
        Value::AtomicUrl("https://ex/a".to_string()),
    );
    let mut c = Resource::new("https://ex/c".to_string());
    c.set_propval_unsafe(
        urls::PARENT.to_string(),
        Value::AtomicUrl("https://ex/gone".to_string()),
    );
    let mut d = Resource::new("https://ex/d".to_string());
    d.set_propval_unsafe(
        urls::PARENT.to_string(),
        Value::AtomicUrl(urls::IS_A.to_string()),
    );
    for r in [&a, &b, &c, &d] {
        store.add_resource(r).unwrap();
    }
    assert!(store.check_parents(&d, 1).is_ok());
    assert_eq!(
        store.check_parents(&d, 0).unwrap_err(),
        AtomicError::Validation("https://ex/d".to_string())
    );
    let report = store.validate();
    assert_eq!(report.faults.len(), 3);
    assert_eq!(report.faults[0].subject, "https://ex/a");
    assert!(matches!(report.faults[0].error, AtomicError::Validation(_)));
    assert_eq!(report.faults[1].subject, "https://ex/b");
    assert_eq!(report.faults[2].subject, "https://ex/c");
    assert_eq!(
        report.faults[2].error,
        AtomicError::NotFound("https://ex/gone".to_string())
    );
}

#[test]
fn atoms_are_added_to_the_resources_of_their_subjects() {
    let mut store = Store::with_base_url("https://ex");
    store.build_index(true).unwrap();
    let atom = |s: &str, p: &str, v: i64| {
        Atom::new(s.to_string(), p.to_string(), Value::Integer(v))
    };
    store
        .add_atoms(&vec![
            atom("https://ex/a", "p", 1),
            atom("https://ex/b", "p", 2),
            atom("https://ex/a", "q", 3),
            atom("https://ex/a", "p", 4),
        ])
        .unwrap();
    let all = store.tpf(None, None, None, true).unwrap();
    let seen: Vec<(String, String, String)> = all
        .iter()
        .map(|a| (a.subject.clone(), a.property.clone(), a.value.to_string()))
        .collect();
    let expected: Vec<(String, String, String)> = [
        ("https://ex/a", "p", "4"),
        ("https://ex/a", "q", "3"),
        ("https://ex/b", "p", "2"),
    ]
    .iter()
    .map(|(s, p, v)| (s.to_string(), p.to_string(), v.to_string()))
    .collect();
    assert_eq!(seen, expected);
    assert_eq!(
        store.subjects_with("p", "4", true).unwrap(),
        vec!["https://ex/a"]
    );
    assert!(store.subjects_with("p", "1", true).unwrap().is_empty());
}

#[test]
fn describe_names_each_property() {
    let mut store = populated();
    store
        .add_resource(&doc("https://ex/one", vec!["https://ex/x"]))
        .unwrap();
    let rows: Vec<(String, String)> = store
        .describe("https://ex/one")
        .unwrap()
        .into_iter()
        .map(|row| (row.name, row.text))
        .collect();
    let expected: Vec<(String, String)> = [
        ("name", "a name"),
        ("read", "[\"https://ex/x\"]"),
        ("subject", "https://ex/one"),
    ]
    .iter()
    .map(|(n, t)| (n.to_string(), t.to_string()))
    .collect();
    assert_eq!(rows, expected);
    assert_eq!(
        store.describe("https://ex/none").unwrap_err(),
        AtomicError::NotFound("https://ex/none".to_string())
    );
    let mut odd = Resource::new("https://ex/odd".to_string());
    odd.set_propval_unsafe("https://ex/p".to_string(), Value::Integer(1));
    store.add_resource(&odd).unwrap();
    assert_eq!(
        store.describe("https://ex/odd").unwrap_err(),
        AtomicError::NotFound("https://ex/p".to_string())
    );
}

#[test]
fn request_names_its_subject() {
    use_subject("https://ex", None, "", "https://ex");
    use_subject("https://ex", None, "q=1", "https://ex");
    use_subject("https://ex", Some("a/b"), "", "https://ex/a/b");
    use_subject("https://ex", Some("a"), "q=1&r=2", "https://ex/a?q=1&r=2");
}

fn use_subject(base: &str, path: Option<&str>, query: &str, expected: &str) {
    assert_eq!(
        atomic_lib::requests::subject_from_request(base, path, query),
        expected
    );
}

#[test]
fn errors_can_be_copied() {
    let e = AtomicError::IndexOutOfBounds { index: 3, len: 2 };
    assert_eq!(e.clone(), e);
    let e = AtomicError::Unauthorized("https://ex/a".to_string());
    assert_eq!(e.clone(), e);
}

#[test]
fn checked_set_refuses_what_does_not_fit() {
    let store = populated();
    let mut r = Resource::new("https://ex/r".to_string());
    store
        .set_propval(&mut r, urls::NAME, Value::String("n".to_string()))
        .unwrap();
    assert_eq!(
        store
            .set_propval(&mut r, urls::NAME, Value::Integer(1))
            .unwrap_err(),
        AtomicError::Validation(urls::NAME.to_string())
    );
    assert_eq!(
        store
            .set_propval(&mut r, "https://ex/p", Value::Integer(1))
            .unwrap_err(),
        AtomicError::Validation("https://ex/p".to_string())
    );
    assert_eq!(
        store
            .set_propval(&mut r, urls::SHORTNAME, Value::Slug("Not A Slug".to_string()))
            .unwrap_err(),
        AtomicError::Validation(urls::SHORTNAME.to_string())
    );
    assert_eq!(r.get_propvals().len(), 1);
    assert_eq!(r.get(urls::NAME).unwrap().to_string(), "n");
}

#[test]
fn populated_store_knows_its_classes() {
    let mut store = Store::init().unwrap();
    store.populate().unwrap();
    let atoms = store
        .tpf(None, Some(urls::IS_A), Some(urls::CLASS), true)
        .unwrap();
    assert!(atoms.len() > 11);
    assert_eq!(atoms.len(), 14);
    let subjects: Vec<&str> = atoms.iter().map(|a| a.subject.as_str()).collect();
    for class in [
        urls::CLASS,
        urls::PROPERTY,
        urls::DATATYPE,
        urls::AGENT,
        urls::COMMIT,
        urls::COLLECTION,
        urls::DRIVE,
        urls::ENDPOINT,
        urls::INVITE,
        urls::REDIRECT,
        urls::DOCUMENT,
        urls::PARAGRAPH,
        urls::FILE,
        urls::BOOKMARK,
    ] {
        assert!(subjects.contains(&class), "{}", class);
        let described = store.get_class(class).unwrap();
        for property in described.requires.iter().chain(described.recommends.iter()) {
            assert!(store.get_property(property).is_ok(), "{}", property);
        }
    }
    let properties = store
        .tpf(None, Some(urls::IS_A), Some(urls::PROPERTY), true)
        .unwrap();
    assert_eq!(properties.len(), 32);
    let datatypes = store
        .tpf(None, Some(urls::IS_A), Some(urls::DATATYPE), true)
        .unwrap();
    assert_eq!(datatypes.len(), 10);
    for atom in properties {
        let datatype = store
            .get_resource(&atom.subject)
            .unwrap()
            .get(urls::DATATYPE_PROP)
            .unwrap()
            .to_string();
        assert!(store.get_resource(&datatype).is_ok(), "{}", datatype);
    }
    assert_eq!(store.all_resources(true).len(), 56);
    assert!(store.validate().is_valid());
    store.populate().unwrap();
    assert_eq!(store.all_resources(true).len(), 56);
}

#[test]
fn resources_are_read_back_as_written() {
    use_round_trip(Vec::new());
    let mut store = populated();
    let mut odd = Resource::new("a subject with \"quotes\", commas\nand lines".to_string());
    odd.set_propval_unsafe(
        "".to_string(),
        Value::String("12:ab,\\ \t [\"x\"]".to_string()),
    );
    odd.set_propval_unsafe("p".to_string(), Value::Integer(i64::MIN));
    odd.set_propval_unsafe("q".to_string(), Value::Boolean(false));
    odd.set_propval_unsafe(
        "r".to_string(),
        Value::ResourceArray(vec!["https://ex/a".to_string(), "".to_string()]),
    );
    odd.set_head(Some("a head".to_string()));
    store.add_resource(&odd).unwrap();
    store
        .add_resource(&Resource::new("https://ex/empty".to_string()))
        .unwrap();
    let written = use_round_trip(store.export(true));
    assert!(written.starts_with("1:R,"));
    let mut other = Store::with_base_url("https://ex");
    other
        .import(&atomic_lib::serialize::parse_resources(&written).unwrap())
        .unwrap();
    assert_eq!(
        atomic_lib::serialize::serialize_resources(&other.export(true)),
        written
    );
}

fn use_round_trip(resources: Vec<Resource>) -> String {
    let text = atomic_lib::serialize::serialize_resources(&resources);
    let back = atomic_lib::serialize::parse_resources(&text).unwrap();
    assert_eq!(back.len(), resources.len());
    for (a, b) in resources.iter().zip(back.iter()) {
        assert_eq!(a.get_subject(), b.get_subject());
        assert_eq!(a.get_head(), b.get_head());
        assert_eq!(a.get_propvals().len(), b.get_propvals().len());
        for (x, y) in a.get_propvals().iter().zip(b.get_propvals().iter()) {
            assert_eq!(x.property, y.property);
            assert_eq!(x.value.datatype(), y.value.datatype());
            assert_eq!(x.value.to_string(), y.value.to_string());
        }
    }
    assert_eq!(atomic_lib::serialize::serialize_resources(&back), text);
    text
}

#[test]
fn resource_text_is_a_row_of_fields() {
    let mut r = Resource::new("s".to_string());
    r.set_propval_unsafe("p".to_string(), Value::Integer(12));
    r.set_head(Some("h".to_string()));
    let text = atomic_lib::serialize::serialize_resources(&vec![r]);
    assert_eq!(
        text,
        "1:R,1:s,1:1,1:h,1:A,1:p,40:https://atomicdata.dev/datatypes/integer,2:12,"
    );
    assert_eq!(
        atomic_lib::fields::read_fields("0:,3:a,b,"),
        Some(vec!["".to_string(), "a,b".to_string()])
    );
    assert_eq!(atomic_lib::fields::read_fields(""), Some(vec![]));
    for bad in [
        "1:R",
        "1:R,1:s,1:1,",
        "1:X,1:s,1:0,0:,",
        "1:R,1:s,1:0,1:h,",
        "1:R,1:s,1:2,0:,",
        "1:A,1:p,40:https://atomicdata.dev/datatypes/integer,2:12,",
        "1:R,1:s,1:0,0:,1:A,1:p,40:https://atomicdata.dev/datatypes/integer,2:1x,",
        "1:R,1:s,1:0,0:,1:A,1:p,3:abc,2:12,",
        "2:R,",
        ":R,",
        "1R,",
        "99999999999999999999999999:R,",
        "1:R;",
    ] {
        assert!(atomic_lib::serialize::parse_resources(bad).is_none(), "{:?}", bad);
    }
}

#[test]
fn atoms_are_written_as_ntriples() {
    let atoms = vec![
        Atom::new(
            "https://ex/s".to_string(),
            "https://ex/p".to_string(),
            Value::AtomicUrl("https://ex/o".to_string()),
        ),
        Atom::new(
            "https://ex/s".to_string(),
            "https://ex/q".to_string(),
            Value::String("a \"b\"\\\nc\r".to_string()),
        ),
        Atom::new(
            "https://ex/s".to_string(),
            "https://ex/r".to_string(),
            Value::Integer(-3),
        ),
    ];
    assert_eq!(
        atomic_lib::serialize::atoms_to_ntriples(&atoms),
        "<https://ex/s> <https://ex/p> <https://ex/o> .\n\
         <https://ex/s> <https://ex/q> \"a \\\"b\\\"\\\\\\nc\\r\"^^<https://atomicdata.dev/datatypes/string> .\n\
         <https://ex/s> <https://ex/r> \"-3\"^^<https://atomicdata.dev/datatypes/integer> .\n"
    );
    assert_eq!(atomic_lib::serialize::atoms_to_ntriples(&vec![]), "");
}

#[test]
fn resources_are_written_as_json() {
    let mut store = populated();
    let mut r = Resource::new("https://ex/r".to_string());
    r.set_propval_unsafe(
        urls::NAME.to_string(),
        Value::String("a \"b\"\\\n\t\u{1}\u{1f}é".to_string()),
    );
    r.set_propval_unsafe(urls::CREATED_AT.to_string(), Value::Timestamp(-12));
    r.set_propval_unsafe(
        urls::READ.to_string(),
        Value::ResourceArray(vec!["https://ex/a".to_string(), "https://ex/b".to_string()]),
    );
    r.set_propval_unsafe(urls::DESTROY.to_string(), Value::Boolean(true));
    store.add_resource(&r).unwrap();
    assert_eq!(
        atomic_lib::json::resource_to_json_ad(&r),
        "{\"@id\":\"https://ex/r\",\
         \"https://atomicdata.dev/properties/name\":\"a \\\"b\\\"\\\\\\n\\t\\u0001\\u001fé\",\
         \"https://atomicdata.dev/properties/createdAt\":-12,\
         \"https://atomicdata.dev/properties/read\":[\"https://ex/a\",\"https://ex/b\"],\
         \"https://atomicdata.dev/properties/destroy\":true}"
    );
    assert_eq!(
        store.to_json(&r, false).unwrap(),
        "{\"@id\":\"https://ex/r\",\
         \"name\":\"a \\\"b\\\"\\\\\\n\\t\\u0001\\u001fé\",\
         \"created-at\":-12,\
         \"read\":[\"https://ex/a\",\"https://ex/b\"],\
         \"destroy\":true}"
    );
    let mut small = Resource::new("https://ex/s".to_string());
    small.set_propval_unsafe(urls::NAME.to_string(), Value::String("n".to_string()));
    small.set_propval_unsafe(urls::READ.to_string(), Value::ResourceArray(vec![]));
    assert_eq!(
        store.to_json(&small, true).unwrap(),
        "{\"@id\":\"https://ex/s\",\"name\":\"n\",\"read\":[],\
         \"@context\":{\"name\":\"https://atomicdata.dev/properties/name\",\
         \"read\":\"https://atomicdata.dev/properties/read\"}}"
    );
    let bare = Resource::new("https://ex/bare".to_string());
    assert_eq!(
        store.to_json(&bare, true).unwrap(),
        "{\"@id\":\"https://ex/bare\",\"@context\":{}}"
    );
    assert_eq!(
        atomic_lib::json::resources_to_json_ad(&vec![bare.clone(), bare]),
        "[{\"@id\":\"https://ex/bare\"},{\"@id\":\"https://ex/bare\"}]"
    );
    assert_eq!(atomic_lib::json::resources_to_json_ad(&vec![]), "[]");
    let mut odd = Resource::new("https://ex/odd".to_string());
    odd.set_propval_unsafe("https://ex/p".to_string(), Value::Integer(1));
    assert_eq!(
        store.to_json(&odd, false).unwrap_err(),
        AtomicError::NotFound("https://ex/p".to_string())
    );
}
