use aide_tag::{ExternalDocumentation, Tag, ValueKind, WireError};
use indexmap::IndexMap;
use serde_json::Value;

fn s(text: &str) -> Value {
    Value::String(text.to_string())
}

fn entry(key: &str, value: Value) -> (String, Value) {
    (key.to_string(), value)
}

fn keys(w: &[(String, Value)]) -> Vec<&str> {
    w.iter().map(|(k, _)| k.as_str()).collect()
}

fn ext_pairs(t: &Tag) -> Vec<(String, Value)> {
    t.extensions.iter().map(|(k, v)| (k.clone(), v.clone())).collect()
}

fn docs(url: &str) -> ExternalDocumentation {
    ExternalDocumentation {
        description: None,
        url: url.to_string(),
        extensions: IndexMap::new(),
    }
}

#[test]
fn new_sets_only_the_name() {
    let tag = Tag::new("pet");
    assert_eq!(tag.name, "pet");
    assert_eq!(tag.description, None);
    assert!(tag.external_docs.is_none());
    assert!(tag.extensions.is_empty());
}

#[test]
fn new_accepts_an_empty_name() {
    let tag = Tag::new("");
    assert_eq!(tag.name, "");
}

#[test]
fn default_tag_is_empty() {
    let tag = Tag::default();
    assert_eq!(tag.name, "");
    assert_eq!(tag.description, None);
    assert!(tag.external_docs.is_none());
    assert!(tag.extensions.is_empty());
}

#[test]
fn description_sets_only_the_description() {
    let tag = Tag::new("pet")
        .extensions(vec![entry("x-a", s("1"))])
        .description("Pets operations");
    assert_eq!(tag.name, "pet");
    assert_eq!(tag.description.as_deref(), Some("Pets operations"));
    assert_eq!(ext_pairs(&tag), vec![entry("x-a", s("1"))]);
}

#[test]
fn external_docs_sets_only_the_docs() {
    let tag = Tag::new("pet").description("d").external_docs(docs("https://example.com"));
    assert_eq!(tag.name, "pet");
    assert_eq!(tag.description.as_deref(), Some("d"));
    assert_eq!(tag.external_docs.unwrap().url, "https://example.com");
}

#[test]
fn extension_merge_overwrites_in_place_and_appends() {
    let tag = Tag::new("pet")
        .extensions(vec![entry("a", Value::from(1))])
        .extensions(vec![entry("a", Value::from(2)), entry("b", Value::from(3))]);
    assert_eq!(
        ext_pairs(&tag),
        vec![entry("a", Value::from(2)), entry("b", Value::from(3))]
    );
}

#[test]
fn extension_merge_within_one_call_keeps_the_last_value() {
    let tag = Tag::new("pet").extensions(vec![
        entry("x-b", Value::from(1)),
        entry("x-a", Value::from(2)),
        entry("x-b", Value::from(3)),
    ]);
    assert_eq!(
        ext_pairs(&tag),
        vec![entry("x-b", Value::from(3)), entry("x-a", Value::from(2))]
    );
}

#[test]
fn to_wire_emits_fields_in_order_then_extensions() {
    let tag = Tag::new("pet")
        .description("Pets")
        .external_docs(docs("https://example.com"))
        .extensions(vec![entry("x-z", Value::from(1)), entry("x-a", Value::Null)]);
    let w = tag.to_wire();
    assert_eq!(keys(&w), vec!["name", "description", "externalDocs", "x-z", "x-a"]);
    assert_eq!(w[0].1, s("pet"));
    assert_eq!(w[1].1, s("Pets"));
    let mut expected = serde_json::Map::new();
    expected.insert("url".to_string(), s("https://example.com"));
    assert_eq!(w[2].1, Value::Object(expected));
    assert_eq!(w[3].1, Value::from(1));
    assert_eq!(w[4].1, Value::Null);
}

#[test]
fn absent_optional_fields_are_omitted() {
    let w = Tag::new("pet").to_wire();
    assert_eq!(keys(&w), vec!["name"]);
    let w = Tag::new("pet").external_docs(docs("u")).to_wire();
    assert_eq!(keys(&w), vec!["name", "externalDocs"]);
    let w = Tag::new("pet").description("d").to_wire();
    assert_eq!(keys(&w), vec!["name", "description"]);
}

#[test]
fn external_docs_use_the_renamed_wire_key() {
    let w = Tag::new("pet").external_docs(docs("u")).to_wire();
    assert!(w.iter().any(|(k, _)| k == "externalDocs"));
    assert!(!w.iter().any(|(k, _)| k == "external_docs"));

    let mut inner = serde_json::Map::new();
    inner.insert("url".to_string(), s("u"));
    let read = Tag::from_wire(vec![
        entry("name", s("pet")),
        entry("external_docs", Value::Object(inner)),
    ])
    .unwrap();
    assert!(read.external_docs.is_none());
    assert_eq!(ext_pairs(&read).len(), 1);
    assert_eq!(ext_pairs(&read)[0].0, "external_docs");
}

#[test]
fn unknown_keys_become_extensions() {
    let tag = Tag::from_wire(vec![entry("name", s("pet")), entry("x-id", s("0"))]).unwrap();
    assert_eq!(tag.name, "pet");
    assert_eq!(tag.description, None);
    assert!(tag.external_docs.is_none());
    assert_eq!(ext_pairs(&tag), vec![entry("x-id", s("0"))]);
}

#[test]
fn unknown_keys_keep_their_input_order() {
    let tag = Tag::from_wire(vec![
        entry("x-b", Value::from(1)),
        entry("name", s("pet")),
        entry("x-a", Value::from(2)),
    ])
    .unwrap();
    assert_eq!(
        ext_pairs(&tag),
        vec![entry("x-b", Value::from(1)), entry("x-a", Value::from(2))]
    );
}

#[test]
fn missing_name_is_an_error() {
    let r = Tag::from_wire(vec![]);
    assert_eq!(r.err(), Some(WireError::MissingRequiredField("name".to_string())));
    let r = Tag::from_wire(vec![entry("description", s("d"))]);
    assert_eq!(r.err(), Some(WireError::MissingRequiredField("name".to_string())));
}

#[test]
fn duplicate_keys_last_occurrence_wins() {
    let tag = Tag::from_wire(vec![entry("name", s("a")), entry("name", s("b"))]).unwrap();
    assert_eq!(tag.name, "b");
    let tag = Tag::from_wire(vec![
        entry("name", s("a")),
        entry("x-k", Value::from(1)),
        entry("x-j", Value::from(2)),
        entry("x-k", Value::from(3)),
    ])
    .unwrap();
    assert_eq!(
        ext_pairs(&tag),
        vec![entry("x-k", Value::from(3)), entry("x-j", Value::from(2))]
    );
}

#[test]
fn name_of_the_wrong_kind_is_a_mismatch() {
    let r = Tag::from_wire(vec![entry("name", Value::from(5))]);
    assert_eq!(
        r.err(),
        Some(WireError::SchemaTypeMismatch {
            key: "name".to_string(),
            expected: ValueKind::Str,
            actual: Value::from(5),
        })
    );
}

#[test]
fn description_of_the_wrong_kind_is_a_mismatch() {
    let r = Tag::from_wire(vec![entry("name", s("pet")), entry("description", Value::Bool(true))]);
    assert_eq!(
        r.err(),
        Some(WireError::SchemaTypeMismatch {
            key: "description".to_string(),
            expected: ValueKind::Str,
            actual: Value::Bool(true),
        })
    );
}

#[test]
fn external_docs_of_the_wrong_kind_is_a_mismatch() {
    let r = Tag::from_wire(vec![entry("externalDocs", s("https://example.com")), entry("name", s("pet"))]);
    assert_eq!(
        r.err(),
        Some(WireError::SchemaTypeMismatch {
            key: "externalDocs".to_string(),
            expected: ValueKind::Object,
            actual: s("https://example.com"),
        })
    );
}

#[test]
fn first_error_wins() {
    let r = Tag::from_wire(vec![
        entry("description", Value::from(1)),
        entry("name", Value::from(2)),
    ]);
    assert_eq!(
        r.err(),
        Some(WireError::SchemaTypeMismatch {
            key: "description".to_string(),
            expected: ValueKind::Str,
            actual: Value::from(1),
        })
    );
}

#[test]
fn nested_docs_errors_are_passed_on() {
    let r = Tag::from_wire(vec![
        entry("name", s("pet")),
        entry("externalDocs", Value::Object(serde_json::Map::new())),
    ]);
    assert_eq!(r.err(), Some(WireError::MissingRequiredField("url".to_string())));
}

#[test]
fn round_trip_reproduces_the_tag() {
    let mut d = docs("https://example.com");
    d.description = Some("more".to_string());
    d.extensions.insert("x-d".to_string(), Value::from(7));
    let tag = Tag::new("pet")
        .description("Pets")
        .external_docs(d)
        .extensions(vec![entry("x-internal-id", s("0")), entry("x-n", Value::Null)]);
    let back = Tag::from_wire(tag.to_wire()).unwrap();
    assert_eq!(back.name, "pet");
    assert_eq!(back.description.as_deref(), Some("Pets"));
    let bd = back.external_docs.as_ref().unwrap();
    assert_eq!(bd.url, "https://example.com");
    assert_eq!(bd.description.as_deref(), Some("more"));
    assert_eq!(bd.extensions.get("x-d"), Some(&Value::from(7)));
    assert_eq!(
        ext_pairs(&back),
        vec![entry("x-internal-id", s("0")), entry("x-n", Value::Null)]
    );
}

#[test]
fn docs_wire_form_and_reading() {
    let mut d = docs("u");
    d.description = Some("see".to_string());
    d.extensions.insert("x-a".to_string(), Value::from(1));
    let w = d.to_wire();
    assert_eq!(keys(&w), vec!["description", "url", "x-a"]);
    assert_eq!(w[0].1, s("see"));
    assert_eq!(w[1].1, s("u"));
    let back = ExternalDocumentation::from_wire(w).unwrap();
    assert_eq!(back.url, "u");
    assert_eq!(back.description.as_deref(), Some("see"));
    assert_eq!(back.extensions.get("x-a"), Some(&Value::from(1)));
}

#[test]
fn docs_without_url_or_with_a_bad_url() {
    let r = ExternalDocumentation::from_wire(vec![entry("description", s("x"))]);
    assert_eq!(r.err(), Some(WireError::MissingRequiredField("url".to_string())));
    let r = ExternalDocumentation::from_wire(vec![entry("url", Value::from(3))]);
    assert_eq!(
        r.err(),
        Some(WireError::SchemaTypeMismatch {
            key: "url".to_string(),
            expected: ValueKind::Str,
            actual: Value::from(3),
        })
    );
    let d = ExternalDocumentation::default();
    assert_eq!(d.url, "");
    assert!(d.description.is_none());
}

fn sample_tag() -> Tag {
    let mut d = docs("https://example.com");
    d.extensions.insert("x-d".to_string(), Value::from(7));
    Tag::new("pet")
        .description("Pets")
        .external_docs(d)
        .extensions(vec![entry("x-b", s("0")), entry("x-a", Value::Bool(false))])
}

#[test]
fn round_trip_gives_an_equal_tag() {
    assert_eq!(Tag::from_wire(sample_tag().to_wire()), Ok(sample_tag()));
    assert_eq!(Tag::from_wire(Tag::new("").to_wire()), Ok(Tag::new("")));
}
