use yaml_contract::layout::{lookup, Layout};
use yaml_contract::stream::{Stream, StreamId};
use yaml_contract::value::Value;
use yaml_contract::{
    first_document, is_yaml_media_type, looks_like_yaml, malformed, LayoutSource, YamlContract,
    YamlFactory,
};
use yaml_contract::value::ScanFault;

fn stream(text: &str, media_type: Option<&str>) -> Stream {
    Stream::new(
        StreamId::new(1),
        text.as_bytes().to_vec(),
        media_type.map(str::to_string),
    )
}

fn service_layout() -> Layout {
    Layout::parse("service:\n  name: string\n  port: integer").expect("a layout")
}

#[test]
fn the_bare_contract_holds_well_formed_yaml_and_names_where_it_breaks() {
    let bare = YamlContract::new();
    assert!(!bare.is_bound());
    assert_eq!(bare.descriptor().id.0, "yaml");
    let held = bare
        .validate(&stream("any:\n  shape: true\n---\nsecond: 1", None))
        .expect("validates");
    assert!(held.valid, "{:?}", held.issues);
    let broken = bare
        .validate(&stream("service:\n  name: a\n  port: [1, 2\n", None))
        .expect("validates");
    assert!(!broken.valid);
    assert_eq!(broken.issues[0].code, "malformed");
    assert!(
        broken.issues[0]
            .path
            .as_deref()
            .is_some_and(|path| path.starts_with("line ") && path.contains(" column ")),
        "{:?}",
        broken.issues[0].path
    );
    let bytes = Stream::new(StreamId::new(2), vec![0xff, 0xfe], None);
    assert!(
        bare.validate(&bytes).is_err(),
        "not text is an error, not an issue"
    );
}

#[test]
fn the_bound_contract_holds_the_layout_and_names_every_departure() {
    let bound = YamlContract::with_layout("service", service_layout());
    assert!(bound.is_bound());
    assert_eq!(bound.descriptor().id.0, "yaml:service");
    let held = bound
        .validate(&stream(
            "service:\n  name: edge\n  port: 80\nextra: 1",
            None,
        ))
        .expect("validates");
    assert!(held.valid, "{:?}", held.issues);
    let departed = bound
        .validate(&stream("service:\n  name: 1", None))
        .expect("validates");
    assert!(!departed.valid);
    let codes: Vec<(&str, Option<&str>)> = departed
        .issues
        .iter()
        .map(|issue| (issue.code.as_str(), issue.path.as_deref()))
        .collect();
    assert_eq!(
        codes,
        vec![
            ("type", Some("service.name")),
            ("required", Some("service.port"))
        ]
    );
    let empty = bound.validate(&stream("", None)).expect("validates");
    assert_eq!(empty.issues[0].message, "the Stream holds no document");
}

#[test]
fn identifies_by_media_type_or_by_the_first_line() {
    let bare = YamlContract::new();
    let is = |text: &str, media: Option<&str>| bare.identify(&stream(text, media)).expect("ok");
    assert!(is("x", Some("application/yaml")));
    assert!(is("x", Some("application/x-yaml")));
    assert!(is("x", Some("text/yaml; charset=utf-8")));
    assert!(!is("a: 1", Some("text/csv")));
    assert!(is("# comment\n\n---\nservice:\n  name: a", None));
    assert!(is("name: a", None));
    assert!(is("- one\n- two", None));
    assert!(!is("name = \"a\"", None));
    assert!(!is("{\"name\": \"a\"}", None));
    assert!(!is("tags[2]: a,b", None));
    assert!(!is("", None));
}

#[test]
fn the_factory_loads_bare_and_bound_and_refuses_a_bad_layout() {
    let factory = YamlFactory;
    assert_eq!(factory.technology(), "yaml");
    assert!(matches!(factory.source(""), LayoutSource::Bare));
    assert_eq!(YamlContract::new().descriptor().id.0, "yaml");
    assert!(matches!(factory.source("yaml"), LayoutSource::Bare));
    assert!(matches!(factory.source("  yaml \n"), LayoutSource::Bare));
    let dir = "/tmp/xmip-contract-yaml-test";
    let file = format!("{dir}/service.layout.yaml");
    assert!(matches!(factory.source(&format!(" {file} ")), LayoutSource::File(path) if path == file));
    let bound = factory.bound(&file, "service:\n  name: string").expect("bound");
    assert_eq!(bound.descriptor().id.0, "yaml:service.layout");
    let bad = format!("{dir}/bad.layout.yaml");
    let refused = factory
        .bound(&bad, "service:\n  name: text")
        .err()
        .expect("refused");
    assert!(refused.message.contains("service.name asks for \"text\""));
    assert!(refused.message.starts_with(&format!("layout {bad}: ")));
    let named = factory
        .bound_with_stem(&file, Some("svc"), "service:\n  name: string")
        .expect("bound");
    assert_eq!(named.descriptor().id.0, "yaml:svc");
    let unnamed = factory.bound_with_stem(&file, None, "a: array").expect("bound");
    assert_eq!(unnamed.descriptor().id.0, format!("yaml:{file}"));
    let hidden = factory.bound("/x/.hidden", "a: string").expect("bound");
    assert_eq!(hidden.descriptor().id.0, "yaml:.hidden");
    let plain = factory.bound("layouts//noext", "a: string").expect("bound");
    assert_eq!(plain.descriptor().id.0, "yaml:noext");
    let dotted = factory.bound("x/..svc", "a: string").expect("bound");
    assert_eq!(dotted.descriptor().id.0, "yaml:.");
    let missing = factory.unreadable(&format!("{dir}/missing.yaml"), "not found");
    assert_eq!(
        missing.message,
        format!("cannot read layout {dir}/missing.yaml: not found")
    );
}

#[test]
fn the_first_document_comes_back_as_a_value() {
    let first = first_document(&stream("a: 1\n---\nb: 2", None)).expect("yaml");
    let first = first.expect("a document");
    assert!(matches!(lookup(&first, "a"), Some(Value::Integer(1))));
    assert!(first_document(&stream("", None)).expect("yaml").is_none());
    assert!(first_document(&stream("a: [", None)).is_err());
}

#[test]
fn media_types_are_read_by_their_essence_ignoring_case() {
    assert!(is_yaml_media_type("APPLICATION/YAML"));
    assert!(is_yaml_media_type("  text/Yaml ; q=1"));
    assert!(is_yaml_media_type("application/vnd.example+yaml"));
    assert!(!is_yaml_media_type("application/vnd.example+YAML"));
    assert!(!is_yaml_media_type("application/json"));
    assert!(!is_yaml_media_type("text/yaml2"));
    assert!(!is_yaml_media_type(""));
    assert!(!is_yaml_media_type("; application/yaml"));
}

#[test]
fn the_first_content_line_decides_whether_text_looks_like_yaml() {
    assert!(looks_like_yaml("---"));
    assert!(looks_like_yaml("--- !tag"));
    assert!(looks_like_yaml("%YAML 1.2\n---"));
    assert!(looks_like_yaml("-"));
    assert!(looks_like_yaml("   \n\t# note\r\n  key:\r\n"));
    assert!(looks_like_yaml("key:value: x") == false);
    assert!(looks_like_yaml("a b: c"));
    assert!(!looks_like_yaml("---x"));
    assert!(!looks_like_yaml("-x"));
    assert!(!looks_like_yaml(": value"));
    assert!(!looks_like_yaml("'a': 1"));
    assert!(!looks_like_yaml("a=b: 1"));
    assert!(!looks_like_yaml("# only a comment\n   \n"));
    assert!(!looks_like_yaml("plain words\nkey: value"));
}

#[test]
fn a_malformed_verdict_counts_columns_from_one() {
    let fault = ScanFault { info: "bad".to_string(), index: 12, line: 3, col: 0 };
    let verdict = malformed(&fault);
    assert!(!verdict.valid);
    assert_eq!(verdict.issues.len(), 1);
    assert_eq!(verdict.issues[0].code, "malformed");
    assert_eq!(verdict.issues[0].message, "not valid YAML: bad");
    assert_eq!(verdict.issues[0].path.as_deref(), Some("line 3 column 1"));
    assert_eq!(fault.describe(), "bad at byte 12 line 3 column 1");
    let far = ScanFault { info: "x".to_string(), index: 1234567, line: 40, col: 109 };
    assert_eq!(malformed(&far).issues[0].path.as_deref(), Some("line 40 column 110"));
}

#[test]
fn a_stream_that_is_not_text_is_refused_with_the_reason() {
    let bare = YamlContract::new();
    let bytes = Stream::new(StreamId::new(3), vec![b'a', 0xc3], None);
    let refused = bare.validate(&bytes).err().expect("refused");
    assert_eq!(
        refused.message,
        format!("not UTF-8 text: {}", std::str::from_utf8(&[b'a', 0xc3]).unwrap_err())
    );
    assert!(!bare.identify(&bytes).expect("ok"));
    assert!(first_document(&bytes).is_err());
}

#[test]
fn a_stream_that_is_not_yaml_names_where_it_breaks_as_a_value_request() {
    let refused = first_document(&stream("a: [", None)).err().expect("refused");
    assert!(refused.message.starts_with("not valid YAML: "));
    assert!(refused.message.contains(" line "));
}

#[test]
fn only_the_first_document_is_held_to_the_layout() {
    let bound = YamlContract::with_layout("service", service_layout());
    let verdict = bound
        .validate(&stream("service:\n  name: a\n  port: 1\n---\nother: 2", None))
        .expect("validates");
    assert!(verdict.valid, "{:?}", verdict.issues);
    let verdict = bound
        .validate(&stream("other: 2\n---\nservice:\n  name: a\n  port: 1", None))
        .expect("validates");
    assert_eq!(verdict.issues.len(), 2);
}

#[test]
fn a_bare_contract_holds_any_well_formed_stream() {
    let bare = YamlContract::default();
    for text in ["", "a: 1", "- 1\n- 2", "plain", "---\n---\n"] {
        let verdict = bare.validate(&stream(text, None)).expect("validates");
        assert!(verdict.valid);
        assert!(verdict.issues.is_empty());
    }
    assert_eq!(bare.descriptor().version, "1");
    assert_eq!(bare.descriptor().representation, "application/yaml");
}

#[test]
fn the_verdict_on_given_documents_holds_the_first_to_the_layout() {
    let bound = YamlContract::with_layout("service", service_layout());
    let none = bound.verdict(&[]);
    assert!(!none.valid);
    assert_eq!(none.issues.len(), 1);
    assert_eq!(none.issues[0].path.as_deref(), Some(""));
    let first = first_document(&stream("service:\n  name: a\n  port: x", None))
        .expect("yaml")
        .expect("a document");
    let verdict = bound.verdict(&[first, Value::Null]);
    assert!(!verdict.valid);
    assert_eq!(verdict.issues.len(), 1);
    assert_eq!(verdict.issues[0].message, "service.port is string, not integer");
    assert!(YamlContract::new().verdict(&[Value::BadValue]).valid);
}
