use yaml_contract::contract::Kind;
use yaml_contract::first_document;
use yaml_contract::layout::{holds, is_timestamp, lookup, name_of, Layout};
use yaml_contract::stream::{Stream, StreamId};
use yaml_contract::value::Value;

fn document(text: &str) -> Value {
    let stream = Stream::new(StreamId::new(1), text.as_bytes().to_vec(), None);
    first_document(&stream).expect("yaml").expect("a document")
}

fn at<'a>(document: &'a Value, path: &str) -> &'a Value {
    lookup(document, path).expect("a value")
}

#[test]
fn a_layout_lists_its_keys_by_dotted_path() {
    let layout = Layout::parse("service:\n  name: string\n  port: integer\nmodules: array")
        .expect("a layout");
    let paths: Vec<(&str, Kind)> = layout
        .required()
        .iter()
        .map(|r| (r.path.as_str(), r.kind))
        .collect();
    assert_eq!(
        paths,
        vec![
            ("service.name", Kind::String),
            ("service.port", Kind::Integer),
            ("modules", Kind::Array)
        ]
    );
    assert!(Layout::parse("").expect("empty").required().is_empty());
}

#[test]
fn an_unknown_type_a_leaf_that_is_not_a_name_or_a_non_mapping_is_refused() {
    let unknown = Layout::parse("port: number").expect_err("refused");
    assert!(unknown.message.contains("port asks for \"number\""));
    let not_a_name = Layout::parse("port: 80").expect_err("refused");
    assert!(not_a_name.message.contains("port is integer"));
    let sequence = Layout::parse("- a\n- b").expect_err("refused");
    assert!(sequence.message.contains("a layout is a mapping"));
    assert!(Layout::parse("a: [1, 2").is_err());
}

#[test]
fn a_missing_key_and_a_key_of_the_wrong_type_are_named_by_their_path() {
    let layout = Layout::parse(
        "service:\n  name: string\n  port: integer\nstarted: datetime\nratio: float",
    )
    .expect("a layout");
    let issues = layout.check(&document("service:\n  name: 1\n  port: 80\nratio: 0.5"));
    assert_eq!(issues.len(), 2, "{issues:?}");
    assert_eq!(issues[0].code, "type");
    assert_eq!(issues[0].path.as_deref(), Some("service.name"));
    assert!(issues[0].message.contains("is integer"));
    assert_eq!(issues[1].code, "required");
    assert_eq!(issues[1].path.as_deref(), Some("started"));
    let held = document(
        "service:\n  name: edge\n  port: 80\nstarted: 2026-09-10T08:00:00Z\nratio: 1.5",
    );
    assert!(layout.check(&held).is_empty(), "{:?}", layout.check(&held));
    let not_a_date = document("service: {name: a, port: 1}\nstarted: soon\nratio: 1.0");
    let issues = layout.check(&not_a_date);
    assert_eq!(issues.len(), 1);
    assert_eq!(issues[0].path.as_deref(), Some("started"));
}

#[test]
fn every_yaml_value_has_a_layout_name_and_holds_its_own_kind() {
    let document = document("s: a\ni: 1\nf: 1.5\nb: true\nt: {}\na: []\nd: 2026-09-10\nn: ~");
    for (key, name) in [
        ("s", "string"),
        ("i", "integer"),
        ("f", "float"),
        ("b", "boolean"),
        ("t", "table"),
        ("a", "array"),
        ("d", "datetime"),
    ] {
        let value = at(&document, key);
        assert_eq!(name_of(value), name);
        assert!(holds(Kind::named(name).expect("kind"), value), "{name}");
    }
    assert_eq!(name_of(at(&document, "n")), "null");
    assert!(!holds(Kind::String, at(&document, "i")));
}

#[test]
fn kind_names_read_back_as_their_kinds() {
    for kind in [
        Kind::String,
        Kind::Integer,
        Kind::Float,
        Kind::Boolean,
        Kind::Table,
        Kind::Array,
        Kind::Datetime,
    ] {
        assert_eq!(Kind::named(kind.name()), Some(kind));
    }
    assert_eq!(Kind::named("String"), None);
    assert_eq!(Kind::named("number"), None);
    assert_eq!(Kind::named(""), None);
}

#[test]
fn a_timestamp_is_a_date_alone_or_followed_by_a_time() {
    assert!(is_timestamp("2026-09-10"));
    assert!(is_timestamp("2026-09-10T08:00:00Z"));
    assert!(is_timestamp("2026-09-10t08:00:00Z"));
    assert!(is_timestamp("2026-09-10 08:00"));
    assert!(is_timestamp("2026-09-10 08:00:00"));
    assert!(is_timestamp("2026-09-10T08:00:00.125+02:00"));
    assert!(is_timestamp("2026-09-10T08:00:00.5z"));
    assert!(is_timestamp("2026-09-10T08:00-05"));
    assert!(is_timestamp("9999-99-99"));
    assert!(is_timestamp("2001-12-14 21:59:43.10 -5"));
    assert!(is_timestamp("2001-12-14t21:59:43.10-05:00"));
    assert!(is_timestamp("2001-12-14  21:59"));
    assert!(is_timestamp("2001-12-14 \t21:59"));
    assert!(is_timestamp("2001-12-15 2:59:43.10"));
    assert!(is_timestamp("2001-12-14T21:59:43.10Z"));
    assert!(is_timestamp("2026-09-10T08:00:00."));
    assert!(is_timestamp("2026-09-10T08:00:00+2"));
    assert!(is_timestamp("2026-09-10T8:00"));
    assert!(!is_timestamp("2026-09-10Tsoon"));
    assert!(!is_timestamp("2026-09-10 x"));
    assert!(!is_timestamp("2026-09-10T"));
    assert!(!is_timestamp("2026-09-10 "));
    assert!(!is_timestamp("2026-09-10T 08:00"));
    assert!(!is_timestamp("2026-09-10\t08:00"));
    assert!(!is_timestamp("2026-09-10T123:00"));
    assert!(!is_timestamp("2026-09-10T08:0"));
    assert!(!is_timestamp("2026-09-10T08:00:00.5x"));
    assert!(!is_timestamp("2026-09-10T08:00:00+123"));
    assert!(!is_timestamp("2026-09-10T08:00Z "));
    assert!(!is_timestamp("2026-09-10 08:00 "));
    assert!(!is_timestamp("2026-09-1"));
    assert!(!is_timestamp("2026-09-10X"));
    assert!(!is_timestamp("2026/09/10"));
    assert!(!is_timestamp("20260910"));
    assert!(!is_timestamp("2026-09-1é"));
    assert!(!is_timestamp(""));
    assert!(!is_timestamp("soon"));
}

#[test]
fn a_datetime_is_also_a_string() {
    let document = document("d: 2026-09-10\nw: when\nx: 2026-09-10 x");
    let d = at(&document, "d");
    assert!(holds(Kind::Datetime, d));
    assert!(holds(Kind::String, d));
    let w = at(&document, "w");
    assert!(holds(Kind::String, w));
    assert!(!holds(Kind::Datetime, w));
    assert_eq!(name_of(w), "string");
    let x = at(&document, "x");
    assert!(!holds(Kind::Datetime, x));
    assert_eq!(name_of(x), "string");
}

#[test]
fn null_alias_and_bad_values_hold_no_kind() {
    for value in [Value::Null, Value::Alias(1), Value::BadValue] {
        for kind in [
            Kind::String,
            Kind::Integer,
            Kind::Float,
            Kind::Boolean,
            Kind::Table,
            Kind::Array,
            Kind::Datetime,
        ] {
            assert!(!holds(kind, &value));
        }
        assert_eq!(Kind::named(name_of(&value)), None);
    }
    assert_eq!(name_of(&Value::Alias(3)), "alias");
    assert_eq!(name_of(&Value::BadValue), "nothing");
}

#[test]
fn lookup_follows_dotted_paths_through_mappings_only() {
    let document = document("a:\n  b:\n    c: 1\n  l: [1, 2]\nx.y: 2");
    assert!(matches!(at(&document, "a.b.c"), Value::Integer(1)));
    assert!(matches!(at(&document, "a.l"), Value::Array(items) if items.len() == 2));
    assert!(lookup(&document, "a.l.0").is_none());
    assert!(lookup(&document, "a.b.d").is_none());
    assert!(lookup(&document, "a.").is_none());
    assert!(lookup(&document, "x.y").is_none());
    assert!(lookup(&document, "").is_none());
}

#[test]
fn a_layout_keeps_its_order_and_names_non_string_keys_by_their_rendering() {
    let layout = Layout::parse("b: string\na:\n  z: boolean\n  y: table\n1: integer").expect("a layout");
    let paths: Vec<(&str, Kind)> = layout
        .required()
        .iter()
        .map(|r| (r.path.as_str(), r.kind))
        .collect();
    assert_eq!(
        paths,
        vec![
            ("b", Kind::String),
            ("a.z", Kind::Boolean),
            ("a.y", Kind::Table),
            ("Integer(1)", Kind::Integer)
        ]
    );
}

#[test]
fn the_first_refused_leaf_is_the_one_reported() {
    let refused = Layout::parse("a: string\nb:\n  c: text\nd: 7").expect_err("refused");
    assert_eq!(
        refused.message,
        "b.c asks for \"text\", which is not a type a layout knows"
    );
    let refused = Layout::parse("a: ~").expect_err("refused");
    assert_eq!(refused.message, "a is null; a layout leaf names a type");
    let refused = Layout::parse("7").expect_err("refused");
    assert_eq!(refused.message, "the layout is integer; a layout is a mapping");
}

#[test]
fn a_layout_that_is_not_yaml_names_where_it_breaks() {
    let refused = Layout::parse("a: [1, 2").expect_err("refused");
    assert!(refused.message.starts_with("the layout is not YAML: "));
    assert!(refused.message.contains(" at byte "));
    assert!(refused.message.contains(" line "));
    assert!(refused.message.contains(" column "));
}

#[test]
fn only_required_paths_matter_to_a_check() {
    let layout = Layout::parse("a: integer").expect("a layout");
    let small = document("a: 1");
    let large = document("a: 1\nb: [x]\nc: {d: 2}");
    assert!(layout.check(&small).is_empty());
    assert!(layout.check(&large).is_empty());
}

#[test]
fn the_issue_messages_name_what_was_found_and_asked() {
    let layout = Layout::parse("a: float\nb: table").expect("a layout");
    let issues = layout.check(&document("a: yes\n"));
    assert_eq!(issues.len(), 2);
    assert_eq!(issues[0].code, "type");
    assert_eq!(issues[0].message, "a is string, not float");
    assert_eq!(issues[1].code, "required");
    assert_eq!(issues[1].message, "the document lacks b");
    assert_eq!(issues[1].path.as_deref(), Some("b"));
}
