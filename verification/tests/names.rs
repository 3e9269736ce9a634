use pg_ident::{IdentError, PgName};

#[test]
fn test_namespaced_quoted() {
    let id = PgName::new_ns(vec!["foo".to_string(), "FOO".to_string()]).unwrap();
    assert!(matches!(id, PgName::IdPair(_, _)));
    assert_eq!(id.render(), "foo.\"FOO\"");
}

#[test]
fn test_nested_dots() {
    let id = PgName::new_ns(vec!["foo.foo".to_string(), "FOO.FOO".to_string()]).unwrap();
    assert!(matches!(id, PgName::IdPair(_, _)));
    assert_eq!(id.render(), "\"foo.foo\".\"FOO.FOO\"");
}

#[test]
fn name_from_str() {
    let id = PgName::new("foo").unwrap();
    assert_eq!(id.render(), "foo");
}

#[test]
fn from_tuple() {
    let id = PgName::new_pair("foo", "bar").unwrap();
    assert!(matches!(id, PgName::IdPair(_, _)));
    assert_eq!(id.render(), "foo.bar");
}

#[test]
fn from_string_tuple() {
    let schema = "foo".to_string();
    let table = "bar".to_string();
    let id = PgName::new_pair(schema.as_str(), table.as_str()).unwrap();
    assert!(matches!(id, PgName::IdPair(_, _)));
    assert_eq!(id.render(), "foo.bar");
}

#[test]
fn name_simple() {
    let id = PgName::new("foo").unwrap();
    assert_eq!(id.render(), "foo");
}

#[test]
fn name_quoted() {
    let id = PgName::new("FOO").unwrap();
    assert!(matches!(id, PgName::Id(_)));
    assert_eq!(id.render(), "\"FOO\"");
}

#[test]
fn name_quoted_escaped() {
    let id = PgName::new("The \"table\"").unwrap();
    assert!(matches!(id, PgName::Id(_)));
    assert_eq!(id.render(), "\"The \"\"table\"\"\"");
}

#[test]
fn test_name_id() {
    let id = PgName::new("foo").unwrap();
    assert_eq!(id.name().render(), "foo");
}

#[test]
fn test_name_pair() {
    let id = PgName::new_pair("foo", "bar").unwrap();
    assert_eq!(id.name().render(), "bar");
}

#[test]
fn test_name_vec() {
    let id = PgName::new_ns(vec!["a".to_string(), "b".to_string(), "c".to_string()]).unwrap();
    assert_eq!(id.name().render(), "c");
}

#[test]
fn empty_path_is_rejected() {
    let err = PgName::new_ns(Vec::new()).unwrap_err();
    assert!(matches!(err, IdentError::ZeroLengthError()));
}

#[test]
fn path_of_one_matches_single() {
    let a = PgName::new_ns(vec!["FOO".to_string()]).unwrap();
    let b = PgName::new("FOO").unwrap();
    assert!(matches!(a, PgName::Id(_)));
    assert!(matches!(b, PgName::Id(_)));
    assert_eq!(a.render(), b.render());
}

#[test]
fn path_of_two_matches_pair() {
    let a = PgName::new_ns(vec!["foo".to_string(), "BAR".to_string()]).unwrap();
    let b = PgName::new_pair("foo", "BAR").unwrap();
    assert!(matches!(a, PgName::IdPair(_, _)));
    assert!(matches!(b, PgName::IdPair(_, _)));
    assert_eq!(a.render(), b.render());
    assert_eq!(a.render(), "foo.\"BAR\"");
}

#[test]
fn path_of_three_renders_dotted() {
    let id =
        PgName::new_ns(vec!["a".to_string(), "B".to_string(), "c".to_string()]).unwrap();
    assert!(matches!(id, PgName::Namespaced(_)));
    assert_eq!(id.render(), "a.\"B\".c");
}

#[test]
fn path_first_error_wins() {
    let err = PgName::new_ns(vec!["\u{0}".to_string(), "ok".to_string()]).unwrap_err();
    assert!(matches!(err, IdentError::NullByteError()));
    let err = PgName::new_ns(vec!["ok".to_string(), "\u{0}".to_string()]).unwrap_err();
    assert!(matches!(err, IdentError::NullByteError()));
}

#[test]
fn pair_first_error_wins() {
    let err = PgName::new_pair("\u{0}", "ok").unwrap_err();
    assert!(matches!(err, IdentError::NullByteError()));
    let err = PgName::new_pair("ok", "\u{0}").unwrap_err();
    assert!(matches!(err, IdentError::NullByteError()));
}

#[test]
fn with_name_on_single() {
    let id = PgName::new("foo").unwrap();
    let renamed = id.with_name("bar").unwrap();
    assert!(matches!(renamed, PgName::Id(_)));
    assert_eq!(renamed.render(), "bar");
}

#[test]
fn with_name_keeps_schema() {
    let id = PgName::new_pair("sch", "old_leaf").unwrap();
    let renamed = id.with_name("NEW").unwrap();
    assert!(matches!(renamed, PgName::IdPair(_, _)));
    assert_eq!(renamed.render(), "sch.\"NEW\"");
    assert_eq!(renamed.name().render(), "\"NEW\"");
}

#[test]
fn with_name_keeps_path_prefix() {
    let id =
        PgName::new_ns(vec!["a".to_string(), "b".to_string(), "c".to_string()]).unwrap();
    let renamed = id.with_name("d").unwrap();
    assert!(matches!(renamed, PgName::Namespaced(_)));
    assert_eq!(renamed.render(), "a.b.d");
    assert_eq!(renamed.name().render(), "d");
}

#[test]
fn with_name_rejects_nul() {
    let id = PgName::new_pair("a", "b").unwrap();
    let err = id.with_name("x\u{0}").unwrap_err();
    assert!(matches!(err, IdentError::NullByteError()));
    assert_eq!(id.render(), "a.b");
}
