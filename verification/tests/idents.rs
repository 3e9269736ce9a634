use pg_ident::{IdentError, PgIdent};
use pg_ident::util::is_ident_compatible;

#[test]
fn ident_from_str() {
    let id = PgIdent::new("foo").unwrap();
    assert_eq!(id.render(), "foo");
}

#[test]
fn ident_simple() {
    let id = PgIdent::new("foo").unwrap();
    assert_eq!(id.render(), "foo");
}

#[test]
fn ident_quoted() {
    let id = PgIdent::new("FOO").unwrap();
    assert!(matches!(id, PgIdent::Quoted(_)));
    assert_eq!(id.render(), "\"FOO\"");
}

#[test]
fn ident_quoted_escaped() {
    let id = PgIdent::new("The \"table\"").unwrap();
    assert!(matches!(id, PgIdent::Quoted(_)));
    assert_eq!(id.render(), "\"The \"\"table\"\"\"");
}

#[test]
fn compatible_simple_names() {
    assert!(is_ident_compatible("foo"));
    assert!(is_ident_compatible("_foo"));
    assert!(is_ident_compatible("a9$_z"));
    assert!(is_ident_compatible("a"));
}

#[test]
fn incompatible_names() {
    assert!(!is_ident_compatible(""));
    assert!(!is_ident_compatible("Foo"));
    assert!(!is_ident_compatible("FOO"));
    assert!(!is_ident_compatible("9foo"));
    assert!(!is_ident_compatible("$foo"));
    assert!(!is_ident_compatible("foo bar"));
    assert!(!is_ident_compatible("foo.bar"));
}

#[test]
fn byte_length_boundary() {
    let ok = "a".repeat(63);
    assert!(is_ident_compatible(&ok));
    assert!(matches!(PgIdent::new(&ok).unwrap(), PgIdent::Id(_)));
    let long = "a".repeat(64);
    assert!(!is_ident_compatible(&long));
    assert!(matches!(PgIdent::new(&long).unwrap(), PgIdent::Quoted(_)));
}

#[test]
fn byte_length_counts_bytes_not_chars() {
    // 62 one-byte characters plus one two-byte character: 64 bytes, so the
    // 63-character string must take the quoting path.
    let s = format!("{}{}", "a".repeat(62), "\u{e9}");
    assert_eq!(s.len(), 64);
    assert!(!is_ident_compatible(&s));
    // One character shorter it fits in 63 bytes and stays bare.
    let t = format!("{}{}", "a".repeat(61), "\u{e9}");
    assert_eq!(t.len(), 63);
    assert!(is_ident_compatible(&t));
}

#[test]
fn non_ascii_lowercase_is_bare() {
    let id = PgIdent::new("h\u{e9}llo").unwrap();
    assert!(matches!(id, PgIdent::Id(_)));
    assert_eq!(id.render(), "h\u{e9}llo");
}

#[test]
fn non_ascii_numeric_tail_is_bare() {
    // U+00BC (vulgar fraction one quarter) is numeric but not a digit; the
    // classifier follows the numeric predicate.
    assert!(is_ident_compatible("a\u{bc}"));
    assert!(!is_ident_compatible("\u{bc}a"));
}

#[test]
fn empty_string_is_quoted_empty() {
    let id = PgIdent::new("").unwrap();
    assert!(matches!(id, PgIdent::Quoted(_)));
    assert_eq!(id.render(), "\"\"");
}

#[test]
fn nul_byte_is_rejected() {
    let err = PgIdent::new("a\u{0}b").unwrap_err();
    assert!(matches!(err, IdentError::NullByteError()));
    let err = PgIdent::new("\u{0}").unwrap_err();
    assert!(matches!(err, IdentError::NullByteError()));
}

#[test]
fn escaping_applied_exactly_once() {
    let id = PgIdent::new("a\"b").unwrap();
    assert_eq!(id.render(), "\"a\"\"b\"");
    // Rendering is a pure read: a second rendering is identical.
    assert_eq!(id.render(), id.render());
    // Re-building from the rendered text escapes that text afresh; the
    // library never does this internally.
    let rebuilt = PgIdent::new(&id.render()).unwrap();
    assert_eq!(rebuilt.render(), "\"\"\"a\"\"\"\"b\"\"\"");
}

#[test]
fn only_quote_characters() {
    let id = PgIdent::new("\"").unwrap();
    assert!(matches!(id, PgIdent::Quoted(_)));
    assert_eq!(id.render(), "\"\"\"\"");
}
