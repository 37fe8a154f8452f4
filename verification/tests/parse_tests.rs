use fsreport::parse::{EntityKind, FileInfo, NumField, ParseError};
use fsreport::parse::{parse_u64, uri_to_path};

fn rec(parts: &[&str]) -> Vec<String> {
    parts.iter().map(|s| s.to_string()).collect()
}

#[test]
fn parses_five_field_record() {
    let fields = rec(&["F", "hdfs://EBDASTAGING/apps/data.bin", "1234", "1507759824337", "alice"]);
    let fi = FileInfo::new(&fields).unwrap();
    assert_eq!(fi.path, "/apps/data.bin");
    assert_eq!(fi.stat.kind, EntityKind::File);
    assert_eq!(fi.stat.size, 1234);
    assert_eq!(fi.stat.mod_time, 1507759824337);
    assert_eq!(fi.user.as_deref(), Some("alice"));
    assert!(fi.is_file());
    assert!(!fi.is_dir());
    assert!(!fi.is_sym());
}

#[test]
fn parses_four_field_record_without_owner() {
    let fields = rec(&["d", "/data/warehouse", "0", "1000"]);
    let fi = FileInfo::new(&fields).unwrap();
    assert_eq!(fi.path, "/data/warehouse");
    assert_eq!(fi.stat.kind, EntityKind::Directory);
    assert!(fi.user.is_none());
    assert!(fi.is_dir());
}

#[test]
fn kind_letter_is_case_insensitive() {
    for (letter, kind) in [
        ("f", EntityKind::File),
        ("F", EntityKind::File),
        ("d", EntityKind::Directory),
        ("D", EntityKind::Directory),
        ("s", EntityKind::Symlink),
        ("S", EntityKind::Symlink),
    ] {
        let fi = FileInfo::new(&rec(&[letter, "/p", "1", "2"])).unwrap();
        assert_eq!(fi.stat.kind, kind);
    }
}

#[test]
fn bare_path_is_kept_verbatim() {
    let fi = FileInfo::new(&rec(&["F", "/a/b/c", "5", "6", "bob"])).unwrap();
    assert_eq!(fi.path, "/a/b/c");
}

#[test]
fn uri_with_authority_keeps_only_path() {
    assert_eq!(uri_to_path("hdfs://EBDASTAGING/amshbase"), "/amshbase");
    assert_eq!(uri_to_path("hdfs://host/a/b"), "/a/b");
    assert_eq!(uri_to_path("/EBDASTAGING/amshbase"), "/EBDASTAGING/amshbase");
    assert_eq!(uri_to_path("https://example.com"), "/");
}

#[test]
fn wrong_field_count_is_schema_error() {
    assert_eq!(FileInfo::new(&rec(&["F", "/a", "1"])).unwrap_err(), ParseError::SchemaError);
    assert_eq!(
        FileInfo::new(&rec(&["F", "/a", "1", "2", "u", "extra"])).unwrap_err(),
        ParseError::SchemaError
    );
    assert_eq!(FileInfo::new(&rec(&[])).unwrap_err(), ParseError::SchemaError);
}

#[test]
fn unknown_kind_is_rejected() {
    // Scenario: a malformed line such as `X|/a|abc|1000` is dropped with the
    // kind error, before the numeric fields are even looked at.
    assert_eq!(
        FileInfo::new(&rec(&["X", "/a", "abc", "1000"])).unwrap_err(),
        ParseError::UnknownKindError
    );
    assert_eq!(FileInfo::new(&rec(&["", "/a", "1", "2"])).unwrap_err(), ParseError::UnknownKindError);
}

#[test]
fn non_numeric_size_is_rejected_naming_the_field() {
    assert_eq!(
        FileInfo::new(&rec(&["F", "/a", "abc", "1000"])).unwrap_err(),
        ParseError::NumericFieldError(NumField::Size)
    );
    assert_eq!(
        FileInfo::new(&rec(&["F", "/a", "12x", "1000"])).unwrap_err(),
        ParseError::NumericFieldError(NumField::Size)
    );
}

#[test]
fn non_numeric_mod_time_is_rejected_naming_the_field() {
    assert_eq!(
        FileInfo::new(&rec(&["F", "/a", "10", ""])).unwrap_err(),
        ParseError::NumericFieldError(NumField::ModTime)
    );
    assert_eq!(
        FileInfo::new(&rec(&["F", "/a", "10", "-5"])).unwrap_err(),
        ParseError::NumericFieldError(NumField::ModTime)
    );
}

#[test]
fn parse_u64_accepts_the_full_range() {
    assert_eq!(parse_u64("0"), Some(0));
    assert_eq!(parse_u64("42"), Some(42));
    assert_eq!(parse_u64("18446744073709551615"), Some(u64::MAX));
}

#[test]
fn parse_u64_rejects_overflow_and_junk() {
    assert_eq!(parse_u64("18446744073709551616"), None);
    assert_eq!(parse_u64(""), None);
    assert_eq!(parse_u64("1 2"), None);
    assert_eq!(parse_u64("0x10"), None);
}

#[test]
fn parent_walks_up_to_the_root() {
    assert_eq!(fsreport::paths::parent("/a/b"), Some("/a".to_string()));
    assert_eq!(fsreport::paths::parent("/a"), Some("/".to_string()));
    assert_eq!(fsreport::paths::parent("/"), None);
    assert_eq!(fsreport::paths::parent("a"), Some(String::new()));
    assert_eq!(fsreport::paths::parent(""), None);
}
