use scala_to_kotlin::text::{commented_exec, concat_all_exec, has_arrow_exec, has_ws_exec,
    join_all, rewrite_angles_exec, rewrite_type_ident_exec, rewrite_wildcard_exec, str_eq};

#[test]
fn wildcard_import_suffix_is_rewritten() {
    assert_eq!(rewrite_wildcard_exec("import scala.collection._"), "import scala.collection.*");
    // only the trailing wildcard suffix is a wildcard import: interior `._`
    // pairs belong to identifiers and stay verbatim
    assert_eq!(rewrite_wildcard_exec("a._b._"), "a._b.*");
    assert_eq!(rewrite_wildcard_exec("a._b"), "a._b");
    assert_eq!(rewrite_wildcard_exec(""), "");
    assert_eq!(rewrite_wildcard_exec("._"), ".*");
    assert_eq!(rewrite_wildcard_exec("_."), "_.");
}

#[test]
fn brackets_become_angles() {
    assert_eq!(rewrite_angles_exec("[Int]"), "<Int>");
    assert_eq!(rewrite_angles_exec("Map[K, V]"), "Map<K, V>");
    assert_eq!(rewrite_angles_exec("plain"), "plain");
}

#[test]
fn type_identifier_rewrites_only_last_segment() {
    assert_eq!(rewrite_type_ident_exec("a.b.Map[Int]"), "a.b.Map<Int>");
    assert_eq!(rewrite_type_ident_exec("p[q].r[s]"), "p[q].r<s>");
    assert_eq!(rewrite_type_ident_exec("Seq[Byte]"), "Seq<Byte>");
    assert_eq!(rewrite_type_ident_exec("trailing."), "trailing.");
    assert_eq!(rewrite_type_ident_exec(""), "");
}

#[test]
fn commented_prefixes_every_line() {
    assert_eq!(commented_exec("a\nb"), "// a\n// b");
    assert_eq!(commented_exec("a\n"), "// a");
    assert_eq!(commented_exec("a\r\nb"), "// a\n// b");
    assert_eq!(commented_exec(""), "");
    assert_eq!(commented_exec("one"), "// one");
}

#[test]
fn whitespace_and_arrow_scans() {
    assert!(has_ws_exec("a b"));
    assert!(has_ws_exec("a\nb"));
    assert!(!has_ws_exec("a.b"));
    assert!(has_arrow_exec("x => y"));
    assert!(!has_arrow_exec("x > = y"));
    assert!(!has_arrow_exec(""));
}

#[test]
fn joining_fragments() {
    let v = vec!["a".to_string(), "b".to_string(), "c".to_string()];
    assert_eq!(join_all(&v, "\n\t"), "a\n\tb\n\tc");
    assert_eq!(concat_all_exec(&v), "abc");
    let empty: Vec<String> = Vec::new();
    assert_eq!(join_all(&empty, ", "), "");
    assert_eq!(concat_all_exec(&empty), "");
}

#[test]
fn string_equality_by_characters() {
    assert!(str_eq("match", "match"));
    assert!(!str_eq("match", "block"));
    assert!(!str_eq("a", "ab"));
    assert!(str_eq("", ""));
}
