use rshtml_core::escaping::{escaped_or_raw, is_escaped};

#[test]
fn a_hash_marks_an_expression_raw() {
    assert!(is_escaped("name"));
    assert!(is_escaped(""));
    assert!(!is_escaped("#name"));
    assert_eq!(escaped_or_raw("#name"), "name");
    assert_eq!(escaped_or_raw("name"), "name");
    assert_eq!(escaped_or_raw("##x"), "#x");
}
