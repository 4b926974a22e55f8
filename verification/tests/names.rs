use rshtml_core::derive::{config_key, get_struct_fields, template_name, to_snake_case, ConfigKey, StructShape};
use rshtml_core::names::{djb2_hash, extract_component_name, generate_fn_name, get_struct_field, trim_str};

#[test]
fn component_name_drops_the_template_suffix() {
    assert_eq!(extract_component_name("views/Card.rs.html"), Some("Card".to_string()));
    assert_eq!(extract_component_name("Card.rs.html"), Some("Card".to_string()));
}

#[test]
fn component_name_keeps_other_file_names() {
    assert_eq!(extract_component_name("a/b/c.txt"), Some("c.txt".to_string()));
    assert_eq!(extract_component_name("dir/"), Some("dir".to_string()));
    assert_eq!(extract_component_name("a/./b.rs.html/."), Some("b".to_string()));
}

#[test]
fn component_name_needs_a_file() {
    assert_eq!(extract_component_name(""), None);
    assert_eq!(extract_component_name(".."), None);
    assert_eq!(extract_component_name("a/.."), None);
    assert_eq!(extract_component_name("/"), None);
}

#[test]
fn djb2_of_known_inputs() {
    assert_eq!(djb2_hash(b""), 5381);
    assert_eq!(djb2_hash(b".."), 0x597061);
    assert_eq!(djb2_hash("views/home.rs.html".as_bytes()), 0x600e3c8a6e5a3aa1);
}

#[test]
fn function_name_is_component_and_hash() {
    assert_eq!(generate_fn_name("views/home.rs.html"), "home_600e3c8a6e5a3aa1");
    assert_eq!(generate_fn_name("Card.rs.html"), "Card_b9139f52c8c5a0d5");
    assert_eq!(generate_fn_name("a/b/c.txt"), "c.txt_377bf6661e1d977");
    assert_eq!(generate_fn_name(".."), "_597061");
    assert_eq!(generate_fn_name("é.rs.html"), "é_72806efdfae0fe47");
}

#[test]
fn trimming_removes_unicode_whitespace_at_both_ends() {
    assert_eq!(trim_str("  a b \t\n"), "a b");
    assert_eq!(trim_str("\u{3000}x\u{a0}"), "x");
    assert_eq!(trim_str("   "), "");
}

#[test]
fn struct_field_through_self() {
    assert_eq!(get_struct_field("self.user.name"), Some("user".to_string()));
    assert_eq!(get_struct_field("  && self.count "), Some("count".to_string()));
    assert_eq!(get_struct_field("& & self.count"), None);
    assert_eq!(get_struct_field("self.0"), Some("0".to_string()));
    assert_eq!(get_struct_field("user.name"), None);
    assert_eq!(get_struct_field("self."), None);
    assert_eq!(get_struct_field("self.a b"), None);
}

#[test]
fn snake_case_of_struct_names() {
    assert_eq!(to_snake_case("HomePage"), "home_page");
    assert_eq!(to_snake_case("StructName"), "struct_name");
    assert_eq!(to_snake_case("already_snake"), "already_snake");
    assert_eq!(to_snake_case("ABC"), "a_b_c");
    assert_eq!(to_snake_case(""), "");
}

#[test]
fn template_file_of_a_struct() {
    assert_eq!(template_name("StructNamePage", None), "struct_name.rs.html");
    assert_eq!(template_name("HomePage", None), "home.rs.html");
    assert_eq!(template_name("Page", None), ".rs.html");
    assert_eq!(template_name("Layout", None), "layout.rs.html");
    assert_eq!(
        template_name("HomePage", Some("views/index.rs.html".to_string())),
        "views/index.rs.html"
    );
}

#[test]
fn field_names_of_struct_shapes() {
    assert_eq!(
        get_struct_fields(StructShape::Named(vec!["title".to_string(), "items".to_string()])),
        vec!["title".to_string(), "items".to_string()]
    );
    assert_eq!(
        get_struct_fields(StructShape::Unnamed(3)),
        vec!["0".to_string(), "1".to_string(), "2".to_string()]
    );
    assert_eq!(get_struct_fields(StructShape::Unnamed(0)), Vec::<String>::new());
    assert_eq!(get_struct_fields(StructShape::Other), Vec::<String>::new());
}

#[test]
fn snake_case_settles_on_ascii_names() {
    for s in ["HomePage", "ABC", "already_snake", "XmlHttpRequest", "a1B2"] {
        let once = to_snake_case(s);
        assert_eq!(to_snake_case(&once), once);
        assert!(!once.chars().any(|c| c.is_ascii_uppercase()));
        let inner = s.chars().skip(1).filter(|c| c.is_ascii_uppercase()).count();
        assert_eq!(once.len(), s.len() + inner);
    }
}

#[test]
fn properties_of_the_rshtml_attribute() {
    assert_eq!(config_key(Some("path".to_string())), ConfigKey::Path);
    assert_eq!(config_key(Some("no_warn".to_string())), ConfigKey::NoWarn);
    assert_eq!(config_key(Some("paths".to_string())), ConfigKey::Unsupported);
    assert_eq!(config_key(None), ConfigKey::Unsupported);
}
