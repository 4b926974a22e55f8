use rshtml_core::order::{sort_names_in_place, sort_params_in_place, str_le};

#[test]
fn strings_compare_character_by_character() {
    assert!(str_le("a", "b"));
    assert!(str_le("ab", "ab"));
    assert!(str_le("ab", "abc"));
    assert!(!str_le("abc", "ab"));
    assert!(str_le("B", "a"));
    assert!(str_le("", ""));
}

#[test]
fn names_are_sorted() {
    let mut v = vec!["title".to_string(), "count".to_string(), "b".to_string(), "a".to_string()];
    sort_names_in_place(&mut v);
    assert_eq!(v, vec!["a", "b", "count", "title"]);
    let mut w: Vec<String> = vec![];
    sort_names_in_place(&mut w);
    assert!(w.is_empty());
    let mut d = vec!["x".to_string(), "x".to_string(), "a".to_string()];
    sort_names_in_place(&mut d);
    assert_eq!(d, vec!["a", "x", "x"]);
}

#[test]
fn params_are_sorted_by_name() {
    let mut v = vec![
        ("z".to_string(), "u8".to_string()),
        ("a".to_string(), "String".to_string()),
        ("m".to_string(), "bool".to_string()),
    ];
    sort_params_in_place(&mut v);
    assert_eq!(v[0].0, "a");
    assert_eq!(v[0].1, "String");
    assert_eq!(v[1].0, "m");
    assert_eq!(v[2].0, "z");
}
