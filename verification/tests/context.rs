use rshtml_core::context::{same_path, Context, UseDirective};

fn use_of(name: &str, path: &str) -> UseDirective {
    UseDirective::new(name.to_string(), path.to_string(), format!("{name}_fn"))
}

#[test]
fn an_empty_context_holds_nothing() {
    let c = Context::empty();
    assert_eq!(c.text_size(), 0);
    assert_eq!(c.fn_name(), "");
    assert!(c.template_params().is_empty());
    assert!(c.use_directives().is_empty());
    assert!(c.struct_fields().is_empty());
    let d = Context::default();
    assert_eq!(d.text_size(), 0);
}

#[test]
fn use_directives_are_a_set_keyed_by_path() {
    let mut c = Context::new(vec![
        use_of("Card", "views/card.rs.html"),
        use_of("Other", "views/card.rs.html"),
        use_of("Nav", "views/nav.rs.html"),
    ]);
    assert_eq!(c.use_directives().len(), 2);
    assert_eq!(c.use_directives()[0].name(), "Card");
    assert_eq!(c.use_directives()[1].name(), "Nav");
    c.insert_use_directive(use_of("Again", "views/nav.rs.html"));
    assert_eq!(c.use_directives().len(), 2);
    c.insert_use_directive(use_of("Foot", "views/foot.rs.html"));
    assert_eq!(c.use_directives().len(), 3);
    assert_eq!(c.use_directives()[2].path(), "views/foot.rs.html");
}

#[test]
fn finding_a_use_directive_by_name() {
    let c = Context::new(vec![use_of("Card", "a.rs.html"), use_of("Nav", "b.rs.html")]);
    let found = c.find_use_directive("Nav").unwrap();
    assert_eq!(found.path(), "b.rs.html");
    assert_eq!(found.fn_name(), "Nav_fn");
    assert!(c.find_use_directive("Missing").is_none());
    assert!(same_path(&use_of("A", "x"), &use_of("B", "x")));
    assert!(!same_path(&use_of("A", "x"), &use_of("A", "y")));
}

#[test]
fn context_setters_change_one_part() {
    let mut c = Context::empty().with_struct_fields(vec!["title".to_string()]);
    c.add_text_size(7);
    c.add_text_size(3);
    c.set_fn_name("home_1".to_string());
    c.set_template_params(vec![("n".to_string(), "u8".to_string())]);
    assert_eq!(c.text_size(), 10);
    assert_eq!(c.fn_name(), "home_1");
    assert_eq!(c.template_params()[0], ("n".to_string(), "u8".to_string()));
    assert_eq!(c.struct_fields(), &vec!["title".to_string()]);
}
