use rshtml_core::code::Frag;
use rshtml_core::context::{Context, UseDirective};
use rshtml_core::inline_stmt::{rust_stmt, rust_stmt_head};
use rshtml_core::markup::Flavor;
use rshtml_core::outcome::{Ctx, Expect, Label, PErr};
use rshtml_core::template::template;

fn chars(s: &str) -> Vec<char> {
    s.chars().collect()
}

fn show(v: &[Frag]) -> Vec<String> {
    v.iter()
        .map(|f| match f {
            Frag::Write(t) => format!("write:{t}"),
            Frag::Render { expr, escaped, .. } => format!("render:{expr}:{escaped}"),
            Frag::Code(c) => format!("code:{c}"),
            Frag::Stmts(c) => format!("stmts:{c}"),
            Frag::Open => "{".to_string(),
            Frag::Close => "}".to_string(),
            Frag::ChildContent => "child".to_string(),
            Frag::Continue => "continue".to_string(),
            Frag::Break => "break".to_string(),
            Frag::Let { name, .. } => format!("let:{name}"),
            Frag::LetClosureOpen(n) => format!("closure:{n}"),
            Frag::LetClosureClose => "closure-end".to_string(),
            Frag::ChildOpen => "child-open".to_string(),
            Frag::ChildClose => "child-close".to_string(),
            Frag::Call { fn_name, args } => format!("call:{fn_name}:{}", args.join(",")),
        })
        .collect()
}

fn run(src: &str, flavor: Flavor) -> (Vec<String>, usize) {
    let s = chars(src);
    let mut ctx = Context::empty();
    let (end, code) = template(&s, &mut ctx, flavor).unwrap();
    assert_eq!(end, s.len());
    (show(&code), ctx.text_size())
}

#[test]
fn plain_text_is_written_and_counted() {
    let s = chars("<p>Hello @@ world</p>");
    let mut ctx = Context::empty();
    let r = template(&s, &mut ctx, Flavor::File).unwrap();
    assert_eq!(r.0, s.len());
    assert_eq!(r.1.len(), 1);
    match &r.1[0] {
        Frag::Write(t) => assert_eq!(t, "<p>Hello @ world</p>"),
        other => panic!("unexpected {:?}", other),
    }
    assert_eq!(ctx.text_size(), 20);
}

#[test]
fn unknown_directive_is_an_error_in_the_file_grammar() {
    let s = chars("a @% b");
    let mut ctx = Context::empty();
    match template(&s, &mut ctx, Flavor::File) {
        Err(PErr::Cut(p, _)) => assert_eq!(p, 3),
        other => panic!("unexpected {:?}", other),
    }
}

#[test]
fn a_simple_expression_is_rendered_escaped() {
    let (code, size) = run("Hi @name!", Flavor::File);
    assert_eq!(code, vec!["write:Hi ", "render:name:true", "write:!"]);
    assert_eq!(size, 4);
}

#[test]
fn a_hash_renders_an_expression_raw() {
    let (code, _) = run("@#html", Flavor::File);
    assert_eq!(code, vec!["render:html:false"]);
}

#[test]
fn a_parenthesised_expression_is_rendered() {
    let (code, _) = run("@(a + b)", Flavor::File);
    assert_eq!(code, vec!["render:a + b:true"]);
}

#[test]
fn an_empty_template_compiles_to_nothing() {
    let (code, size) = run("", Flavor::File);
    assert!(code.is_empty());
    assert_eq!(size, 0);
}

#[test]
fn if_else_becomes_heads_and_blocks() {
    let (code, size) = run("@if x { a } else { b }", Flavor::File);
    assert_eq!(code, vec!["code:if  x ", "{", "write: a ", "}", "code:else", "{", "write: b ", "}"]);
    assert_eq!(size, 6);
}

#[test]
fn a_for_loop_with_break_and_continue() {
    let (code, _) = run("@for i in v { @continue @break }", Flavor::File);
    assert_eq!(code, vec!["code:for  i in v ", "{", "write: ", "continue", "break", "}"]);
}

#[test]
fn a_code_block_is_kept_as_statements() {
    let (code, _) = run("@{ let x = 1; }", Flavor::File);
    assert_eq!(code, vec!["stmts:{ let x = 1; }"]);
}

#[test]
fn template_parameters_are_recorded() {
    let s = chars("@(name: String, n)\nHi");
    let mut ctx = Context::empty();
    let (end, code) = template(&s, &mut ctx, Flavor::File).unwrap();
    assert_eq!(end, s.len());
    assert_eq!(show(&code), vec!["write:\nHi"]);
    assert_eq!(
        ctx.template_params(),
        &vec![
            ("name".to_string(), "String".to_string()),
            ("n".to_string(), "impl ::rshtml::View".to_string()),
        ]
    );
}

#[test]
fn an_undefined_struct_field_is_an_error() {
    let s = chars("@self.missing");
    let mut ctx = Context::empty().with_struct_fields(vec!["title".to_string()]);
    assert!(matches!(template(&s, &mut ctx, Flavor::File), Err(PErr::Cut(..))));
    let s2 = chars("@self.title");
    let mut ctx2 = Context::empty().with_struct_fields(vec!["title".to_string()]);
    let (_, code) = template(&s2, &mut ctx2, Flavor::File).unwrap();
    assert_eq!(show(&code), vec!["render:self.title:true"]);
}

#[test]
fn a_missing_component_is_reported() {
    let s = chars("<Card/>");
    let mut ctx = Context::empty();
    match template(&s, &mut ctx, Flavor::File) {
        Err(PErr::Cut(p, trail)) => {
            assert_eq!(p, 0);
            assert!(matches!(trail.last(), Some(Ctx::Label(Label::Component))));
        },
        other => panic!("unexpected {:?}", other),
    }
}

#[test]
fn a_used_component_is_called() {
    let s = chars("<Card title=\"x\" />");
    let mut ctx = Context::new(vec![UseDirective::new(
        "Card".to_string(),
        "Card.rs.html".to_string(),
        "Card_b9139f52c8c5a0d5".to_string(),
    )]);
    let (end, code) = template(&s, &mut ctx, Flavor::File).unwrap();
    assert_eq!(end, s.len());
    let shown = show(&code);
    assert!(shown.contains(&"call:Card_b9139f52c8c5a0d5:title".to_string()), "{:?}", shown);
}

#[test]
fn the_macro_grammar_fails_at_a_lone_at() {
    let s = chars("a @ b");
    let mut ctx = Context::empty();
    match template(&s, &mut ctx, Flavor::Macro) {
        Err(PErr::Cut(p, trail)) => {
            assert_eq!(p, 2);
            assert!(matches!(trail.last(), Some(Ctx::Expected(Expect::EndOfFile))));
        },
        other => panic!("unexpected {:?}", other),
    }
}

#[test]
fn inline_statements_check_their_heads_together() {
    let s = chars("if x {a}else {b} tail");
    let mut ctx = Context::empty();
    let (end, code) = rust_stmt(&s, 0, &mut ctx).unwrap();
    assert_eq!(end, 16);
    assert_eq!(
        show(&code),
        vec!["code:if x ", "{", "write:a", "}", "code:else", "{", "write:b", "}"]
    );
    assert_eq!(rust_stmt_head(&chars("else if y {"), 0), Some(10));
    assert_eq!(rust_stmt_head(&chars("for {"), 0), None);
    assert_eq!(rust_stmt_head(&chars("elsewhere"), 0), Some(4));

    let bad = chars("if ) {a}");
    let mut ctx2 = Context::empty();
    assert!(matches!(rust_stmt(&bad, 0, &mut ctx2), Err(PErr::Cut(0, _))));
    let none = chars("x {a}");
    let mut ctx3 = Context::empty();
    assert!(matches!(rust_stmt(&none, 0, &mut ctx3), Err(PErr::Back)));
}

#[test]
fn leading_whitespace_is_skipped_by_the_file_grammar_only() {
    let (file, size) = run("  <p>x</p>", Flavor::File);
    assert_eq!(file, vec!["write:<p>x</p>"]);
    assert_eq!(size, 8);
    let (inline, size2) = run("  <p>x</p>", Flavor::Macro);
    assert_eq!(inline, vec!["write:  <p>x</p>"]);
    assert_eq!(size2, 10);
}

fn written(v: &[Frag]) -> usize {
    v.iter()
        .map(|f| match f {
            Frag::Write(t) => t.chars().count(),
            _ => 0,
        })
        .sum()
}

#[test]
fn the_text_size_is_the_text_written() {
    let sources = [
        "<p>@name</p> and @@ more",
        "@if a { x } else if b { yy } else { zzz }",
        "@for i in v { <li>@i</li> }",
        "<Card title=\"t\" body={ <b>bold</b> }>child</Card>",
        "\n  @(n: u8)\ntext",
    ];
    for src in sources {
        let s = chars(src);
        let mut ctx = Context::new(vec![UseDirective::new(
            "Card".to_string(),
            "Card.rs.html".to_string(),
            "Card_1".to_string(),
        )]);
        let (_, code) = template(&s, &mut ctx, Flavor::File).unwrap();
        assert_eq!(ctx.text_size(), written(&code), "{src}");
    }
}

fn cut_of(src: &str, ctx: &mut Context) -> (usize, String) {
    let s = chars(src);
    match template(&s, ctx, Flavor::File) {
        Err(PErr::Cut(p, trail)) => (p, rshtml_core::diagnostics::error_message(&trail)),
        other => panic!("unexpected {:?}", other),
    }
}

fn card_ctx() -> Context {
    Context::new(vec![UseDirective::new("Card".to_string(), "Card.rs.html".to_string(), "Card_1".to_string())])
}

#[test]
fn syntax_errors_are_committed_where_they_are() {
    let (p, msg) = cut_of("x @(a +)", &mut Context::empty());
    assert_eq!(p, 3);
    assert_eq!(msg, "in parenthesized expression: invalid expression");

    let (p, msg) = cut_of("@{ let = ; }", &mut Context::empty());
    assert_eq!(p, 7);
    assert!(msg.starts_with("in code block: "), "{msg}");

    let (p, msg) = cut_of("@(x: 1 +)\n", &mut Context::empty());
    assert!(p <= 10);
    assert!(msg.starts_with("in template parameters"), "{msg}");

    let (p, msg) = cut_of("<Card fn=true/>", &mut card_ctx());
    assert_eq!(p, 6);
    assert!(msg.starts_with("in component: "), "{msg}");

    let (p, msg) = cut_of("<Card t=\"\\q\"/>", &mut card_ctx());
    assert_eq!(p, 8);
    assert_eq!(msg, "in component: cannot parse string into token stream");
}

#[test]
fn a_block_error_counts_bytes_before_its_column() {
    let (p, msg) = cut_of("@{ é; let = ; }", &mut Context::empty());
    assert_eq!(p, 9);
    assert!(msg.starts_with("in code block: "), "{msg}");
}

#[test]
fn a_file_template_with_every_directive_compiles() {
    let src = "@(title: String, items: Vec<String>)\n@use \"Card.rs.html\" as Card\n<h1>@title</h1>\n@{ let n = items.len(); }\n@if n > 0 {\n  @for item in items {\n    @if item.is_empty() { @continue } else if item == \"stop\" { @break } else { <li>@item</li> }\n  }\n} else {\n  <p>@(n + 1) @#title</p>\n}\n<Card title=\"x\" count=2 ok=true body={ <b>@title</b> }>@child_content</Card>\n";
    let s = chars(src);
    let mut ctx = Context::empty();
    let r = template(&s, &mut ctx, Flavor::File);
    assert!(r.is_ok(), "{:?}", r.err());
    assert_eq!(ctx.template_params().len(), 2);
}
