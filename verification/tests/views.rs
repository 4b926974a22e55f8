use rshtml_core::compile::compile;
use rshtml_core::context::Context;
use rshtml_core::tokens::{compile as compile_tokens, tok_string, Delim, Tok};
use rshtml_core::view_file::{compile as compile_view, view_error_message, ViewError, ViewPiece};

fn pieces(v: &[ViewPiece]) -> Vec<String> {
    v.iter()
        .map(|p| match p {
            ViewPiece::Write(t) => format!("write:{t}"),
            ViewPiece::Render(n) => format!("render:{n}"),
        })
        .collect()
}

#[test]
fn a_view_file_binds_each_block() {
    let c = compile_view("Hello @{ 1 + 1 } world").unwrap();
    assert_eq!(c.defs, vec![("_exp6".to_string(), "{ 1 + 1 }".to_string())]);
    assert_eq!(pieces(&c.body), vec!["write:Hello ", "render:_exp6", "write: world"]);
    assert_eq!(c.text_size, 12);
}

#[test]
fn view_file_errors() {
    assert_eq!(compile_view("").err(), Some(ViewError::NoContent));
    assert_eq!(compile_view("@{ x").err(), Some(ViewError::UnclosedBlock));
    assert_eq!(compile_view("@{ ( }").err(), Some(ViewError::LexError));
    assert_eq!(view_error_message(ViewError::NoContent), "compile error: text or rust block");
    assert_eq!(view_error_message(ViewError::NotAtEnd), "compile error: end of file");
}

#[test]
fn a_lone_at_in_a_view_file_is_text() {
    let c = compile_view("a@b").unwrap();
    assert!(c.defs.is_empty());
    assert_eq!(c.text_size, 3);
}

fn ident(s: &str) -> Tok {
    Tok::Ident(s.to_string())
}

#[test]
fn view_tokens_join_text_with_spaces() {
    let toks = vec![
        Tok::Punct('<'),
        ident("div"),
        Tok::Punct('>'),
        ident("Hello"),
        ident("world"),
        Tok::Punct('<'),
        Tok::Punct('/'),
        ident("div"),
        Tok::Punct('>'),
    ];
    let c = compile_tokens(&toks);
    assert!(c.defs.is_empty());
    assert_eq!(pieces(&c.body), vec!["write:<div> Hello world </div>"]);
    assert_eq!(c.text_size, 22);
}

#[test]
fn view_tokens_bind_brace_groups() {
    let toks = vec![
        ident("a"),
        Tok::Group {
            delim: Delim::Brace,
            inner: vec![ident("x")],
            text: "{ x }".to_string(),
            stream: "x".to_string(),
        },
        ident("b"),
    ];
    let c = compile_tokens(&toks);
    assert_eq!(c.defs, vec![("_exp1".to_string(), "(x)".to_string())]);
    assert_eq!(pieces(&c.body), vec!["write:a ", "render:_exp1", "write: b"]);
    assert_eq!(c.text_size, 2);
    assert_eq!(tok_string(&Tok::Punct('<')), "<");
    assert_eq!(tok_string(&toks[1]), "{ x }");
}

#[test]
fn the_inline_macro_compiles_a_template() {
    let (t, ctx) = compile("views/home.rs.html", "@(name: String)\nHi @(name)", Context::empty());
    assert_eq!(t.fn_name, "home_600e3c8a6e5a3aa1");
    assert_eq!(t.args, vec!["name".to_string()]);
    assert!(t.body.is_ok());
    let (bad, _) = compile("views/home.rs.html", "Hi @name", Context::empty());
    assert!(bad.body.is_err());
    assert_eq!(ctx.fn_name(), "home_600e3c8a6e5a3aa1");
}

#[test]
fn the_inline_macro_reports_where_it_failed() {
    let (t, _) = compile("x.rs.html", "a @ b", Context::empty());
    assert_eq!(t.body.err(), Some("\"expected `end of file`\"\n --> line 1, col 3\na @ b\n  ^".to_string()));
}

fn p(c: char) -> Tok {
    Tok::Punct(c)
}

fn lit(s: &str) -> Tok {
    Tok::Literal(s.to_string())
}

#[test]
fn view_tokens_keep_entities_doctypes_and_comments() {
    let c = compile_tokens(&vec![p('&'), ident("nbsp"), p(';'), ident("x")]);
    assert_eq!(pieces(&c.body), vec!["write:&nbsp; x"]);
    assert_eq!(c.text_size, 8);

    let c = compile_tokens(&vec![p('&'), p('#'), lit("123"), p(';')]);
    assert_eq!(pieces(&c.body), vec!["write:&#123;"]);

    let c = compile_tokens(&vec![p('<'), p('!'), ident("DOCTYPE"), ident("html"), p('>')]);
    assert_eq!(pieces(&c.body), vec!["write:<!DOCTYPE html>"]);
    assert_eq!(c.text_size, 15);

    let c = compile_tokens(&vec![p('<'), p('!'), p('-'), p('-'), ident("hi"), p('-'), p('-'), p('>')]);
    assert_eq!(pieces(&c.body), vec!["write:<!-- hi -->"]);
    assert_eq!(c.text_size, 9);
}

#[test]
fn view_tokens_bind_attribute_values() {
    let toks = vec![
        p('<'),
        ident("a"),
        ident("href"),
        p('='),
        Tok::Group {
            delim: Delim::Brace,
            inner: vec![ident("x")],
            text: "{ x }".to_string(),
            stream: "x".to_string(),
        },
        p('>'),
    ];
    let c = compile_tokens(&toks);
    assert_eq!(c.defs, vec![("_exp1".to_string(), "(x)".to_string())]);
    assert_eq!(pieces(&c.body), vec!["write:<a href= ", "render:_exp1", "write: >"]);
    assert_eq!(c.text_size, 8);
}

#[test]
fn a_plain_view_file_is_one_write() {
    let c = compile_view("plain text\n").unwrap();
    assert!(c.defs.is_empty());
    assert_eq!(pieces(&c.body), vec!["write:plain text\n"]);
    assert_eq!(c.text_size, 11);
}

#[test]
fn view_tokens_bind_a_block_that_is_no_expression_in_braces() {
    let toks = vec![Tok::Group {
        delim: Delim::Brace,
        inner: vec![],
        text: "{ let a = 1 ; a }".to_string(),
        stream: "let a = 1 ; a".to_string(),
    }];
    let c = compile_tokens(&toks);
    assert_eq!(c.defs, vec![("_exp0".to_string(), "{let a = 1 ; a}".to_string())]);
    assert_eq!(pieces(&c.body), vec!["render:_exp0"]);
}

#[test]
fn an_inline_template_with_every_directive_compiles() {
    let src = "@(name: String, n)\n<p>@(name)</p>\n@use \"Card.rs.html\" as Card;\n@child_content()\n@continue\n@break\n@#(n)\n";
    let (t, ctx) = compile("views/all.rs.html", src, Context::empty());
    assert!(t.body.is_ok(), "{:?}", t.body.err());
    assert_eq!(t.args, vec!["n".to_string(), "name".to_string()]);
    assert_eq!(ctx.use_directives().len(), 1);
}
