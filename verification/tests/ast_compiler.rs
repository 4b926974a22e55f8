use rshtml_core::ast::{
    compile_ast, Compiler, Emit, ExtendsDirectiveCompiler, Node, RenderBodyCompiler,
    RenderDirectiveCompiler, RustBlockCompiler, RustBlockContent, RustExprCompiler,
    RustExprParenCompiler, SectionDirectiveCompiler, SectionDirectiveContent, TextItem,
    UseDirectiveCompiler,
};

fn show(v: &[Emit]) -> Vec<String> {
    v.iter()
        .map(|e| match e {
            Emit::WriteText(t) => format!("text:{t}"),
            Emit::WriteExpr(x) => format!("expr:{x}"),
            Emit::Code(c) => format!("code:{c}"),
            Emit::Semi => ";".to_string(),
            Emit::Open => "{".to_string(),
            Emit::Close => "}".to_string(),
        })
        .collect()
}

#[test]
fn text_and_expressions_are_written_each_followed_by_a_semicolon() {
    let mut c = Compiler::new();
    let out = c.compile(Node::Template(vec![
        Node::Text("Hi ".to_string()),
        Node::RustExprSimple("name".to_string()),
        Node::RustExprParen("a + b".to_string()),
        Node::Raw("<b>".to_string()),
    ]));
    assert_eq!(show(&out), vec!["text:Hi ", ";", "expr:name", ";", "expr:a + b", ";", "text:<b>", ";"]);
}

#[test]
fn statements_wrap_their_bodies_in_braces() {
    let mut c = Compiler::new();
    let out = c.compile(Node::RustExpr(vec![
        ("if x".to_string(), vec![Node::Text("a".to_string())]),
        ("else".to_string(), vec![]),
    ]));
    assert_eq!(show(&out), vec!["code:if x", "{", "text:a", ";", ";", "}", "code:else", "{", ";", "}"]);
}

#[test]
fn code_blocks_keep_code_and_write_text_lines() {
    let out = RustBlockCompiler::compile(
        &mut Compiler::new(),
        vec![
            RustBlockContent::Code("let x = 1;".to_string()),
            RustBlockContent::TextLine(vec![
                TextItem::Text("x is ".to_string()),
                TextItem::RustExprSimple("x".to_string()),
            ]),
            RustBlockContent::NestedBlock(vec![RustBlockContent::Code("y();".to_string())]),
        ],
    );
    assert_eq!(
        show(&out),
        vec!["code:let x = 1;", "text:x is ", ";", "expr:x", ";", "{", "code:y();", "}"]
    );
}

#[test]
fn directives_without_code_give_nothing() {
    let mut c = Compiler::new();
    assert!(RenderDirectiveCompiler::compile(&mut c, "title").is_empty());
    assert!(RenderBodyCompiler::compile(&mut c).is_empty());
    assert!(ExtendsDirectiveCompiler::compile(&mut c, "layout.rs.html".to_string(), Node::Template(vec![])).is_empty());
    assert!(SectionDirectiveCompiler::compile(
        &mut c,
        "title".to_string(),
        SectionDirectiveContent::Text("Home".to_string())
    )
    .is_empty());
    assert!(UseDirectiveCompiler::compile(
        &mut c,
        "Card".to_string(),
        "card.rs.html".to_string(),
        Node::Template(vec![])
    )
    .is_empty());
    assert!(c.compile(Node::Comment("x".to_string())).is_empty());
    assert!(c.compile(Node::ChildContent).is_empty());
    assert_eq!(show(&RustExprParenCompiler::compile("a")), vec!["expr:a"]);
}

#[test]
fn the_standalone_compiler_leaves_comments_out() {
    let out = compile_ast(Node::Template(vec![
        Node::Comment("<!-- c -->".to_string()),
        Node::RustExprParen("p".to_string()),
        Node::RustExpr(vec![("for i in v".to_string(), vec![Node::RustExprSimple("i".to_string())])]),
    ]));
    assert_eq!(
        show(&out),
        vec![";", ";", "code:for i in v", "{", "expr:i", ";", ";", "}", ";"]
    );
    let direct = RustExprCompiler::compile(vec![("while b".to_string(), vec![])]);
    assert_eq!(show(&direct), vec!["code:while b", "{", ";", "}"]);
}

#[test]
fn sections_are_rendered_where_a_layout_asks_for_them() {
    let mut c = Compiler::new();
    let page = c.compile(Node::Template(vec![
        Node::SectionDirective("title".to_string(), SectionDirectiveContent::Text("Home".to_string())),
        Node::SectionDirective("who".to_string(), SectionDirectiveContent::RustExprSimple("user".to_string())),
        Node::SectionDirective("title".to_string(), SectionDirectiveContent::Text("Start".to_string())),
    ]));
    assert_eq!(show(&page), vec![";", ";", ";"]);
    assert_eq!(show(&RenderDirectiveCompiler::compile(&mut c, "title")), vec!["text:Start"]);
    assert_eq!(show(&RenderDirectiveCompiler::compile(&mut c, "who")), vec!["expr:user"]);
    assert!(RenderDirectiveCompiler::compile(&mut c, "missing").is_empty());
    let layout = c.compile(Node::Template(vec![
        Node::RenderDirective("title".to_string()),
        Node::RenderBody,
        Node::Comment("hidden".to_string()),
    ]));
    assert_eq!(show(&layout), vec!["text:Start", ";", ";", ";"]);
}
