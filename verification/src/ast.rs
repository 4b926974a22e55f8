//! The compilers of parsed templates: a template given as a tree of nodes
//! becomes the code of its rendering function, and the directives that
//! produce no code record what they declare (components, layout, sections)
//! in the compiler.
use vstd::prelude::*;
use crate::text::same_text;

verus! {

/// A piece of text inside a code block: literal text, or an expression
/// rendered in place.
pub enum TextItem {
    Text(String),
    RustExprSimple(String),
}

/// The content of a code block.
pub enum RustBlockContent {
    /// Rust code.
    Code(String),
    /// A `@:` line of text.
    TextLine(Vec<TextItem>),
    /// A `<text>` block.
    TextBlock(Vec<TextItem>),
    /// A nested `{ ... }` block.
    NestedBlock(Vec<RustBlockContent>),
}

/// The content of a section given in one line: text or an expression.
pub enum SectionDirectiveContent {
    Text(String),
    RustExprSimple(String),
}

/// A parsed template.
pub enum Node {
    Template(Vec<Node>),
    Text(String),
    InnerText(String),
    /// A server-side comment; it never appears in the output.
    Comment(String),
    /// `@extends("path")` with the parsed layout.
    ExtendsDirective(String, Box<Node>),
    RenderDirective(String),
    RustBlock(Vec<RustBlockContent>),
    RustExprSimple(String),
    RustExprParen(String),
    /// `if ... { } else { }`, `for ... { }`: heads with their bodies.
    RustExpr(Vec<(String, Vec<Node>)>),
    SectionDirective(String, SectionDirectiveContent),
    SectionBlock(String, Vec<Node>),
    RenderBody,
    Component(String, Vec<Node>),
    ChildContent,
    Raw(String),
    /// `@use "path" as Name` with the parsed component.
    UseDirective(String, String, Box<Node>),
}

/// A piece of the code a template compiles to.
#[derive(Debug)]
pub enum Emit {
    /// `write!(f, "{}", "text")?`
    WriteText(String),
    /// `write!(f, "{}", expr)?`
    WriteExpr(String),
    /// Rust code given as text.
    Code(String),
    /// `;`
    Semi,
    /// `{`
    Open,
    /// `}`
    Close,
}

pub enum EmitV {
    WriteText(Seq<char>),
    WriteExpr(Seq<char>),
    Code(Seq<char>),
    Semi,
    Open,
    Close,
}

impl DeepView for Emit {
    type V = EmitV;

    open spec fn deep_view(&self) -> EmitV {
        match self {
            Emit::WriteText(t) => EmitV::WriteText(t@),
            Emit::WriteExpr(e) => EmitV::WriteExpr(e@),
            Emit::Code(c) => EmitV::Code(c@),
            Emit::Semi => EmitV::Semi,
            Emit::Open => EmitV::Open,
            Emit::Close => EmitV::Close,
        }
    }
}

/// What the compiler records: the imported components (name and path, and
/// by name the parsed component), the layout, the body a layout renders,
/// and the sections by name.
pub struct Compiler {
    use_directives: Vec<(String, String)>,
    components: Vec<(String, Node)>,
    layout_directive: String,
    layout: Option<Node>,
    section_body: Option<Vec<Emit>>,
    sections: Vec<(String, Vec<Emit>)>,
}

/// The compiler's records as values.
pub struct CompilerV {
    pub use_directives: Seq<(Seq<char>, Seq<char>)>,
    pub components: Seq<(Seq<char>, Node)>,
    pub layout_directive: Seq<char>,
    pub layout: Option<Node>,
    pub section_body: Option<Seq<EmitV>>,
    pub sections: Seq<(Seq<char>, Seq<EmitV>)>,
}

/// Entries keyed by text, as values.
pub open spec fn components_view(v: Seq<(String, Node)>) -> Seq<(Seq<char>, Node)> {
    Seq::new(v.len(), |i: int| (v[i].0@, v[i].1))
}

impl Compiler {
    pub closed spec fn records(&self) -> CompilerV {
        CompilerV {
            use_directives: self.use_directives.deep_view(),
            components: components_view(self.components@),
            layout_directive: self.layout_directive@,
            layout: self.layout,
            section_body: match self.section_body {
                Some(b) => Some(b.deep_view()),
                None => None,
            },
            sections: self.sections.deep_view(),
        }
    }
}

/// The index of the first entry from `i` on with key `k`, if any.
pub open spec fn key_index<V>(m: Seq<(Seq<char>, V)>, k: Seq<char>, i: int) -> Option<int>
    decreases m.len() - i,
{
    if i < 0 || i >= m.len() {
        None
    } else if m[i].0 == k {
        Some(i)
    } else {
        key_index(m, k, i + 1)
    }
}

/// `m` with `k` mapped to `v` (as `HashMap::insert`): the entry with key
/// `k` replaced, or a new entry at the end.
pub open spec fn put<V>(m: Seq<(Seq<char>, V)>, k: Seq<char>, v: V) -> Seq<(Seq<char>, V)> {
    match key_index(m, k, 0) {
        Some(i) => m.update(i, (k, v)),
        None => m.push((k, v)),
    }
}

/// No two entries of `m` share a key.
pub open spec fn unique_keys<V>(m: Seq<(Seq<char>, V)>) -> bool {
    forall|i: int, j: int| 0 <= i < j < m.len() ==> m[i].0 != m[j].0
}

/// The value recorded under `k` (the first entry with that key), if any.
pub open spec fn lookup<V>(m: Seq<(Seq<char>, V)>, k: Seq<char>) -> Option<V> {
    match key_index(m, k, 0) {
        Some(i) => Some(m[i].1),
        None => None,
    }
}

/// `key_index` finds the first entry from `i` on with key `k`.
proof fn lemma_key_index<V>(m: Seq<(Seq<char>, V)>, k: Seq<char>, i: int)
    requires
        0 <= i,
    ensures
        match key_index(m, k, i) {
            Some(j) => i <= j < m.len() && m[j].0 == k && forall|l: int|
                i <= l < j ==> #[trigger] m[l].0 != k,
            None => forall|l: int| i <= l < m.len() ==> #[trigger] m[l].0 != k,
        },
    decreases m.len() - i,
{
    if i < m.len() && m[i].0 != k {
        lemma_key_index(m, k, i + 1);
    }
}

/// Two maps with the same keys, position by position, find a key at the
/// same index.
proof fn lemma_same_keys<V>(a: Seq<(Seq<char>, V)>, b: Seq<(Seq<char>, V)>, k: Seq<char>)
    requires
        a.len() <= b.len(),
        forall|l: int| 0 <= l < a.len() ==> #[trigger] a[l].0 == b[l].0,
        forall|l: int| a.len() <= l < b.len() ==> #[trigger] b[l].0 != k,
    ensures
        key_index(a, k, 0) == key_index(b, k, 0),
{
    lemma_key_index(a, k, 0);
    lemma_key_index(b, k, 0);
    match key_index(a, k, 0) {
        Some(j) => {
            assert(b[j].0 == k);
            match key_index(b, k, 0) {
                Some(j2) => {
                    if j2 < j {
                        assert(a[j2].0 == b[j2].0);
                    }
                },
                None => {},
            }
        },
        None => {
            match key_index(b, k, 0) {
                Some(j2) => {
                    if j2 < a.len() {
                        assert(a[j2].0 == b[j2].0);
                    }
                },
                None => {},
            }
        },
    }
}

/// What is put under a key is found under it; every other key keeps what
/// it had; and a map whose keys are distinct keeps them distinct (a
/// `HashMap::insert` followed by `get`).
pub proof fn put_then_lookup<V>(m: Seq<(Seq<char>, V)>, k: Seq<char>, v: V, k2: Seq<char>)
    ensures
        lookup(put(m, k, v), k) == Some(v),
        k2 != k ==> lookup(put(m, k, v), k2) == lookup(m, k2),
        unique_keys(m) ==> unique_keys(put(m, k, v)),
{
    lemma_key_index(m, k, 0);
    let p = put(m, k, v);
    match key_index(m, k, 0) {
        Some(i) => {
            assert forall|l: int| 0 <= l < m.len() implies #[trigger] m[l].0 == p[l].0 by {
                if l == i {
                    assert(p[l] == (k, v));
                }
            }
            lemma_same_keys(m, p, k);
            assert(p[i] == (k, v));
            assert(key_index(p, k, 0) == Some(i));
            assert(lookup(p, k) == Some(v));
            lemma_same_keys(m, p, k2);
            lemma_key_index(m, k2, 0);
        },
        None => {
            assert forall|l: int| 0 <= l < m.len() implies #[trigger] m[l].0 == p[l].0 by {}
            assert(p[m.len() as int] == (k, v));
            lemma_key_index(p, k, 0);
            match key_index(p, k, 0) {
                Some(j) => {
                    if j < m.len() {
                        assert(m[j].0 == p[j].0);
                    }
                },
                None => {
                    assert(p[m.len() as int].0 == k);
                },
            }
            assert(key_index(p, k, 0) == Some(m.len() as int));
            assert(lookup(p, k) == Some(v));
            if k2 != k {
                assert forall|l: int| m.len() <= l < p.len() implies #[trigger] p[l].0 != k2 by {
                    assert(l == m.len());
                }
                lemma_same_keys(m, p, k2);
                lemma_key_index(m, k2, 0);
            }
        },
    }
}

/// The code of a text item in a code block: written, then `;`.
pub open spec fn item_code(it: TextItem) -> Seq<EmitV> {
    match it {
        TextItem::Text(t) => seq![EmitV::WriteText(t@), EmitV::Semi],
        TextItem::RustExprSimple(e) => seq![EmitV::WriteExpr(e@), EmitV::Semi],
    }
}

/// The code of text items in a code block.
pub open spec fn items_code(items: Seq<TextItem>) -> Seq<EmitV>
    decreases items.len(),
{
    if items.len() == 0 {
        Seq::empty()
    } else {
        item_code(items[0]) + items_code(items.drop_first())
    }
}

/// The code of a code block's contents: code as it is, text lines and
/// blocks written, nested blocks in braces.
pub open spec fn block_code(cs: Seq<RustBlockContent>) -> Seq<EmitV>
    decreases cs,
{
    if cs.len() == 0 {
        Seq::empty()
    } else {
        proof {
            assert(decreases_to!(cs => cs[0]));
            assert(decreases_to!(cs => cs.subrange(1, cs.len() as int)));
        }
        let first = match cs[0] {
            RustBlockContent::Code(code) => seq![EmitV::Code(code@)],
            RustBlockContent::TextLine(items) => items_code(items@),
            RustBlockContent::TextBlock(items) => items_code(items@),
            RustBlockContent::NestedBlock(nested) => seq![EmitV::Open] + block_code(nested@)
                + seq![EmitV::Close],
        };
        first + block_code(cs.subrange(1, cs.len() as int))
    }
}

/// The code of a node, and the compiler's records after it: text written,
/// expressions rendered, code blocks and statements compiled; `@use`,
/// `@extends` and one-line `@section`s recorded; `@render("name")` gives
/// the code recorded for that section and `@render_body` the recorded body;
/// other nodes (comments among them) give no code.
pub open spec fn compile_node(c: CompilerV, n: Node) -> (Seq<EmitV>, CompilerV)
    decreases n, 0int,
{
    match n {
        Node::Template(v) => compile_seq(c, v@),
        Node::Text(t) => (seq![EmitV::WriteText(t@)], c),
        Node::InnerText(t) => (seq![EmitV::WriteText(t@)], c),
        Node::Raw(t) => (seq![EmitV::WriteText(t@)], c),
        Node::RustExprSimple(e) => (seq![EmitV::WriteExpr(e@)], c),
        Node::RustExprParen(e) => (seq![EmitV::WriteExpr(e@)], c),
        Node::RustBlock(cs) => (block_code(cs@), c),
        Node::RustExpr(es) => compile_heads(c, es@),
        Node::UseDirective(name, path, comp) => (
            Seq::empty(),
            CompilerV {
                use_directives: c.use_directives.push((name@, path@)),
                components: put(c.components, name@, *comp),
                ..c
            },
        ),
        Node::ExtendsDirective(path, layout) => (
            Seq::empty(),
            CompilerV { layout_directive: path@, layout: Some(*layout), ..c },
        ),
        Node::SectionDirective(name, content) => (
            Seq::empty(),
            CompilerV { sections: put(c.sections, name@, section_code(content)), ..c },
        ),
        Node::RenderDirective(name) => (section_or_nothing(c.sections, name@), c),
        Node::RenderBody => (
            match c.section_body {
                Some(b) => b,
                None => Seq::empty(),
            },
            c,
        ),
        _ => (Seq::empty(), c),
    }
}

/// The code recorded for the section `name`, or none.
pub open spec fn section_or_nothing(m: Seq<(Seq<char>, Seq<EmitV>)>, name: Seq<char>) -> Seq<
    EmitV,
> {
    match lookup(m, name) {
        Some(code) => code,
        None => Seq::empty(),
    }
}

/// The code of nodes, each followed by `;`.
pub open spec fn compile_seq(c: CompilerV, ns: Seq<Node>) -> (Seq<EmitV>, CompilerV)
    decreases ns, 1int,
{
    if ns.len() == 0 {
        (Seq::empty(), c)
    } else {
        proof {
            assert(decreases_to!(ns => ns[0]));
            assert(decreases_to!(ns => ns.subrange(1, ns.len() as int)));
        }
        let (a, c1) = compile_node(c, ns[0]);
        let (b, c2) = compile_seq(c1, ns.subrange(1, ns.len() as int));
        (a + seq![EmitV::Semi] + b, c2)
    }
}

/// The code of statement heads with their bodies: each head, then its body
/// in braces.
pub open spec fn compile_heads(c: CompilerV, es: Seq<(String, Vec<Node>)>) -> (
    Seq<EmitV>,
    CompilerV,
)
    decreases es, 1int,
{
    if es.len() == 0 {
        (Seq::empty(), c)
    } else {
        proof {
            assert(decreases_to!(es => es[0]));
            assert(decreases_to!(es => es.subrange(1, es.len() as int)));
        }
        let (inner, c1) = compile_seq(c, es[0].1@);
        let (rest, c2) = compile_heads(c1, es.subrange(1, es.len() as int));
        (
            seq![EmitV::Code(es[0].0@), EmitV::Open] + inner + seq![EmitV::Semi, EmitV::Close]
                + rest,
            c2,
        )
    }
}

/// The code of a node as the stand-alone compiler makes it: text written,
/// simple expressions rendered, statements compiled; other nodes (comments
/// among them, which never reach the output) give no code.
pub open spec fn ast_code(n: Node) -> Seq<EmitV>
    decreases n, 0int,
{
    match n {
        Node::Template(v) => ast_seq(v@),
        Node::Text(t) => seq![EmitV::WriteText(t@)],
        Node::InnerText(t) => seq![EmitV::WriteText(t@)],
        Node::Raw(t) => seq![EmitV::WriteText(t@)],
        Node::RustExprSimple(e) => seq![EmitV::WriteExpr(e@)],
        Node::RustExpr(es) => ast_heads(es@),
        _ => Seq::empty(),
    }
}

pub open spec fn ast_seq(ns: Seq<Node>) -> Seq<EmitV>
    decreases ns, 1int,
{
    if ns.len() == 0 {
        Seq::empty()
    } else {
        proof {
            assert(decreases_to!(ns => ns[0]));
            assert(decreases_to!(ns => ns.subrange(1, ns.len() as int)));
        }
        ast_code(ns[0]) + seq![EmitV::Semi] + ast_seq(ns.subrange(1, ns.len() as int))
    }
}

pub open spec fn ast_heads(es: Seq<(String, Vec<Node>)>) -> Seq<EmitV>
    decreases es, 1int,
{
    if es.len() == 0 {
        Seq::empty()
    } else {
        proof {
            assert(decreases_to!(es => es[0]));
            assert(decreases_to!(es => es.subrange(1, es.len() as int)));
        }
        seq![EmitV::Code(es[0].0@), EmitV::Open] + ast_seq(es[0].1@) + seq![
            EmitV::Semi,
            EmitV::Close,
        ] + ast_heads(es.subrange(1, es.len() as int))
    }
}

/// The text a node writes as it stands: text, inner text and raw text.
pub open spec fn plain_text_of(n: Node) -> Option<Seq<char>> {
    match n {
        Node::Text(t) => Some(t@),
        Node::InnerText(t) => Some(t@),
        Node::Raw(t) => Some(t@),
        _ => None,
    }
}

/// The texts that code writes literally, in order.
pub open spec fn written_texts(e: Seq<EmitV>) -> Seq<Seq<char>>
    decreases e.len(),
{
    if e.len() == 0 {
        Seq::empty()
    } else {
        (match e[0] {
            EmitV::WriteText(t) => seq![t],
            _ => Seq::empty(),
        }) + written_texts(e.drop_first())
    }
}

proof fn lemma_written_texts_concat(a: Seq<EmitV>, b: Seq<EmitV>)
    ensures
        written_texts(a + b) == written_texts(a) + written_texts(b),
    decreases a.len(),
{
    if a.len() == 0 {
        assert(a + b =~= b);
        assert(written_texts(a) =~= Seq::<Seq<char>>::empty());
        assert(Seq::<Seq<char>>::empty() + written_texts(b) =~= written_texts(b));
    } else {
        assert((a + b).drop_first() =~= a.drop_first() + b);
        assert((a + b)[0] == a[0]);
        lemma_written_texts_concat(a.drop_first(), b);
        let h = match a[0] {
            EmitV::WriteText(t) => seq![t],
            _ => Seq::<Seq<char>>::empty(),
        };
        assert(h + (written_texts(a.drop_first()) + written_texts(b)) =~= (h + written_texts(
            a.drop_first(),
        )) + written_texts(b));
    }
}

proof fn lemma_write_then_semi(t: Seq<char>)
    ensures
        written_texts(seq![EmitV::WriteText(t)] + seq![EmitV::Semi]) == seq![t],
{
    let e = seq![EmitV::WriteText(t)] + seq![EmitV::Semi];
    assert(e[0] == EmitV::WriteText(t));
    assert(e.drop_first() =~= seq![EmitV::Semi]);
    let f = seq![EmitV::Semi];
    assert(f.drop_first() =~= Seq::<EmitV>::empty());
    assert(written_texts(Seq::<EmitV>::empty()) =~= Seq::<Seq<char>>::empty());
    assert(written_texts(f) =~= Seq::<Seq<char>>::empty());
    assert(seq![t] + Seq::<Seq<char>>::empty() =~= seq![t]);
}

/// The texts of plain text nodes.
pub open spec fn node_texts(ns: Seq<Node>) -> Seq<Seq<char>> {
    Seq::new(ns.len(), |i: int| plain_text_of(ns[i])->0)
}

proof fn lemma_text_seq(c: CompilerV, ns: Seq<Node>)
    requires
        forall|i: int| 0 <= i < ns.len() ==> plain_text_of(#[trigger] ns[i]) is Some,
    ensures
        written_texts(compile_seq(c, ns).0) == node_texts(ns),
        written_texts(ast_seq(ns)) == node_texts(ns),
        compile_seq(c, ns).1 == c,
    decreases ns.len(),
{
    if ns.len() == 0 {
        assert(written_texts(Seq::<EmitV>::empty()) =~= Seq::<Seq<char>>::empty());
        assert(node_texts(ns) =~= Seq::<Seq<char>>::empty());
    } else {
        let rest = ns.subrange(1, ns.len() as int);
        assert forall|i: int| 0 <= i < rest.len() implies plain_text_of(#[trigger] rest[i]) is Some by {
            assert(rest[i] == ns[i + 1]);
        }
        lemma_text_seq(c, rest);
        assert(plain_text_of(ns[0]) is Some);
        let t = plain_text_of(ns[0])->0;
        assert(compile_node(c, ns[0]) == (seq![EmitV::WriteText(t)], c));
        assert(ast_code(ns[0]) == seq![EmitV::WriteText(t)]);
        lemma_write_then_semi(t);
        lemma_written_texts_concat(
            seq![EmitV::WriteText(t)] + seq![EmitV::Semi],
            compile_seq(c, rest).0,
        );
        lemma_written_texts_concat(seq![EmitV::WriteText(t)] + seq![EmitV::Semi], ast_seq(rest));
        assert(node_texts(ns) =~= seq![t] + node_texts(rest)) by {
            assert forall|i: int| 0 <= i < node_texts(ns).len() implies node_texts(ns)[i] == (seq![t]
                + node_texts(rest))[i] by {
                if i > 0 {
                    assert(rest[i - 1] == ns[i]);
                }
            }
        }
    }
}

/// A template made of text nodes (text, inner text, raw text) compiles to
/// code that writes each node's text, in order, and records nothing; the
/// stand-alone compiler writes the same texts.
pub proof fn text_nodes_are_written_in_order(c: CompilerV, v: Vec<Node>)
    requires
        forall|i: int| 0 <= i < v@.len() ==> plain_text_of(#[trigger] v@[i]) is Some,
    ensures
        written_texts(compile_node(c, Node::Template(v)).0) == node_texts(v@),
        compile_node(c, Node::Template(v)).1 == c,
        written_texts(ast_code(Node::Template(v))) == node_texts(v@),
{
    lemma_text_seq(c, v@);
}

/// What a node that writes one thing writes: its text, or the value of its
/// expression.
pub open spec fn single_write(n: Node) -> Option<EmitV> {
    match n {
        Node::Text(t) => Some(EmitV::WriteText(t@)),
        Node::InnerText(t) => Some(EmitV::WriteText(t@)),
        Node::Raw(t) => Some(EmitV::WriteText(t@)),
        Node::RustExprSimple(e) => Some(EmitV::WriteExpr(e@)),
        Node::RustExprParen(e) => Some(EmitV::WriteExpr(e@)),
        _ => None,
    }
}

proof fn lemma_single_writes(c: CompilerV, ns: Seq<Node>)
    requires
        forall|i: int| 0 <= i < ns.len() ==> single_write(#[trigger] ns[i]) is Some,
    ensures
        compile_seq(c, ns).0.len() == 2 * ns.len(),
        forall|i: int|
            0 <= i < ns.len() ==> compile_seq(c, ns).0[2 * i] == single_write(#[trigger] ns[i])->0
                && compile_seq(c, ns).0[2 * i + 1] == EmitV::Semi,
        compile_seq(c, ns).1 == c,
    decreases ns.len(),
{
    if ns.len() > 0 {
        let rest = ns.subrange(1, ns.len() as int);
        assert forall|i: int| 0 <= i < rest.len() implies single_write(#[trigger] rest[i]) is Some by {
            assert(rest[i] == ns[i + 1]);
        }
        lemma_single_writes(c, rest);
        let w = single_write(ns[0])->0;
        assert(compile_node(c, ns[0]) == (seq![w], c));
        let code = compile_seq(c, ns).0;
        let tail = compile_seq(c, rest).0;
        assert(code == seq![w] + seq![EmitV::Semi] + tail);
        assert forall|i: int| 0 <= i < ns.len() implies code[2 * i] == single_write(
            #[trigger] ns[i],
        )->0 && code[2 * i + 1] == EmitV::Semi by {
            if i > 0 {
                assert(rest[i - 1] == ns[i]);
                assert(code[2 * i] == tail[2 * (i - 1)]);
                assert(code[2 * i + 1] == tail[2 * (i - 1) + 1]);
            }
        }
    }
}

/// A template of nodes that each write one thing (text, inner text, raw
/// text, or an expression) compiles to those writes in the nodes' order,
/// each followed by `;`, and records nothing.
pub proof fn single_writes_in_order(c: CompilerV, v: Vec<Node>)
    requires
        forall|i: int| 0 <= i < v@.len() ==> single_write(#[trigger] v@[i]) is Some,
    ensures
        compile_node(c, Node::Template(v)).0.len() == 2 * v@.len(),
        forall|i: int|
            0 <= i < v@.len() ==> compile_node(c, Node::Template(v)).0[2 * i] == single_write(
                #[trigger] v@[i],
            )->0 && compile_node(c, Node::Template(v)).0[2 * i + 1] == EmitV::Semi,
        compile_node(c, Node::Template(v)).1 == c,
{
    lemma_single_writes(c, v@);
}

fn append_emits(acc: &mut Vec<Emit>, more: Vec<Emit>)
    ensures
        final(acc).deep_view() == old(acc).deep_view() + more.deep_view(),
{
    let mut m = more;
    let ghost a = acc.deep_view();
    let ghost b = m.deep_view();
    acc.append(&mut m);
    assert(acc.deep_view() =~= a + b);
}

fn one(e: Emit) -> (r: Vec<Emit>)
    ensures
        r.deep_view() == seq![e.deep_view()],
{
    let ghost ev = e.deep_view();
    let r = vec![e];
    assert(r.deep_view() =~= seq![ev]);
    r
}

fn clone_emit(e: &Emit) -> (r: Emit)
    ensures
        r.deep_view() == e.deep_view(),
{
    match e {
        Emit::WriteText(t) => Emit::WriteText(t.clone()),
        Emit::WriteExpr(x) => Emit::WriteExpr(x.clone()),
        Emit::Code(c) => Emit::Code(c.clone()),
        Emit::Semi => Emit::Semi,
        Emit::Open => Emit::Open,
        Emit::Close => Emit::Close,
    }
}

fn clone_emits(v: &Vec<Emit>) -> (r: Vec<Emit>)
    ensures
        r.deep_view() == v.deep_view(),
{
    let mut r: Vec<Emit> = Vec::new();
    let mut i: usize = 0;
    while i < v.len()
        invariant
            i <= v@.len(),
            r.deep_view() == v.deep_view().subrange(0, i as int),
        decreases v@.len() - i,
    {
        let ghost before = r.deep_view();
        r.push(clone_emit(&v[i]));
        assert(r.deep_view() =~= v.deep_view().subrange(0, i + 1)) by {
            assert(r.deep_view() =~= before.push(v.deep_view()[i as int]));
        }
        i = i + 1;
    }
    assert(v.deep_view().subrange(0, v@.len() as int) =~= v.deep_view());
    r
}

/// The code of text items.
fn items_emits(items: Vec<TextItem>) -> (r: Vec<Emit>)
    ensures
        r.deep_view() == items_code(items@),
{
    let ghost all = items@;
    let mut rest = items;
    let mut out: Vec<Emit> = Vec::new();
    let ghost mut n: int = 0;
    assert(all.subrange(0, all.len() as int) =~= all);
    while rest.len() > 0
        invariant
            0 <= n <= all.len(),
            rest@ == all.subrange(n, all.len() as int),
            items_code(all) == out.deep_view() + items_code(all.subrange(n, all.len() as int)),
        decreases rest.len(),
    {
        let ghost before = rest@;
        let ghost o = out.deep_view();
        let it = rest.remove(0);
        proof {
            assert(before[0] == it);
            assert(rest@ =~= before.drop_first());
            assert(before.drop_first() =~= all.subrange(n + 1, all.len() as int));
        }
        let ghost first = item_code(it);
        match it {
            TextItem::Text(t) => {
                out.push(Emit::WriteText(t));
            },
            TextItem::RustExprSimple(e) => {
                out.push(Emit::WriteExpr(e));
            },
        }
        out.push(Emit::Semi);
        proof {
            assert(out.deep_view() =~= o + first);
            assert(o + (first + items_code(all.subrange(n + 1, all.len() as int))) =~= (o + first)
                + items_code(all.subrange(n + 1, all.len() as int)));
            n = n + 1;
        }
    }
    assert(out.deep_view() + Seq::<EmitV>::empty() =~= out.deep_view());
    out
}

/// The code of a code block's contents.
fn block_emits(cs: Vec<RustBlockContent>) -> (r: Vec<Emit>)
    ensures
        r.deep_view() == block_code(cs@),
    decreases cs@,
{
    if cs.len() == 0 {
        let r: Vec<Emit> = Vec::new();
        assert(r.deep_view() =~= Seq::<EmitV>::empty());
        return r;
    }
    let ghost all = cs@;
    let mut rest = cs;
    let c = rest.remove(0);
    proof {
        assert(all[0] == c);
        assert(rest@ =~= all.subrange(1, all.len() as int));
        assert(decreases_to!(all => all[0]));
        assert(decreases_to!(all => rest@));
    }
    let mut out = match c {
        RustBlockContent::Code(code) => one(Emit::Code(code)),
        RustBlockContent::TextLine(items) => items_emits(items),
        RustBlockContent::TextBlock(items) => items_emits(items),
        RustBlockContent::NestedBlock(nested) => {
            let mut v = one(Emit::Open);
            append_emits(&mut v, block_emits(nested));
            append_emits(&mut v, one(Emit::Close));
            v
        },
    };
    append_emits(&mut out, block_emits(rest));
    out
}

/// Compiles the contents of code blocks.
pub struct RustBlockCompiler;

impl RustBlockCompiler {
    /// The code of a code block: code as it is, `@:` lines and `<text>`
    /// blocks written piece by piece, nested blocks in braces. The compiler
    /// is not changed.
    pub fn compile(compiler: &mut Compiler, contents: Vec<RustBlockContent>) -> (r: Vec<Emit>)
        ensures
            r.deep_view() == block_code(contents@),
            final(compiler).records() == old(compiler).records(),
    {
        block_emits(contents)
    }
}

/// Compiles a parenthesised expression.
pub struct RustExprParenCompiler;

impl RustExprParenCompiler {
    /// Writes the value of the expression.
    pub fn compile(expr: &str) -> (r: Vec<Emit>)
        ensures
            r.deep_view() == seq![EmitV::WriteExpr(expr@)],
    {
        one(Emit::WriteExpr(expr.to_owned()))
    }
}

/// Compiles `@render("name")`.
pub struct RenderDirectiveCompiler;

impl RenderDirectiveCompiler {
    /// The code recorded for the section `name` (the first entry of that
    /// name), or none when no such section was recorded. The compiler is not
    /// changed.
    pub fn compile(compiler: &mut Compiler, name: &str) -> (r: Vec<Emit>)
        ensures
            r.deep_view() == section_or_nothing(old(compiler).records().sections, name@),
            final(compiler).records() == old(compiler).records(),
    {
        find_section(&compiler.sections, name)
    }
}

/// The code recorded under `name` in `m`, or none.
fn find_section(m: &Vec<(String, Vec<Emit>)>, name: &str) -> (r: Vec<Emit>)
    ensures
        r.deep_view() == section_or_nothing(m.deep_view(), name@),
{
    let mut i: usize = 0;
    while i < m.len()
        invariant
            i <= m@.len(),
            key_index(m.deep_view(), name@, i as int) == key_index(m.deep_view(), name@, 0),
        decreases m@.len() - i,
    {
        if same_text(m[i].0.as_str(), name) {
            assert(m.deep_view()[i as int].0 == m[i as int].0@);
            assert(m.deep_view()[i as int].1 == m[i as int].1.deep_view());
            return clone_emits(&m[i].1);
        }
        assert(m.deep_view()[i as int].0 == m[i as int].0@);
        i = i + 1;
    }
    let r: Vec<Emit> = Vec::new();
    assert(r.deep_view() =~= Seq::<EmitV>::empty());
    r
}

/// Compiles `@render_body`.
pub struct RenderBodyCompiler;

impl RenderBodyCompiler {
    /// The body recorded for the layout, or nothing.
    pub fn compile(compiler: &mut Compiler) -> (r: Vec<Emit>)
        ensures
            r.deep_view() == match old(compiler).records().section_body {
                Some(b) => b,
                None => Seq::<EmitV>::empty(),
            },
            final(compiler).records() == old(compiler).records(),
    {
        match &compiler.section_body {
            Some(b) => clone_emits(b),
            None => {
                let r: Vec<Emit> = Vec::new();
                assert(r.deep_view() =~= Seq::<EmitV>::empty());
                r
            },
        }
    }
}

/// Compiles `@extends("path")`.
pub struct ExtendsDirectiveCompiler;

impl ExtendsDirectiveCompiler {
    /// Records the layout and its path; gives no code.
    pub fn compile(compiler: &mut Compiler, path: String, layout: Node) -> (r: Vec<Emit>)
        ensures
            r.deep_view() == Seq::<EmitV>::empty(),
            final(compiler).records() == (CompilerV {
                layout_directive: path@,
                layout: Some(layout),
                ..old(compiler).records()
            }),
    {
        compiler.layout_directive = path;
        compiler.layout = Some(layout);
        let r: Vec<Emit> = Vec::new();
        assert(r.deep_view() =~= Seq::<EmitV>::empty());
        r
    }
}

/// Compiles a one-line `@section("name", content)`.
pub struct SectionDirectiveCompiler;

/// The code of a one-line section's content.
pub open spec fn section_code(content: SectionDirectiveContent) -> Seq<EmitV> {
    match content {
        SectionDirectiveContent::Text(t) => seq![EmitV::WriteText(t@)],
        SectionDirectiveContent::RustExprSimple(e) => seq![EmitV::WriteExpr(e@)],
    }
}

impl SectionDirectiveCompiler {
    /// Records the section's code under its name (replacing one of that
    /// name); gives no code.
    pub fn compile(compiler: &mut Compiler, name: String, content: SectionDirectiveContent) -> (r:
        Vec<Emit>)
        ensures
            r.deep_view() == Seq::<EmitV>::empty(),
            final(compiler).records() == (CompilerV {
                sections: put(old(compiler).records().sections, name@, section_code(content)),
                ..old(compiler).records()
            }),
    {
        let ghost cv = section_code(content);
        let code = match content {
            SectionDirectiveContent::Text(t) => one(Emit::WriteText(t)),
            SectionDirectiveContent::RustExprSimple(e) => one(Emit::WriteExpr(e)),
        };
        put_section(&mut compiler.sections, name, code);
        let r: Vec<Emit> = Vec::new();
        assert(r.deep_view() =~= Seq::<EmitV>::empty());
        r
    }
}

/// Records `code` under `name`, replacing the first entry of that name.
fn put_section(m: &mut Vec<(String, Vec<Emit>)>, name: String, code: Vec<Emit>)
    ensures
        final(m).deep_view() == put(old(m).deep_view(), name@, code.deep_view()),
{
    let mut i: usize = 0;
    while i < m.len()
        invariant
            i <= m@.len(),
            m.deep_view() == old(m).deep_view(),
            key_index(m.deep_view(), name@, i as int) == key_index(m.deep_view(), name@, 0),
        decreases m@.len() - i,
    {
        if same_text(m[i].0.as_str(), name.as_str()) {
            let ghost old_dv = m.deep_view();
            let ghost entry = (name@, code.deep_view());
            m.set(i, (name, code));
            assert(m.deep_view() =~= old_dv.update(i as int, entry));
            return;
        }
        i = i + 1;
    }
    let ghost old_dv = m.deep_view();
    let ghost entry = (name@, code.deep_view());
    m.push((name, code));
    assert(m.deep_view() =~= old_dv.push(entry));
}

/// Records the component `comp` under `name`, replacing the first entry of
/// that name.
fn put_component(m: &mut Vec<(String, Node)>, name: String, comp: Node)
    ensures
        components_view(final(m)@) == put(components_view(old(m)@), name@, comp),
{
    let mut i: usize = 0;
    while i < m.len()
        invariant
            i <= m@.len(),
            m@ == old(m)@,
            key_index(components_view(m@), name@, i as int) == key_index(
                components_view(m@),
                name@,
                0,
            ),
        decreases m@.len() - i,
    {
        if same_text(m[i].0.as_str(), name.as_str()) {
            let ghost old_v = components_view(m@);
            let ghost nv = name@;
            m.set(i, (name, comp));
            assert(components_view(m@) =~= old_v.update(i as int, (nv, comp)));
            return;
        }
        i = i + 1;
    }
    let ghost old_v = components_view(m@);
    let ghost nv = name@;
    m.push((name, comp));
    assert(components_view(m@) =~= old_v.push((nv, comp)));
}

/// Compiles `@use "path" as Name`.
pub struct UseDirectiveCompiler;

impl UseDirectiveCompiler {
    /// Records the import and the parsed component under its name; gives no
    /// code.
    pub fn compile(compiler: &mut Compiler, name: String, path: String, component: Node) -> (r:
        Vec<Emit>)
        ensures
            r.deep_view() == Seq::<EmitV>::empty(),
            final(compiler).records() == (CompilerV {
                use_directives: old(compiler).records().use_directives.push((name@, path@)),
                components: put(old(compiler).records().components, name@, component),
                ..old(compiler).records()
            }),
    {
        let ghost old_u = compiler.use_directives.deep_view();
        let ghost entry = (name@, path@);
        compiler.use_directives.push((name.clone(), path));
        assert(compiler.use_directives.deep_view() =~= old_u.push(entry));
        put_component(&mut compiler.components, name, component);
        let r: Vec<Emit> = Vec::new();
        assert(r.deep_view() =~= Seq::<EmitV>::empty());
        r
    }
}

impl Compiler {
    /// A compiler that has recorded nothing.
    pub fn new() -> (r: Self)
        ensures
            r.records() == (CompilerV {
                use_directives: Seq::empty(),
                components: Seq::empty(),
                layout_directive: Seq::empty(),
                layout: None,
                section_body: None,
                sections: Seq::empty(),
            }),
    {
        let r = Compiler {
            use_directives: Vec::new(),
            components: Vec::new(),
            layout_directive: String::new(),
            layout: None,
            section_body: None,
            sections: Vec::new(),
        };
        assert(r.use_directives.deep_view() =~= Seq::<(Seq<char>, Seq<char>)>::empty());
        assert(components_view(r.components@) =~= Seq::<(Seq<char>, Node)>::empty());
        assert(r.sections.deep_view() =~= Seq::<(Seq<char>, Seq<EmitV>)>::empty());
        r
    }

    /// The code of a node, recording what it declares.
    pub fn compile(&mut self, node: Node) -> (r: Vec<Emit>)
        ensures
            (r.deep_view(), final(self).records()) == compile_node(old(self).records(), node),
        decreases node, 0int,
    {
        let ghost orig = node;
        match node {
            Node::Template(v) => {
                proof {
                    assert(decreases_to!(orig => v));
                    assert(decreases_to!(v => v@));
                }
                self.compile_nodes(v)
            },
            Node::Text(t) => one(Emit::WriteText(t)),
            Node::InnerText(t) => one(Emit::WriteText(t)),
            Node::Raw(t) => one(Emit::WriteText(t)),
            Node::RustExprSimple(e) => one(Emit::WriteExpr(e)),
            Node::RustExprParen(e) => RustExprParenCompiler::compile(e.as_str()),
            Node::RustBlock(cs) => RustBlockCompiler::compile(self, cs),
            Node::RustExpr(es) => {
                proof {
                    assert(decreases_to!(orig => es));
                    assert(decreases_to!(es => es@));
                }
                self.compile_heads(es)
            },
            Node::UseDirective(name, path, comp) => UseDirectiveCompiler::compile(
                self,
                name,
                path,
                *comp,
            ),
            Node::ExtendsDirective(path, layout) => ExtendsDirectiveCompiler::compile(
                self,
                path,
                *layout,
            ),
            Node::SectionDirective(name, content) => SectionDirectiveCompiler::compile(
                self,
                name,
                content,
            ),
            Node::RenderDirective(name) => RenderDirectiveCompiler::compile(self, name.as_str()),
            Node::RenderBody => RenderBodyCompiler::compile(self),
            _ => {
                let r: Vec<Emit> = Vec::new();
                assert(r.deep_view() =~= Seq::<EmitV>::empty());
                r
            },
        }
    }

    /// The code of nodes, each followed by `;`.
    fn compile_nodes(&mut self, ns: Vec<Node>) -> (r: Vec<Emit>)
        ensures
            (r.deep_view(), final(self).records()) == compile_seq(old(self).records(), ns@),
        decreases ns@, 1int,
    {
        if ns.len() == 0 {
            let r: Vec<Emit> = Vec::new();
            assert(r.deep_view() =~= Seq::<EmitV>::empty());
            return r;
        }
        let ghost all = ns@;
        let mut rest = ns;
        let node = rest.remove(0);
        proof {
            assert(all[0] == node);
            assert(rest@ =~= all.subrange(1, all.len() as int));
            assert(decreases_to!(all => all[0]));
            assert(decreases_to!(all => rest@));
        }
        let mut out = self.compile(node);
        append_emits(&mut out, one(Emit::Semi));
        let more = self.compile_nodes(rest);
        append_emits(&mut out, more);
        out
    }

    /// The code of statement heads with their bodies.
    fn compile_heads(&mut self, es: Vec<(String, Vec<Node>)>) -> (r: Vec<Emit>)
        ensures
            (r.deep_view(), final(self).records()) == compile_heads(old(self).records(), es@),
        decreases es@, 1int,
    {
        if es.len() == 0 {
            let r: Vec<Emit> = Vec::new();
            assert(r.deep_view() =~= Seq::<EmitV>::empty());
            return r;
        }
        let ghost all = es@;
        let mut rest = es;
        let (head, body) = rest.remove(0);
        proof {
            assert(all[0] == (head, body));
            assert(rest@ =~= all.subrange(1, all.len() as int));
            assert(decreases_to!(all => all[0]));
            assert(decreases_to!(all[0] => all[0].1));
            assert(decreases_to!(all => rest@));
        }
        let mut out = one(Emit::Code(head));
        append_emits(&mut out, one(Emit::Open));
        let inner = self.compile_nodes(body);
        append_emits(&mut out, inner);
        append_emits(&mut out, one(Emit::Semi));
        append_emits(&mut out, one(Emit::Close));
        let more = self.compile_heads(rest);
        append_emits(&mut out, more);
        out
    }
}

/// The code of a parsed template as the stand-alone compiler makes it.
pub fn compile_ast(node: Node) -> (r: Vec<Emit>)
    ensures
        r.deep_view() == ast_code(node),
    decreases node, 0int,
{
    let ghost orig = node;
    match node {
        Node::Template(v) => {
            proof {
                assert(decreases_to!(orig => v));
                assert(decreases_to!(v => v@));
            }
            ast_nodes(v)
        },
        Node::Text(t) => one(Emit::WriteText(t)),
        Node::InnerText(t) => one(Emit::WriteText(t)),
        Node::Raw(t) => one(Emit::WriteText(t)),
        Node::RustExprSimple(e) => one(Emit::WriteExpr(e)),
        Node::RustExpr(es) => {
            proof {
                assert(decreases_to!(orig => es));
                assert(decreases_to!(es => es@));
            }
            RustExprCompiler::compile(es)
        },
        _ => {
            let r: Vec<Emit> = Vec::new();
            assert(r.deep_view() =~= Seq::<EmitV>::empty());
            r
        },
    }
}

/// The code of nodes, each followed by `;`, as the stand-alone compiler
/// makes it.
fn ast_nodes(ns: Vec<Node>) -> (r: Vec<Emit>)
    ensures
        r.deep_view() == ast_seq(ns@),
    decreases ns@, 1int,
{
    if ns.len() == 0 {
        let r: Vec<Emit> = Vec::new();
        assert(r.deep_view() =~= Seq::<EmitV>::empty());
        return r;
    }
    let ghost all = ns@;
    let mut rest = ns;
    let node = rest.remove(0);
    proof {
        assert(all[0] == node);
        assert(rest@ =~= all.subrange(1, all.len() as int));
        assert(decreases_to!(all => all[0]));
        assert(decreases_to!(all => rest@));
    }
    let mut out = compile_ast(node);
    append_emits(&mut out, one(Emit::Semi));
    append_emits(&mut out, ast_nodes(rest));
    out
}

/// Compiles statements (`if`, `else`, `for` heads with their bodies).
pub struct RustExprCompiler;

impl RustExprCompiler {
    /// Each head, then its body in braces, the body's nodes each followed
    /// by `;`.
    pub fn compile(exprs: Vec<(String, Vec<Node>)>) -> (r: Vec<Emit>)
        ensures
            r.deep_view() == ast_heads(exprs@),
        decreases exprs@, 1int,
    {
        if exprs.len() == 0 {
            let r: Vec<Emit> = Vec::new();
            assert(r.deep_view() =~= Seq::<EmitV>::empty());
            return r;
        }
        let ghost all = exprs@;
        let mut rest = exprs;
        let (head, body) = rest.remove(0);
        proof {
            assert(all[0] == (head, body));
            assert(rest@ =~= all.subrange(1, all.len() as int));
            assert(decreases_to!(all => all[0]));
            assert(decreases_to!(all[0] => all[0].1));
            assert(decreases_to!(all => rest@));
        }
        let mut out = one(Emit::Code(head));
        append_emits(&mut out, one(Emit::Open));
        append_emits(&mut out, ast_nodes(body));
        append_emits(&mut out, one(Emit::Semi));
        append_emits(&mut out, one(Emit::Close));
        append_emits(&mut out, RustExprCompiler::compile(rest));
        out
    }
}

} // verus!
