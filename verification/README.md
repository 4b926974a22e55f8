# rshtml_core

Template compilation for RsHtml, verified with Verus.

`src/` holds the verified library: the template grammars (the file grammar of
the derive, the inline grammar, `v_file!` views and `v!` token views), the
code each template compiles to as a flat description (`code::Frag`,
`ast::Emit`, `view_file::ViewCode`), the compilers of parsed templates, the
compilation context, names and hashes of generated functions, error reports,
and sorting. Each grammar rule is stated as a mathematical function
(`grammar`, `markup`, `tokens`, `view_file`) and the executable rule is proved
to compute it. Questions about Rust syntax are put to `syn` and
`proc-macro2` through the wrappers in `syntax.rs`.

Laws proved over these functions include: plain text is written as it is
(`markup::plain_text_is_written`, `view_file::plain_view_is_written`); the
text size a template reports is the length of the text it writes
(`counting::text_size_counts_written_text`); sorting yields a sorted
permutation (`order`); use directives form a set keyed by path
(`context`); what the compiler records under a name is found under it
(`ast::put_then_lookup`); on ASCII names snake case settles
(`derive::ascii_snake_case_settles`).

The compilers of parsed templates record `@use`, `@extends` and one-line
`@section`s; `@render("name")` gives the code recorded for that section and
`@render_body` the recorded body; comments give no code.

`app/` turns the descriptions into token streams with `quote`, reads
template files, and holds the entry points of the derive and the macros.
`tests/` runs the library on concrete templates.

The set of use directives (keyed by path) and the compiler's records keyed
by name are held in `Vec`s with an invariant (distinct paths) and with
`put`/`lookup` specified over sequences: with `String` keys, vstd's
specifications of `HashSet` and `HashMap` let nothing be proved about
membership, so a declared hash collection would leave these contracts
unprovable. `UseDirective`'s equality by path is the function `same_path`.

A code block that `syn` rejects fails at the position `syn` points to,
counted as the bytes of the block's earlier lines plus `syn`'s column from
where the block was read; where that lands inside a character or past the
end, the position of that column in characters is used.
