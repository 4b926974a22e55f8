use rshtml_core::diagnostics::{error_message, line_col, push_decimal, show_error};
use rshtml_core::outcome::{Ctx, Expect, Label};

#[test]
fn decimals_are_appended() {
    let mut s = "n=".to_string();
    push_decimal(&mut s, 0);
    push_decimal(&mut s, 1204);
    assert_eq!(s, "n=01204");
}

#[test]
fn lines_and_columns_count_from_one() {
    assert_eq!(line_col("ab\ncd", 0), (1, 1));
    assert_eq!(line_col("ab\ncd", 2), (1, 3));
    assert_eq!(line_col("ab\ncd", 3), (2, 1));
    assert_eq!(line_col("ab\ncd", 4), (2, 2));
    assert_eq!(line_col("ab\ncd", 99), (2, 3));
    assert_eq!(line_col("", 5), (1, 1));
}

#[test]
fn an_error_shows_its_line_and_a_caret() {
    assert_eq!(show_error("ab\ncd", 4, "m"), "m\n --> line 2, col 2\ncd\n ^");
    assert_eq!(show_error("a @ b", 2, "oops"), "oops\n --> line 1, col 3\na @ b\n  ^");
    assert_eq!(show_error("x\n", 2, "e"), "e\n --> line 2, col 1\n\n^");
}

#[test]
fn a_trail_reads_from_the_outside_in() {
    let t = vec![
        Ctx::Expected(Expect::CloseParen),
        Ctx::Description("bad".to_string()),
        Ctx::Label(Label::ParenthesizedExpression),
    ];
    assert_eq!(error_message(&t), "in parenthesized expression: bad: expected `)`");
    assert_eq!(error_message(&vec![]), "");
    assert_eq!(error_message(&vec![Ctx::Expected(Expect::EndOfFile)]), "expected `end of file`");
}

#[test]
fn a_failure_report_quotes_the_trail() {
    let t = vec![Ctx::Expected(Expect::EndOfFile)];
    assert_eq!(
        rshtml_core::compile::failure_report("a @ b", 2, &t),
        "\"expected `end of file`\"\n --> line 1, col 3\na @ b\n  ^"
    );
}
