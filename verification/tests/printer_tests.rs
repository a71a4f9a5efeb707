use cfront::ast::{Expr, Statement};
use cfront::lexer::tokenize;
use cfront::parser::{parse, Parser};
use cfront::token::TokenKind;
use cfront::printer::{append_line, render};

fn picture(source: &str) -> String {
    let tokens = tokenize(source).unwrap();
    let statements = parse(&tokens).unwrap();
    assert_eq!(statements.len(), 1);
    match &statements[0] {
        Statement::Expression(expr) => expr.print_tree(),
        other => panic!("not an expression statement: {:?}", other),
    }
}

#[test]
fn a_literal_is_one_line() {
    assert_eq!(picture("42;"), "└─ ┌─ Literal (\"42\")\n");
    assert_eq!(render(&Expr::Literal("")), "└─ ┌─ Literal (\"\")\n");
}

#[test]
fn a_name_is_one_line() {
    assert_eq!(picture("total;"), "└─ ┌─ Identifier (\"total\")\n");
}

#[test]
fn a_string_shows_the_text_between_its_quotes() {
    assert_eq!(picture("\"a b\";"), "└─ ┌─ Literal (\"a b\")\n");
}

#[test]
fn children_are_indented_and_the_last_is_marked() {
    assert_eq!(
        picture("1 + 2 * 3;"),
        "└─ ┌─ Binary (Plus)\n\
         \x20 ├─ ┌─ Literal (\"1\")\n\
         \x20 └─ ┌─ Binary (Star)\n\
         \x20   ├─ ┌─ Literal (\"2\")\n\
         \x20   └─ ┌─ Literal (\"3\")\n"
    );
}

#[test]
fn left_nesting_shows_in_the_picture() {
    assert_eq!(
        picture("1 - 2 - 3;"),
        "└─ ┌─ Binary (Minus)\n\
         \x20 ├─ ┌─ Binary (Minus)\n\
         \x20   ├─ ┌─ Literal (\"1\")\n\
         \x20   └─ ┌─ Literal (\"2\")\n\
         \x20 └─ ┌─ Literal (\"3\")\n"
    );
}

#[test]
fn every_grouping_has_its_own_line() {
    assert_eq!(
        picture("((1) + -x) >= (2);"),
        "└─ ┌─ Binary (GreaterEqual)\n\
         \x20 ├─ ┌─ Grouping ((...))\n\
         \x20   └─ ┌─ Binary (Plus)\n\
         \x20     ├─ ┌─ Grouping ((...))\n\
         \x20       └─ ┌─ Literal (\"1\")\n\
         \x20     └─ ┌─ Unary (Minus)\n\
         \x20       └─ ┌─ Identifier (\"x\")\n\
         \x20 └─ ┌─ Grouping ((...))\n\
         \x20   └─ ┌─ Literal (\"2\")\n"
    );
    let text = picture("(((1)));");
    assert_eq!(text.matches("Grouping").count(), 3);
    assert_eq!(text.lines().count(), 4);
}

#[test]
fn a_parenthesized_expression_shows_as_a_grouping() {
    let tokens = tokenize("(1 + 2) * (3)").unwrap();
    let mut parser = Parser::new(&tokens);
    let expr = parser.expression().unwrap();
    let text = render(&expr);
    assert_eq!(
        text,
        "└─ ┌─ Binary (Star)\n\
         \x20 ├─ ┌─ Grouping ((...))\n\
         \x20   └─ ┌─ Binary (Plus)\n\
         \x20     ├─ ┌─ Literal (\"1\")\n\
         \x20     └─ ┌─ Literal (\"2\")\n\
         \x20 └─ ┌─ Grouping ((...))\n\
         \x20   └─ ┌─ Literal (\"3\")\n"
    );
    let opened = tokens.iter().filter(|t| t.kind == TokenKind::LParen).count();
    assert_eq!(text.matches("┌─ Grouping").count(), opened);
}

#[test]
fn render_and_print_tree_agree() {
    let tokens = tokenize("!(a == b);").unwrap();
    let statements = parse(&tokens).unwrap();
    match &statements[0] {
        Statement::Expression(expr) => {
            assert_eq!(render(expr), expr.print_tree());
            assert_eq!(
                render(expr),
                "└─ ┌─ Unary (Bang)\n\
                 \x20 └─ ┌─ Grouping ((...))\n\
                 \x20   └─ ┌─ Binary (EqualEqual)\n\
                 \x20     ├─ ┌─ Identifier (\"a\")\n\
                 \x20     └─ ┌─ Identifier (\"b\")\n"
            );
        },
        other => panic!("not an expression statement: {:?}", other),
    }
}

#[test]
fn a_value_stands_between_quotes() {
    assert_eq!(render(&Expr::Literal("42")), "└─ ┌─ Literal (\"42\")\n");
    assert_eq!(Expr::Literal("42").print_tree().chars().count(), 21);
}

#[test]
fn a_newline_in_a_value_is_escaped() {
    let text = render(&Expr::Literal("a\nb"));
    assert_eq!(text, "└─ ┌─ Literal (\"a\\nb\")\n");
    assert_eq!(text.matches('\n').count(), 1);
}

#[test]
fn a_value_that_looks_like_a_line_adds_no_line() {
    let text = render(&Expr::Literal("x)\n└─ ┌─ Grouping ((...))"));
    assert_eq!(text.lines().count(), 1);
    assert_eq!(text.matches('\n').count(), 1);
    assert!(text.starts_with("└─ ┌─ Literal (\"x)\\n"));
}

#[test]
fn quotes_and_backslashes_in_a_value_are_escaped() {
    assert_eq!(render(&Expr::Literal("a\"b\\c")), "└─ ┌─ Literal (\"a\\\"b\\\\c\")\n");
}

#[test]
fn a_string_over_two_lines_is_one_line_of_the_picture() {
    let tokens = tokenize("\"one\ntwo\" + 1").unwrap();
    let mut parser = Parser::new(&tokens);
    let expr = parser.expression().unwrap();
    let text = expr.print_tree();
    assert_eq!(
        text,
        "└─ ┌─ Binary (Plus)\n\
         \x20 ├─ ┌─ Literal (\"one\\ntwo\")\n\
         \x20 └─ ┌─ Literal (\"1\")\n"
    );
    assert_eq!(text.matches('\n').count(), 3);
}

#[test]
fn one_line_is_appended_after_what_is_there() {
    let mut output = String::from("A\n");
    append_line(&mut output, "    ", false, "Literal", "\"x\"");
    assert_eq!(output, "A\n    ├─ ┌─ Literal (\"x\")\n");
    append_line(&mut output, "", true, "Grouping", "(...)");
    assert_eq!(output, "A\n    ├─ ┌─ Literal (\"x\")\n└─ ┌─ Grouping ((...))\n");
}
