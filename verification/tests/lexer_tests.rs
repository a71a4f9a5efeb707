use cfront::lexer::{tokenize, LexError, Lexer};
use cfront::token::{Token, TokenKind};

fn kinds(tokens: &[Token]) -> Vec<TokenKind> {
    tokens.iter().map(|t| t.kind).collect()
}

fn lex(source: &str) -> Vec<Token<'_>> {
    tokenize(source).expect("the source has no lexical error")
}

#[test]
fn empty_source_is_one_end_marker() {
    let tokens = lex("");
    assert_eq!(tokens.len(), 1);
    assert_eq!(tokens[0], Token { kind: TokenKind::EOF, lexeme: "", literal: "", line: 1 });
}

#[test]
fn white_space_and_comments_give_only_the_end_marker() {
    let tokens = lex("  \t\r\n// a comment\n\n   // another, at the end");
    assert_eq!(kinds(&tokens), vec![TokenKind::EOF]);
    assert_eq!(tokens[0].line, 4);
}

#[test]
fn a_comment_ends_at_the_end_of_its_line() {
    let tokens = lex("a // b c\nd");
    assert_eq!(kinds(&tokens), vec![TokenKind::Identifier, TokenKind::Identifier, TokenKind::EOF]);
    assert_eq!(tokens[0].lexeme, "a");
    assert_eq!(tokens[1].lexeme, "d");
    assert_eq!(tokens[1].line, 2);
}

#[test]
fn bang_equal_is_one_token() {
    let tokens = lex("!=");
    assert_eq!(kinds(&tokens), vec![TokenKind::BangEqual, TokenKind::EOF]);
    assert_eq!(tokens[0].lexeme, "!=");
    assert_eq!(tokens[0].literal, "");
}

#[test]
fn two_character_operators_are_never_split() {
    assert_eq!(kinds(&lex("==")), vec![TokenKind::EqualEqual, TokenKind::EOF]);
    assert_eq!(kinds(&lex(">=")), vec![TokenKind::GreaterEqual, TokenKind::EOF]);
    assert_eq!(kinds(&lex("<=")), vec![TokenKind::LessEqual, TokenKind::EOF]);
    assert_eq!(
        kinds(&lex("a!=b==c>=d<=e")),
        vec![
            TokenKind::Identifier,
            TokenKind::BangEqual,
            TokenKind::Identifier,
            TokenKind::EqualEqual,
            TokenKind::Identifier,
            TokenKind::GreaterEqual,
            TokenKind::Identifier,
            TokenKind::LessEqual,
            TokenKind::Identifier,
            TokenKind::EOF,
        ]
    );
}

#[test]
fn operators_alone_keep_their_own_kind() {
    assert_eq!(
        kinds(&lex("! = > < ! =")),
        vec![
            TokenKind::Bang,
            TokenKind::Equal,
            TokenKind::Greater,
            TokenKind::Less,
            TokenKind::Bang,
            TokenKind::Equal,
            TokenKind::EOF,
        ]
    );
    assert_eq!(
        kinds(&lex("===")),
        vec![TokenKind::EqualEqual, TokenKind::Equal, TokenKind::EOF]
    );
}

#[test]
fn punctuation_and_arithmetic() {
    assert_eq!(
        kinds(&lex("(){},;*/-+")),
        vec![
            TokenKind::LParen,
            TokenKind::RParen,
            TokenKind::LBrace,
            TokenKind::RBrace,
            TokenKind::Comma,
            TokenKind::Semicolon,
            TokenKind::Star,
            TokenKind::Slash,
            TokenKind::Minus,
            TokenKind::Plus,
            TokenKind::EOF,
        ]
    );
}

#[test]
fn reserved_words_and_names() {
    let tokens = lex("return if else int float char struct void true false returns _x y2 Int");
    assert_eq!(
        kinds(&tokens),
        vec![
            TokenKind::Return,
            TokenKind::If,
            TokenKind::Else,
            TokenKind::Int,
            TokenKind::Float,
            TokenKind::Char,
            TokenKind::Struct,
            TokenKind::Void,
            TokenKind::True,
            TokenKind::False,
            TokenKind::Identifier,
            TokenKind::Identifier,
            TokenKind::Identifier,
            TokenKind::Identifier,
            TokenKind::EOF,
        ]
    );
    assert_eq!(tokens[0].literal, "return");
    assert_eq!(tokens[8].literal, "true");
    assert_eq!(tokens[10].lexeme, "returns");
    assert_eq!(tokens[10].literal, "returns");
    assert_eq!(tokens[11].literal, "_x");
    assert_eq!(tokens[12].literal, "y2");
}

#[test]
fn numbers_whole_and_decimal() {
    let tokens = lex("42 3.14 007");
    assert_eq!(tokens[0], Token { kind: TokenKind::Constant, lexeme: "42", literal: "42", line: 1 });
    assert_eq!(
        tokens[1],
        Token { kind: TokenKind::Constant, lexeme: "3.14", literal: "3.14", line: 1 }
    );
    assert_eq!(tokens[2].literal, "007");
    assert_eq!(tokens.len(), 4);
}

#[test]
fn a_dot_without_a_digit_after_it_is_not_part_of_a_number() {
    let errors = tokenize("7.").unwrap_err();
    assert_eq!(errors, vec![LexError::UnexpectedChar { line: 1, column: 2, char: '.' }]);
    let errors = tokenize("7.x").unwrap_err();
    assert_eq!(errors, vec![LexError::UnexpectedChar { line: 1, column: 2, char: '.' }]);
}

#[test]
fn a_second_dot_ends_the_number() {
    let errors = tokenize("1.2.3").unwrap_err();
    assert_eq!(errors, vec![LexError::UnexpectedChar { line: 1, column: 4, char: '.' }]);
}

#[test]
fn a_string_carries_the_text_between_its_quotes() {
    let tokens = lex("\"hello world\" x");
    assert_eq!(
        tokens[0],
        Token {
            kind: TokenKind::Constant,
            lexeme: "\"hello world\"",
            literal: "hello world",
            line: 1
        }
    );
    assert_eq!(tokens[1].kind, TokenKind::Identifier);
}

#[test]
fn an_empty_string_has_an_empty_payload() {
    let tokens = lex("\"\"");
    assert_eq!(tokens[0].kind, TokenKind::Constant);
    assert_eq!(tokens[0].lexeme, "\"\"");
    assert_eq!(tokens[0].literal, "");
}

#[test]
fn an_escaped_quote_does_not_close_a_string() {
    let tokens = lex("\"a\\\"b\" c");
    assert_eq!(tokens[0].literal, "a\\\"b");
    assert_eq!(tokens[1].lexeme, "c");
    let tokens = lex("\"a\\\\\" c");
    assert_eq!(tokens[0].literal, "a\\\\");
    assert_eq!(tokens[1].lexeme, "c");
}

#[test]
fn a_string_may_span_lines() {
    let tokens = lex("\"one\ntwo\" x\ny");
    assert_eq!(tokens[0].literal, "one\ntwo");
    assert_eq!(tokens[0].line, 1);
    assert_eq!(tokens[1].line, 2);
    assert_eq!(tokens[2].line, 3);
    assert_eq!(tokens[3], Token { kind: TokenKind::EOF, lexeme: "", literal: "", line: 3 });
}

#[test]
fn an_unterminated_string_is_an_error() {
    let errors = tokenize("\"abc").unwrap_err();
    assert_eq!(errors, vec![LexError::UnterminatedString { line: 1 }]);
    let errors = tokenize("x = 1;\n\n  \"never\nclosed \\\"").unwrap_err();
    assert_eq!(errors, vec![LexError::UnterminatedString { line: 3 }]);
}

#[test]
fn a_backslash_at_the_end_leaves_the_string_open() {
    let errors = tokenize("\"abc\\").unwrap_err();
    assert_eq!(errors, vec![LexError::UnterminatedString { line: 1 }]);
}

#[test]
fn one_unexpected_character_is_one_error() {
    let errors = tokenize("int @").unwrap_err();
    assert_eq!(errors, vec![LexError::UnexpectedChar { line: 1, column: 5, char: '@' }]);
}

#[test]
fn a_character_outside_ascii_is_one_error() {
    let errors = tokenize("a\n  \u{e9} b").unwrap_err();
    assert_eq!(errors, vec![LexError::UnexpectedChar { line: 2, column: 3, char: '\u{e9}' }]);
}

#[test]
fn every_error_is_reported_in_order() {
    let errors = tokenize("@ x\n# 1 $\n\"open").unwrap_err();
    assert_eq!(
        errors,
        vec![
            LexError::UnexpectedChar { line: 1, column: 1, char: '@' },
            LexError::UnexpectedChar { line: 2, column: 1, char: '#' },
            LexError::UnexpectedChar { line: 2, column: 5, char: '$' },
            LexError::UnterminatedString { line: 3 },
        ]
    );
}

#[test]
fn an_unexpected_character_in_a_comment_or_a_string_is_no_error() {
    assert_eq!(kinds(&lex("// @ # $\n\"@\"")), vec![TokenKind::Constant, TokenKind::EOF]);
}

#[test]
fn a_lone_slash_is_a_token() {
    assert_eq!(
        kinds(&lex("a / b")),
        vec![TokenKind::Identifier, TokenKind::Slash, TokenKind::Identifier, TokenKind::EOF]
    );
    assert_eq!(kinds(&lex("/")), vec![TokenKind::Slash, TokenKind::EOF]);
}

#[test]
fn lines_are_counted_from_one() {
    let tokens = lex("a\nb\r\n\nc");
    assert_eq!(tokens[0].line, 1);
    assert_eq!(tokens[1].line, 2);
    assert_eq!(tokens[2].line, 4);
    assert_eq!(tokens[3].line, 4);
    let tokens = lex("a\n");
    assert_eq!(tokens[1].kind, TokenKind::EOF);
    assert_eq!(tokens[1].line, 2);
}

#[test]
fn a_lexer_gives_what_tokenize_gives() {
    let source = "int main(void){\n\treturn 0;\n}";
    let lexer = Lexer::from_string(source);
    assert_eq!(lexer.tokenise(), tokenize(source));
    assert_eq!(lexer.tokenise(), lexer.tokenise());
}

#[test]
fn a_small_program() {
    let tokens = lex("int main(void){\n\treturn 0;\n}");
    assert_eq!(
        kinds(&tokens),
        vec![
            TokenKind::Int,
            TokenKind::Identifier,
            TokenKind::LParen,
            TokenKind::Void,
            TokenKind::RParen,
            TokenKind::LBrace,
            TokenKind::Return,
            TokenKind::Constant,
            TokenKind::Semicolon,
            TokenKind::RBrace,
            TokenKind::EOF,
        ]
    );
    assert_eq!(tokens[1].literal, "main");
    assert_eq!(tokens[6].line, 2);
    assert_eq!(tokens[9].line, 3);
}
