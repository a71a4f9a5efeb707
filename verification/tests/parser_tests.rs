use cfront::ast::{Expr, Statement};
use cfront::lexer::tokenize;
use cfront::parser::{parse, Parser, ParserError};
use cfront::token::{Token, TokenKind};

fn expression_of<'a>(statements: &'a [Statement<'a>]) -> &'a Expr<'a> {
    assert_eq!(statements.len(), 1);
    match &statements[0] {
        Statement::Expression(expr) => expr,
        other => panic!("not an expression statement: {:?}", other),
    }
}

fn literal(text: &str) -> Box<Expr<'_>> {
    Box::new(Expr::Literal(text))
}

#[test]
fn one_plus_two_times_three() {
    let tokens = tokenize("1 + 2 * 3").unwrap();
    let mut parser = Parser::new(&tokens);
    let expr = parser.expression().unwrap();
    match &expr {
        Expr::Binary { left, operator, right } => {
            assert_eq!(operator.kind, TokenKind::Plus);
            assert_eq!(**left, Expr::Literal("1"));
            match &**right {
                Expr::Binary { left, operator, right } => {
                    assert_eq!(operator.kind, TokenKind::Star);
                    assert_eq!(**left, Expr::Literal("2"));
                    assert_eq!(**right, Expr::Literal("3"));
                },
                other => panic!("the right side is not a product: {:?}", other),
            }
        },
        other => panic!("not a sum: {:?}", other),
    }
}

#[test]
fn one_minus_two_minus_three() {
    let tokens = tokenize("1 - 2 - 3").unwrap();
    let mut parser = Parser::new(&tokens);
    let expr = parser.expression().unwrap();
    let expected = Expr::Binary {
        left: Box::new(Expr::Binary { left: literal("1"), operator: &tokens[1], right: literal("2") }),
        operator: &tokens[3],
        right: literal("3"),
    };
    assert_eq!(expr, expected);
    assert_eq!(tokens[1].kind, TokenKind::Minus);
    assert_eq!(tokens[3].kind, TokenKind::Minus);
}

#[test]
fn an_expression_stops_before_what_is_no_part_of_it() {
    let tokens = tokenize("1 + 2 ) 3").unwrap();
    let mut parser = Parser::new(&tokens);
    let expr = parser.expression().unwrap();
    assert_eq!(expr, Expr::Binary { left: literal("1"), operator: &tokens[1], right: literal("2") });
    assert_eq!(
        parser.expression().unwrap_err(),
        ParserError::UnknownPrimaryToken { line: 1, kind: TokenKind::RParen }
    );
}

#[test]
fn an_unclosed_grouping_fails_as_an_expression_too() {
    let tokens = tokenize("(1 + 2").unwrap();
    let mut parser = Parser::new(&tokens);
    assert!(matches!(
        parser.expression(),
        Err(ParserError::ExpectedToken { expected: TokenKind::RParen, .. })
    ));
}

#[test]
fn multiplication_binds_tighter_than_addition() {
    let tokens = tokenize("1 + 2 * 3;").unwrap();
    let statements = parse(&tokens).unwrap();
    let expected = Expr::Binary {
        left: literal("1"),
        operator: &tokens[1],
        right: Box::new(Expr::Binary { left: literal("2"), operator: &tokens[3], right: literal("3") }),
    };
    assert_eq!(expression_of(&statements), &expected);
    assert_eq!(tokens[1].kind, TokenKind::Plus);
    assert_eq!(tokens[3].kind, TokenKind::Star);
}

#[test]
fn multiplication_first_is_the_left_operand() {
    let tokens = tokenize("1 * 2 + 3;").unwrap();
    let statements = parse(&tokens).unwrap();
    let expected = Expr::Binary {
        left: Box::new(Expr::Binary { left: literal("1"), operator: &tokens[1], right: literal("2") }),
        operator: &tokens[3],
        right: literal("3"),
    };
    assert_eq!(expression_of(&statements), &expected);
}

#[test]
fn subtraction_nests_to_the_left() {
    let tokens = tokenize("1 - 2 - 3;").unwrap();
    let statements = parse(&tokens).unwrap();
    let expected = Expr::Binary {
        left: Box::new(Expr::Binary { left: literal("1"), operator: &tokens[1], right: literal("2") }),
        operator: &tokens[3],
        right: literal("3"),
    };
    assert_eq!(expression_of(&statements), &expected);
}

#[test]
fn all_levels_nest_by_precedence() {
    // a == b < c + d * -e  is  a == (b < (c + (d * (-e))))
    let tokens = tokenize("a == b < c + d * -e;").unwrap();
    let statements = parse(&tokens).unwrap();
    let expected = Expr::Binary {
        left: Box::new(Expr::Identifier(&tokens[0])),
        operator: &tokens[1],
        right: Box::new(Expr::Binary {
            left: Box::new(Expr::Identifier(&tokens[2])),
            operator: &tokens[3],
            right: Box::new(Expr::Binary {
                left: Box::new(Expr::Identifier(&tokens[4])),
                operator: &tokens[5],
                right: Box::new(Expr::Binary {
                    left: Box::new(Expr::Identifier(&tokens[6])),
                    operator: &tokens[7],
                    right: Box::new(Expr::Unary {
                        operator: &tokens[8],
                        right: Box::new(Expr::Identifier(&tokens[9])),
                    }),
                }),
            }),
        }),
    };
    assert_eq!(expression_of(&statements), &expected);
}

#[test]
fn every_binary_operator_is_parsed() {
    for source in ["1 != 2;", "1 == 2;", "1 > 2;", "1 >= 2;", "1 < 2;", "1 <= 2;", "1 - 2;",
        "1 + 2;", "1 / 2;", "1 * 2;"] {
        let tokens = tokenize(source).unwrap();
        let statements = parse(&tokens).unwrap();
        let expected =
            Expr::Binary { left: literal("1"), operator: &tokens[1], right: literal("2") };
        assert_eq!(expression_of(&statements), &expected);
    }
}

#[test]
fn a_grouping_stays_a_node() {
    let tokens = tokenize("(1 + 2) * 3;").unwrap();
    let statements = parse(&tokens).unwrap();
    let expected = Expr::Binary {
        left: Box::new(Expr::Grouping(Box::new(Expr::Binary {
            left: literal("1"),
            operator: &tokens[2],
            right: literal("2"),
        }))),
        operator: &tokens[5],
        right: literal("3"),
    };
    assert_eq!(expression_of(&statements), &expected);
}

#[test]
fn groupings_nest() {
    let tokens = tokenize("((x));").unwrap();
    let statements = parse(&tokens).unwrap();
    let expected =
        Expr::Grouping(Box::new(Expr::Grouping(Box::new(Expr::Identifier(&tokens[2])))));
    assert_eq!(expression_of(&statements), &expected);
}

#[test]
fn unary_operators_nest_to_the_right() {
    let tokens = tokenize("!-!x;").unwrap();
    let statements = parse(&tokens).unwrap();
    let expected = Expr::Unary {
        operator: &tokens[0],
        right: Box::new(Expr::Unary {
            operator: &tokens[1],
            right: Box::new(Expr::Unary {
                operator: &tokens[2],
                right: Box::new(Expr::Identifier(&tokens[3])),
            }),
        }),
    };
    assert_eq!(expression_of(&statements), &expected);
}

#[test]
fn true_false_and_strings_are_literals() {
    let tokens = tokenize("true; false; \"text\"; 2.5;").unwrap();
    let statements = parse(&tokens).unwrap();
    assert_eq!(
        statements,
        vec![
            Statement::Expression(Expr::Literal("true")),
            Statement::Expression(Expr::Literal("false")),
            Statement::Expression(Expr::Literal("text")),
            Statement::Expression(Expr::Literal("2.5")),
        ]
    );
}

#[test]
fn an_unclosed_grouping_expects_a_closing_parenthesis() {
    let tokens = tokenize("(1 + 2").unwrap();
    let error = parse(&tokens).unwrap_err();
    assert_eq!(
        error,
        ParserError::ExpectedToken {
            expected: TokenKind::RParen,
            found: Some(TokenKind::EOF),
            message: "Expect ')' after expression".to_string(),
        }
    );
}

#[test]
fn an_expression_statement_needs_its_semicolon() {
    let tokens = tokenize("1 + 2").unwrap();
    assert_eq!(
        parse(&tokens).unwrap_err(),
        ParserError::ExpectedToken {
            expected: TokenKind::Semicolon,
            found: Some(TokenKind::EOF),
            message: "Expect ';' after expression".to_string(),
        }
    );
}

#[test]
fn a_token_that_begins_no_expression() {
    let tokens = tokenize("1 +\n\n * 2;").unwrap();
    assert_eq!(
        parse(&tokens).unwrap_err(),
        ParserError::UnknownPrimaryToken { line: 3, kind: TokenKind::Star }
    );
    let tokens = tokenize("1 + ").unwrap();
    assert_eq!(
        parse(&tokens).unwrap_err(),
        ParserError::UnknownPrimaryToken { line: 1, kind: TokenKind::EOF }
    );
    let tokens = tokenize("{ 1; }").unwrap();
    assert_eq!(
        parse(&tokens).unwrap_err(),
        ParserError::UnknownPrimaryToken { line: 1, kind: TokenKind::LBrace }
    );
}

#[test]
fn the_first_error_stops_the_parse() {
    let tokens = tokenize("1 + ; 2 * ; (").unwrap();
    assert_eq!(
        parse(&tokens).unwrap_err(),
        ParserError::UnknownPrimaryToken { line: 1, kind: TokenKind::Semicolon }
    );
}

#[test]
fn tokens_without_an_end_marker() {
    assert_eq!(parse(&[]).unwrap_err(), ParserError::UnknownError);
    let one = [Token { kind: TokenKind::Constant, lexeme: "1", literal: "1", line: 1 }];
    assert_eq!(
        parse(&one).unwrap_err(),
        ParserError::ExpectedToken {
            expected: TokenKind::Semicolon,
            found: None,
            message: "Expect ';' after expression".to_string(),
        }
    );
    let open = [
        Token { kind: TokenKind::LParen, lexeme: "(", literal: "", line: 1 },
        Token { kind: TokenKind::Constant, lexeme: "1", literal: "1", line: 1 },
    ];
    assert_eq!(
        parse(&open).unwrap_err(),
        ParserError::ExpectedToken {
            expected: TokenKind::RParen,
            found: None,
            message: "Expect ')' after expression".to_string(),
        }
    );
    let minus = [Token { kind: TokenKind::Minus, lexeme: "-", literal: "", line: 1 }];
    assert_eq!(parse(&minus).unwrap_err(), ParserError::UnknownError);
}

#[test]
fn a_default_parser_has_nothing_to_read() {
    let mut parser = Parser::default();
    assert_eq!(parser.parse().unwrap_err(), ParserError::UnknownError);
}

#[test]
fn a_parser_stops_at_the_end_marker() {
    let tokens = tokenize("1;").unwrap();
    let mut parser = Parser::new(&tokens);
    assert_eq!(parser.parse().unwrap(), vec![Statement::Expression(Expr::Literal("1"))]);
    assert_eq!(parser.parse().unwrap(), vec![]);
}

#[test]
fn return_with_a_value() {
    let tokens = tokenize("return 42;").unwrap();
    assert_eq!(
        tokens.iter().map(|t| t.kind).collect::<Vec<_>>(),
        vec![TokenKind::Return, TokenKind::Constant, TokenKind::Semicolon, TokenKind::EOF]
    );
    assert_eq!(tokens[1].literal, "42");
    let statements = parse(&tokens).unwrap();
    assert_eq!(
        statements,
        vec![Statement::Return { keyword: &tokens[0], value: Some(Expr::Literal("42")) }]
    );
}

#[test]
fn return_without_a_value() {
    let tokens = tokenize("return;").unwrap();
    let statements = parse(&tokens).unwrap();
    assert_eq!(statements, vec![Statement::Return { keyword: &tokens[0], value: None }]);
}

#[test]
fn return_needs_its_semicolon() {
    let tokens = tokenize("return 1").unwrap();
    assert_eq!(
        parse(&tokens).unwrap_err(),
        ParserError::ExpectedToken {
            expected: TokenKind::Semicolon,
            found: Some(TokenKind::EOF),
            message: "Expect ';' after return value".to_string(),
        }
    );
}

#[test]
fn empty_source_is_an_empty_program() {
    let tokens = tokenize("").unwrap();
    assert_eq!(tokens.iter().map(|t| t.kind).collect::<Vec<_>>(), vec![TokenKind::EOF]);
    assert_eq!(parse(&tokens).unwrap(), vec![]);
}

#[test]
fn variables_with_and_without_a_first_value() {
    let tokens = tokenize("int x; float y = 1 + 2; char c = \"c\"; struct s;").unwrap();
    let statements = parse(&tokens).unwrap();
    assert_eq!(statements.len(), 4);
    assert_eq!(statements[0], Statement::VarDecl { name: &tokens[1], initialiser: None });
    assert_eq!(
        statements[1],
        Statement::VarDecl {
            name: &tokens[4],
            initialiser: Some(Expr::Binary {
                left: literal("1"),
                operator: &tokens[7],
                right: literal("2"),
            }),
        }
    );
    assert_eq!(
        statements[2],
        Statement::VarDecl { name: &tokens[11], initialiser: Some(Expr::Literal("c")) }
    );
    assert_eq!(statements[3], Statement::VarDecl { name: &tokens[16], initialiser: None });
    assert_eq!(tokens[1].lexeme, "x");
    assert_eq!(tokens[16].lexeme, "s");
}

#[test]
fn a_variable_needs_its_semicolon() {
    let tokens = tokenize("int x = 1 int y;").unwrap();
    assert_eq!(
        parse(&tokens).unwrap_err(),
        ParserError::ExpectedToken {
            expected: TokenKind::Semicolon,
            found: Some(TokenKind::Int),
            message: "Expect ';' after variable declaration".to_string(),
        }
    );
}

#[test]
fn a_type_that_starts_no_declaration_is_read_as_an_expression() {
    let tokens = tokenize("int x + 1;").unwrap();
    assert_eq!(
        parse(&tokens).unwrap_err(),
        ParserError::UnknownPrimaryToken { line: 1, kind: TokenKind::Int }
    );
    let tokens = tokenize("int 5;").unwrap();
    assert_eq!(
        parse(&tokens).unwrap_err(),
        ParserError::UnknownPrimaryToken { line: 1, kind: TokenKind::Int }
    );
}

#[test]
fn a_function_with_void_parameters() {
    let tokens = tokenize("int main(void){\n\treturn 0;\n}").unwrap();
    let statements = parse(&tokens).unwrap();
    assert_eq!(
        statements,
        vec![Statement::Function {
            name: &tokens[1],
            params: vec![],
            body: vec![Statement::Return { keyword: &tokens[6], value: Some(Expr::Literal("0")) }],
        }]
    );
}

#[test]
fn a_function_without_parameters_or_body() {
    let tokens = tokenize("void f() {}").unwrap();
    let statements = parse(&tokens).unwrap();
    assert_eq!(
        statements,
        vec![Statement::Function { name: &tokens[1], params: vec![], body: vec![] }]
    );
}

#[test]
fn a_function_with_parameters() {
    let tokens = tokenize("int add(int a, float b, char c) { int s = a + b; return s; }").unwrap();
    let statements = parse(&tokens).unwrap();
    assert_eq!(statements.len(), 1);
    match &statements[0] {
        Statement::Function { name, params, body } => {
            assert_eq!(name.lexeme, "add");
            assert_eq!(params, &vec![&tokens[4], &tokens[7], &tokens[10]]);
            assert_eq!(params.iter().map(|p| p.lexeme).collect::<Vec<_>>(), vec!["a", "b", "c"]);
            assert_eq!(body.len(), 2);
            assert_eq!(
                body[0],
                Statement::VarDecl {
                    name: &tokens[14],
                    initialiser: Some(Expr::Binary {
                        left: Box::new(Expr::Identifier(&tokens[16])),
                        operator: &tokens[17],
                        right: Box::new(Expr::Identifier(&tokens[18])),
                    }),
                }
            );
            assert_eq!(
                body[1],
                Statement::Return {
                    keyword: &tokens[20],
                    value: Some(Expr::Identifier(&tokens[21])),
                }
            );
        },
        other => panic!("not a function: {:?}", other),
    }
}

#[test]
fn functions_and_statements_in_sequence() {
    let tokens = tokenize("int g; int f(void) { g; } f;").unwrap();
    let statements = parse(&tokens).unwrap();
    assert_eq!(statements.len(), 3);
    assert!(matches!(statements[0], Statement::VarDecl { .. }));
    assert!(matches!(statements[1], Statement::Function { .. }));
    assert!(matches!(statements[2], Statement::Expression(Expr::Identifier(_))));
}

#[test]
fn a_function_inside_a_function() {
    let tokens = tokenize("int f() { int g() { return; } }").unwrap();
    let statements = parse(&tokens).unwrap();
    assert_eq!(
        statements,
        vec![Statement::Function {
            name: &tokens[1],
            params: vec![],
            body: vec![Statement::Function {
                name: &tokens[6],
                params: vec![],
                body: vec![Statement::Return { keyword: &tokens[10], value: None }],
            }],
        }]
    );
}

#[test]
fn a_parameter_needs_a_type() {
    let tokens = tokenize("int f(a) {}").unwrap();
    assert_eq!(
        parse(&tokens).unwrap_err(),
        ParserError::ExpectedToken {
            expected: TokenKind::Int,
            found: Some(TokenKind::Identifier),
            message: "Expect parameter type".to_string(),
        }
    );
    let tokens = tokenize("int f(int a,) {}").unwrap();
    assert_eq!(
        parse(&tokens).unwrap_err(),
        ParserError::ExpectedToken {
            expected: TokenKind::Int,
            found: Some(TokenKind::RParen),
            message: "Expect parameter type".to_string(),
        }
    );
}

#[test]
fn a_parameter_needs_a_name() {
    let tokens = tokenize("int f(int) {}").unwrap();
    assert_eq!(
        parse(&tokens).unwrap_err(),
        ParserError::ExpectedToken {
            expected: TokenKind::Identifier,
            found: Some(TokenKind::RParen),
            message: "Expect parameter name".to_string(),
        }
    );
}

#[test]
fn parameters_need_their_closing_parenthesis() {
    let tokens = tokenize("int f(int a {}").unwrap();
    assert_eq!(
        parse(&tokens).unwrap_err(),
        ParserError::ExpectedToken {
            expected: TokenKind::RParen,
            found: Some(TokenKind::LBrace),
            message: "Expect ')' after parameters".to_string(),
        }
    );
}

#[test]
fn a_function_needs_a_body() {
    let tokens = tokenize("int f(void);").unwrap();
    assert_eq!(
        parse(&tokens).unwrap_err(),
        ParserError::ExpectedToken {
            expected: TokenKind::LBrace,
            found: Some(TokenKind::Semicolon),
            message: "Expect '{' before function body".to_string(),
        }
    );
}

#[test]
fn a_body_needs_its_closing_brace() {
    let tokens = tokenize("int f(void) { return 1;").unwrap();
    assert_eq!(
        parse(&tokens).unwrap_err(),
        ParserError::ExpectedToken {
            expected: TokenKind::RBrace,
            found: Some(TokenKind::EOF),
            message: "Expect '}' after function body".to_string(),
        }
    );
}

#[test]
fn error_messages() {
    assert_eq!(ParserError::UnclosedParen.to_string(), "Uncloses Parenthesis");
    assert_eq!(ParserError::UnexpectedEOF.to_string(), "Unexpected end of input");
    assert_eq!(ParserError::NoPreviousToken.to_string(), "No previous token");
    assert_eq!(ParserError::UnknownError.to_string(), "You're on your own pal");
    assert_eq!(
        ParserError::UnknownPrimaryToken { line: 1207, kind: TokenKind::Star }.to_string(),
        "On line 1207, unknown primary token 'Star'"
    );
    assert_eq!(
        ParserError::UnknownPrimaryToken { line: 0, kind: TokenKind::EOF }.to_string(),
        "On line 0, unknown primary token 'EOF'"
    );
    assert_eq!(
        ParserError::UnknownPrimaryToken { line: 9, kind: TokenKind::If }.to_string(),
        "On line 9, unknown primary token 'If'"
    );
    assert_eq!(
        ParserError::UnknownPrimaryToken { line: 10, kind: TokenKind::If }.to_string(),
        "On line 10, unknown primary token 'If'"
    );
    assert_eq!(
        ParserError::UnknownPrimaryToken { line: usize::MAX, kind: TokenKind::If }.to_string(),
        format!("On line {}, unknown primary token 'If'", usize::MAX)
    );
    assert_eq!(
        ParserError::ExpectedToken {
            expected: TokenKind::RParen,
            found: Some(TokenKind::EOF),
            message: "Expect ')' after expression".to_string(),
        }
        .to_string(),
        "Expected token 'RParen', found 'Some(EOF)'"
    );
    assert_eq!(
        ParserError::ExpectedToken {
            expected: TokenKind::Semicolon,
            found: None,
            message: String::new(),
        }
        .to_string(),
        "Expected token 'Semicolon', found 'None'"
    );
}

#[test]
fn kind_names_match_their_debug_form() {
    let all = [
        TokenKind::LParen,
        TokenKind::RParen,
        TokenKind::LBrace,
        TokenKind::RBrace,
        TokenKind::Comma,
        TokenKind::Semicolon,
        TokenKind::Star,
        TokenKind::Slash,
        TokenKind::Bang,
        TokenKind::BangEqual,
        TokenKind::Equal,
        TokenKind::EqualEqual,
        TokenKind::Greater,
        TokenKind::GreaterEqual,
        TokenKind::Less,
        TokenKind::LessEqual,
        TokenKind::Minus,
        TokenKind::Plus,
        TokenKind::Constant,
        TokenKind::Identifier,
        TokenKind::Return,
        TokenKind::If,
        TokenKind::Else,
        TokenKind::Int,
        TokenKind::Float,
        TokenKind::Char,
        TokenKind::Struct,
        TokenKind::Void,
        TokenKind::True,
        TokenKind::False,
        TokenKind::EOF,
    ];
    for kind in all {
        assert_eq!(kind.name(), format!("{:?}", kind));
    }
}

#[test]
fn a_token_that_begins_no_expression_is_not_taken() {
    let tokens = [
        Token { kind: TokenKind::Plus, lexeme: "+", literal: "", line: 7 },
        Token { kind: TokenKind::EOF, lexeme: "", literal: "", line: 7 },
    ];
    let mut parser = Parser::new(&tokens);
    let expected = ParserError::UnknownPrimaryToken { line: 7, kind: TokenKind::Plus };
    assert_eq!(parser.expression().unwrap_err(), expected);
    assert_eq!(parser.expression().unwrap_err(), expected);
}

#[test]
fn a_missing_token_leaves_what_stands_there() {
    let tokens = tokenize("(1 2").unwrap();
    let mut parser = Parser::new(&tokens);
    assert_eq!(
        parser.expression().unwrap_err(),
        ParserError::ExpectedToken {
            expected: TokenKind::RParen,
            found: Some(TokenKind::Constant),
            message: "Expect ')' after expression".to_string(),
        }
    );
    assert_eq!(parser.expression().unwrap(), Expr::Literal("2"));
}
