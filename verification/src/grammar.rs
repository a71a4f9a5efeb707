//! The grammar, as a function of the token sequence alone.
//!
//! Each function takes the tokens and the position at which to start, and
//! gives either what it parsed together with the position after it, or the
//! error at which parsing stops. The parser is held to these functions.
//!
//! ```text
//! program     := declaration* EOF
//! declaration := function | variable | return | expression ";"
//! function    := type IDENTIFIER "(" parameters ")" "{" declaration* "}"
//! parameters  := ( "void" | type IDENTIFIER ( "," type IDENTIFIER )* )?
//! variable    := type IDENTIFIER ( "=" expression )? ";"
//! return      := "return" expression? ";"
//! type        := "int" | "float" | "char" | "void" | "struct"
//! expression  := equality
//! equality    := comparison ( ( "!=" | "==" ) comparison )*
//! comparison  := term ( ( ">" | ">=" | "<" | "<=" ) term )*
//! term        := factor ( ( "-" | "+" ) factor )*
//! factor      := unary ( ( "/" | "*" ) unary )*
//! unary       := ( "!" | "-" ) unary | primary
//! primary     := CONSTANT | "true" | "false" | IDENTIFIER | "(" expression ")"
//! ```

use vstd::prelude::*;
use crate::ast::{ExprView, StatementView};
use crate::token::{TokenKind, TokenView};

verus! {

/// Why parsing stopped, as plain values.
pub ghost enum ParserErrorView {
    UnclosedParen,
    UnknownPrimaryToken { line: nat, kind: TokenKind },
    UnknownError,
    NoPreviousToken,
    ExpectedToken { expected: TokenKind, found: Option<TokenKind>, message: Seq<char> },
    UnexpectedEOF,
}

/// What parsing from a position gives: a value and the position after it,
/// or the error.
pub type Parsed<T> = Result<(T, int), ParserErrorView>;

/// The items of `rest` after those of `done`: what a sequence parsed so far
/// and the parse of what follows it make together.
pub open spec fn after<T>(done: Seq<T>, rest: Parsed<Seq<T>>) -> Parsed<Seq<T>> {
    match rest {
        Ok((items, end)) => Ok((done + items, end)),
        Err(error) => Err(error),
    }
}

/// The kind of the token at `pos`, if there is one.
pub open spec fn kind_at(ts: Seq<TokenView>, pos: int) -> Option<TokenKind> {
    if 0 <= pos < ts.len() {
        Some(ts[pos].kind)
    } else {
        None
    }
}

/// The number of tokens of kind `kind` from `from` up to, not including,
/// `to`.
pub open spec fn count_kind(ts: Seq<TokenView>, from: int, to: int, kind: TokenKind) -> nat
    decreases to - from,
{
    if from >= to {
        0
    } else if 0 <= to - 1 < ts.len() && ts[to - 1].kind == kind {
        count_kind(ts, from, to - 1, kind) + 1
    } else {
        count_kind(ts, from, to - 1, kind)
    }
}

/// The position after the token at `pos` where that token is of kind
/// `expected`, and otherwise the error that names what was found instead.
pub open spec fn expect(ts: Seq<TokenView>, pos: int, expected: TokenKind, message: Seq<char>)
    -> Result<int, ParserErrorView> {
    if kind_at(ts, pos) == Some(expected) {
        Ok(pos + 1)
    } else {
        Err(ParserErrorView::ExpectedToken { expected, found: kind_at(ts, pos), message })
    }
}

/// Whether parsing from `pos` up to `next` took at least one token and
/// stayed within the tokens. It always does (`lemma_progress`); the grammar
/// tests it where it goes on from `next`, so that it is seen to end.
pub open spec fn advanced(ts: Seq<TokenView>, pos: int, next: int) -> bool {
    pos < next <= ts.len()
}

/// The levels of binary operators, from the loosest to the tightest.
pub ghost enum Level {
    Equality,
    Comparison,
    Term,
    Factor,
}

/// Whether `kind` is a binary operator of `level`.
pub open spec fn is_operator(level: Level, kind: TokenKind) -> bool {
    match level {
        Level::Equality => kind == TokenKind::BangEqual || kind == TokenKind::EqualEqual,
        Level::Comparison => kind == TokenKind::Greater || kind == TokenKind::GreaterEqual || kind
            == TokenKind::Less || kind == TokenKind::LessEqual,
        Level::Term => kind == TokenKind::Minus || kind == TokenKind::Plus,
        Level::Factor => kind == TokenKind::Slash || kind == TokenKind::Star,
    }
}

/// Whether the token at `pos` is a binary operator of `level`.
pub open spec fn operator_at(ts: Seq<TokenView>, pos: int, level: Level) -> bool {
    0 <= pos < ts.len() && is_operator(level, ts[pos].kind)
}

/// Orders the levels: a tighter level has a smaller rank.
pub open spec fn rank(level: Level) -> nat {
    match level {
        Level::Equality => 4,
        Level::Comparison => 3,
        Level::Term => 2,
        Level::Factor => 1,
    }
}

/// How loosely a binary operator binds: the rank of its level, and 0 for a
/// token that is no binary operator.
pub open spec fn operator_rank(kind: TokenKind) -> nat {
    if is_operator(Level::Equality, kind) {
        rank(Level::Equality)
    } else if is_operator(Level::Comparison, kind) {
        rank(Level::Comparison)
    } else if is_operator(Level::Term, kind) {
        rank(Level::Term)
    } else if is_operator(Level::Factor, kind) {
        rank(Level::Factor)
    } else {
        0
    }
}

/// Whether a binary operator stands at `pos`.
pub open spec fn binary_operator_at(ts: Seq<TokenView>, pos: int) -> bool {
    0 <= pos < ts.len() && operator_rank(ts[pos].kind) > 0
}

/// Whether a binary operator of `level` or of a tighter level stands at
/// `pos`: an expression of `level` that ends at `pos` would go on.
pub open spec fn continues(ts: Seq<TokenView>, pos: int, level: Level) -> bool {
    0 <= pos < ts.len() && 1 <= operator_rank(ts[pos].kind) <= rank(level)
}

/// Whether a binary operator of a level tighter than `level` stands at
/// `pos`: an operand of `level` that ends at `pos` would go on.
pub open spec fn operand_continues(ts: Seq<TokenView>, pos: int, level: Level) -> bool {
    0 <= pos < ts.len() && 1 <= operator_rank(ts[pos].kind) < rank(level)
}

/// Whether `kind` is a prefix operator.
pub open spec fn is_prefix_operator(kind: TokenKind) -> bool {
    kind == TokenKind::Bang || kind == TokenKind::Minus
}

/// Whether `kind` names a type.
pub open spec fn is_type_keyword(kind: TokenKind) -> bool {
    kind == TokenKind::Int || kind == TokenKind::Float || kind == TokenKind::Char || kind
        == TokenKind::Void || kind == TokenKind::Struct
}

/// Whether a token of this kind is a literal: a constant, `true` or
/// `false`.
pub open spec fn is_literal(kind: TokenKind) -> bool {
    kind == TokenKind::False || kind == TokenKind::True || kind == TokenKind::Constant
}

/// The number of tokens that an expression is written with.
pub open spec fn width(expr: ExprView) -> nat
    decreases expr,
{
    match expr {
        ExprView::Binary { left, right, .. } => width(*left) + 1 + width(*right),
        ExprView::Unary { right, .. } => 1 + width(*right),
        ExprView::Literal(_) => 1,
        ExprView::Identifier(_) => 1,
        ExprView::Grouping(inner) => width(*inner) + 2,
    }
}

/// Whether the tokens of `ts` from `from` on write `expr` out: a literal
/// or a name is its token; a grouping is `(`, what is inside it, and `)`;
/// a unary expression is its operator and its operand; a binary expression
/// is its left side, its operator and its right side.
pub open spec fn writes(ts: Seq<TokenView>, from: int, expr: ExprView) -> bool
    decreases expr,
{
    &&& 0 <= from
    &&& from + width(expr) <= ts.len()
    &&& match expr {
        ExprView::Binary { left, operator, right } => {
            &&& writes(ts, from, *left)
            &&& ts[from + width(*left)] == operator
            &&& writes(ts, from + width(*left) + 1, *right)
        },
        ExprView::Unary { operator, right } => ts[from] == operator && writes(ts, from + 1, *right),
        ExprView::Literal(text) => is_literal(ts[from].kind) && ts[from].literal == text,
        ExprView::Identifier(name) => ts[from] == name,
        ExprView::Grouping(inner) => {
            &&& ts[from].kind == TokenKind::LParen
            &&& writes(ts, from + 1, *inner)
            &&& ts[from + 1 + width(*inner)].kind == TokenKind::RParen
        },
    }
}

/// A primary expression: a constant, `true` or `false`, a name, or an
/// expression in parentheses.
pub open spec fn parse_primary(ts: Seq<TokenView>, pos: int) -> Parsed<ExprView>
    decreases ts.len() - pos, 0nat,
{
    if pos < 0 || pos >= ts.len() {
        Err(ParserErrorView::UnknownError)
    } else {
        let token = ts[pos];
        if is_literal(token.kind) {
            Ok((ExprView::Literal(token.literal), pos + 1))
        } else if token.kind == TokenKind::Identifier {
            Ok((ExprView::Identifier(token), pos + 1))
        } else if token.kind == TokenKind::LParen {
            match parse_expression(ts, pos + 1) {
                Ok((inner, next)) => match expect(
                    ts,
                    next,
                    TokenKind::RParen,
                    "Expect ')' after expression"@,
                ) {
                    Ok(end) => Ok((ExprView::Grouping(Box::new(inner)), end)),
                    Err(error) => Err(error),
                },
                Err(error) => Err(error),
            }
        } else {
            Err(ParserErrorView::UnknownPrimaryToken { line: token.line, kind: token.kind })
        }
    }
}

/// A unary expression: any number of prefix operators, then a primary
/// expression.
pub open spec fn parse_unary(ts: Seq<TokenView>, pos: int) -> Parsed<ExprView>
    decreases ts.len() - pos, 1nat,
{
    if 0 <= pos < ts.len() && is_prefix_operator(ts[pos].kind) {
        match parse_unary(ts, pos + 1) {
            Ok((right, next)) => Ok(
                (ExprView::Unary { operator: ts[pos], right: Box::new(right) }, next),
            ),
            Err(error) => Err(error),
        }
    } else {
        parse_primary(ts, pos)
    }
}

/// An operand of a binary operator of `level`: an expression of the next
/// tighter level.
pub open spec fn parse_operand(ts: Seq<TokenView>, pos: int, level: Level) -> Parsed<ExprView>
    decreases ts.len() - pos, 2 * rank(level),
{
    match level {
        Level::Equality => parse_binary(ts, pos, Level::Comparison),
        Level::Comparison => parse_binary(ts, pos, Level::Term),
        Level::Term => parse_binary(ts, pos, Level::Factor),
        Level::Factor => parse_unary(ts, pos),
    }
}

/// An expression of `level`: an operand, then any number of operators of
/// the level, each with the operand after it, nested to the left.
pub open spec fn parse_binary(ts: Seq<TokenView>, pos: int, level: Level) -> Parsed<ExprView>
    decreases ts.len() - pos, 2 * rank(level) + 1,
{
    match parse_operand(ts, pos, level) {
        Ok((first, next)) => if advanced(ts, pos, next) {
            parse_operators(ts, next, level, first)
        } else {
            Err(ParserErrorView::UnknownError)
        },
        Err(error) => Err(error),
    }
}

/// What follows the operand `left` of an expression of `level`: while an
/// operator of the level comes next, it and the operand after it are taken,
/// and `left` becomes the left side of the new node.
pub open spec fn parse_operators(ts: Seq<TokenView>, pos: int, level: Level, left: ExprView)
    -> Parsed<ExprView>
    decreases ts.len() - pos, 0nat,
{
    if operator_at(ts, pos, level) {
        match parse_operand(ts, pos + 1, level) {
            Ok((right, next)) => if advanced(ts, pos, next) {
                parse_operators(
                    ts,
                    next,
                    level,
                    ExprView::Binary {
                        left: Box::new(left),
                        operator: ts[pos],
                        right: Box::new(right),
                    },
                )
            } else {
                Err(ParserErrorView::UnknownError)
            },
            Err(error) => Err(error),
        }
    } else {
        Ok((left, pos))
    }
}

/// An expression.
pub open spec fn parse_expression(ts: Seq<TokenView>, pos: int) -> Parsed<ExprView>
    decreases ts.len() - pos, 10nat,
{
    parse_binary(ts, pos, Level::Equality)
}

/// A primary expression takes at least one token and stays within the
/// tokens.
pub proof fn lemma_primary_progress(ts: Seq<TokenView>, pos: int)
    ensures
        parse_primary(ts, pos) matches Ok((_, next)) ==> advanced(ts, pos, next),
    decreases ts.len() - pos, 0nat,
{
    if 0 <= pos < ts.len() && ts[pos].kind == TokenKind::LParen {
        lemma_binary_progress(ts, pos + 1, Level::Equality);
    }
}

/// A unary expression takes at least one token and stays within the tokens.
pub proof fn lemma_unary_progress(ts: Seq<TokenView>, pos: int)
    ensures
        parse_unary(ts, pos) matches Ok((_, next)) ==> advanced(ts, pos, next),
    decreases ts.len() - pos, 1nat,
{
    if 0 <= pos < ts.len() && is_prefix_operator(ts[pos].kind) {
        lemma_unary_progress(ts, pos + 1);
    } else {
        lemma_primary_progress(ts, pos);
    }
}

/// An operand takes at least one token and stays within the tokens.
pub proof fn lemma_operand_progress(ts: Seq<TokenView>, pos: int, level: Level)
    ensures
        parse_operand(ts, pos, level) matches Ok((_, next)) ==> advanced(ts, pos, next),
    decreases ts.len() - pos, 2 * rank(level),
{
    match level {
        Level::Equality => lemma_binary_progress(ts, pos, Level::Comparison),
        Level::Comparison => lemma_binary_progress(ts, pos, Level::Term),
        Level::Term => lemma_binary_progress(ts, pos, Level::Factor),
        Level::Factor => lemma_unary_progress(ts, pos),
    }
}

/// An expression of any level takes at least one token and stays within
/// the tokens.
pub proof fn lemma_binary_progress(ts: Seq<TokenView>, pos: int, level: Level)
    ensures
        parse_binary(ts, pos, level) matches Ok((_, next)) ==> advanced(ts, pos, next),
    decreases ts.len() - pos, 2 * rank(level) + 1,
{
    lemma_operand_progress(ts, pos, level);
    match parse_operand(ts, pos, level) {
        Ok((first, next)) => {
            lemma_operators_progress(ts, next, level, first);
        },
        Err(_) => {},
    }
}

/// The operators after an operand end at or after their start and within
/// the tokens.
pub proof fn lemma_operators_progress(ts: Seq<TokenView>, pos: int, level: Level, left: ExprView)
    requires
        pos <= ts.len(),
    ensures
        parse_operators(ts, pos, level, left) matches Ok((_, next)) ==> pos <= next <= ts.len(),
    decreases ts.len() - pos, 0nat,
{
    if operator_at(ts, pos, level) {
        lemma_operand_progress(ts, pos + 1, level);
        match parse_operand(ts, pos + 1, level) {
            Ok((right, next)) => {
                lemma_operators_progress(
                    ts,
                    next,
                    level,
                    ExprView::Binary {
                        left: Box::new(left),
                        operator: ts[pos],
                        right: Box::new(right),
                    },
                );
            },
            Err(_) => {},
        }
    }
}

/// An expression takes at least one token and stays within the tokens.
pub proof fn lemma_expression_progress(ts: Seq<TokenView>, pos: int)
    ensures
        parse_expression(ts, pos) matches Ok((_, next)) ==> advanced(ts, pos, next),
{
    lemma_binary_progress(ts, pos, Level::Equality);
}

/// An expression, then the `;` that ends its statement; `message` goes
/// into the error where the `;` is missing.
pub open spec fn parse_terminated(ts: Seq<TokenView>, pos: int, message: Seq<char>) -> Parsed<
    ExprView,
> {
    match parse_expression(ts, pos) {
        Ok((expr, next)) => match expect(ts, next, TokenKind::Semicolon, message) {
            Ok(end) => Ok((expr, end)),
            Err(error) => Err(error),
        },
        Err(error) => Err(error),
    }
}

/// An expression used as a statement.
pub open spec fn parse_expression_statement(ts: Seq<TokenView>, pos: int) -> Parsed<
    StatementView,
> {
    match parse_terminated(ts, pos, "Expect ';' after expression"@) {
        Ok((expr, end)) => Ok((StatementView::Expression(expr), end)),
        Err(error) => Err(error),
    }
}

/// A return statement, whose keyword is at `pos`.
pub open spec fn parse_return(ts: Seq<TokenView>, pos: int) -> Parsed<StatementView> {
    if kind_at(ts, pos + 1) == Some(TokenKind::Semicolon) {
        Ok((StatementView::Return { keyword: ts[pos], value: None }, pos + 2))
    } else {
        match parse_terminated(ts, pos + 1, "Expect ';' after return value"@) {
            Ok((value, end)) => Ok(
                (StatementView::Return { keyword: ts[pos], value: Some(value) }, end),
            ),
            Err(error) => Err(error),
        }
    }
}

/// Whether a variable declaration starts at `pos`: a type, a name, then
/// `=` or `;`.
pub open spec fn starts_variable(ts: Seq<TokenView>, pos: int) -> bool {
    &&& 0 <= pos < ts.len()
    &&& is_type_keyword(ts[pos].kind)
    &&& kind_at(ts, pos + 1) == Some(TokenKind::Identifier)
    &&& (kind_at(ts, pos + 2) == Some(TokenKind::Equal) || kind_at(ts, pos + 2) == Some(
        TokenKind::Semicolon,
    ))
}

/// A variable declaration, which starts at `pos`.
pub open spec fn parse_variable(ts: Seq<TokenView>, pos: int) -> Parsed<StatementView> {
    if kind_at(ts, pos + 2) == Some(TokenKind::Equal) {
        match parse_terminated(ts, pos + 3, "Expect ';' after variable declaration"@) {
            Ok((value, end)) => Ok(
                (StatementView::VarDecl { name: ts[pos + 1], initialiser: Some(value) }, end),
            ),
            Err(error) => Err(error),
        }
    } else {
        Ok((StatementView::VarDecl { name: ts[pos + 1], initialiser: None }, pos + 3))
    }
}

/// One or more parameters, each a type and a name, with `,` between them
/// and `)` after the last: the names, and the position after the `)`.
pub open spec fn parse_parameter_list(ts: Seq<TokenView>, pos: int) -> Parsed<Seq<TokenView>>
    decreases ts.len() - pos,
{
    if !(0 <= pos < ts.len() && is_type_keyword(ts[pos].kind)) {
        Err(
            ParserErrorView::ExpectedToken {
                expected: TokenKind::Int,
                found: kind_at(ts, pos),
                message: "Expect parameter type"@,
            },
        )
    } else {
        match expect(ts, pos + 1, TokenKind::Identifier, "Expect parameter name"@) {
            Ok(after_name) => if kind_at(ts, after_name) == Some(TokenKind::Comma) {
                match parse_parameter_list(ts, after_name + 1) {
                    Ok((rest, end)) => Ok((seq![ts[pos + 1]] + rest, end)),
                    Err(error) => Err(error),
                }
            } else {
                match expect(ts, after_name, TokenKind::RParen, "Expect ')' after parameters"@) {
                    Ok(end) => Ok((seq![ts[pos + 1]], end)),
                    Err(error) => Err(error),
                }
            },
            Err(error) => Err(error),
        }
    }
}

/// The parameters of a function, from the position after its `(`: none
/// where `)` or `void )` comes next, and otherwise a list of them.
pub open spec fn parse_parameters(ts: Seq<TokenView>, pos: int) -> Parsed<Seq<TokenView>> {
    if kind_at(ts, pos) == Some(TokenKind::RParen) {
        Ok((Seq::empty(), pos + 1))
    } else if kind_at(ts, pos) == Some(TokenKind::Void) && kind_at(ts, pos + 1) == Some(
        TokenKind::RParen,
    ) {
        Ok((Seq::empty(), pos + 2))
    } else {
        parse_parameter_list(ts, pos)
    }
}

/// Parameters take at least one token and stay within the tokens.
pub proof fn lemma_parameters_progress(ts: Seq<TokenView>, pos: int)
    ensures
        parse_parameters(ts, pos) matches Ok((_, next)) ==> advanced(ts, pos, next),
        parse_parameter_list(ts, pos) matches Ok((_, next)) ==> advanced(ts, pos, next),
    decreases ts.len() - pos,
{
    if 0 <= pos < ts.len() && is_type_keyword(ts[pos].kind) && kind_at(ts, pos + 1) == Some(
        TokenKind::Identifier,
    ) && kind_at(ts, pos + 2) == Some(TokenKind::Comma) {
        lemma_parameters_progress(ts, pos + 3);
    }
}

/// Whether a function starts at `pos`: a type, a name, then `(`.
pub open spec fn starts_function(ts: Seq<TokenView>, pos: int) -> bool {
    &&& 0 <= pos < ts.len()
    &&& is_type_keyword(ts[pos].kind)
    &&& kind_at(ts, pos + 1) == Some(TokenKind::Identifier)
    &&& kind_at(ts, pos + 2) == Some(TokenKind::LParen)
}

/// A declaration: a function where a type, a name and `(` come next; a
/// variable where a type, a name and `=` or `;` come next; a return
/// statement where `return` comes next; and otherwise an expression
/// statement.
pub open spec fn parse_declaration(ts: Seq<TokenView>, pos: int) -> Parsed<StatementView>
    decreases ts.len() - pos, 2nat,
{
    if starts_function(ts, pos) {
        parse_function(ts, pos)
    } else if starts_variable(ts, pos) {
        parse_variable(ts, pos)
    } else if kind_at(ts, pos) == Some(TokenKind::Return) {
        parse_return(ts, pos)
    } else {
        parse_expression_statement(ts, pos)
    }
}

/// A function, which starts at `pos`: after its type, its name and `(`
/// come its parameters, then its body in braces.
pub open spec fn parse_function(ts: Seq<TokenView>, pos: int) -> Parsed<StatementView>
    decreases ts.len() - pos, 1nat,
{
    match parse_parameters(ts, pos + 3) {
        Ok((params, after_params)) => match expect(
            ts,
            after_params,
            TokenKind::LBrace,
            "Expect '{' before function body"@,
        ) {
            Ok(body_start) => {
                proof {
                    lemma_parameters_progress(ts, pos + 3);
                }
                match parse_block(ts, body_start) {
                    Ok((body, end)) => Ok(
                        (StatementView::Function { name: ts[pos + 1], params, body }, end),
                    ),
                    Err(error) => Err(error),
                }
            },
            Err(error) => Err(error),
        },
        Err(error) => Err(error),
    }
}

/// The rest of a function's body, from a position after its `{`: the
/// declarations up to the closing `}`, and the position after it.
pub open spec fn parse_block(ts: Seq<TokenView>, pos: int) -> Parsed<Seq<StatementView>>
    decreases ts.len() - pos, 3nat,
{
    if kind_at(ts, pos) == Some(TokenKind::RBrace) {
        Ok((Seq::empty(), pos + 1))
    } else if kind_at(ts, pos) is None || kind_at(ts, pos) == Some(TokenKind::EOF) {
        Err(
            ParserErrorView::ExpectedToken {
                expected: TokenKind::RBrace,
                found: kind_at(ts, pos),
                message: "Expect '}' after function body"@,
            },
        )
    } else {
        match parse_declaration(ts, pos) {
            Ok((first, next)) => if advanced(ts, pos, next) {
                match parse_block(ts, next) {
                    Ok((rest, end)) => Ok((seq![first] + rest, end)),
                    Err(error) => Err(error),
                }
            } else {
                Err(ParserErrorView::UnknownError)
            },
            Err(error) => Err(error),
        }
    }
}

/// A declaration takes at least one token and stays within the tokens.
pub proof fn lemma_declaration_progress(ts: Seq<TokenView>, pos: int)
    ensures
        parse_declaration(ts, pos) matches Ok((_, next)) ==> advanced(ts, pos, next),
    decreases ts.len() - pos, 2nat,
{
    lemma_expression_progress(ts, pos);
    lemma_expression_progress(ts, pos + 1);
    lemma_expression_progress(ts, pos + 3);
    if starts_function(ts, pos) {
        lemma_parameters_progress(ts, pos + 3);
        match parse_parameters(ts, pos + 3) {
            Ok((_, after_params)) => {
                if kind_at(ts, after_params) == Some(TokenKind::LBrace) {
                    lemma_block_progress(ts, after_params + 1);
                }
            },
            Err(_) => {},
        }
    }
}

/// A body takes at least one token and stays within the tokens.
pub proof fn lemma_block_progress(ts: Seq<TokenView>, pos: int)
    ensures
        parse_block(ts, pos) matches Ok((_, next)) ==> advanced(ts, pos, next),
    decreases ts.len() - pos, 3nat,
{
    if kind_at(ts, pos) is Some && kind_at(ts, pos) != Some(TokenKind::RBrace) && kind_at(ts, pos)
        != Some(TokenKind::EOF) {
        lemma_declaration_progress(ts, pos);
        match parse_declaration(ts, pos) {
            Ok((_, next)) => {
                if advanced(ts, pos, next) {
                    lemma_block_progress(ts, next);
                }
            },
            Err(_) => {},
        }
    }
}

/// A program from `pos` on: the declarations up to the first `EOF` that
/// stands where a declaration would begin, and the position of that `EOF`.
pub open spec fn parse_program(ts: Seq<TokenView>, pos: int) -> Parsed<Seq<StatementView>>
    decreases ts.len() - pos,
{
    if kind_at(ts, pos) == Some(TokenKind::EOF) {
        Ok((Seq::empty(), pos))
    } else {
        match parse_declaration(ts, pos) {
            Ok((first, next)) => {
                proof {
                    lemma_declaration_progress(ts, pos);
                }
                match parse_program(ts, next) {
                    Ok((rest, end)) => Ok((seq![first] + rest, end)),
                    Err(error) => Err(error),
                }
            },
            Err(error) => Err(error),
        }
    }
}

} // verus!
