//! The parser: recursive descent over a token sequence, with one function
//! for each level of the grammar. It stops at the first error.

use vstd::prelude::*;
use crate::ast::{
    all_well_formed, groupings, statement_views, well_formed, Expr, ExprView, Statement,
    StatementView,
};
use crate::grammar::{
    after, binary_operator_at, count_kind, expect, is_type_keyword, kind_at,
    lemma_declaration_progress, lemma_operand_progress, lemma_parameters_progress, parse_binary,
    parse_block, parse_declaration, parse_expression, parse_expression_statement, parse_function,
    parse_operators, parse_parameter_list, parse_parameters, parse_primary, parse_program,
    parse_return, parse_terminated, parse_unary, parse_variable, starts_function, starts_variable,
    width, writes, Level, Parsed, ParserErrorView,
};
use crate::parser_theorems::{groupings_are_kept, programs_are_well_formed, reading_is_exact};
use crate::text::{append_decimal, decimal};
use crate::token::{borrowed_views, kind_name, token_views, Token, TokenKind, TokenView};

verus! {

/// Why parsing stopped.
#[derive(Debug, PartialEq, Eq)]
pub enum ParserError {
    /// A parenthesis was never closed. The parser itself reports a missing
    /// `)` as `ExpectedToken`.
    UnclosedParen,
    /// A token of kind `kind`, on `line`, begins no expression.
    UnknownPrimaryToken { line: usize, kind: TokenKind },
    /// An expression was to begin where no token is left.
    UnknownError,
    /// The last token taken was asked for before any was taken.
    NoPreviousToken,
    /// A token of kind `expected` was required where `found` stands.
    ExpectedToken { expected: TokenKind, found: Option<TokenKind>, message: String },
    /// A token was to be taken where none is left.
    UnexpectedEOF,
}

impl View for ParserError {
    type V = ParserErrorView;

    open spec fn view(&self) -> ParserErrorView {
        match self {
            ParserError::UnclosedParen => ParserErrorView::UnclosedParen,
            ParserError::UnknownPrimaryToken { line, kind } => ParserErrorView::UnknownPrimaryToken {
                line: *line as nat,
                kind: *kind,
            },
            ParserError::UnknownError => ParserErrorView::UnknownError,
            ParserError::NoPreviousToken => ParserErrorView::NoPreviousToken,
            ParserError::ExpectedToken { expected, found, message } => {
                ParserErrorView::ExpectedToken {
                    expected: *expected,
                    found: *found,
                    message: message@,
                }
            },
            ParserError::UnexpectedEOF => ParserErrorView::UnexpectedEOF,
        }
    }
}

/// How a token kind that may be absent is written.
pub open spec fn found_text(found: Option<TokenKind>) -> Seq<char> {
    match found {
        Some(kind) => "Some("@ + kind_name(kind) + ")"@,
        None => "None"@,
    }
}

/// The message of an error.
pub open spec fn error_text(error: ParserErrorView) -> Seq<char> {
    match error {
        ParserErrorView::UnclosedParen => "Uncloses Parenthesis"@,
        ParserErrorView::UnexpectedEOF => "Unexpected end of input"@,
        ParserErrorView::UnknownPrimaryToken { line, kind } => "On line "@ + decimal(line)
            + ", unknown primary token '"@ + kind_name(kind) + "'"@,
        ParserErrorView::ExpectedToken { expected, found, .. } => "Expected token '"@ + kind_name(
            expected,
        ) + "', found '"@ + found_text(found) + "'"@,
        ParserErrorView::NoPreviousToken => "No previous token"@,
        ParserErrorView::UnknownError => "You're on your own pal"@,
    }
}

impl ParserError {
    /// The message of this error.
    pub fn to_string(&self) -> (text: String)
        ensures
            text@ == error_text(self@),
    {
        match self {
            ParserError::UnclosedParen => "Uncloses Parenthesis".to_string(),
            ParserError::UnexpectedEOF => "Unexpected end of input".to_string(),
            ParserError::UnknownPrimaryToken { line, kind } => {
                let mut text = "On line ".to_string();
                append_decimal(&mut text, *line);
                text.append(", unknown primary token '");
                text.append(kind.name());
                text.append("'");
                text
            },
            ParserError::ExpectedToken { expected, found, .. } => {
                let mut text = "Expected token '".to_string();
                text.append(expected.name());
                text.append("', found '");
                match found {
                    Some(kind) => {
                        text.append("Some(");
                        text.append(kind.name());
                        text.append(")");
                    },
                    None => {
                        text.append("None");
                    },
                }
                text.append("'");
                assert(text@ =~= error_text(self@));
                text
            },
            ParserError::NoPreviousToken => "No previous token".to_string(),
            ParserError::UnknownError => "You're on your own pal".to_string(),
        }
    }
}

/// Whether `result`, left at position `end`, is what the grammar gives:
/// the same expression and position, or the same error.
pub open spec fn yields_expr(
    parsed: Parsed<ExprView>,
    result: Result<Expr<'_>, ParserError>,
    end: int,
) -> bool {
    match parsed {
        Ok((expr, next)) => result matches Ok(e) && e@ == expr && end == next,
        Err(error) => result matches Err(e) && e@ == error,
    }
}

/// Whether `result`, left at position `end`, is what the grammar gives:
/// the same statement and position, or the same error.
pub open spec fn yields_statement(
    parsed: Parsed<StatementView>,
    result: Result<Statement<'_>, ParserError>,
    end: int,
) -> bool {
    match parsed {
        Ok((statement, next)) => result matches Ok(s) && s@ == statement && end == next,
        Err(error) => result matches Err(e) && e@ == error,
    }
}

/// Whether `result`, left at position `end`, is what the grammar gives:
/// the same statements and position, or the same error.
pub open spec fn yields_statements(
    parsed: Parsed<Seq<StatementView>>,
    result: Result<Vec<Statement<'_>>, ParserError>,
    end: int,
) -> bool {
    match parsed {
        Ok((statements, next)) => result matches Ok(v) && statement_views(v@) == statements && end
            == next,
        Err(error) => result matches Err(e) && e@ == error,
    }
}

/// Whether `result`, left at position `end`, is what the grammar gives:
/// the same tokens and position, or the same error.
pub open spec fn yields_tokens(
    parsed: Parsed<Seq<TokenView>>,
    result: Result<Vec<&Token<'_>>, ParserError>,
    end: int,
) -> bool {
    match parsed {
        Ok((tokens, next)) => result matches Ok(v) && borrowed_views(v@) == tokens && end == next,
        Err(error) => result matches Err(e) && e@ == error,
    }
}

/// The `)` that closes a parameter list.
pub open spec fn closing_paren(ts: Seq<TokenView>, pos: int) -> Parsed<Seq<TokenView>> {
    match expect(ts, pos, TokenKind::RParen, "Expect ')' after parameters"@) {
        Ok(end) => Ok((Seq::empty(), end)),
        Err(error) => Err(error),
    }
}

/// Whether `kind` names a type.
fn names_type(kind: TokenKind) -> (b: bool)
    ensures
        b == is_type_keyword(kind),
{
    match kind {
        TokenKind::Int
        | TokenKind::Float
        | TokenKind::Char
        | TokenKind::Void
        | TokenKind::Struct => true,
        _ => false,
    }
}

/// Whether `kind` is one of `kinds`.
fn is_among(kinds: &[TokenKind], kind: TokenKind) -> (b: bool)
    ensures
        b == kinds@.contains(kind),
{
    let mut i: usize = 0;
    while i < kinds.len()
        invariant
            i <= kinds.len(),
            forall|k: int| 0 <= k < i ==> kinds@[k] != kind,
        decreases kinds.len() - i,
    {
        if kinds[i] == kind {
            return true;
        }
        i += 1;
    }
    false
}

/// A recursive-descent parser over a token sequence. It looks at the next
/// token, remembers the last one it took, and never goes back.
pub struct Parser<'a> {
    tokens: &'a [Token<'a>],
    /// How many tokens have been taken.
    current: usize,
}

impl<'a> Default for Parser<'a> {
    /// A parser with no tokens to read.
    fn default() -> (parser: Self)
        ensures
            parser.tokens() == Seq::<TokenView>::empty(),
            parser.position() == 0,
    {
        let parser = Parser { tokens: &[], current: 0 };
        assert(parser.tokens() =~= Seq::<TokenView>::empty());
        parser
    }
}

impl<'a> Parser<'a> {
    #[verifier::type_invariant]
    spec fn well_formed(self) -> bool {
        self.current <= self.tokens@.len()
    }

    /// The tokens that this parser reads.
    pub closed spec fn tokens(self) -> Seq<TokenView> {
        token_views(self.tokens@)
    }

    /// The number of tokens taken so far: the position of the next one.
    pub closed spec fn position(self) -> int {
        self.current as int
    }

    /// A parser at the start of `tokens`.
    pub fn new(tokens: &'a [Token<'a>]) -> (parser: Self)
        ensures
            parser.tokens() == token_views(tokens@),
            parser.position() == 0,
    {
        Parser { tokens, current: 0 }
    }

    /// The next token, if one is left.
    fn peek(&self) -> (token: Option<&'a Token<'a>>)
        ensures
            0 <= self.position() <= self.tokens().len(),
            match token {
                Some(t) => self.position() < self.tokens().len() && t@ == self.tokens()[self.position()],
                None => self.position() == self.tokens().len(),
            },
    {
        proof {
            use_type_invariant(self);
        }
        if self.current < self.tokens.len() {
            Some(&self.tokens[self.current])
        } else {
            None
        }
    }

    /// The token taken last.
    fn previous(&self) -> (result: Result<&'a Token<'a>, ParserError>)
        ensures
            match result {
                Ok(t) => 0 < self.position() <= self.tokens().len() && t@ == self.tokens()[
                    self.position() - 1],
                Err(error) => self.position() == 0 && error@ == ParserErrorView::NoPreviousToken,
            },
    {
        proof {
            use_type_invariant(self);
        }
        if self.current > 0 {
            Ok(&self.tokens[self.current - 1])
        } else {
            Err(ParserError::NoPreviousToken)
        }
    }

    /// Takes the next token.
    fn advance(&mut self) -> (result: Result<&'a Token<'a>, ParserError>)
        ensures
            final(self).tokens() == old(self).tokens(),
            match result {
                Ok(t) => old(self).position() < old(self).tokens().len() && t@ == old(
                    self,
                ).tokens()[old(self).position()] && final(self).position() == old(self).position()
                    + 1,
                Err(error) => old(self).position() == old(self).tokens().len() && error@
                    == ParserErrorView::UnexpectedEOF && final(self).position() == old(
                    self,
                ).position(),
            },
    {
        proof {
            use_type_invariant(&*self);
        }
        if self.current < self.tokens.len() {
            let token = &self.tokens[self.current];
            self.current = self.current + 1;
            Ok(token)
        } else {
            Err(ParserError::UnexpectedEOF)
        }
    }

    /// Whether the next token is of kind `kind`. Takes nothing.
    fn check(&self, kind: TokenKind) -> (b: bool)
        ensures
            b == (kind_at(self.tokens(), self.position()) == Some(kind)),
    {
        match self.peek() {
            Some(token) => token.kind == kind,
            None => false,
        }
    }

    /// Whether the next token is the end marker.
    fn eof(&self) -> (b: bool)
        ensures
            b == (kind_at(self.tokens(), self.position()) == Some(TokenKind::EOF)),
    {
        self.check(TokenKind::EOF)
    }

    /// Takes the next token if its kind is among `kinds`, and says whether
    /// it did.
    fn matches(&mut self, kinds: &[TokenKind]) -> (b: bool)
        ensures
            final(self).tokens() == old(self).tokens(),
            b == (old(self).position() < old(self).tokens().len() && kinds@.contains(
                old(self).tokens()[old(self).position()].kind,
            )),
            final(self).position() == old(self).position() + if b {
                1int
            } else {
                0int
            },
    {
        if let Some(token) = self.peek() {
            if is_among(kinds, token.kind) {
                let _ = self.advance();
                return true;
            }
        }
        false
    }

    /// Takes the next token if it is of kind `expected`, and otherwise fails
    /// with `message`, naming what was found instead, and takes nothing.
    fn consume(&mut self, expected: TokenKind, message: &str) -> (result: Result<
        &'a Token<'a>,
        ParserError,
    >)
        ensures
            final(self).tokens() == old(self).tokens(),
            match expect(old(self).tokens(), old(self).position(), expected, message@) {
                Ok(next) => result matches Ok(t) && t@ == old(self).tokens()[old(self).position()]
                    && final(self).position() == next,
                Err(error) => result matches Err(e) && e@ == error && final(self).position()
                    == old(self).position(),
            },
    {
        if self.check(expected) {
            return self.advance();
        }
        let found = match self.peek() {
            Some(token) => Some(token.kind),
            None => None,
        };
        Err(ParserError::ExpectedToken { expected, found, message: message.to_string() })
    }

    /// Parses one expression from the parser's position on: the expression,
    /// with the parser left after its last token, or the first error.
    ///
    /// The expression is well formed: a tighter operator lies below a
    /// looser one, and operators of one level nest to the left. The tokens
    /// taken write it out, so it has one grouping node for each `(` among
    /// them; and it is as long as it can be: no binary operator follows it.
    pub fn expression(&mut self) -> (result: Result<Expr<'a>, ParserError>)
        ensures
            final(self).tokens() == old(self).tokens(),
            yields_expr(
                parse_expression(old(self).tokens(), old(self).position()),
                result,
                final(self).position(),
            ),
            result matches Ok(expr) ==> {
                &&& well_formed(expr@)
                &&& writes(old(self).tokens(), old(self).position(), expr@)
                &&& final(self).position() == old(self).position() + width(expr@)
                &&& !binary_operator_at(old(self).tokens(), final(self).position())
                &&& groupings(expr@) == count_kind(
                    old(self).tokens(),
                    old(self).position(),
                    final(self).position(),
                    TokenKind::LParen,
                )
            },
        decreases old(self).tokens().len() - old(self).position(), 10nat,
    {
        proof {
            let ts = self.tokens();
            let pos = self.position();
            groupings_are_kept(ts, pos);
            match parse_expression(ts, pos) {
                Ok((expr, next)) => reading_is_exact(ts, pos, expr, next),
                Err(_) => {},
            }
        }
        self.equality()
    }

    /// An equality: comparisons joined by `!=` or `==`, nested to the left.
    fn equality(&mut self) -> (result: Result<Expr<'a>, ParserError>)
        ensures
            final(self).tokens() == old(self).tokens(),
            yields_expr(
                parse_binary(old(self).tokens(), old(self).position(), Level::Equality),
                result,
                final(self).position(),
            ),
        decreases old(self).tokens().len() - old(self).position(), 9nat,
    {
        let ghost ts = self.tokens();
        let ghost start = self.position();
        proof {
            use_type_invariant(&*self);
            lemma_operand_progress(ts, start, Level::Equality);
        }
        let mut expr = self.comparison()?;
        while self.matches(&[TokenKind::BangEqual, TokenKind::EqualEqual])
            invariant
                ts == old(self).tokens(),
                start == old(self).position(),
                self.tokens() == ts,
                start < self.position() <= ts.len(),
                parse_operators(ts, self.position(), Level::Equality, expr@) == parse_binary(
                    ts,
                    start,
                    Level::Equality,
                ),
            decreases ts.len() - self.position(),
        {
            proof {
                lemma_operand_progress(ts, self.position(), Level::Equality);
            }
            let operator = self.previous()?;
            let right = self.comparison()?;
            expr = Expr::Binary { left: Box::new(expr), operator, right: Box::new(right) };
        }
        Ok(expr)
    }

    /// A comparison: terms joined by `>`, `>=`, `<` or `<=`, nested to the left.
    fn comparison(&mut self) -> (result: Result<Expr<'a>, ParserError>)
        ensures
            final(self).tokens() == old(self).tokens(),
            yields_expr(
                parse_binary(old(self).tokens(), old(self).position(), Level::Comparison),
                result,
                final(self).position(),
            ),
        decreases old(self).tokens().len() - old(self).position(), 7nat,
    {
        let ghost ts = self.tokens();
        let ghost start = self.position();
        proof {
            use_type_invariant(&*self);
            lemma_operand_progress(ts, start, Level::Comparison);
        }
        let mut expr = self.term()?;
        while self.matches(&[
            TokenKind::Greater,
            TokenKind::GreaterEqual,
            TokenKind::Less,
            TokenKind::LessEqual,
        ])
            invariant
                ts == old(self).tokens(),
                start == old(self).position(),
                self.tokens() == ts,
                start < self.position() <= ts.len(),
                parse_operators(ts, self.position(), Level::Comparison, expr@) == parse_binary(
                    ts,
                    start,
                    Level::Comparison,
                ),
            decreases ts.len() - self.position(),
        {
            proof {
                lemma_operand_progress(ts, self.position(), Level::Comparison);
            }
            let operator = self.previous()?;
            let right = self.term()?;
            expr = Expr::Binary { left: Box::new(expr), operator, right: Box::new(right) };
        }
        Ok(expr)
    }

    /// A term: factors joined by `-` or `+`, nested to the left.
    fn term(&mut self) -> (result: Result<Expr<'a>, ParserError>)
        ensures
            final(self).tokens() == old(self).tokens(),
            yields_expr(
                parse_binary(old(self).tokens(), old(self).position(), Level::Term),
                result,
                final(self).position(),
            ),
        decreases old(self).tokens().len() - old(self).position(), 5nat,
    {
        let ghost ts = self.tokens();
        let ghost start = self.position();
        proof {
            use_type_invariant(&*self);
            lemma_operand_progress(ts, start, Level::Term);
        }
        let mut expr = self.factor()?;
        while self.matches(&[TokenKind::Minus, TokenKind::Plus])
            invariant
                ts == old(self).tokens(),
                start == old(self).position(),
                self.tokens() == ts,
                start < self.position() <= ts.len(),
                parse_operators(ts, self.position(), Level::Term, expr@) == parse_binary(
                    ts,
                    start,
                    Level::Term,
                ),
            decreases ts.len() - self.position(),
        {
            proof {
                lemma_operand_progress(ts, self.position(), Level::Term);
            }
            let operator = self.previous()?;
            let right = self.factor()?;
            expr = Expr::Binary { left: Box::new(expr), operator, right: Box::new(right) };
        }
        Ok(expr)
    }

    /// A factor: unary expressions joined by `/` or `*`, nested to the left.
    fn factor(&mut self) -> (result: Result<Expr<'a>, ParserError>)
        ensures
            final(self).tokens() == old(self).tokens(),
            yields_expr(
                parse_binary(old(self).tokens(), old(self).position(), Level::Factor),
                result,
                final(self).position(),
            ),
        decreases old(self).tokens().len() - old(self).position(), 3nat,
    {
        let ghost ts = self.tokens();
        let ghost start = self.position();
        proof {
            use_type_invariant(&*self);
            lemma_operand_progress(ts, start, Level::Factor);
        }
        let mut expr = self.unary()?;
        while self.matches(&[TokenKind::Slash, TokenKind::Star])
            invariant
                ts == old(self).tokens(),
                start == old(self).position(),
                self.tokens() == ts,
                start < self.position() <= ts.len(),
                parse_operators(ts, self.position(), Level::Factor, expr@) == parse_binary(
                    ts,
                    start,
                    Level::Factor,
                ),
            decreases ts.len() - self.position(),
        {
            proof {
                lemma_operand_progress(ts, self.position(), Level::Factor);
            }
            let operator = self.previous()?;
            let right = self.unary()?;
            expr = Expr::Binary { left: Box::new(expr), operator, right: Box::new(right) };
        }
        Ok(expr)
    }

    /// A unary expression: `!` or `-` before a unary expression, or a
    /// primary expression.
    fn unary(&mut self) -> (result: Result<Expr<'a>, ParserError>)
        ensures
            final(self).tokens() == old(self).tokens(),
            yields_expr(
                parse_unary(old(self).tokens(), old(self).position()),
                result,
                final(self).position(),
            ),
        decreases old(self).tokens().len() - old(self).position(), 1nat,
    {
        proof {
            use_type_invariant(&*self);
        }
        if self.matches(&[TokenKind::Bang, TokenKind::Minus]) {
            let operator = self.previous()?;
            let right = self.unary()?;
            return Ok(Expr::Unary { operator, right: Box::new(right) });
        }
        self.primary()
    }

    /// A primary expression: a constant, `true` or `false`, a name, or an
    /// expression in parentheses. Where the next token begins none of
    /// these, or no token is left, it fails and takes nothing.
    fn primary(&mut self) -> (result: Result<Expr<'a>, ParserError>)
        ensures
            final(self).tokens() == old(self).tokens(),
            yields_expr(
                parse_primary(old(self).tokens(), old(self).position()),
                result,
                final(self).position(),
            ),
            result is Err && kind_at(old(self).tokens(), old(self).position()) != Some(
                TokenKind::LParen,
            ) ==> final(self).position() == old(self).position(),
        decreases old(self).tokens().len() - old(self).position(), 0nat,
    {
        if let Some(token) = self.peek() {
            match token.kind {
                TokenKind::False | TokenKind::True | TokenKind::Constant => {
                    let token = self.advance()?;
                    return Ok(Expr::Literal(token.literal));
                },
                TokenKind::Identifier => {
                    let token = self.advance()?;
                    return Ok(Expr::Identifier(token));
                },
                TokenKind::LParen => {
                    let _ = self.advance();
                    let expr = self.expression()?;
                    self.consume(TokenKind::RParen, "Expect ')' after expression")?;
                    return Ok(Expr::Grouping(Box::new(expr)));
                },
                _ => {
                    return Err(
                        ParserError::UnknownPrimaryToken { line: token.line, kind: token.kind },
                    );
                },
            }
        }
        Err(ParserError::UnknownError)
    }

    /// The kind of the token `offset` tokens after the next one, if there
    /// is one. Takes nothing.
    fn kind_ahead(&self, offset: usize) -> (kind: Option<TokenKind>)
        ensures
            kind == kind_at(self.tokens(), self.position() + offset),
    {
        proof {
            use_type_invariant(self);
        }
        if offset < self.tokens.len() - self.current {
            Some(self.tokens[self.current + offset].kind)
        } else {
            None
        }
    }

    /// Whether a type and a name come next. Takes nothing.
    fn at_typed_name(&self) -> (b: bool)
        ensures
            b == (0 <= self.position() < self.tokens().len() && is_type_keyword(
                self.tokens()[self.position()].kind,
            ) && kind_at(self.tokens(), self.position() + 1) == Some(TokenKind::Identifier)),
    {
        match self.peek() {
            Some(token) => names_type(token.kind) && self.kind_ahead(1) == Some(
                TokenKind::Identifier,
            ),
            None => false,
        }
    }

    /// An expression, then the `;` that ends its statement.
    fn terminated(&mut self, message: &str) -> (result: Result<Expr<'a>, ParserError>)
        ensures
            final(self).tokens() == old(self).tokens(),
            yields_expr(
                parse_terminated(old(self).tokens(), old(self).position(), message@),
                result,
                final(self).position(),
            ),
    {
        let expr = self.expression()?;
        self.consume(TokenKind::Semicolon, message)?;
        Ok(expr)
    }

    /// An expression used as a statement.
    fn expression_statement(&mut self) -> (result: Result<Statement<'a>, ParserError>)
        ensures
            final(self).tokens() == old(self).tokens(),
            yields_statement(
                parse_expression_statement(old(self).tokens(), old(self).position()),
                result,
                final(self).position(),
            ),
    {
        let expr = self.terminated("Expect ';' after expression")?;
        Ok(Statement::Expression(expr))
    }

    /// A return statement, from its keyword on.
    fn return_statement(&mut self) -> (result: Result<Statement<'a>, ParserError>)
        requires
            kind_at(old(self).tokens(), old(self).position()) == Some(TokenKind::Return),
        ensures
            final(self).tokens() == old(self).tokens(),
            yields_statement(
                parse_return(old(self).tokens(), old(self).position()),
                result,
                final(self).position(),
            ),
    {
        let keyword = self.advance()?;
        if self.matches(&[TokenKind::Semicolon]) {
            return Ok(Statement::Return { keyword, value: None });
        }
        let value = self.terminated("Expect ';' after return value")?;
        Ok(Statement::Return { keyword, value: Some(value) })
    }

    /// A variable declaration, from its type on.
    fn variable(&mut self) -> (result: Result<Statement<'a>, ParserError>)
        requires
            starts_variable(old(self).tokens(), old(self).position()),
        ensures
            final(self).tokens() == old(self).tokens(),
            yields_statement(
                parse_variable(old(self).tokens(), old(self).position()),
                result,
                final(self).position(),
            ),
    {
        self.advance()?;
        let name = self.advance()?;
        if self.matches(&[TokenKind::Equal]) {
            let value = self.terminated("Expect ';' after variable declaration")?;
            return Ok(Statement::VarDecl { name, initialiser: Some(value) });
        }
        self.advance()?;
        Ok(Statement::VarDecl { name, initialiser: None })
    }

    /// The parameters of a function, from the token after its `(` on: their
    /// names.
    fn parameters(&mut self) -> (result: Result<Vec<&'a Token<'a>>, ParserError>)
        ensures
            final(self).tokens() == old(self).tokens(),
            yields_tokens(
                parse_parameters(old(self).tokens(), old(self).position()),
                result,
                final(self).position(),
            ),
    {
        let ghost ts = self.tokens();
        let ghost start = self.position();
        let mut params: Vec<&'a Token<'a>> = Vec::new();
        if self.matches(&[TokenKind::RParen]) {
            assert(borrowed_views(params@) =~= Seq::empty());
            return Ok(params);
        }
        if self.check(TokenKind::Void) && self.kind_ahead(1) == Some(TokenKind::RParen) {
            self.advance()?;
            self.advance()?;
            assert(borrowed_views(params@) =~= Seq::empty());
            return Ok(params);
        }
        assert(after(borrowed_views(params@), parse_parameter_list(ts, start))
            == parse_parameter_list(ts, start)) by {
            assert(borrowed_views(params@) =~= Seq::empty());
            match parse_parameter_list(ts, start) {
                Ok((items, end)) => {
                    assert(Seq::<TokenView>::empty() + items =~= items);
                },
                Err(_) => {},
            }
        }
        loop
            invariant_except_break
                ts == old(self).tokens(),
                self.tokens() == ts,
                after(borrowed_views(params@), parse_parameter_list(ts, self.position()))
                    == parse_parameters(ts, old(self).position()),
            ensures
                self.tokens() == ts,
                after(borrowed_views(params@), closing_paren(ts, self.position()))
                    == parse_parameters(ts, old(self).position()),
            decreases ts.len() - self.position(),
        {
            proof {
                use_type_invariant(&*self);
            }
            let ghost pos = self.position();
            let ghost before = borrowed_views(params@);
            let found = self.kind_ahead(0);
            let typed = match found {
                Some(kind) => names_type(kind),
                None => false,
            };
            if !typed {
                return Err(
                    ParserError::ExpectedToken {
                        expected: TokenKind::Int,
                        found,
                        message: "Expect parameter type".to_string(),
                    },
                );
            }
            self.advance()?;
            let name = self.consume(TokenKind::Identifier, "Expect parameter name")?;
            params.push(name);
            proof {
                assert(borrowed_views(params@) =~= before.push(name@));
                assert(before.push(name@) =~= before + seq![ts[pos + 1]]);
                match parse_parameter_list(ts, pos + 3) {
                    Ok((rest, end)) => {
                        assert((before + seq![ts[pos + 1]]) + rest =~= before + (seq![ts[pos + 1]]
                            + rest));
                    },
                    Err(_) => {},
                }
                assert((before + seq![ts[pos + 1]]) + Seq::<TokenView>::empty() =~= before
                    + seq![ts[pos + 1]]);
            }
            if !self.matches(&[TokenKind::Comma]) {
                break ;
            }
        }
        self.consume(TokenKind::RParen, "Expect ')' after parameters")?;
        proof {
            assert(borrowed_views(params@) + Seq::<TokenView>::empty() =~= borrowed_views(params@));
        }
        Ok(params)
    }

    /// The rest of a function's body, from a token after its `{` on: the
    /// declarations up to the closing `}`.
    fn block(&mut self) -> (result: Result<Vec<Statement<'a>>, ParserError>)
        ensures
            final(self).tokens() == old(self).tokens(),
            yields_statements(
                parse_block(old(self).tokens(), old(self).position()),
                result,
                final(self).position(),
            ),
        decreases old(self).tokens().len() - old(self).position(), 3nat,
    {
        let ghost ts = self.tokens();
        let ghost start = self.position();
        let mut statements: Vec<Statement<'a>> = Vec::new();
        proof {
            use_type_invariant(&*self);
            assert(statement_views(statements@) =~= Seq::empty());
            match parse_block(ts, start) {
                Ok((items, end)) => {
                    assert(Seq::<StatementView>::empty() + items =~= items);
                },
                Err(_) => {},
            }
        }
        while !(self.check(TokenKind::RBrace) || self.eof() || self.peek().is_none())
            invariant
                ts == old(self).tokens(),
                start == old(self).position(),
                self.tokens() == ts,
                start <= self.position() <= ts.len(),
                after(statement_views(statements@), parse_block(ts, self.position()))
                    == parse_block(ts, start),
            decreases ts.len() - self.position(),
        {
            let ghost pos = self.position();
            let ghost before = statement_views(statements@);
            proof {
                lemma_declaration_progress(ts, pos);
            }
            let statement = self.declaration()?;
            statements.push(statement);
            proof {
                assert(statement_views(statements@) =~= before.push(statement@));
                match parse_block(ts, self.position()) {
                    Ok((rest, end)) => {
                        assert((before.push(statement@)) + rest =~= before + (seq![statement@]
                            + rest));
                    },
                    Err(_) => {},
                }
            }
        }
        self.consume(TokenKind::RBrace, "Expect '}' after function body")?;
        proof {
            assert(statement_views(statements@) + Seq::<StatementView>::empty()
                =~= statement_views(statements@));
        }
        Ok(statements)
    }

    /// A function, from its type on.
    fn function(&mut self) -> (result: Result<Statement<'a>, ParserError>)
        requires
            starts_function(old(self).tokens(), old(self).position()),
        ensures
            final(self).tokens() == old(self).tokens(),
            yields_statement(
                parse_function(old(self).tokens(), old(self).position()),
                result,
                final(self).position(),
            ),
        decreases old(self).tokens().len() - old(self).position(), 1nat,
    {
        proof {
            lemma_parameters_progress(self.tokens(), self.position() + 3);
        }
        self.advance()?;
        let name = self.advance()?;
        self.advance()?;
        let params = self.parameters()?;
        self.consume(TokenKind::LBrace, "Expect '{' before function body")?;
        let body = self.block()?;
        let statement = Statement::Function { name, params, body };
        proof {
            assert(statement@->Function_body =~= statement_views(body@));
        }
        Ok(statement)
    }

    /// A declaration: a function, a variable, a return statement or an
    /// expression statement, as the next tokens decide.
    fn declaration(&mut self) -> (result: Result<Statement<'a>, ParserError>)
        ensures
            final(self).tokens() == old(self).tokens(),
            yields_statement(
                parse_declaration(old(self).tokens(), old(self).position()),
                result,
                final(self).position(),
            ),
        decreases old(self).tokens().len() - old(self).position(), 2nat,
    {
        if self.at_typed_name() {
            let third = self.kind_ahead(2);
            if third == Some(TokenKind::LParen) {
                return self.function();
            }
            if third == Some(TokenKind::Equal) || third == Some(TokenKind::Semicolon) {
                return self.variable();
            }
        }
        if self.check(TokenKind::Return) {
            return self.return_statement();
        }
        self.expression_statement()
    }

    /// Parses the tokens from the parser's position up to the end marker:
    /// the statements in order, with the parser left at the end marker, or
    /// the first error. No statement is given where there is an error.
    ///
    /// Every statement given is well formed.
    pub fn parse(&mut self) -> (result: Result<Vec<Statement<'a>>, ParserError>)
        ensures
            final(self).tokens() == old(self).tokens(),
            yields_statements(
                parse_program(old(self).tokens(), old(self).position()),
                result,
                final(self).position(),
            ),
            result matches Ok(statements) ==> all_well_formed(statement_views(statements@)),
    {
        let ghost ts = self.tokens();
        let ghost start = self.position();
        let mut statements: Vec<Statement<'a>> = Vec::new();
        proof {
            programs_are_well_formed(ts, start);
            use_type_invariant(&*self);
            assert(statement_views(statements@) =~= Seq::empty());
            match parse_program(ts, start) {
                Ok((items, end)) => {
                    assert(Seq::<StatementView>::empty() + items =~= items);
                },
                Err(_) => {},
            }
        }
        while !self.eof()
            invariant
                ts == old(self).tokens(),
                self.tokens() == ts,
                self.position() <= ts.len(),
                after(statement_views(statements@), parse_program(ts, self.position()))
                    == parse_program(ts, old(self).position()),
            decreases ts.len() - self.position(),
        {
            let ghost pos = self.position();
            let ghost before = statement_views(statements@);
            proof {
                lemma_declaration_progress(ts, pos);
            }
            let statement = self.declaration()?;
            statements.push(statement);
            proof {
                assert(statement_views(statements@) =~= before.push(statement@));
                match parse_program(ts, self.position()) {
                    Ok((rest, end)) => {
                        assert((before.push(statement@)) + rest =~= before + (seq![statement@]
                            + rest));
                    },
                    Err(_) => {},
                }
            }
        }
        proof {
            assert(statement_views(statements@) + Seq::<StatementView>::empty()
                =~= statement_views(statements@));
        }
        Ok(statements)
    }
}

/// Parses `tokens`: the statements up to the end marker, in order, or the
/// first error. Every statement given is well formed.
pub fn parse<'a>(tokens: &'a [Token<'a>]) -> (result: Result<Vec<Statement<'a>>, ParserError>)
    ensures
        match parse_program(token_views(tokens@), 0) {
            Ok((statements, _)) => result matches Ok(v) && statement_views(v@) == statements,
            Err(error) => result matches Err(e) && e@ == error,
        },
        result matches Ok(statements) ==> all_well_formed(statement_views(statements@)),
{
    let mut parser = Parser::new(tokens);
    parser.parse()
}

} // verus!
