//! The lexer: one pass over the source text that yields the token sequence,
//! or every lexical error the text holds.

use vstd::prelude::*;
use vstd::slice::slice_subrange;
use crate::lexemes::{
    closing_quote, end_token, errors_among, in_class, is_blank, is_operator_pair, is_reserved,
    is_unterminated_string, lemma_closing_quote, lemma_lexeme_bounds, lemma_lexeme_one_line,
    lemma_line_bounds, lemma_line_step, lemma_same_line, lex_errors, lex_tokens, lexeme_at,
    lexeme_token, lexemes, lexemes_from, line_at, line_start, literal_of, operator_alone,
    punctuation, run_end, stray_count, strings_are_closed, tokens_among, with_equal, CharClass,
    LexErrorView, Lexeme, LexemeKind,
};
use crate::lexer_theorems::{
    blank_text_is_one_end_marker, one_stray_character_is_one_error, operator_pair_is_one_token,
    unterminated_string_is_reported,
};
use crate::token::{keyword, token_views, Token, TokenKind};

verus! {

/// A lexical error.
#[derive(Debug, Clone, Copy, PartialEq, Eq)]
pub enum LexError {
    /// A string begins on `line` and the text ends before it is closed.
    UnterminatedString { line: usize },
    /// The character `char`, at `line` and `column`, begins no token.
    UnexpectedChar { line: usize, column: usize, char: char },
}

impl View for LexError {
    type V = LexErrorView;

    open spec fn view(&self) -> LexErrorView {
        match *self {
            LexError::UnterminatedString { line } => LexErrorView::UnterminatedString {
                line: line as nat,
            },
            LexError::UnexpectedChar { line, column, char } => LexErrorView::UnexpectedChar {
                line: line as nat,
                column: column as nat,
                char,
            },
        }
    }
}

/// The views of a sequence of errors, in order.
pub open spec fn error_views(errors: Seq<LexError>) -> Seq<LexErrorView> {
    errors.map_values(|e: LexError| e@)
}

/// Whether `result` is exactly one token, the end marker of `src`.
pub open spec fn only_end_marker(
    src: Seq<char>,
    result: Result<Vec<Token<'_>>, Vec<LexError>>,
) -> bool {
    result matches Ok(tokens) && tokens@.len() == 1 && tokens@[0]@ == end_token(src)
}

/// Whether `result` is two tokens: the operator that the two characters of
/// `src` spell together, then the end marker.
pub open spec fn one_operator(src: Seq<char>, result: Result<Vec<Token<'_>>, Vec<LexError>>) -> bool {
    &&& result matches Ok(tokens)
    &&& tokens@.len() == 2
    &&& tokens@[0].kind == with_equal(operator_alone(src[0])->0)
    &&& tokens@[0].lexeme@ == src
    &&& tokens@[1]@ == end_token(src)
}

/// Whether `result` is an error that holds `UnterminatedString` for the
/// lexeme at index `k` of `src`, with the line on which that string begins.
pub open spec fn reports_open_string(
    src: Seq<char>,
    k: int,
    result: Result<Vec<Token<'_>>, Vec<LexError>>,
) -> bool {
    result matches Err(errors) && errors@.len() > 0 && error_views(errors@).contains(
        LexErrorView::UnterminatedString { line: line_at(src, lexemes(src)[k].start) },
    )
}

/// Whether `result` is exactly one error, and that error `UnexpectedChar`.
pub open spec fn one_unexpected_char(result: Result<Vec<Token<'_>>, Vec<LexError>>) -> bool {
    result matches Err(errors) && errors@.len() == 1 && errors@[0] is UnexpectedChar
}

/// What lexing `src` must give: the tokens where the text holds no error,
/// and otherwise all of its errors and no token.
pub open spec fn lexed(src: Seq<char>, result: Result<Vec<Token<'_>>, Vec<LexError>>) -> bool {
    match result {
        Ok(tokens) => lex_errors(src).len() == 0 && token_views(tokens@) == lex_tokens(src),
        Err(errors) => errors.len() > 0 && error_views(errors@) == lex_errors(src),
    }
}

/// Whether `c` belongs to `class`.
fn belongs(class: CharClass, c: char) -> (b: bool)
    ensures
        b == in_class(class, c),
{
    match class {
        CharClass::Digit => c >= '0' && c <= '9',
        CharClass::Name => (c >= 'a' && c <= 'z') || (c >= 'A' && c <= 'Z') || c == '_' || (c
            >= '0' && c <= '9'),
        CharClass::Comment => c != '\n',
    }
}

/// The kind of a character that is a token by itself.
fn punctuation_kind(c: char) -> (kind: Option<TokenKind>)
    ensures
        kind == punctuation(c),
{
    if c == '(' {
        Some(TokenKind::LParen)
    } else if c == ')' {
        Some(TokenKind::RParen)
    } else if c == '{' {
        Some(TokenKind::LBrace)
    } else if c == '}' {
        Some(TokenKind::RBrace)
    } else if c == ',' {
        Some(TokenKind::Comma)
    } else if c == ';' {
        Some(TokenKind::Semicolon)
    } else if c == '*' {
        Some(TokenKind::Star)
    } else if c == '-' {
        Some(TokenKind::Minus)
    } else if c == '+' {
        Some(TokenKind::Plus)
    } else {
        None
    }
}

/// The kind of an operator character that `=` may follow, and the kind of
/// the two together.
fn operator_kinds(c: char) -> (kinds: Option<(TokenKind, TokenKind)>)
    ensures
        match kinds {
            Some((alone, pair)) => operator_alone(c) == Some(alone) && pair == with_equal(alone),
            None => operator_alone(c) is None,
        },
{
    if c == '!' {
        Some((TokenKind::Bang, TokenKind::BangEqual))
    } else if c == '=' {
        Some((TokenKind::Equal, TokenKind::EqualEqual))
    } else if c == '>' {
        Some((TokenKind::Greater, TokenKind::GreaterEqual))
    } else if c == '<' {
        Some((TokenKind::Less, TokenKind::LessEqual))
    } else {
        None
    }
}

/// A source text made ready for lexing.
pub struct Lexer<'a> {
    source: &'a str,
    /// The characters of `source`, then a NUL that ends the buffer, so that
    /// the character after any character of the text can be read.
    chars: Vec<char>,
}

impl<'a> Lexer<'a> {
    #[verifier::type_invariant]
    spec fn well_formed(self) -> bool {
        self.chars@ == self.source@.push('\0')
    }

    /// The text that this lexer reads.
    pub closed spec fn text(self) -> Seq<char> {
        self.source@
    }

    /// A lexer for `source`.
    pub fn from_string(source: &'a str) -> (lexer: Self)
        ensures
            lexer.text() == source@,
    {
        let mut chars: Vec<char> = Vec::new();
        for c in it: source.chars()
            invariant
                it.seq() == source@,
                chars@ == it.seq().take(it.index() as int),
        {
            chars.push(c);
        }
        assert(chars@ == source@);
        chars.push('\0');
        Lexer { source, chars }
    }

    /// The number of characters of the text.
    fn len(&self) -> (n: usize)
        ensures
            n == self.text().len(),
            n < usize::MAX,
    {
        proof {
            use_type_invariant(self);
        }
        self.chars.len() - 1
    }

    /// The character at `i`; past the last character of the text, a NUL.
    fn at(&self, i: usize) -> (c: char)
        requires
            i <= self.text().len(),
        ensures
            i < self.text().len() ==> c == self.text()[i as int],
            i == self.text().len() ==> c == '\0',
    {
        proof {
            use_type_invariant(self);
        }
        self.chars[i]
    }

    /// The end of the run of `class` characters that starts at `from`.
    fn skip_run(&self, class: CharClass, from: usize) -> (end: usize)
        requires
            from <= self.text().len(),
        ensures
            end == run_end(self.text(), class, from as int),
            from <= end <= self.text().len(),
    {
        let n = self.len();
        let mut i = from;
        while i < n && belongs(class, self.at(i))
            invariant
                from <= i <= n,
                n == self.text().len(),
                run_end(self.text(), class, i as int) == run_end(self.text(), class, from as int),
            decreases n - i,
        {
            i += 1;
        }
        i
    }

    /// The position of the quote that closes the string whose body starts
    /// at `from`, or the length of the text.
    fn find_closing_quote(&self, from: usize) -> (close: usize)
        requires
            from <= self.text().len(),
        ensures
            close == closing_quote(self.text(), from as int),
            from <= close <= self.text().len(),
    {
        let n = self.len();
        let mut i = from;
        while i < n && self.at(i) != '"'
            invariant
                from <= i <= n,
                n == self.text().len(),
                closing_quote(self.text(), i as int) == closing_quote(self.text(), from as int),
            decreases n - i,
        {
            if self.at(i) == '\\' && i + 1 < n {
                i += 2;
            } else {
                i += 1;
            }
        }
        i
    }

    /// The kind and the end of the lexeme that begins at `pos`.
    fn scan(&self, pos: usize) -> (found: (LexemeKind, usize))
        requires
            pos < self.text().len(),
        ensures
            found.0 == lexeme_at(self.text(), pos as int).kind,
            found.1 == lexeme_at(self.text(), pos as int).end,
            pos < found.1 <= self.text().len(),
    {
        proof {
            use_type_invariant(self);
            reveal(lexeme_at);
            lemma_lexeme_bounds(self.text(), pos as int);
        }
        let n = self.len();
        let c = self.at(pos);
        if let Some(kind) = punctuation_kind(c) {
            (LexemeKind::Token(kind), pos + 1)
        } else if let Some((alone, pair)) = operator_kinds(c) {
            if self.at(pos + 1) == '=' {
                (LexemeKind::Token(pair), pos + 2)
            } else {
                (LexemeKind::Token(alone), pos + 1)
            }
        } else if c == '/' {
            if self.at(pos + 1) == '/' {
                (LexemeKind::Skipped, self.skip_run(CharClass::Comment, pos + 2))
            } else {
                (LexemeKind::Token(TokenKind::Slash), pos + 1)
            }
        } else if c == ' ' || c == '\t' || c == '\r' || c == '\n' {
            (LexemeKind::Skipped, pos + 1)
        } else if c == '"' {
            let close = self.find_closing_quote(pos + 1);
            if close < n {
                (LexemeKind::Token(TokenKind::Constant), close + 1)
            } else {
                (LexemeKind::OpenString, n)
            }
        } else if belongs(CharClass::Digit, c) {
            let whole = self.skip_run(CharClass::Digit, pos);
            if self.at(whole) == '.' && belongs(CharClass::Digit, self.at(whole + 1)) {
                (LexemeKind::Token(TokenKind::Constant), self.skip_run(CharClass::Digit, whole + 1))
            } else {
                (LexemeKind::Token(TokenKind::Constant), whole)
            }
        } else if (c >= 'a' && c <= 'z') || (c >= 'A' && c <= 'Z') || c == '_' {
            let end = self.skip_run(CharClass::Name, pos);
            let word = slice_subrange(self.chars.as_slice(), pos, end);
            assert(word@ == self.text().subrange(pos as int, end as int));
            match keyword(word) {
                Some(reserved) => (LexemeKind::Token(reserved), end),
                None => (LexemeKind::Token(TokenKind::Identifier), end),
            }
        } else {
            (LexemeKind::Stray, pos + 1)
        }
    }

    /// The line and the start of the line at `to`, from those at `from`.
    fn lines_through(&self, from: usize, to: usize, line: usize, line_begin: usize) -> (found: (
        usize,
        usize,
    ))
        requires
            from <= to <= self.text().len(),
            line == line_at(self.text(), from as int),
            line_begin == line_start(self.text(), from as int),
        ensures
            found.0 == line_at(self.text(), to as int),
            found.1 == line_start(self.text(), to as int),
    {
        let n = self.len();
        let mut i = from;
        let mut line = line;
        let mut line_begin = line_begin;
        while i < to
            invariant
                from <= i <= to <= n,
                n == self.text().len(),
                n < usize::MAX,
                line == line_at(self.text(), i as int),
                line_begin == line_start(self.text(), i as int),
            decreases to - i,
        {
            proof {
                lemma_line_step(self.text(), i as int);
                lemma_line_bounds(self.text(), i as int);
            }
            if self.at(i) == '\n' {
                line += 1;
                line_begin = i + 1;
            }
            i += 1;
        }
        (line, line_begin)
    }

    /// The token of kind `kind` whose text runs from `start` to `end` and
    /// which starts on `line`.
    fn token(&self, kind: TokenKind, start: usize, end: usize, line: usize) -> (token: Token<'a>)
        requires
            start < self.text().len(),
            lexeme_at(self.text(), start as int) == (Lexeme {
                kind: LexemeKind::Token(kind),
                start: start as int,
                end: end as int,
            }),
            line == line_at(self.text(), start as int),
        ensures
            Some(token@) == lexeme_token(self.text(), lexeme_at(self.text(), start as int)),
    {
        proof {
            reveal(lexeme_at);
            lemma_lexeme_bounds(self.text(), start as int);
            lemma_closing_quote(self.text(), start + 1);
            reveal_strlit("");
        }
        let lexeme = self.source.substring_char(start, end);
        let literal = if kind == TokenKind::Constant && self.at(start) == '"' {
            self.source.substring_char(start + 1, end - 1)
        } else if carries_text(kind) {
            lexeme
        } else {
            ""
        };
        assert(literal@ =~= literal_of(self.text(), kind, start as int, end as int));
        Token { kind, lexeme, literal, line }
    }

    /// Lexes the text: the tokens, closed by `EOF`, where the text holds no
    /// lexical error, and otherwise every error it holds, in the order of
    /// their places. The scan never stops at an error.
    ///
    /// In particular: a text of white space and comments alone gives the
    /// end marker and nothing else; `!=`, `==`, `>=` or `<=` alone gives one
    /// operator, never two; a string that is never closed makes the result
    /// an error that reports it; and a text whose one fault is a single
    /// unexpected character gives exactly that error.
    pub fn tokenise(&self) -> (result: Result<Vec<Token<'a>>, Vec<LexError>>)
        ensures
            lexed(self.text(), result),
            is_blank(self.text()) ==> only_end_marker(self.text(), result),
            is_operator_pair(self.text()) ==> one_operator(self.text(), result),
            forall|k: int| #[trigger]
                is_unterminated_string(self.text(), k) ==> reports_open_string(
                    self.text(),
                    k,
                    result,
                ),
            stray_count(lexemes(self.text())) == 1 && strings_are_closed(lexemes(self.text()))
                ==> one_unexpected_char(result),
    {
        let n = self.len();
        let mut tokens: Vec<Token<'a>> = Vec::new();
        let mut errors: Vec<LexError> = Vec::new();
        let mut pos: usize = 0;
        let mut line: usize = 1;
        let mut line_begin: usize = 0;
        let ghost src = self.text();
        let ghost mut done: Seq<Lexeme> = Seq::empty();
        assert(done + lexemes_from(src, 0) =~= lexemes(src));
        while pos < n
            invariant
                pos <= n,
                n == src.len(),
                n < usize::MAX,
                src == self.text(),
                done + lexemes_from(src, pos as int) == lexemes(src),
                token_views(tokens@) == tokens_among(src, done),
                error_views(errors@) == errors_among(src, done),
                line == line_at(src, pos as int),
                line_begin == line_start(src, pos as int),
            decreases n - pos,
        {
            let ghost lexeme = lexeme_at(src, pos as int);
            let (kind, end) = self.scan(pos);
            let first = self.at(pos);
            proof {
                lemma_lexeme_bounds(src, pos as int);
                lemma_line_bounds(src, pos as int);
                assert(done.push(lexeme).drop_last() =~= done);
                assert(done.push(lexeme) + lexemes_from(src, end as int) =~= done + lexemes_from(
                    src,
                    pos as int,
                ));
            }
            match kind {
                LexemeKind::Token(kind) => {
                    let token = self.token(kind, pos, end, line);
                    let ghost before = tokens@;
                    tokens.push(token);
                    assert(token_views(tokens@) =~= token_views(before).push(token@));
                },
                LexemeKind::Skipped => {},
                LexemeKind::Stray => {
                    let error = LexError::UnexpectedChar {
                        line,
                        column: pos - line_begin + 1,
                        char: first,
                    };
                    let ghost before = errors@;
                    errors.push(error);
                    assert(error_views(errors@) =~= error_views(before).push(error@));
                },
                LexemeKind::OpenString => {
                    let error = LexError::UnterminatedString { line };
                    let ghost before = errors@;
                    errors.push(error);
                    assert(error_views(errors@) =~= error_views(before).push(error@));
                },
            }
            if first == '\n' || first == '"' {
                let (next_line, next_begin) = self.lines_through(pos, end, line, line_begin);
                line = next_line;
                line_begin = next_begin;
            } else {
                proof {
                    lemma_lexeme_one_line(src, pos as int);
                    lemma_same_line(src, pos as int, end as int);
                }
            }
            pos = end;
            proof {
                done = done.push(lexeme);
            }
        }
        proof {
            reveal_strlit("");
            assert(done =~= lexemes(src));
        }
        let marker = Token { kind: TokenKind::EOF, lexeme: "", literal: "", line };
        let ghost before = tokens@;
        tokens.push(marker);
        assert(marker.lexeme@ =~= Seq::empty());
        assert(marker@ == end_token(src));
        assert(token_views(tokens@) =~= token_views(before).push(marker@));
        assert(error_views(errors@).len() == errors.len());
        let result = if errors.len() == 0 {
            Ok(tokens)
        } else {
            Err(errors)
        };
        proof {
            if is_blank(src) {
                blank_text_is_one_end_marker(src);
            }
            if is_operator_pair(src) {
                operator_pair_is_one_token(src);
                assert(token_views(tokens@)[0] == tokens@[0]@);
                assert(token_views(tokens@)[1] == tokens@[1]@);
            }
            assert forall|k: int| #[trigger] is_unterminated_string(src, k) implies reports_open_string(
                src,
                k,
                result,
            ) by {
                unterminated_string_is_reported(src, k);
            }
            if stray_count(lexemes(src)) == 1 && strings_are_closed(lexemes(src)) {
                one_stray_character_is_one_error(src);
            }
        }
        result
    }
}

/// Whether a token of this kind carries its matched text as its payload.
fn carries_text(kind: TokenKind) -> (b: bool)
    ensures
        b == (kind == TokenKind::Constant || kind == TokenKind::Identifier || is_reserved(kind)),
{
    match kind {
        TokenKind::Constant
        | TokenKind::Identifier
        | TokenKind::Return
        | TokenKind::If
        | TokenKind::Else
        | TokenKind::Int
        | TokenKind::Float
        | TokenKind::Char
        | TokenKind::Struct
        | TokenKind::Void
        | TokenKind::True
        | TokenKind::False => true,
        _ => false,
    }
}

/// Lexes `source`: the tokens, closed by `EOF`, where the text holds no
/// lexical error, and otherwise every error it holds and no token.
///
/// In particular: a text of white space and comments alone gives the end
/// marker and nothing else; `!=`, `==`, `>=` or `<=` alone gives one
/// operator, never two; a string that is never closed makes the result an
/// error that reports it; and a text whose one fault is a single unexpected
/// character gives exactly that error.
pub fn tokenize<'a>(source: &'a str) -> (result: Result<Vec<Token<'a>>, Vec<LexError>>)
    ensures
        lexed(source@, result),
        is_blank(source@) ==> only_end_marker(source@, result),
        is_operator_pair(source@) ==> one_operator(source@, result),
        forall|k: int| #[trigger]
            is_unterminated_string(source@, k) ==> reports_open_string(source@, k, result),
        stray_count(lexemes(source@)) == 1 && strings_are_closed(lexemes(source@))
            ==> one_unexpected_char(result),
{
    Lexer::from_string(source).tokenise()
}

} // verus!
