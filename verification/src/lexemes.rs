//! The model of lexing: what the tokens and the lexical errors of a source
//! text are, as a function of the text alone.
//!
//! [`lexeme_at`] says what begins at a position and where it ends;
//! [`lexemes`] is the resulting division of the whole text; [`lex_tokens`]
//! and [`lex_errors`] are the tokens and the errors among its parts, in
//! order.

use vstd::prelude::*;
use crate::token::{keyword_kind, TokenKind, TokenView};

verus! {

/// A decimal digit.
pub open spec fn is_digit(c: char) -> bool {
    '0' <= c && c <= '9'
}

/// A character that may begin a name: an ASCII letter or `_`.
pub open spec fn is_name_start(c: char) -> bool {
    ('a' <= c && c <= 'z') || ('A' <= c && c <= 'Z') || c == '_'
}

/// A character that may continue a name: an ASCII letter, a digit or `_`.
pub open spec fn is_name_char(c: char) -> bool {
    is_name_start(c) || is_digit(c)
}

/// Space, tab, carriage return or newline.
pub open spec fn is_space(c: char) -> bool {
    c == ' ' || c == '\t' || c == '\r' || c == '\n'
}

/// The kind of a character that is a token by itself.
pub open spec fn punctuation(c: char) -> Option<TokenKind> {
    if c == '(' {
        Some(TokenKind::LParen)
    } else if c == ')' {
        Some(TokenKind::RParen)
    } else if c == '{' {
        Some(TokenKind::LBrace)
    } else if c == '}' {
        Some(TokenKind::RBrace)
    } else if c == ',' {
        Some(TokenKind::Comma)
    } else if c == ';' {
        Some(TokenKind::Semicolon)
    } else if c == '*' {
        Some(TokenKind::Star)
    } else if c == '-' {
        Some(TokenKind::Minus)
    } else if c == '+' {
        Some(TokenKind::Plus)
    } else {
        None
    }
}

/// The kind of a character that is an operator alone and begins a longer
/// operator when `=` follows it.
pub open spec fn operator_alone(c: char) -> Option<TokenKind> {
    if c == '!' {
        Some(TokenKind::Bang)
    } else if c == '=' {
        Some(TokenKind::Equal)
    } else if c == '>' {
        Some(TokenKind::Greater)
    } else if c == '<' {
        Some(TokenKind::Less)
    } else {
        None
    }
}

/// The kind of the operator that `alone` and a following `=` spell together.
pub open spec fn with_equal(alone: TokenKind) -> TokenKind {
    match alone {
        TokenKind::Bang => TokenKind::BangEqual,
        TokenKind::Equal => TokenKind::EqualEqual,
        TokenKind::Greater => TokenKind::GreaterEqual,
        TokenKind::Less => TokenKind::LessEqual,
        other => other,
    }
}

/// The classes of character that a lexeme may run over.
#[derive(Clone, Copy, PartialEq, Eq, Structural)]
pub enum CharClass {
    /// Decimal digits.
    Digit,
    /// Letters, digits and `_`.
    Name,
    /// Everything but a newline: the body of a line comment.
    Comment,
}

/// Whether `c` belongs to `class`.
pub open spec fn in_class(class: CharClass, c: char) -> bool {
    match class {
        CharClass::Digit => is_digit(c),
        CharClass::Name => is_name_char(c),
        CharClass::Comment => c != '\n',
    }
}

/// The end of the longest run of `class` characters that starts at `from`:
/// the first position at or after `from` that holds no such character, or
/// the end of the text.
pub open spec fn run_end(src: Seq<char>, class: CharClass, from: int) -> int
    decreases src.len() - from,
{
    if 0 <= from < src.len() && in_class(class, src[from]) {
        run_end(src, class, from + 1)
    } else {
        from
    }
}

/// The position of the quote that closes a string whose body starts at
/// `from`, or the length of the text if none does. A backslash escapes the
/// character after it, so an escaped quote does not close the string.
pub open spec fn closing_quote(src: Seq<char>, from: int) -> int
    decreases src.len() - from,
{
    if from < 0 || from >= src.len() {
        src.len() as int
    } else if src[from] == '"' {
        from
    } else if src[from] == '\\' && from + 1 < src.len() {
        closing_quote(src, from + 2)
    } else {
        closing_quote(src, from + 1)
    }
}

/// Whether the character after position `i` is `c`.
pub open spec fn followed_by(src: Seq<char>, i: int, c: char) -> bool {
    i + 1 < src.len() && src[i + 1] == c
}

/// What a part of the text is.
#[derive(Clone, Copy, PartialEq, Eq, Structural)]
pub enum LexemeKind {
    /// A token of the given kind.
    Token(TokenKind),
    /// White space or a line comment: nothing is emitted.
    Skipped,
    /// A character that begins nothing: an error.
    Stray,
    /// A string that the text ends without closing: an error.
    OpenString,
}

/// A part of the text: the characters from `start` up to, not including,
/// `end`.
pub ghost struct Lexeme {
    pub kind: LexemeKind,
    pub start: int,
    pub end: int,
}

/// The end of the number that starts at `i`: a run of digits, then, if a
/// `.` and a digit follow, the `.` and a second run of digits.
pub open spec fn number_end(src: Seq<char>, i: int) -> int {
    let whole = run_end(src, CharClass::Digit, i);
    if whole + 1 < src.len() && src[whole] == '.' && is_digit(src[whole + 1]) {
        run_end(src, CharClass::Digit, whole + 1)
    } else {
        whole
    }
}

/// The lexeme that begins at position `i` of `src`.
#[verifier::opaque]
pub open spec fn lexeme_at(src: Seq<char>, i: int) -> Lexeme
    recommends
        0 <= i < src.len(),
{
    let c = src[i];
    if punctuation(c) is Some {
        Lexeme { kind: LexemeKind::Token(punctuation(c)->0), start: i, end: i + 1 }
    } else if operator_alone(c) is Some {
        let alone = operator_alone(c)->0;
        if followed_by(src, i, '=') {
            Lexeme { kind: LexemeKind::Token(with_equal(alone)), start: i, end: i + 2 }
        } else {
            Lexeme { kind: LexemeKind::Token(alone), start: i, end: i + 1 }
        }
    } else if c == '/' {
        if followed_by(src, i, '/') {
            Lexeme {
                kind: LexemeKind::Skipped,
                start: i,
                end: run_end(src, CharClass::Comment, i + 2),
            }
        } else {
            Lexeme { kind: LexemeKind::Token(TokenKind::Slash), start: i, end: i + 1 }
        }
    } else if is_space(c) {
        Lexeme { kind: LexemeKind::Skipped, start: i, end: i + 1 }
    } else if c == '"' {
        let close = closing_quote(src, i + 1);
        if close < src.len() {
            Lexeme { kind: LexemeKind::Token(TokenKind::Constant), start: i, end: close + 1 }
        } else {
            Lexeme { kind: LexemeKind::OpenString, start: i, end: src.len() as int }
        }
    } else if is_digit(c) {
        Lexeme { kind: LexemeKind::Token(TokenKind::Constant), start: i, end: number_end(src, i) }
    } else if is_name_start(c) {
        let end = run_end(src, CharClass::Name, i);
        let kind = match keyword_kind(src.subrange(i, end)) {
            Some(reserved) => reserved,
            None => TokenKind::Identifier,
        };
        Lexeme { kind: LexemeKind::Token(kind), start: i, end }
    } else {
        Lexeme { kind: LexemeKind::Stray, start: i, end: i + 1 }
    }
}

/// A run ends at or after its start and within the text, holds only
/// characters of its class, and stops at the first character outside it.
pub proof fn lemma_run_end(src: Seq<char>, class: CharClass, from: int)
    requires
        0 <= from <= src.len(),
    ensures
        from <= run_end(src, class, from) <= src.len(),
        forall|k: int| from <= k < run_end(src, class, from) ==> in_class(class, #[trigger] src[k]),
        run_end(src, class, from) < src.len() ==> !in_class(
            class,
            src[run_end(src, class, from)],
        ),
    decreases src.len() - from,
{
    if from < src.len() && in_class(class, src[from]) {
        lemma_run_end(src, class, from + 1);
    }
}

/// The closing quote lies at or after the start of the body and within the
/// text, and where it lies within the text it is a quote.
pub proof fn lemma_closing_quote(src: Seq<char>, from: int)
    requires
        0 <= from,
    ensures
        from <= closing_quote(src, from) || closing_quote(src, from) == src.len(),
        closing_quote(src, from) <= src.len(),
        closing_quote(src, from) < src.len() ==> src[closing_quote(src, from)] == '"',
    decreases src.len() - from,
{
    if from < src.len() && src[from] != '"' {
        if src[from] == '\\' && from + 1 < src.len() {
            lemma_closing_quote(src, from + 2);
        } else {
            lemma_closing_quote(src, from + 1);
        }
    }
}

/// Every lexeme starts where it was asked for, holds at least one
/// character, and ends within the text.
pub proof fn lemma_lexeme_bounds(src: Seq<char>, i: int)
    requires
        0 <= i < src.len(),
    ensures
        lexeme_at(src, i).start == i,
        i < lexeme_at(src, i).end <= src.len(),
{
    reveal(lexeme_at);
    if followed_by(src, i, '/') {
        lemma_run_end(src, CharClass::Comment, i + 2);
    }
    lemma_closing_quote(src, i + 1);
    lemma_run_end(src, CharClass::Digit, i);
    lemma_run_end(src, CharClass::Name, i);
    let whole = run_end(src, CharClass::Digit, i);
    if whole + 1 < src.len() {
        lemma_run_end(src, CharClass::Digit, whole + 1);
    }
}

/// The lexemes of `src` from position `i` on, in order.
pub open spec fn lexemes_from(src: Seq<char>, i: int) -> Seq<Lexeme>
    decreases src.len() - i,
{
    if 0 <= i < src.len() {
        proof {
            lemma_lexeme_bounds(src, i);
        }
        seq![lexeme_at(src, i)] + lexemes_from(src, lexeme_at(src, i).end)
    } else {
        Seq::empty()
    }
}

/// The division of `src` into lexemes: the first begins the text, each
/// begins where the one before it ends, and the last ends the text.
pub open spec fn lexemes(src: Seq<char>) -> Seq<Lexeme> {
    lexemes_from(src, 0)
}

/// The number of newlines among the first `i` characters of `src`.
pub open spec fn newlines_before(src: Seq<char>, i: int) -> nat
    decreases i,
{
    if i <= 0 {
        0
    } else if i <= src.len() && src[i - 1] == '\n' {
        newlines_before(src, i - 1) + 1
    } else {
        newlines_before(src, i - 1)
    }
}

/// The line that position `i` of `src` lies on. The first line is line 1.
pub open spec fn line_at(src: Seq<char>, i: int) -> nat {
    newlines_before(src, i) + 1
}

/// The position at which the line of position `i` begins.
pub open spec fn line_start(src: Seq<char>, i: int) -> int
    decreases i,
{
    if i <= 0 {
        0
    } else if i <= src.len() && src[i - 1] == '\n' {
        i
    } else {
        line_start(src, i - 1)
    }
}

/// The column of position `i` of `src`, counted in characters. The first
/// column of a line is column 1.
pub open spec fn column_at(src: Seq<char>, i: int) -> nat {
    (i - line_start(src, i) + 1) as nat
}

/// Whether a token of this kind is a reserved word.
pub open spec fn is_reserved(kind: TokenKind) -> bool {
    kind == TokenKind::Return || kind == TokenKind::If || kind == TokenKind::Else || kind
        == TokenKind::Int || kind == TokenKind::Float || kind == TokenKind::Char || kind
        == TokenKind::Struct || kind == TokenKind::Void || kind == TokenKind::True || kind
        == TokenKind::False
}

/// The payload of the token of kind `kind` matched from `start` to `end`:
/// the text between the quotes of a string, the matched text of a number, a
/// name or a reserved word, and nothing otherwise.
pub open spec fn literal_of(src: Seq<char>, kind: TokenKind, start: int, end: int) -> Seq<char> {
    if kind == TokenKind::Constant && src[start] == '"' {
        src.subrange(start + 1, end - 1)
    } else if kind == TokenKind::Constant || kind == TokenKind::Identifier || is_reserved(kind) {
        src.subrange(start, end)
    } else {
        Seq::empty()
    }
}

/// The token that a lexeme stands for, if it stands for one. Its line is
/// the line on which it starts.
pub open spec fn lexeme_token(src: Seq<char>, lexeme: Lexeme) -> Option<TokenView> {
    match lexeme.kind {
        LexemeKind::Token(kind) => Some(
            TokenView {
                kind,
                lexeme: src.subrange(lexeme.start, lexeme.end),
                literal: literal_of(src, kind, lexeme.start, lexeme.end),
                line: line_at(src, lexeme.start),
            },
        ),
        _ => None,
    }
}

/// A lexical error, as plain values.
pub ghost enum LexErrorView {
    UnterminatedString { line: nat },
    UnexpectedChar { line: nat, column: nat, char: char },
}

/// The error that a lexeme stands for, if it stands for one. It is placed
/// where the lexeme starts.
pub open spec fn lexeme_error(src: Seq<char>, lexeme: Lexeme) -> Option<LexErrorView> {
    match lexeme.kind {
        LexemeKind::Stray => Some(
            LexErrorView::UnexpectedChar {
                line: line_at(src, lexeme.start),
                column: column_at(src, lexeme.start),
                char: src[lexeme.start],
            },
        ),
        LexemeKind::OpenString => Some(
            LexErrorView::UnterminatedString { line: line_at(src, lexeme.start) },
        ),
        _ => None,
    }
}

/// The end marker: an `EOF` token with no text, on the line that the text
/// ends on.
pub open spec fn end_token(src: Seq<char>) -> TokenView {
    TokenView {
        kind: TokenKind::EOF,
        lexeme: Seq::empty(),
        literal: Seq::empty(),
        line: line_at(src, src.len() as int),
    }
}

/// The tokens among `parts`, in order.
pub open spec fn tokens_among(src: Seq<char>, parts: Seq<Lexeme>) -> Seq<TokenView> {
    parts.filter_map(|l: Lexeme| lexeme_token(src, l))
}

/// The errors among `parts`, in order.
pub open spec fn errors_among(src: Seq<char>, parts: Seq<Lexeme>) -> Seq<LexErrorView> {
    parts.filter_map(|l: Lexeme| lexeme_error(src, l))
}

/// The tokens of `src`: those among its lexemes, then the end marker.
pub open spec fn lex_tokens(src: Seq<char>) -> Seq<TokenView> {
    tokens_among(src, lexemes(src)).push(end_token(src))
}

/// The lexical errors of `src`: those among its lexemes, in order.
pub open spec fn lex_errors(src: Seq<char>) -> Seq<LexErrorView> {
    errors_among(src, lexemes(src))
}

/// Whether a line comment that begins at `p` reaches position `k`: `//`
/// stands at `p`, and the characters from there up to and including `k`
/// hold no newline.
pub open spec fn comment_covers(src: Seq<char>, p: int, k: int) -> bool {
    &&& 0 <= p <= k < src.len()
    &&& src[p] == '/'
    &&& followed_by(src, p, '/')
    &&& k < run_end(src, CharClass::Comment, p)
}

/// Whether position `k` lies in a line comment.
pub open spec fn in_comment(src: Seq<char>, k: int) -> bool {
    exists|p: int| comment_covers(src, p, k)
}

/// Whether `src` holds only white space and line comments: each of its
/// characters is white space or lies in a comment.
pub open spec fn is_blank(src: Seq<char>) -> bool {
    forall|k: int| 0 <= k < src.len() ==> is_space(src[k]) || #[trigger] in_comment(src, k)
}

/// Whether `src` is an operator of two characters and nothing else: one
/// of `!=`, `==`, `>=` and `<=`.
pub open spec fn is_operator_pair(src: Seq<char>) -> bool {
    src.len() == 2 && operator_alone(src[0]) is Some && src[1] == '='
}

/// Whether the lexeme at index `k` of `src` is a string that is never
/// closed: it begins with a quote, and no unescaped quote follows.
pub open spec fn is_unterminated_string(src: Seq<char>, k: int) -> bool {
    &&& 0 <= k < lexemes(src).len()
    &&& src[lexemes(src)[k].start] == '"'
    &&& closing_quote(src, lexemes(src)[k].start + 1) >= src.len()
}

/// The number of characters among `parts` that begin no token.
pub open spec fn stray_count(parts: Seq<Lexeme>) -> nat {
    parts.filter(|l: Lexeme| l.kind == LexemeKind::Stray).len()
}

/// Whether none of `parts` is a string that is never closed.
pub open spec fn strings_are_closed(parts: Seq<Lexeme>) -> bool {
    forall|k: int| 0 <= k < parts.len() ==> (#[trigger] parts[k]).kind != LexemeKind::OpenString
}

/// Stepping over a character adds one line exactly if it is a newline.
pub proof fn lemma_line_step(src: Seq<char>, i: int)
    requires
        0 <= i < src.len(),
    ensures
        newlines_before(src, i + 1) == newlines_before(src, i) + if src[i] == '\n' {
            1nat
        } else {
            0nat
        },
        line_start(src, i + 1) == if src[i] == '\n' {
            i + 1
        } else {
            line_start(src, i)
        },
{
}

/// The line count and the line's start lie within the text read so far.
pub proof fn lemma_line_bounds(src: Seq<char>, i: int)
    requires
        0 <= i,
    ensures
        newlines_before(src, i) <= i,
        0 <= line_start(src, i) <= i,
    decreases i,
{
    if i > 0 {
        lemma_line_bounds(src, i - 1);
    }
}

/// Text without a newline lies on one line.
pub proof fn lemma_same_line(src: Seq<char>, from: int, to: int)
    requires
        0 <= from <= to <= src.len(),
        forall|k: int| from <= k < to ==> src[k] != '\n',
    ensures
        newlines_before(src, to) == newlines_before(src, from),
        line_start(src, to) == line_start(src, from),
    decreases to - from,
{
    if from < to {
        lemma_same_line(src, from, to - 1);
    }
}

/// A lexeme that begins with neither a newline nor a quote holds no newline.
pub proof fn lemma_lexeme_one_line(src: Seq<char>, i: int)
    requires
        0 <= i < src.len(),
        src[i] != '\n',
        src[i] != '"',
    ensures
        forall|k: int| i <= k < lexeme_at(src, i).end ==> src[k] != '\n',
{
    reveal(lexeme_at);
    if followed_by(src, i, '/') {
        lemma_run_end(src, CharClass::Comment, i + 2);
    }
    lemma_run_end(src, CharClass::Digit, i);
    lemma_run_end(src, CharClass::Name, i);
    let whole = run_end(src, CharClass::Digit, i);
    if whole + 1 < src.len() {
        lemma_run_end(src, CharClass::Digit, whole + 1);
    }
}

} // verus!
