//! The token model: the closed set of token kinds and the token record the
//! lexer produces and the parser consumes.

use vstd::prelude::*;
use crate::text::no_newline;

verus! {

/// The kind of a token.
#[derive(Debug, Clone, Copy, PartialEq, Eq, Structural)]
pub enum TokenKind {
    // Structural punctuation.
    LParen,
    RParen,
    LBrace,
    RBrace,
    Comma,
    Semicolon,
    // Operators.
    Star,
    Slash,
    Bang,
    BangEqual,
    Equal,
    EqualEqual,
    Greater,
    GreaterEqual,
    Less,
    LessEqual,
    Minus,
    Plus,
    // Literals and names.
    Constant,
    Identifier,
    // Reserved words.
    Return,
    If,
    Else,
    Int,
    Float,
    Char,
    Struct,
    Void,
    True,
    False,
    /// The synthetic end marker that closes every token sequence.
    EOF,
}

/// The name of a kind, as its variant is written.
pub open spec fn kind_name(kind: TokenKind) -> Seq<char> {
    match kind {
        TokenKind::LParen => "LParen"@,
        TokenKind::RParen => "RParen"@,
        TokenKind::LBrace => "LBrace"@,
        TokenKind::RBrace => "RBrace"@,
        TokenKind::Comma => "Comma"@,
        TokenKind::Semicolon => "Semicolon"@,
        TokenKind::Star => "Star"@,
        TokenKind::Slash => "Slash"@,
        TokenKind::Bang => "Bang"@,
        TokenKind::BangEqual => "BangEqual"@,
        TokenKind::Equal => "Equal"@,
        TokenKind::EqualEqual => "EqualEqual"@,
        TokenKind::Greater => "Greater"@,
        TokenKind::GreaterEqual => "GreaterEqual"@,
        TokenKind::Less => "Less"@,
        TokenKind::LessEqual => "LessEqual"@,
        TokenKind::Minus => "Minus"@,
        TokenKind::Plus => "Plus"@,
        TokenKind::Constant => "Constant"@,
        TokenKind::Identifier => "Identifier"@,
        TokenKind::Return => "Return"@,
        TokenKind::If => "If"@,
        TokenKind::Else => "Else"@,
        TokenKind::Int => "Int"@,
        TokenKind::Float => "Float"@,
        TokenKind::Char => "Char"@,
        TokenKind::Struct => "Struct"@,
        TokenKind::Void => "Void"@,
        TokenKind::True => "True"@,
        TokenKind::False => "False"@,
        TokenKind::EOF => "EOF"@,
    }
}

/// The name of a kind holds no newline.
pub proof fn lemma_kind_name_one_line(kind: TokenKind)
    ensures
        no_newline(kind_name(kind)),
{
    match kind {
        TokenKind::LParen => {
            reveal_strlit("LParen");
        },
        TokenKind::RParen => {
            reveal_strlit("RParen");
        },
        TokenKind::LBrace => {
            reveal_strlit("LBrace");
        },
        TokenKind::RBrace => {
            reveal_strlit("RBrace");
        },
        TokenKind::Comma => {
            reveal_strlit("Comma");
        },
        TokenKind::Semicolon => {
            reveal_strlit("Semicolon");
        },
        TokenKind::Star => {
            reveal_strlit("Star");
        },
        TokenKind::Slash => {
            reveal_strlit("Slash");
        },
        TokenKind::Bang => {
            reveal_strlit("Bang");
        },
        TokenKind::BangEqual => {
            reveal_strlit("BangEqual");
        },
        TokenKind::Equal => {
            reveal_strlit("Equal");
        },
        TokenKind::EqualEqual => {
            reveal_strlit("EqualEqual");
        },
        TokenKind::Greater => {
            reveal_strlit("Greater");
        },
        TokenKind::GreaterEqual => {
            reveal_strlit("GreaterEqual");
        },
        TokenKind::Less => {
            reveal_strlit("Less");
        },
        TokenKind::LessEqual => {
            reveal_strlit("LessEqual");
        },
        TokenKind::Minus => {
            reveal_strlit("Minus");
        },
        TokenKind::Plus => {
            reveal_strlit("Plus");
        },
        TokenKind::Constant => {
            reveal_strlit("Constant");
        },
        TokenKind::Identifier => {
            reveal_strlit("Identifier");
        },
        TokenKind::Return => {
            reveal_strlit("Return");
        },
        TokenKind::If => {
            reveal_strlit("If");
        },
        TokenKind::Else => {
            reveal_strlit("Else");
        },
        TokenKind::Int => {
            reveal_strlit("Int");
        },
        TokenKind::Float => {
            reveal_strlit("Float");
        },
        TokenKind::Char => {
            reveal_strlit("Char");
        },
        TokenKind::Struct => {
            reveal_strlit("Struct");
        },
        TokenKind::Void => {
            reveal_strlit("Void");
        },
        TokenKind::True => {
            reveal_strlit("True");
        },
        TokenKind::False => {
            reveal_strlit("False");
        },
        TokenKind::EOF => {
            reveal_strlit("EOF");
        },
    }
}

/// The reserved word that `text` spells, if it spells one. The table is
/// fixed: any other text is an ordinary identifier.
pub open spec fn keyword_kind(text: Seq<char>) -> Option<TokenKind> {
    if text == "return"@ {
        Some(TokenKind::Return)
    } else if text == "if"@ {
        Some(TokenKind::If)
    } else if text == "else"@ {
        Some(TokenKind::Else)
    } else if text == "int"@ {
        Some(TokenKind::Int)
    } else if text == "float"@ {
        Some(TokenKind::Float)
    } else if text == "char"@ {
        Some(TokenKind::Char)
    } else if text == "struct"@ {
        Some(TokenKind::Struct)
    } else if text == "void"@ {
        Some(TokenKind::Void)
    } else if text == "true"@ {
        Some(TokenKind::True)
    } else if text == "false"@ {
        Some(TokenKind::False)
    } else {
        None
    }
}

impl TokenKind {
    /// The name of the kind, as its variant is written.
    pub fn name(self) -> (name: &'static str)
        ensures
            name@ == kind_name(self),
    {
        match self {
            TokenKind::LParen => "LParen",
            TokenKind::RParen => "RParen",
            TokenKind::LBrace => "LBrace",
            TokenKind::RBrace => "RBrace",
            TokenKind::Comma => "Comma",
            TokenKind::Semicolon => "Semicolon",
            TokenKind::Star => "Star",
            TokenKind::Slash => "Slash",
            TokenKind::Bang => "Bang",
            TokenKind::BangEqual => "BangEqual",
            TokenKind::Equal => "Equal",
            TokenKind::EqualEqual => "EqualEqual",
            TokenKind::Greater => "Greater",
            TokenKind::GreaterEqual => "GreaterEqual",
            TokenKind::Less => "Less",
            TokenKind::LessEqual => "LessEqual",
            TokenKind::Minus => "Minus",
            TokenKind::Plus => "Plus",
            TokenKind::Constant => "Constant",
            TokenKind::Identifier => "Identifier",
            TokenKind::Return => "Return",
            TokenKind::If => "If",
            TokenKind::Else => "Else",
            TokenKind::Int => "Int",
            TokenKind::Float => "Float",
            TokenKind::Char => "Char",
            TokenKind::Struct => "Struct",
            TokenKind::Void => "Void",
            TokenKind::True => "True",
            TokenKind::False => "False",
            TokenKind::EOF => "EOF",
        }
    }
}

/// What a token is, as plain values: its kind, the text it was matched from,
/// its payload, and the line it starts on (the first line is line 1).
pub ghost struct TokenView {
    pub kind: TokenKind,
    pub lexeme: Seq<char>,
    pub literal: Seq<char>,
    pub line: nat,
}

/// A classified, positioned unit of source text. `lexeme` and `literal` are
/// slices of the source buffer, which therefore outlives the token.
#[derive(Debug, Clone, Copy, PartialEq, Eq)]
pub struct Token<'a> {
    pub kind: TokenKind,
    /// The exact source text the token was matched from; empty for `EOF`.
    pub lexeme: &'a str,
    /// The payload: the text between the quotes of a string constant, the
    /// matched text of a number, a name or a reserved word, and nothing for
    /// punctuation, operators and `EOF`.
    pub literal: &'a str,
    /// The line on which the token starts.
    pub line: usize,
}

impl<'a> View for Token<'a> {
    type V = TokenView;

    open spec fn view(&self) -> TokenView {
        TokenView {
            kind: self.kind,
            lexeme: self.lexeme@,
            literal: self.literal@,
            line: self.line as nat,
        }
    }
}

/// The views of a sequence of tokens, in order.
pub open spec fn token_views(tokens: Seq<Token<'_>>) -> Seq<TokenView> {
    tokens.map_values(|t: Token<'_>| t@)
}

/// The views of a sequence of borrowed tokens, in order.
pub open spec fn borrowed_views(tokens: Seq<&Token<'_>>) -> Seq<TokenView> {
    tokens.map_values(|t: &Token<'_>| t@)
}

/// Whether `word` reads `text`.
fn spells(word: &[char], text: &str) -> (same: bool)
    ensures
        same == (word@ == text@),
{
    let n = text.unicode_len();
    if word.len() != n {
        return false;
    }
    let mut i: usize = 0;
    while i < n
        invariant
            i <= n,
            n == word@.len(),
            n == text@.len(),
            forall|k: int| 0 <= k < i ==> word@[k] == text@[k],
        decreases n - i,
    {
        if word[i] != text.get_char(i) {
            return false;
        }
        i += 1;
    }
    assert(word@ =~= text@);
    true
}

/// Looks `word` up in the table of reserved words.
pub fn keyword(word: &[char]) -> (kind: Option<TokenKind>)
    ensures
        kind == keyword_kind(word@),
{
    if spells(word, "return") {
        Some(TokenKind::Return)
    } else if spells(word, "if") {
        Some(TokenKind::If)
    } else if spells(word, "else") {
        Some(TokenKind::Else)
    } else if spells(word, "int") {
        Some(TokenKind::Int)
    } else if spells(word, "float") {
        Some(TokenKind::Float)
    } else if spells(word, "char") {
        Some(TokenKind::Char)
    } else if spells(word, "struct") {
        Some(TokenKind::Struct)
    } else if spells(word, "void") {
        Some(TokenKind::Void)
    } else if spells(word, "true") {
        Some(TokenKind::True)
    } else if spells(word, "false") {
        Some(TokenKind::False)
    } else {
        None
    }
}

} // verus!
