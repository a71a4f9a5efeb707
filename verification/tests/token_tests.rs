use cfront::token::{keyword, TokenKind};

fn chars(text: &str) -> Vec<char> {
    text.chars().collect()
}

#[test]
fn the_table_of_reserved_words() {
    assert_eq!(keyword(&chars("return")), Some(TokenKind::Return));
    assert_eq!(keyword(&chars("if")), Some(TokenKind::If));
    assert_eq!(keyword(&chars("else")), Some(TokenKind::Else));
    assert_eq!(keyword(&chars("int")), Some(TokenKind::Int));
    assert_eq!(keyword(&chars("float")), Some(TokenKind::Float));
    assert_eq!(keyword(&chars("char")), Some(TokenKind::Char));
    assert_eq!(keyword(&chars("struct")), Some(TokenKind::Struct));
    assert_eq!(keyword(&chars("void")), Some(TokenKind::Void));
    assert_eq!(keyword(&chars("true")), Some(TokenKind::True));
    assert_eq!(keyword(&chars("false")), Some(TokenKind::False));
}

#[test]
fn other_words_are_not_reserved() {
    assert_eq!(keyword(&chars("")), None);
    assert_eq!(keyword(&chars("Return")), None);
    assert_eq!(keyword(&chars("retur")), None);
    assert_eq!(keyword(&chars("returns")), None);
    assert_eq!(keyword(&chars("integer")), None);
    assert_eq!(keyword(&chars("in")), None);
}

#[test]
fn kind_names_are_the_variant_names() {
    assert_eq!(TokenKind::BangEqual.name(), "BangEqual");
    assert_eq!(TokenKind::EOF.name(), "EOF");
}
