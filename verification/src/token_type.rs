//! The kinds of tokens, and the keyword table.

use vstd::prelude::*;

verus! {

/// The closed set of token kinds the scanner can produce.
#[derive(Clone, Copy, Debug, PartialEq, Eq, Hash, Structural)]
pub enum TokenType {
    // Single-character tokens.
    LeftParen,
    RightParen,
    LeftBrace,
    RightBrace,
    Comma,
    Dot,
    Minus,
    Plus,
    Semicolon,
    Slash,
    Star,
    // One or two character tokens.
    Bang,
    BangEqual,
    Equal,
    EqualEqual,
    Greater,
    GreaterEqual,
    Less,
    LessEqual,
    // Literals.
    Identifier,
    String,
    Number,
    // Keywords.
    And,
    Class,
    Else,
    False,
    Fun,
    For,
    If,
    Null,
    Or,
    Print,
    Return,
    Super,
    This,
    True,
    Var,
    While,
    // End of input.
    Eof,
}

/// The keyword table: the kind a reserved word scans to, or `None` for any
/// other text. The null value is spelled `nil`.
pub open spec fn keyword_of(text: Seq<char>) -> Option<TokenType> {
    if text == "and"@ {
        Some(TokenType::And)
    } else if text == "class"@ {
        Some(TokenType::Class)
    } else if text == "else"@ {
        Some(TokenType::Else)
    } else if text == "false"@ {
        Some(TokenType::False)
    } else if text == "for"@ {
        Some(TokenType::For)
    } else if text == "fun"@ {
        Some(TokenType::Fun)
    } else if text == "if"@ {
        Some(TokenType::If)
    } else if text == "nil"@ {
        Some(TokenType::Null)
    } else if text == "or"@ {
        Some(TokenType::Or)
    } else if text == "print"@ {
        Some(TokenType::Print)
    } else if text == "return"@ {
        Some(TokenType::Return)
    } else if text == "super"@ {
        Some(TokenType::Super)
    } else if text == "this"@ {
        Some(TokenType::This)
    } else if text == "true"@ {
        Some(TokenType::True)
    } else if text == "var"@ {
        Some(TokenType::Var)
    } else if text == "while"@ {
        Some(TokenType::While)
    } else {
        None
    }
}

fn is_word(text: &String, word: &str) -> (same: bool)
    ensures
        same == (text@ == word@),
{
    let candidate = String::from_str(word);
    *text == candidate
}

/// Looks `text` up in the keyword table.
pub fn keyword(text: &String) -> (kind: Option<TokenType>)
    ensures
        kind == keyword_of(text@),
{
    if is_word(text, "and") {
        Some(TokenType::And)
    } else if is_word(text, "class") {
        Some(TokenType::Class)
    } else if is_word(text, "else") {
        Some(TokenType::Else)
    } else if is_word(text, "false") {
        Some(TokenType::False)
    } else if is_word(text, "for") {
        Some(TokenType::For)
    } else if is_word(text, "fun") {
        Some(TokenType::Fun)
    } else if is_word(text, "if") {
        Some(TokenType::If)
    } else if is_word(text, "nil") {
        Some(TokenType::Null)
    } else if is_word(text, "or") {
        Some(TokenType::Or)
    } else if is_word(text, "print") {
        Some(TokenType::Print)
    } else if is_word(text, "return") {
        Some(TokenType::Return)
    } else if is_word(text, "super") {
        Some(TokenType::Super)
    } else if is_word(text, "this") {
        Some(TokenType::This)
    } else if is_word(text, "true") {
        Some(TokenType::True)
    } else if is_word(text, "var") {
        Some(TokenType::Var)
    } else if is_word(text, "while") {
        Some(TokenType::While)
    } else {
        None
    }
}

} // verus!
