//! Tokens and the classifier that tells what kind of token a lexeme is.

use vstd::prelude::*;
use crate::chars::{alphabetic, alphanumeric, chars_of, numeric, spells};
use crate::numeral::{is_numeral, Numeral};

verus! {

/// The kind of a token, with what it carries.
#[derive(Debug, PartialEq)]
pub enum TokenType {
    /// A lexeme of no known shape.
    Error,
    /// A single character that is neither alphanumeric nor white space.
    Ascii(char),
    /// A name: a lexeme that begins with a letter and is no keyword.
    Ident(String),
    /// A numeric literal.
    Number(Numeral),
    KeywordFunc,
    KeywordReturn,
    KeywordIf,
    KeywordElse,
    KeywordForeign,
}

/// What a [`TokenType`] stands for: the kind of a token, over plain text.
pub enum TokenKind {
    Error,
    Symbol(char),
    Identifier(Seq<char>),
    Number(Seq<char>),
    Func,
    Return,
    If,
    Else,
    Foreign,
}

impl View for TokenType {
    type V = TokenKind;

    open spec fn view(&self) -> TokenKind {
        match self {
            TokenType::Error => TokenKind::Error,
            TokenType::Ascii(c) => TokenKind::Symbol(*c),
            TokenType::Ident(name) => TokenKind::Identifier(name@),
            TokenType::Number(numeral) => TokenKind::Number(numeral@),
            TokenType::KeywordFunc => TokenKind::Func,
            TokenType::KeywordReturn => TokenKind::Return,
            TokenType::KeywordIf => TokenKind::If,
            TokenType::KeywordElse => TokenKind::Else,
            TokenType::KeywordForeign => TokenKind::Foreign,
        }
    }
}

/// The kind of the token that the lexeme `s` makes. The first rule that
/// applies decides: a keyword by its exact spelling; a lexeme led by a
/// numeric character is a number if the whole of it is a numeral and an
/// error if not; a lexeme led by a letter is an identifier; anything else
/// is an error.
pub open spec fn classify(s: Seq<char>) -> TokenKind {
    if s == "if"@ {
        TokenKind::If
    } else if s == "func"@ {
        TokenKind::Func
    } else if s == "else"@ {
        TokenKind::Else
    } else if s == "return"@ {
        TokenKind::Return
    } else if s == "foreign"@ {
        TokenKind::Foreign
    } else if s.len() > 0 && numeric(s[0]) {
        if is_numeral(s) {
            TokenKind::Number(s)
        } else {
            TokenKind::Error
        }
    } else if s.len() > 0 && alphabetic(s[0]) {
        TokenKind::Identifier(s)
    } else {
        TokenKind::Error
    }
}

/// The keywords are classified as themselves.
pub proof fn lemma_classifies_keywords()
    ensures
        classify("if"@) == TokenKind::If,
        classify("func"@) == TokenKind::Func,
        classify("else"@) == TokenKind::Else,
        classify("return"@) == TokenKind::Return,
        classify("foreign"@) == TokenKind::Foreign,
{
    reveal_strlit("if");
    reveal_strlit("func");
    reveal_strlit("else");
    reveal_strlit("return");
    reveal_strlit("foreign");
    assert("if"@.len() == 2);
    assert("func"@.len() == 4 && "else"@.len() == 4);
    assert("return"@.len() == 6);
    assert("foreign"@.len() == 7);
    assert("func"@[0] != "else"@[0]);
}

/// What the kind of a token says of its lexeme. A number and an identifier
/// carry the whole lexeme and differ in how it begins: a number with a
/// numeric character, an identifier with a letter that is not numeric. No
/// lexeme is classified as a symbol. A lexeme that begins with an
/// alphanumeric character is an error only as a malformed numeral.
pub proof fn lemma_classify_kinds(s: Seq<char>)
    ensures
        classify(s) matches TokenKind::Number(text) ==> text == s && s.len() > 0 && numeric(s[0])
            && is_numeral(s),
        classify(s) matches TokenKind::Identifier(text) ==> text == s && s.len() > 0 && alphabetic(
            s[0],
        ) && !numeric(s[0]),
        !(classify(s) is Symbol),
        classify(s) is Error && s.len() > 0 && alphanumeric(s[0]) ==> numeric(s[0]) && !is_numeral(
            s,
        ),
{
}

impl TokenType {
    /// Classifies a lexeme, which must not be empty. A lexeme that begins
    /// like a number and is no numeral is an error token, not a failure.
    pub fn from_string(string: &str) -> (kind: TokenType)
        requires
            string@.len() > 0,
        ensures
            kind@ == classify(string@),
    {
        let chars = chars_of(string);
        if spells(&chars, "if") {
            TokenType::KeywordIf
        } else if spells(&chars, "func") {
            TokenType::KeywordFunc
        } else if spells(&chars, "else") {
            TokenType::KeywordElse
        } else if spells(&chars, "return") {
            TokenType::KeywordReturn
        } else if spells(&chars, "foreign") {
            TokenType::KeywordForeign
        } else if chars[0].is_numeric() {
            match Numeral::read(string, &chars) {
                Some(numeral) => TokenType::Number(numeral),
                None => TokenType::Error,
            }
        } else if chars[0].is_alphabetic() {
            TokenType::Ident(string.to_owned())
        } else {
            TokenType::Error
        }
    }
}

/// A classified lexical unit with the line it was read on.
#[derive(Debug, PartialEq)]
pub struct Token {
    line_nr: usize,
    token_type: TokenType,
}

/// What a [`Token`] stands for.
pub struct TokenView {
    /// The number of line feeds that were read before the token.
    pub line_number: nat,
    pub kind: TokenKind,
}

impl View for Token {
    type V = TokenView;

    closed spec fn view(&self) -> TokenView {
        TokenView { line_number: self.line_nr as nat, kind: self.token_type@ }
    }
}

impl Token {
    pub(crate) fn new(line_nr: usize, token_type: TokenType) -> (token: Token)
        ensures
            token@ == (TokenView { line_number: line_nr as nat, kind: token_type@ }),
    {
        Token { line_nr, token_type }
    }

    /// The line that the token was read on, counted from 0.
    pub fn line_nr(&self) -> (line: usize)
        ensures
            line == self@.line_number,
    {
        self.line_nr
    }

    /// The kind of the token.
    pub fn token_type(&self) -> (kind: &TokenType)
        ensures
            kind@ == self@.kind,
    {
        &self.token_type
    }
}

} // verus!
