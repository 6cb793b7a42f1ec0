//! The token data model: token kinds, positioned tokens, and the classifier
//! that tells keywords apart from ordinary identifiers.

use vstd::prelude::*;

verus! {

/// The closed set of categories a lexeme can be classified into.
#[derive(Clone, Copy, Debug, PartialEq, Eq, Structural)]
pub enum TokenType {
    // Misc
    Illegal,
    Eof,
    // Identifiers + literals
    Ident,
    Int,
    // Operators
    Assign,
    Plus,
    Minus,
    Bang,
    Asterisk,
    Slash,
    LesserThan,
    GreaterThan,
    Eq,
    NotEq,
    // Delimiters
    Comma,
    Semicolon,
    LParen,
    RParen,
    LBrace,
    RBrace,
    // Keywords
    Fn,
    Let,
    True,
    False,
    If,
    Else,
    Return,
}

/// The classifier as a mathematical function: an exact, case-sensitive
/// lookup against the fixed keyword set; every other spelling is an
/// ordinary identifier.
pub open spec fn spec_resolve_type(ident: Seq<char>) -> TokenType {
    if ident == "fn"@ {
        TokenType::Fn
    } else if ident == "let"@ {
        TokenType::Let
    } else if ident == "true"@ {
        TokenType::True
    } else if ident == "false"@ {
        TokenType::False
    } else if ident == "if"@ {
        TokenType::If
    } else if ident == "else"@ {
        TokenType::Else
    } else if ident == "return"@ {
        TokenType::Return
    } else {
        TokenType::Ident
    }
}

/// Character-by-character string equality, with the equality of the views
/// as its meaning.
fn str_eq(a: &str, b: &str) -> (r: bool)
    ensures
        r == (a@ == b@),
{
    let a_len = a.unicode_len();
    let b_len = b.unicode_len();
    if a_len != b_len {
        return false;
    }
    let mut i: usize = 0;
    while i < a_len
        invariant
            a_len == a@.len(),
            b_len == b@.len(),
            a_len == b_len,
            i <= a_len,
            forall|j: int| 0 <= j < i ==> a@[j] == b@[j],
        decreases a_len - i,
    {
        if a.get_char(i) != b.get_char(i) {
            return false;
        }
        i += 1;
    }
    proof {
        assert(a@ =~= b@);
    }
    true
}

impl TokenType {
    /// Classifies a completed identifier lexeme: an exact full-lexeme match
    /// against the keyword table, falling back to `Ident`.
    pub fn resolve_type(ident: &str) -> (t: TokenType)
        ensures
            t == spec_resolve_type(ident@),
    {
        if str_eq(ident, "fn") {
            TokenType::Fn
        } else if str_eq(ident, "let") {
            TokenType::Let
        } else if str_eq(ident, "true") {
            TokenType::True
        } else if str_eq(ident, "false") {
            TokenType::False
        } else if str_eq(ident, "if") {
            TokenType::If
        } else if str_eq(ident, "else") {
            TokenType::Else
        } else if str_eq(ident, "return") {
            TokenType::Return
        } else {
            TokenType::Ident
        }
    }
}

/// A lexeme cannot be a keyword and an identifier at once: the classifier
/// answers `Ident` exactly for the spellings outside the keyword table.
pub proof fn lemma_keyword_exactness(ident: Seq<char>)
    ensures
        spec_resolve_type(ident) == TokenType::Ident <==> (ident != "fn"@ && ident != "let"@
            && ident != "true"@ && ident != "false"@ && ident != "if"@ && ident != "else"@
            && ident != "return"@),
{
}

/// One positioned token of the source text.
#[derive(Clone, Debug, PartialEq, Eq)]
pub struct Token {
    /// The category the lexeme was classified into.
    pub token_type: TokenType,
    /// The exact substring of source text that produced the token; empty for
    /// the end-of-input marker.
    pub lexeme: String,
    /// Zero-based offset of the lexeme's first character in the source
    /// buffer.
    pub offset: usize,
}

/// Relies on `String::from(char)`: the resulting string holds exactly the one
/// given character.
#[verifier::external_body]
fn string_from_char(c: char) -> (s: String)
    ensures
        s@ =~= seq![c],
{
    String::from(c)
}

impl Token {
    /// Packs a classified lexeme and its position into a token.
    pub(crate) fn new(token_type: TokenType, lexeme: String, offset: usize) -> (t: Token)
        ensures
            t.token_type == token_type,
            t.lexeme == lexeme,
            t.offset == offset,
    {
        Token { token_type, lexeme, offset }
    }

    /// Builds a token whose lexeme is a single character.
    pub fn from_char(token_type: TokenType, literal: char, offset: usize) -> (t: Token)
        ensures
            t.token_type == token_type,
            t.lexeme@ =~= seq![literal],
            t.offset == offset,
    {
        Token::new(token_type, string_from_char(literal), offset)
    }

    /// Builds a token whose lexeme is a copy of the given text.
    pub fn from_str(token_type: TokenType, literal: &str, offset: usize) -> (t: Token)
        ensures
            t.token_type == token_type,
            t.lexeme@ == literal@,
            t.offset == offset,
    {
        Token::new(token_type, literal.to_owned(), offset)
    }
}

} // verus!
