//! Tokens, their mathematical model, and the keyword table.
use vstd::prelude::*;

verus! {

/// One lexical unit. An `Identifier` borrows its text from the scanned input.
#[derive(Debug, Clone, Copy, PartialEq, Eq)]
pub enum Token<'a> {
    Identifier(&'a str),
    Integer(i64),
    Equals,
    Plus,
    Minus,
    Star,
    Slash,
    Bang,
    Comma,
    Semicolon,
    LeftParenthesis,
    RightParenthesis,
    LeftBrace,
    RightBrace,
    Function,
    Let,
    Illegal,
}

/// The model of a token: an identifier is its sequence of characters.
pub enum TokenModel {
    Identifier(Seq<char>),
    Integer(int),
    Equals,
    Plus,
    Minus,
    Star,
    Slash,
    Bang,
    Comma,
    Semicolon,
    LeftParenthesis,
    RightParenthesis,
    LeftBrace,
    RightBrace,
    Function,
    Let,
    Illegal,
}

impl<'a> View for Token<'a> {
    type V = TokenModel;

    open spec fn view(&self) -> TokenModel {
        match *self {
            Token::Identifier(s) => TokenModel::Identifier(s@),
            Token::Integer(v) => TokenModel::Integer(v as int),
            Token::Equals => TokenModel::Equals,
            Token::Plus => TokenModel::Plus,
            Token::Minus => TokenModel::Minus,
            Token::Star => TokenModel::Star,
            Token::Slash => TokenModel::Slash,
            Token::Bang => TokenModel::Bang,
            Token::Comma => TokenModel::Comma,
            Token::Semicolon => TokenModel::Semicolon,
            Token::LeftParenthesis => TokenModel::LeftParenthesis,
            Token::RightParenthesis => TokenModel::RightParenthesis,
            Token::LeftBrace => TokenModel::LeftBrace,
            Token::RightBrace => TokenModel::RightBrace,
            Token::Function => TokenModel::Function,
            Token::Let => TokenModel::Let,
            Token::Illegal => TokenModel::Illegal,
        }
    }
}

/// The reserved words and the tokens they stand for: `fn` and `let`.
pub open spec fn keyword(word: Seq<char>) -> Option<TokenModel> {
    if word == seq!['f', 'n'] {
        Some(TokenModel::Function)
    } else if word == seq!['l', 'e', 't'] {
        Some(TokenModel::Let)
    } else {
        None
    }
}

/// The token for a scanned word: its keyword if it is reserved, else an identifier.
pub open spec fn word_token(word: Seq<char>) -> TokenModel {
    match keyword(word) {
        Some(k) => k,
        None => TokenModel::Identifier(word),
    }
}

/// Whether two slices hold the same characters.
fn same_text(a: &str, b: &str) -> (r: bool)
    ensures
        r == (a@ == b@),
{
    let n = b.unicode_len();
    if a.unicode_len() != n {
        return false;
    }
    let mut i: usize = 0;
    while i < n
        invariant
            n == a@.len(),
            n == b@.len(),
            i <= n,
            forall|j: int| 0 <= j < i ==> a@[j] == b@[j],
        decreases n - i,
    {
        if a.get_char(i) != b.get_char(i) {
            return false;
        }
        i += 1;
    }
    assert(a@ =~= b@);
    true
}

/// The keyword table: the token of a reserved word, or `None`.
pub fn lookup_keyword(word: &str) -> (r: Option<Token<'static>>)
    ensures
        match keyword(word@) {
            Some(k) => r matches Some(t) && t@ == k,
            None => r is None,
        },
{
    proof {
        reveal_strlit("fn");
        reveal_strlit("let");
        assert("fn"@ =~= seq!['f', 'n']);
        assert("let"@ =~= seq!['l', 'e', 't']);
    }
    if same_text(word, "fn") {
        Some(Token::Function)
    } else if same_text(word, "let") {
        Some(Token::Let)
    } else {
        None
    }
}

} // verus!
