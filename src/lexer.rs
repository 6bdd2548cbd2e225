//! The scanner: its specification as functions on character sequences, and
//! the executable `Lexer` that produces one token per call.
use vstd::prelude::*;

use crate::chars::{
    identifier_char, is_numeric, is_valid_identifier, is_whitespace, numeric, trim_start,
    trim_white_space, white_space,
};
use crate::text::{lemma_split_point, split_chars, split_first_char};
use crate::token::{lookup_keyword, word_token, Token, TokenModel};

verus! {

/// The token of a one-character operator or punctuation mark, if `c` is one.
pub open spec fn punctuation(c: char) -> Option<TokenModel> {
    if c == '!' {
        Some(TokenModel::Bang)
    } else if c == '=' {
        Some(TokenModel::Equals)
    } else if c == ';' {
        Some(TokenModel::Semicolon)
    } else if c == ',' {
        Some(TokenModel::Comma)
    } else if c == '{' {
        Some(TokenModel::LeftBrace)
    } else if c == '}' {
        Some(TokenModel::RightBrace)
    } else if c == '(' {
        Some(TokenModel::LeftParenthesis)
    } else if c == ')' {
        Some(TokenModel::RightParenthesis)
    } else if c == '+' {
        Some(TokenModel::Plus)
    } else if c == '-' {
        Some(TokenModel::Minus)
    } else if c == '*' {
        Some(TokenModel::Star)
    } else if c == '/' {
        Some(TokenModel::Slash)
    } else {
        None
    }
}

/// The length of the word at the start of `s`: the longest prefix of
/// identifier characters that are not whitespace.
pub open spec fn word_len(s: Seq<char>) -> nat
    decreases s.len(),
{
    if s.len() > 0 && !white_space(s[0]) && identifier_char(s[0]) {
        1 + word_len(s.drop_first())
    } else {
        0
    }
}

/// One scan step: the next token of `s` and what remains after it, or `None`
/// when `s` holds nothing but whitespace.
pub open spec fn scan(s: Seq<char>) -> Option<(TokenModel, Seq<char>)> {
    let t = trim_white_space(s);
    if t.len() == 0 {
        None
    } else if punctuation(t[0]) is Some {
        Some((punctuation(t[0])->0, t.drop_first()))
    } else if identifier_char(t[0]) {
        let n = word_len(t) as int;
        Some((word_token(t.take(n)), t.skip(n)))
    } else if numeric(t[0]) {
        Some((TokenModel::Integer(0), t.drop_first()))
    } else {
        Some((TokenModel::Illegal, t.drop_first()))
    }
}

/// The whole token sequence of `s`, step by step. Every step shortens the
/// input (`lemma_scan_progress`), so the length test only states the measure.
pub open spec fn tokens_of(s: Seq<char>) -> Seq<TokenModel>
    decreases s.len(),
{
    match scan(s) {
        None => seq![],
        Some((t, rest)) => if rest.len() < s.len() {
            seq![t] + tokens_of(rest)
        } else {
            seq![]
        },
    }
}

/// A scanner over a borrowed input; it holds the part not yet consumed.
pub struct Lexer<'a> {
    text: &'a str,
}

impl<'a> View for Lexer<'a> {
    type V = Seq<char>;

    closed spec fn view(&self) -> Seq<char> {
        self.text@
    }
}

impl<'a> Lexer<'a> {
    /// A scanner positioned at the start of `text`.
    pub fn new(text: &'a str) -> (l: Lexer<'a>)
        ensures
            l@ == text@,
    {
        Lexer { text }
    }

    /// Scans one token: skips whitespace, then returns the next token and
    /// consumes it, or returns `None` at the end of the input.
    pub fn next_token(&mut self) -> (r: Option<Token<'a>>)
        ensures
            match scan(old(self)@) {
                Some((t, rest)) => r matches Some(tok) && tok@ == t && final(self)@ == rest,
                None => r is None && final(self)@.len() == 0,
            },
            r is Some ==> final(self)@.len() < old(self)@.len(),
            final(self)@ == old(self)@.skip(old(self)@.len() - final(self)@.len()),
    {
        proof {
            lemma_scan_progress(self@);
        }
        self.text = trim_start(self.text);
        if self.text.is_empty() {
            return None;
        }
        let ghost t = self.text@;
        proof {
            lemma_trim_first_not_white_space(old(self)@);
        }
        let (character, after) = split_first_char(self.text);
        if let Some(token) = self.character_token(character) {
            self.text = after;
            return Some(token);
        }
        if is_valid_identifier(character) {
            let mut rest: &'a str = self.text;
            let ghost mut k: int = 0;
            while !rest.is_empty()
                invariant
                    0 <= k <= t.len(),
                    rest@ == t.skip(k),
                    forall|j: int| 0 <= j < k ==> !white_space(#[trigger] t[j]) && identifier_char(
                        t[j],
                    ),
                ensures
                    0 <= k <= t.len(),
                    rest@ == t.skip(k),
                    forall|j: int| 0 <= j < k ==> !white_space(#[trigger] t[j]) && identifier_char(
                        t[j],
                    ),
                    k < t.len() ==> white_space(t[k]) || !identifier_char(t[k]),
                decreases rest@.len(),
            {
                let (c, next) = split_first_char(rest);
                if is_whitespace(c) || !is_valid_identifier(c) {
                    break;
                }
                rest = next;
                proof {
                    assert(t.skip(k).drop_first() =~= t.skip(k + 1));
                    k = k + 1;
                }
            }
            proof {
                lemma_word_len(t, k);
                lemma_split_point(t, k);
            }
            let width = self.text.as_bytes().len() - rest.as_bytes().len();
            let (identifier, remaining) = split_chars(self.text, width, Ghost(k));
            self.text = remaining;
            return match lookup_keyword(identifier) {
                Some(keyword) => Some(keyword),
                None => Some(Token::Identifier(identifier)),
            };
        }
        self.text = after;
        if is_numeric(character) {
            Some(Token::Integer(0))
        } else {
            Some(Token::Illegal)
        }
    }

    /// The next token of the stream, or `None` once the input is used up.
    pub fn next(&mut self) -> (r: Option<Token<'a>>)
        ensures
            match scan(old(self)@) {
                Some((t, rest)) => r matches Some(tok) && tok@ == t && final(self)@ == rest,
                None => r is None && final(self)@.len() == 0,
            },
            r is Some ==> final(self)@.len() < old(self)@.len(),
    {
        self.next_token()
    }

    /// The token of a one-character operator or punctuation mark, if `c` is one.
    pub fn character_token(&self, c: char) -> (r: Option<Token<'a>>)
        ensures
            match punctuation(c) {
                Some(t) => r matches Some(tok) && tok@ == t,
                None => r is None,
            },
    {
        match c {
            '!' => Some(Token::Bang),
            '=' => Some(Token::Equals),
            ';' => Some(Token::Semicolon),
            ',' => Some(Token::Comma),
            '{' => Some(Token::LeftBrace),
            '}' => Some(Token::RightBrace),
            '(' => Some(Token::LeftParenthesis),
            ')' => Some(Token::RightParenthesis),
            '+' => Some(Token::Plus),
            '-' => Some(Token::Minus),
            '*' => Some(Token::Star),
            '/' => Some(Token::Slash),
            _ => None,
        }
    }
}

/// Scans the whole of `text` and collects its tokens in order.
pub fn tokenize<'a>(text: &'a str) -> (r: Vec<Token<'a>>)
    ensures
        r@.map_values(|t: Token<'a>| t@) == tokens_of(text@),
{
    let mut lexer = Lexer::new(text);
    let mut out: Vec<Token<'a>> = Vec::new();
    loop
        invariant
            out@.map_values(|t: Token<'a>| t@) + tokens_of(lexer@) == tokens_of(text@),
        decreases lexer@.len(),
    {
        let ghost before = lexer@;
        proof {
            lemma_tokens_of_step(before);
        }
        match lexer.next_token() {
            None => {
                assert(out@.map_values(|t: Token<'a>| t@) + tokens_of(before) =~= out@.map_values(
                    |t: Token<'a>| t@,
                ));
                return out;
            },
            Some(t) => {
                let ghost prev = out@;
                out.push(t);
                assert(out@.map_values(|t: Token<'a>| t@) =~= prev.map_values(|t: Token<'a>| t@)
                    + seq![t@]);
                assert(prev.map_values(|t: Token<'a>| t@) + tokens_of(before) =~= out@.map_values(
                    |t: Token<'a>| t@,
                ) + tokens_of(lexer@));
            },
        }
    }
}

/// Every scan step that yields a token consumes at least one character, and
/// what it leaves is a suffix of its input; a step that yields none found
/// nothing but whitespace.
pub proof fn lemma_scan_progress(s: Seq<char>)
    ensures
        match scan(s) {
            Some((_, rest)) => rest.len() < s.len() && rest == s.skip(s.len() - rest.len()),
            None => forall|i: int| 0 <= i < s.len() ==> white_space(#[trigger] s[i]),
        },
{
    let t = trim_white_space(s);
    lemma_trim_first_not_white_space(s);
    if t.len() == 0 {
        lemma_trim_empty(s);
    } else {
        let n: int = if punctuation(t[0]) is Some || !identifier_char(t[0]) {
            1
        } else {
            lemma_word_len_bound(t);
            word_len(t) as int
        };
        assert(n >= 1);
        assert(t.skip(n) =~= s.skip(s.len() - t.skip(n).len()));
    }
}

/// A sequence that trims to nothing is all whitespace.
proof fn lemma_trim_empty(s: Seq<char>)
    requires
        trim_white_space(s).len() == 0,
    ensures
        forall|i: int| 0 <= i < s.len() ==> white_space(#[trigger] s[i]),
    decreases s.len(),
{
    if s.len() > 0 {
        lemma_trim_empty(s.drop_first());
        assert forall|i: int| 0 <= i < s.len() implies white_space(#[trigger] s[i]) by {
            if i > 0 {
                assert(s[i] == s.drop_first()[i - 1]);
            }
        }
    }
}

/// A word is no longer than the text it starts.
pub proof fn lemma_word_len_bound(s: Seq<char>)
    ensures
        word_len(s) <= s.len(),
    decreases s.len(),
{
    if s.len() > 0 {
        lemma_word_len_bound(s.drop_first());
    }
}

/// The token sequence is the first token followed by the tokens of the rest.
pub proof fn lemma_tokens_of_step(s: Seq<char>)
    ensures
        tokens_of(s) == match scan(s) {
            None => seq![],
            Some((t, rest)) => seq![t] + tokens_of(rest),
        },
{
    lemma_scan_progress(s);
}

/// The first character left after trimming is not whitespace.
pub proof fn lemma_trim_first_not_white_space(s: Seq<char>)
    ensures
        trim_white_space(s).len() > 0 ==> !white_space(trim_white_space(s)[0]),
        trim_white_space(s).len() <= s.len(),
        trim_white_space(s) == s.skip(s.len() - trim_white_space(s).len()),
    decreases s.len(),
{
    if s.len() > 0 && white_space(s[0]) {
        lemma_trim_first_not_white_space(s.drop_first());
        assert(s.drop_first().skip(s.drop_first().len() - trim_white_space(s).len())
            =~= s.skip(s.len() - trim_white_space(s).len()));
    } else {
        assert(s.skip(0) =~= s);
    }
}

/// The word at the start of `s` has length `n` when its first `n` characters
/// are word characters and the next one, if any, is not.
pub proof fn lemma_word_len(s: Seq<char>, n: int)
    requires
        0 <= n <= s.len(),
        forall|j: int| 0 <= j < n ==> !white_space(#[trigger] s[j]) && identifier_char(s[j]),
        n < s.len() ==> white_space(s[n]) || !identifier_char(s[n]),
    ensures
        word_len(s) == n,
    decreases n,
{
    if n > 0 {
        lemma_word_len(s.drop_first(), n - 1);
    }
}

} // verus!
