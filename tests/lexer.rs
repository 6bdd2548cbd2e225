use lexer::chars::is_valid_identifier;
use lexer::token::lookup_keyword;
use lexer::{tokenize, Lexer, Token};

#[test]
fn let_statement() {
    assert_eq!(
        tokenize("let five = 5;"),
        vec![Token::Let, Token::Identifier("five"), Token::Equals, Token::Integer(0), Token::Semicolon]
    );
}

#[test]
fn empty_input() {
    assert_eq!(tokenize(""), vec![]);
}

#[test]
fn whitespace_only_input() {
    assert_eq!(tokenize(" \t\n\r  \u{3000}"), vec![]);
}

#[test]
fn unknown_character() {
    assert_eq!(tokenize("#"), vec![Token::Illegal]);
}

#[test]
fn function_header() {
    assert_eq!(
        tokenize("fn(x, y)"),
        vec![
            Token::Function,
            Token::LeftParenthesis,
            Token::Identifier("x"),
            Token::Comma,
            Token::Identifier("y"),
            Token::RightParenthesis,
        ]
    );
}

#[test]
fn keywords_and_near_misses() {
    assert_eq!(tokenize("fn"), vec![Token::Function]);
    assert_eq!(tokenize("let"), vec![Token::Let]);
    assert_eq!(tokenize("fn2"), vec![Token::Function, Token::Integer(0)]);
    assert_eq!(tokenize("_let"), vec![Token::Identifier("_let")]);
    assert_eq!(tokenize("lets"), vec![Token::Identifier("lets")]);
    assert_eq!(tokenize("f"), vec![Token::Identifier("f")]);
}

#[test]
fn each_punctuation_character() {
    let cases = [
        ('!', Token::Bang),
        ('=', Token::Equals),
        (';', Token::Semicolon),
        (',', Token::Comma),
        ('{', Token::LeftBrace),
        ('}', Token::RightBrace),
        ('(', Token::LeftParenthesis),
        (')', Token::RightParenthesis),
        ('+', Token::Plus),
        ('-', Token::Minus),
        ('*', Token::Star),
        ('/', Token::Slash),
    ];
    for (c, token) in cases {
        let text = format!("{}a", c);
        let mut lexer = Lexer::new(&text);
        assert_eq!(lexer.next_token(), Some(token));
        assert_eq!(lexer.next_token(), Some(Token::Identifier("a")));
        assert_eq!(lexer.next_token(), None);
    }
}

#[test]
fn punctuation_runs_are_not_merged() {
    assert_eq!(tokenize("=="), vec![Token::Equals, Token::Equals]);
    assert_eq!(tokenize("!="), vec![Token::Bang, Token::Equals]);
}

#[test]
fn illegal_per_character() {
    assert_eq!(tokenize("#$@"), vec![Token::Illegal, Token::Illegal, Token::Illegal]);
    assert_eq!(tokenize("\u{20ac}\u{20ac}"), vec![Token::Illegal, Token::Illegal]);
}

#[test]
fn digits_are_one_placeholder_each() {
    assert_eq!(tokenize("10"), vec![Token::Integer(0), Token::Integer(0)]);
}

#[test]
fn digit_ends_an_identifier() {
    assert_eq!(tokenize("x1"), vec![Token::Identifier("x"), Token::Integer(0)]);
}

#[test]
fn whitespace_separates_words() {
    assert_eq!(tokenize("ab cd"), vec![Token::Identifier("ab"), Token::Identifier("cd")]);
    assert_eq!(tokenize("abc"), vec![Token::Identifier("abc")]);
}

#[test]
fn extra_whitespace_between_tokens() {
    let tight = tokenize("let x=y+1;");
    let loose = tokenize("  let   x =\n\ty +  1 ;  ");
    assert_eq!(tight, loose);
}

#[test]
fn non_ascii_identifier() {
    assert_eq!(
        tokenize("\u{65e5}\u{672c} = \u{e9}t\u{e9}"),
        vec![Token::Identifier("\u{65e5}\u{672c}"), Token::Equals, Token::Identifier("\u{e9}t\u{e9}")]
    );
}

#[test]
fn stream_ends_and_stays_ended() {
    let mut lexer = Lexer::new("  a  ");
    assert_eq!(lexer.next(), Some(Token::Identifier("a")));
    assert_eq!(lexer.next(), None);
    assert_eq!(lexer.next(), None);
}

#[test]
fn token_count_is_bounded_by_length() {
    let text = "let add = fn(x, y) { x + y; };";
    assert!(tokenize(text).len() <= text.chars().count());
}

#[test]
fn whole_program() {
    let text = "\n  let five = 5;\n  #\n  let add = fn(x, y) {\n    x + y;\n  };\n";
    assert_eq!(
        tokenize(text),
        vec![
            Token::Let,
            Token::Identifier("five"),
            Token::Equals,
            Token::Integer(0),
            Token::Semicolon,
            Token::Illegal,
            Token::Let,
            Token::Identifier("add"),
            Token::Equals,
            Token::Function,
            Token::LeftParenthesis,
            Token::Identifier("x"),
            Token::Comma,
            Token::Identifier("y"),
            Token::RightParenthesis,
            Token::LeftBrace,
            Token::Identifier("x"),
            Token::Plus,
            Token::Identifier("y"),
            Token::Semicolon,
            Token::RightBrace,
            Token::Semicolon,
        ]
    );
}

#[test]
fn character_token_table() {
    let lexer = Lexer::new("");
    assert_eq!(lexer.character_token('{'), Some(Token::LeftBrace));
    assert_eq!(lexer.character_token('/'), Some(Token::Slash));
    assert_eq!(lexer.character_token('a'), None);
    assert_eq!(lexer.character_token('#'), None);
    assert_eq!(lexer.character_token(' '), None);
}

#[test]
fn keyword_table() {
    assert_eq!(lookup_keyword("fn"), Some(Token::Function));
    assert_eq!(lookup_keyword("let"), Some(Token::Let));
    assert_eq!(lookup_keyword("le"), None);
    assert_eq!(lookup_keyword("Fn"), None);
    assert_eq!(lookup_keyword(""), None);
}

#[test]
fn identifier_characters() {
    assert!(is_valid_identifier('a'));
    assert!(is_valid_identifier('Z'));
    assert!(is_valid_identifier('_'));
    assert!(is_valid_identifier('\u{e9}'));
    assert!(!is_valid_identifier('1'));
    assert!(!is_valid_identifier(' '));
    assert!(!is_valid_identifier('-'));
}
