use urlpattern::error::Error;
use urlpattern::error::TokenizerError;
use urlpattern::tokenizer::tokenize;
use urlpattern::tokenizer::Token;
use urlpattern::tokenizer::TokenType;
use urlpattern::tokenizer::TokenizePolicy;

fn token(kind: TokenType, index: usize, value: &str) -> Token {
    Token { kind, index, value: value.to_string() }
}

#[test]
fn tokenizes_every_kind_of_token() {
    let tokens = tokenize("/a{:id(\\d+)}?*\\+", TokenizePolicy::Strict).unwrap();
    assert_eq!(
        tokens,
        vec![
            token(TokenType::Char, 0, "/"),
            token(TokenType::Char, 1, "a"),
            token(TokenType::Open, 2, "{"),
            token(TokenType::Name, 3, "id"),
            token(TokenType::Regexp, 6, "\\d+"),
            token(TokenType::Close, 11, "}"),
            token(TokenType::OtherModifier, 12, "?"),
            token(TokenType::Asterisk, 13, "*"),
            token(TokenType::EscapedChar, 14, "+"),
            token(TokenType::End, 16, ""),
        ]
    );
}

#[test]
fn empty_input_gives_the_end_token_alone() {
    let tokens = tokenize("", TokenizePolicy::Strict).unwrap();
    assert_eq!(tokens, vec![token(TokenType::End, 0, "")]);
}

#[test]
fn offsets_count_code_points() {
    let tokens = tokenize("é:é", TokenizePolicy::Strict).unwrap();
    assert_eq!(
        tokens,
        vec![
            token(TokenType::Char, 0, "é"),
            token(TokenType::Name, 1, "é"),
            token(TokenType::End, 3, ""),
        ]
    );
}

#[test]
fn name_takes_the_longest_run() {
    let tokens = tokenize(":a_1$-b", TokenizePolicy::Strict).unwrap();
    assert_eq!(
        tokens,
        vec![
            token(TokenType::Name, 0, "a_1$"),
            token(TokenType::Char, 5, "-"),
            token(TokenType::Char, 6, "b"),
            token(TokenType::End, 7, ""),
        ]
    );
}

#[test]
fn name_may_not_start_with_a_digit() {
    assert_eq!(
        tokenize(":1a", TokenizePolicy::Strict),
        Err(Error::Tokenizer(TokenizerError::InvalidName, 1))
    );
    let tokens = tokenize(":1a", TokenizePolicy::Lenient).unwrap();
    assert_eq!(
        tokens,
        vec![
            token(TokenType::InvalidChar, 0, ":"),
            token(TokenType::Char, 1, "1"),
            token(TokenType::Char, 2, "a"),
            token(TokenType::End, 3, ""),
        ]
    );
}

#[test]
fn escape_at_the_end_is_incomplete() {
    assert_eq!(
        tokenize("a\\", TokenizePolicy::Strict),
        Err(Error::Tokenizer(TokenizerError::IncompleteEscapeCode, 2))
    );
    let tokens = tokenize("a\\", TokenizePolicy::Lenient).unwrap();
    assert_eq!(
        tokens,
        vec![
            token(TokenType::Char, 0, "a"),
            token(TokenType::InvalidChar, 1, "\\"),
            token(TokenType::End, 2, ""),
        ]
    );
}

#[test]
fn regexp_may_not_start_with_a_question_mark() {
    assert_eq!(
        tokenize("/(?invalid)", TokenizePolicy::Strict),
        Err(Error::Tokenizer(TokenizerError::InvalidRegex("must not start with ?"), 2))
    );
}

#[test]
fn regexp_errors_name_their_reason() {
    assert_eq!(
        tokenize("(é)", TokenizePolicy::Strict),
        Err(Error::Tokenizer(TokenizerError::InvalidRegex("non ascii character was used"), 1))
    );
    assert_eq!(
        tokenize("(a\\é)", TokenizePolicy::Strict),
        Err(Error::Tokenizer(TokenizerError::InvalidRegex("non ascii character was used"), 1))
    );
    assert_eq!(
        tokenize("(a\\", TokenizePolicy::Strict),
        Err(Error::Tokenizer(TokenizerError::IncompleteEscapeCode, 1))
    );
    assert_eq!(
        tokenize("(a(", TokenizePolicy::Strict),
        Err(Error::Tokenizer(TokenizerError::InvalidRegex("nested groups not closed"), 1))
    );
    assert_eq!(
        tokenize("(a(b))", TokenizePolicy::Strict),
        Err(Error::Tokenizer(TokenizerError::InvalidRegex("nested groups must start with ?"), 1))
    );
    assert_eq!(
        tokenize("(abc", TokenizePolicy::Strict),
        Err(Error::Tokenizer(TokenizerError::InvalidRegex("missing closing )"), 1))
    );
    assert_eq!(
        tokenize("x()", TokenizePolicy::Strict),
        Err(Error::Tokenizer(TokenizerError::InvalidRegex("length must be > 0"), 2))
    );
}

#[test]
fn regexp_keeps_nested_groups_and_escapes() {
    let tokens = tokenize("(a(?:b\\))c)", TokenizePolicy::Strict).unwrap();
    assert_eq!(
        tokens,
        vec![token(TokenType::Regexp, 0, "a(?:b\\))c"), token(TokenType::End, 11, "")]
    );
}

#[test]
fn lenient_policy_never_fails() {
    let tokens = tokenize("(?x):", TokenizePolicy::Lenient).unwrap();
    assert_eq!(
        tokens,
        vec![
            token(TokenType::InvalidChar, 0, "("),
            token(TokenType::OtherModifier, 1, "?"),
            token(TokenType::Char, 2, "x"),
            token(TokenType::Char, 3, ")"),
            token(TokenType::InvalidChar, 4, ":"),
            token(TokenType::End, 5, ""),
        ]
    );
}
