use yartl_engine::tokenizer::{LexError, Token, TokenType, Tokenizer};

fn tok(token_type: TokenType, token_value: &[u8]) -> Token<'_> {
    Token { token_type, token_value }
}

#[test]
fn tokenizer_it_works() {
    let source = r#"hello, {{    person.name}} y {{yes}}{{for item in items}}  a {{ "yes" }} {{ if property == "yes" && property || property }}"#.as_bytes();
    let mut tokener = Tokenizer::new(source);
    assert_eq!(tokener.next().unwrap().unwrap(), tok(TokenType::TemplateLiteral, "hello, ".as_bytes()));
    assert_eq!(tokener.next().unwrap().unwrap(), tok(TokenType::DoubleLeftBrackets, "{{".as_bytes()));
    assert_eq!(tokener.next().unwrap().unwrap(), tok(TokenType::Identifier, "person".as_bytes()));
    assert_eq!(tokener.next().unwrap().unwrap(), tok(TokenType::Dot, ".".as_bytes()));
    assert_eq!(tokener.next().unwrap().unwrap(), tok(TokenType::Identifier, "name".as_bytes()));
    assert_eq!(tokener.next().unwrap().unwrap(), tok(TokenType::DoubleRightBrackets, "}}".as_bytes()));
    assert_eq!(tokener.next().unwrap().unwrap(), tok(TokenType::TemplateLiteral, " y ".as_bytes()));
    assert_eq!(tokener.next().unwrap().unwrap(), tok(TokenType::DoubleLeftBrackets, "{{".as_bytes()));
    assert_eq!(tokener.next().unwrap().unwrap(), tok(TokenType::Identifier, "yes".as_bytes()));
    assert_eq!(tokener.next().unwrap().unwrap(), tok(TokenType::DoubleRightBrackets, "}}".as_bytes()));
    assert_eq!(tokener.next().unwrap().unwrap(), tok(TokenType::DoubleLeftBrackets, "{{".as_bytes()));
    assert_eq!(tokener.next().unwrap().unwrap(), tok(TokenType::For, "for".as_bytes()));
    assert_eq!(tokener.next().unwrap().unwrap(), tok(TokenType::Identifier, "item".as_bytes()));
    assert_eq!(tokener.next().unwrap().unwrap(), tok(TokenType::In, "in".as_bytes()));
    assert_eq!(tokener.next().unwrap().unwrap(), tok(TokenType::Identifier, "items".as_bytes()));
    assert_eq!(tokener.next().unwrap().unwrap(), tok(TokenType::DoubleRightBrackets, "}}".as_bytes()));
    assert_eq!(tokener.next().unwrap().unwrap(), tok(TokenType::TemplateLiteral, "  a ".as_bytes()));
    assert_eq!(tokener.next().unwrap().unwrap(), tok(TokenType::DoubleLeftBrackets, "{{".as_bytes()));
    assert_eq!(tokener.next().unwrap().unwrap(), tok(TokenType::StringLiteral, "\"yes\"".as_bytes()));
    assert_eq!(tokener.next().unwrap().unwrap(), tok(TokenType::DoubleRightBrackets, "}}".as_bytes()));
    assert_eq!(tokener.next().unwrap().unwrap(), tok(TokenType::TemplateLiteral, " ".as_bytes()));
    assert_eq!(tokener.next().unwrap().unwrap(), tok(TokenType::DoubleLeftBrackets, "{{".as_bytes()));
    assert_eq!(tokener.next().unwrap().unwrap(), tok(TokenType::If, "if".as_bytes()));
    assert_eq!(tokener.next().unwrap().unwrap(), tok(TokenType::Identifier, "property".as_bytes()));

    assert_eq!(tokener.next().unwrap().unwrap(), tok(TokenType::DoubleEquals, "==".as_bytes()));
    assert_eq!(tokener.next().unwrap().unwrap(), tok(TokenType::StringLiteral, "\"yes\"".as_bytes()));
    assert_eq!(tokener.next().unwrap().unwrap(), tok(TokenType::DoubleAmpersand, "&&".as_bytes()));
    assert_eq!(tokener.next().unwrap().unwrap(), tok(TokenType::Identifier, "property".as_bytes()));
    assert_eq!(tokener.next().unwrap().unwrap(), tok(TokenType::DoublePipe, "||".as_bytes()));
    assert_eq!(tokener.next().unwrap().unwrap(), tok(TokenType::Identifier, "property".as_bytes()));

    assert_eq!(tokener.next().unwrap().unwrap(), tok(TokenType::DoubleRightBrackets, "}}".as_bytes()));
    assert_eq!(tokener.next(), Ok(None));
}

#[test]
fn tokenize_collects_every_token() {
    let source = b"a{{ x != \"b\" }}c";
    let mut tokenizer = Tokenizer::new(source);
    let tokens = tokenizer.tokenize().unwrap();
    let kinds: Vec<TokenType> = tokens.iter().map(|t| t.token_type).collect();
    assert_eq!(
        kinds,
        vec![
            TokenType::TemplateLiteral,
            TokenType::DoubleLeftBrackets,
            TokenType::Identifier,
            TokenType::ExclamationEqual,
            TokenType::StringLiteral,
            TokenType::DoubleRightBrackets,
            TokenType::TemplateLiteral,
        ]
    );
    assert_eq!(tokens[4].token_value, b"\"b\"");
}

#[test]
fn bang_alone_and_bang_equals_are_told_apart() {
    let mut tokenizer = Tokenizer::new(b"{{!a!=b}}");
    let kinds: Vec<TokenType> = tokenizer.tokenize().unwrap().iter().map(|t| t.token_type).collect();
    assert_eq!(
        kinds,
        vec![
            TokenType::DoubleLeftBrackets,
            TokenType::Exclamation,
            TokenType::Identifier,
            TokenType::ExclamationEqual,
            TokenType::Identifier,
            TokenType::DoubleRightBrackets,
        ]
    );
}

#[test]
fn keywords_are_case_sensitive_and_when_is_an_identifier() {
    let mut tokenizer = Tokenizer::new(b"{{For else end when in_x}}");
    let kinds: Vec<TokenType> = tokenizer.tokenize().unwrap().iter().map(|t| t.token_type).collect();
    assert_eq!(
        kinds,
        vec![
            TokenType::DoubleLeftBrackets,
            TokenType::Identifier,
            TokenType::Else,
            TokenType::End,
            TokenType::Identifier,
            TokenType::Identifier,
            TokenType::DoubleRightBrackets,
        ]
    );
}

#[test]
fn escaped_quote_does_not_close_a_string() {
    let source = b"{{ \"a\\\"b\" }}";
    let mut tokenizer = Tokenizer::new(source);
    let tokens = tokenizer.tokenize().unwrap();
    assert_eq!(tokens[1].token_type, TokenType::StringLiteral);
    assert_eq!(tokens[1].token_value, b"\"a\\\"b\"");
}

#[test]
fn invalid_character_reports_its_offset() {
    let mut tokenizer = Tokenizer::new(b"ab{{ x # }}");
    assert_eq!(tokenizer.tokenize(), Err(LexError::InvalidCharacter { offset: 7 }));
}

#[test]
fn unterminated_string_is_an_error() {
    let mut tokenizer = Tokenizer::new(b"{{ \"abc }}");
    assert_eq!(tokenizer.tokenize(), Err(LexError::UnterminatedString));
}

#[test]
fn empty_source_has_no_tokens() {
    let mut tokenizer = Tokenizer::new(b"");
    assert_eq!(tokenizer.next(), Ok(None));
}
