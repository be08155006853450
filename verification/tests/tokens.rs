use lambda_eval::lexer::{Token, TokenStream};

fn drain(mut stream: TokenStream) -> Vec<Token> {
    let mut tokens = Vec::new();
    while let Some(token) = stream.next() {
        tokens.push(token);
    }
    tokens
}

#[test]
fn tokenizes_a_lambda_application() {
    let tokens = drain(TokenStream::new("(^x.x) a".to_string()));
    assert_eq!(
        tokens,
        vec![
            Token::Lpar,
            Token::Lambda,
            Token::Var('x'),
            Token::Dot,
            Token::Var('x'),
            Token::Rpar,
            Token::Var('a'),
        ]
    );
}

#[test]
fn skips_whitespace_between_tokens() {
    let tokens = drain(TokenStream::new("  a   b ".to_string()));
    assert_eq!(tokens, vec![Token::Var('a'), Token::Var('b')]);
}

#[test]
fn peek_does_not_consume() {
    let mut stream = TokenStream::new("ab".to_string());
    assert_eq!(stream.peek(), Some(Token::Var('a')));
    assert_eq!(stream.peek(), Some(Token::Var('a')));
    assert_eq!(stream.next(), Some(Token::Var('a')));
    assert_eq!(stream.next(), Some(Token::Var('b')));
    assert_eq!(stream.next(), None);
}

#[test]
fn empty_and_foreign_input_yield_nothing() {
    assert_eq!(drain(TokenStream::new(String::new())), Vec::<Token>::new());
    assert_eq!(drain(TokenStream::new("   ".to_string())), Vec::<Token>::new());
    let mut stream = TokenStream::new("?x".to_string());
    assert_eq!(stream.next(), None);
}
