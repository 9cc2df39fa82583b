use spade::lexer::TokenKind;

fn tokens(source: &str) -> Vec<TokenKind> {
    let mut lex = TokenKind::lexer(source);
    let mut out = vec![];
    while let Some(t) = lex.next() {
        out.push(t);
    }
    out
}

#[test]
fn identifiers_work() {
    let mut lex = TokenKind::lexer("abc123_");

    assert_eq!(
        lex.next(),
        Some(TokenKind::Identifier("abc123_".to_string()))
    );
}

#[test]
fn integer_literals_work() {
    let mut lex = TokenKind::lexer("123");

    assert_eq!(lex.next(), Some(TokenKind::Integer(123)));
    assert_eq!(lex.next(), None);
}

#[test]
fn keywords_are_not_identifiers() {
    assert_eq!(
        tokens("let reg pipeline stage inst fn"),
        vec![
            TokenKind::Let,
            TokenKind::Reg,
            TokenKind::Pipeline,
            TokenKind::Stage,
            TokenKind::Instance,
            TokenKind::Function
        ]
    );
    assert_eq!(tokens("lets"), vec![TokenKind::Identifier("lets".to_string())]);
}

#[test]
fn identifier_suffixes_are_part_of_the_identifier() {
    assert_eq!(
        tokens("ready? go! a?! true?"),
        vec![
            TokenKind::Identifier("ready?".to_string()),
            TokenKind::Identifier("go!".to_string()),
            TokenKind::Identifier("a?!".to_string()),
            TokenKind::Identifier("true?".to_string()),
        ]
    );
}

#[test]
fn prefixed_integers_use_their_radix() {
    assert_eq!(
        tokens("0x12 0b101 1_000"),
        vec![TokenKind::Integer(18), TokenKind::Integer(5), TokenKind::Integer(1000)]
    );
}

#[test]
fn invalid_binary_digits_are_an_error() {
    assert_eq!(tokens("0b12"), vec![TokenKind::Error]);
}

#[test]
fn integer_overflow_is_an_error() {
    assert_eq!(
        tokens("340282366920938463463374607431768211455"),
        vec![TokenKind::Integer(u128::MAX)]
    );
    assert_eq!(
        tokens("340282366920938463463374607431768211456"),
        vec![TokenKind::Error]
    );
}

#[test]
fn prefix_without_digit_is_zero_then_identifier() {
    assert_eq!(
        tokens("0xff"),
        vec![TokenKind::Integer(0), TokenKind::Identifier("xff".to_string())]
    );
}

#[test]
fn longest_operator_wins() {
    assert_eq!(
        tokens("== => = << < >> > || | && & -> - :: :"),
        vec![
            TokenKind::Equals,
            TokenKind::FatArrow,
            TokenKind::Assignment,
            TokenKind::LeftShift,
            TokenKind::Lt,
            TokenKind::RightShift,
            TokenKind::Gt,
            TokenKind::LogicalOr,
            TokenKind::BitwiseOr,
            TokenKind::LogicalAnd,
            TokenKind::BitwiseAnd,
            TokenKind::SlimArrow,
            TokenKind::Minus,
            TokenKind::PathSeparator,
            TokenKind::Colon,
        ]
    );
}

#[test]
fn comments_run_to_the_end_of_the_line() {
    assert_eq!(
        tokens("a // comment\nb"),
        vec![
            TokenKind::Identifier("a".to_string()),
            TokenKind::Identifier("b".to_string())
        ]
    );
    assert_eq!(tokens("// no newline"), {
        let mut v = vec![TokenKind::Slash, TokenKind::Slash];
        v.push(TokenKind::Identifier("no".to_string()));
        v.push(TokenKind::Identifier("newline".to_string()));
        v
    });
}

#[test]
fn unknown_characters_are_errors() {
    assert_eq!(tokens("a % b"), vec![
        TokenKind::Identifier("a".to_string()),
        TokenKind::Error,
        TokenKind::Identifier("b".to_string())
    ]);
}

#[test]
fn token_kinds_describe_themselves() {
    assert_eq!(TokenKind::Identifier("x".to_string()).as_str(), "identifier");
    assert_eq!(TokenKind::Integer(3).as_str(), "integer");
    assert_eq!(TokenKind::PathSeparator.as_str(), "::");
    assert_eq!(TokenKind::Instance.as_str(), "inst");
    assert!(TokenKind::Identifier("x".to_string()).is_identifier());
    assert!(!TokenKind::Integer(1).is_identifier());
    assert!(TokenKind::Integer(1).is_integer());
    assert!(!TokenKind::Let.is_integer());
}
