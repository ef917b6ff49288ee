use expr_parser::error::ParseError;
use expr_parser::lexer::Lexer;
use expr_parser::token::{DelimiterKind, KeywordKind, OperatorKind, Pos, Token, TokenKind};

fn tokens(input: &[u8]) -> Vec<Token> {
    let mut lexer = Lexer::new(input);
    let mut found = Vec::new();
    while let Some(token) = lexer.next().unwrap() {
        found.push(token);
    }
    found
}

fn kinds(input: &[u8]) -> Vec<TokenKind> {
    tokens(input).into_iter().map(|token| token.0).collect()
}

fn ident(name: &str) -> TokenKind {
    TokenKind::Identifier(name.to_string())
}

#[test]
fn empty_source_has_no_token() {
    let mut lexer = Lexer::new(b"");
    assert_eq!(lexer.next(), Ok(None));
    assert_eq!(lexer.next(), Ok(None));
    assert_eq!(lexer.position(), 0);
}

#[test]
fn spaces_and_newlines_are_skipped() {
    let mut lexer = Lexer::new(b"  \n 7 \n");
    assert_eq!(lexer.next(), Ok(Some(Token(TokenKind::Number(7), Pos(4, 5)))));
    assert_eq!(lexer.position(), 5);
    assert_eq!(lexer.next(), Ok(None));
    assert_eq!(lexer.position(), 7);
}

#[test]
fn tab_is_no_space() {
    let mut lexer = Lexer::new(b" \t1");
    assert_eq!(lexer.next(), Err(ParseError::UnexpectedToken(Pos(1, 2))));
}

#[test]
fn keyword_needs_the_byte_behind_it() {
    assert_eq!(
        tokens(b"return x"),
        vec![
            Token(TokenKind::Keyword(KeywordKind::Return), Pos(0, 6)),
            Token(ident("x"), Pos(7, 8)),
        ]
    );
    assert_eq!(kinds(b"return"), vec![ident("return")]);
    assert_eq!(kinds(b"returns "), vec![ident("returns")]);
    assert_eq!(
        tokens(b"if("),
        vec![
            Token(TokenKind::Keyword(KeywordKind::If), Pos(0, 2)),
            Token(TokenKind::Delimiter(DelimiterKind::LeftParen), Pos(2, 3)),
        ]
    );
    assert_eq!(
        kinds(b"if ("),
        vec![ident("if"), TokenKind::Delimiter(DelimiterKind::LeftParen)]
    );
    assert_eq!(
        kinds(b"while("),
        vec![
            TokenKind::Keyword(KeywordKind::While),
            TokenKind::Delimiter(DelimiterKind::LeftParen),
        ]
    );
    assert_eq!(
        tokens(b"else 1"),
        vec![
            Token(TokenKind::Keyword(KeywordKind::Else), Pos(0, 4)),
            Token(TokenKind::Number(1), Pos(5, 6)),
        ]
    );
    assert_eq!(
        tokens(b"for("),
        vec![
            Token(TokenKind::Keyword(KeywordKind::For), Pos(0, 3)),
            Token(TokenKind::Delimiter(DelimiterKind::LeftParen), Pos(3, 4)),
        ]
    );
    assert_eq!(kinds(b"forever"), vec![ident("forever")]);
}

#[test]
fn keyword_wins_over_identifier_with_the_same_beginning() {
    assert_eq!(
        kinds(b"else if(x"),
        vec![
            TokenKind::Keyword(KeywordKind::Else),
            TokenKind::Keyword(KeywordKind::If),
            TokenKind::Delimiter(DelimiterKind::LeftParen),
            ident("x"),
        ]
    );
}

#[test]
fn two_byte_operators_win_over_one_byte_operators() {
    assert_eq!(
        tokens(b"<= >= == != < > ="),
        vec![
            Token(TokenKind::Operator(OperatorKind::Leq), Pos(0, 2)),
            Token(TokenKind::Operator(OperatorKind::Geq), Pos(3, 5)),
            Token(TokenKind::Operator(OperatorKind::Eq), Pos(6, 8)),
            Token(TokenKind::Operator(OperatorKind::Neq), Pos(9, 11)),
            Token(TokenKind::Operator(OperatorKind::Lt), Pos(12, 13)),
            Token(TokenKind::Operator(OperatorKind::Gt), Pos(14, 15)),
            Token(TokenKind::Operator(OperatorKind::Assign), Pos(16, 17)),
        ]
    );
    assert_eq!(
        kinds(b"==="),
        vec![TokenKind::Operator(OperatorKind::Eq), TokenKind::Operator(OperatorKind::Assign)]
    );
    assert_eq!(
        kinds(b"<=="),
        vec![TokenKind::Operator(OperatorKind::Leq), TokenKind::Operator(OperatorKind::Assign)]
    );
}

#[test]
fn one_byte_operators_and_delimiters() {
    assert_eq!(
        kinds(b"+-*/;(){},"),
        vec![
            TokenKind::Operator(OperatorKind::Add),
            TokenKind::Operator(OperatorKind::Sub),
            TokenKind::Operator(OperatorKind::Mul),
            TokenKind::Operator(OperatorKind::Div),
            TokenKind::Delimiter(DelimiterKind::Semicolon),
            TokenKind::Delimiter(DelimiterKind::LeftParen),
            TokenKind::Delimiter(DelimiterKind::RightParen),
            TokenKind::Delimiter(DelimiterKind::LeftBrace),
            TokenKind::Delimiter(DelimiterKind::RightBrace),
            TokenKind::Delimiter(DelimiterKind::Comma),
        ]
    );
}

#[test]
fn bang_alone_is_no_token() {
    let mut lexer = Lexer::new(b"1 !2");
    assert_eq!(lexer.next(), Ok(Some(Token(TokenKind::Number(1), Pos(0, 1)))));
    assert_eq!(lexer.next(), Err(ParseError::UnexpectedToken(Pos(2, 3))));
}

#[test]
fn digits_are_read_to_the_end_of_the_run() {
    assert_eq!(tokens(b"007"), vec![Token(TokenKind::Number(7), Pos(0, 3))]);
    assert_eq!(tokens(b"1234567890"), vec![Token(TokenKind::Number(1234567890), Pos(0, 10))]);
    assert_eq!(
        tokens(b"12ab"),
        vec![Token(TokenKind::Number(12), Pos(0, 2)), Token(ident("ab"), Pos(2, 4))]
    );
    assert_eq!(tokens(b"0"), vec![Token(TokenKind::Number(0), Pos(0, 1))]);
}

#[test]
fn largest_number_fits() {
    let text = usize::MAX.to_string();
    assert_eq!(
        tokens(text.as_bytes()),
        vec![Token(TokenKind::Number(usize::MAX), Pos(0, text.len()))]
    );
}

#[test]
fn number_that_does_not_fit_is_an_error() {
    let mut lexer = Lexer::new(b"  99999999999999999999999999 1");
    assert_eq!(lexer.next(), Err(ParseError::UnexpectedToken(Pos(2, 28))));
    assert_eq!(lexer.position(), 2);
    assert_eq!(lexer.next(), Err(ParseError::UnexpectedToken(Pos(2, 28))));
}

#[test]
fn number_one_above_the_largest_is_an_error() {
    let mut text = usize::MAX.to_string().into_bytes();
    let last = text.len() - 1;
    text[last] += 1;
    let mut lexer = Lexer::new(&text);
    assert_eq!(lexer.next(), Err(ParseError::UnexpectedToken(Pos(0, text.len()))));
}

#[test]
fn identifier_is_spelled_as_in_the_source() {
    assert_eq!(tokens(b"abc"), vec![Token(ident("abc"), Pos(0, 3))]);
    assert_eq!(
        tokens(b"fooBar1"),
        vec![Token(ident("fooBar"), Pos(0, 6)), Token(TokenKind::Number(1), Pos(6, 7))]
    );
    assert_eq!(tokens(b" z "), vec![Token(ident("z"), Pos(1, 2))]);
}

#[test]
fn identifier_begins_with_a_lower_case_letter() {
    let mut lexer = Lexer::new(b"Foo");
    assert_eq!(lexer.next(), Err(ParseError::UnexpectedToken(Pos(0, 1))));
}

#[test]
fn unknown_byte_is_an_error_and_the_lexer_stays() {
    let mut lexer = Lexer::new(b" @");
    assert_eq!(lexer.next(), Err(ParseError::UnexpectedToken(Pos(1, 2))));
    assert_eq!(lexer.position(), 1);
    assert_eq!(lexer.next(), Err(ParseError::UnexpectedToken(Pos(1, 2))));
}

#[test]
fn byte_above_ascii_is_an_error() {
    let mut lexer = Lexer::new(&[0x61, 0xc3, 0xa9]);
    assert_eq!(lexer.next(), Ok(Some(Token(ident("a"), Pos(0, 1)))));
    assert_eq!(lexer.next(), Err(ParseError::UnexpectedToken(Pos(1, 2))));
}

#[test]
fn positions_do_not_overlap_and_do_not_go_back() {
    let source = b"a = (b1 <= 22) * return x";
    let found = tokens(source);
    assert_eq!(found.len(), 11);
    let mut end = 0;
    for token in &found {
        let Pos(from, to) = token.1;
        assert!(end <= from);
        assert!(from < to);
        assert!(to <= source.len());
        end = to;
    }
}

#[test]
fn error_position_is_what_the_error_carries() {
    assert_eq!(ParseError::MissingExpression(Pos(1, 2)).position(), Pos(1, 2));
    assert_eq!(ParseError::MissingDelimiter(Pos(3, 4)).position(), Pos(3, 4));
    assert_eq!(ParseError::UnexpectedDelimiter(Pos(5, 6)).position(), Pos(5, 6));
    assert_eq!(ParseError::UnexpectedToken(Pos(7, 8)).position(), Pos(7, 8));
    assert_eq!(Pos::default(), Pos(0, 0));
}
