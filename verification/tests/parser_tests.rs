use expr_parser::error::ParseError;
use expr_parser::lexer::Lexer;
use expr_parser::node::{BinaryKind, Node};
use expr_parser::parser::Parser;
use expr_parser::token::{DelimiterKind, OperatorKind, Pos, Token, TokenKind};

fn parse(input: &[u8]) -> Result<Node, ParseError> {
    Parser::new(Lexer::new(input)).expr()
}

fn num(value: usize) -> Box<Node> {
    Box::new(Node::NumberLiteral(value))
}

fn var(offset: usize) -> Box<Node> {
    Box::new(Node::Variable(offset))
}

fn binary(kind: BinaryKind, left: Box<Node>, right: Box<Node>) -> Box<Node> {
    Box::new(Node::BinaryOp(kind, left, right))
}

fn offset_of(parser: &Parser, name: &str) -> usize {
    parser.symbols().get(&name.to_string()).unwrap()
}

/// The value of a tree of literals.
fn eval(node: &Node) -> i64 {
    match node {
        Node::NumberLiteral(value) => *value as i64,
        Node::BinaryOp(kind, left, right) => {
            let (l, r) = (eval(left), eval(right));
            match kind {
                BinaryKind::Add => l + r,
                BinaryKind::Sub => l - r,
                BinaryKind::Mul => l * r,
                BinaryKind::Div => l / r,
                BinaryKind::Eq => (l == r) as i64,
                BinaryKind::Neq => (l != r) as i64,
                BinaryKind::Lt => (l < r) as i64,
                BinaryKind::Leq => (l <= r) as i64,
            }
        }
        _ => panic!("no value"),
    }
}

#[test]
fn number_alone_is_a_literal() {
    let mut parser = Parser::new(Lexer::new(b"42"));
    assert_eq!(parser.expr(), Ok(Node::NumberLiteral(42)));
    assert_eq!(parser.look_ahead(), &Ok(None));
    assert_eq!(parser.position(), 2);
    assert_eq!(parser.symbols().len(), 0);
}

#[test]
fn number_with_leading_zeros_is_a_literal() {
    let mut parser = Parser::new(Lexer::new(b"0012"));
    assert_eq!(parser.expr(), Ok(Node::NumberLiteral(12)));
    assert_eq!(parser.look_ahead(), &Ok(None));
}

#[test]
fn subtraction_joins_from_the_left() {
    let tree = parse(b"1-2-3").unwrap();
    assert_eq!(
        tree,
        *binary(BinaryKind::Sub, binary(BinaryKind::Sub, num(1), num(2)), num(3))
    );
    assert_eq!(eval(&tree), -4);
}

#[test]
fn division_joins_from_the_left() {
    let tree = parse(b"24/4/2").unwrap();
    assert_eq!(
        tree,
        *binary(BinaryKind::Div, binary(BinaryKind::Div, num(24), num(4)), num(2))
    );
    assert_eq!(eval(&tree), 3);
}

#[test]
fn assignment_joins_from_the_right() {
    let mut parser = Parser::new(Lexer::new(b"a=b=1"));
    let tree = parser.expr().unwrap();
    let a = offset_of(&parser, "a");
    let b = offset_of(&parser, "b");
    assert_eq!((a, b), (8, 16));
    assert_eq!(
        tree,
        Node::Assign(var(a), Box::new(Node::Assign(var(b), num(1))))
    );
}

#[test]
fn greater_is_less_with_operands_swapped() {
    let mut greater = Parser::new(Lexer::new(b"a>b"));
    let tree = greater.expr().unwrap();
    assert_eq!(
        tree,
        *binary(BinaryKind::Lt, var(offset_of(&greater, "b")), var(offset_of(&greater, "a")))
    );
    let mut less = Parser::new(Lexer::new(b"b<a"));
    let tree = less.expr().unwrap();
    assert_eq!(
        tree,
        *binary(BinaryKind::Lt, var(offset_of(&less, "b")), var(offset_of(&less, "a")))
    );
}

#[test]
fn greater_or_equal_is_less_or_equal_with_operands_swapped() {
    let mut greater = Parser::new(Lexer::new(b"a>=b"));
    let tree = greater.expr().unwrap();
    assert_eq!(
        tree,
        *binary(BinaryKind::Leq, var(offset_of(&greater, "b")), var(offset_of(&greater, "a")))
    );
    let mut less = Parser::new(Lexer::new(b"b<=a"));
    let tree = less.expr().unwrap();
    assert_eq!(
        tree,
        *binary(BinaryKind::Leq, var(offset_of(&less, "b")), var(offset_of(&less, "a")))
    );
}

#[test]
fn comparisons_of_numbers_keep_their_meaning() {
    assert_eq!(parse(b"3>2").unwrap(), *binary(BinaryKind::Lt, num(2), num(3)));
    assert_eq!(parse(b"3>=2").unwrap(), *binary(BinaryKind::Leq, num(2), num(3)));
    assert_eq!(parse(b"3<2").unwrap(), *binary(BinaryKind::Lt, num(3), num(2)));
    assert_eq!(parse(b"3<=2").unwrap(), *binary(BinaryKind::Leq, num(3), num(2)));
    assert_eq!(eval(&parse(b"3>2").unwrap()), 1);
    assert_eq!(eval(&parse(b"2>=3").unwrap()), 0);
}

#[test]
fn chained_comparison_swaps_the_whole_left_side() {
    assert_eq!(
        parse(b"1<2>3").unwrap(),
        *binary(BinaryKind::Lt, num(3), binary(BinaryKind::Lt, num(1), num(2)))
    );
}

#[test]
fn one_name_has_one_offset() {
    let mut parser = Parser::new(Lexer::new(b"a+a"));
    let tree = parser.expr().unwrap();
    assert_eq!(tree, *binary(BinaryKind::Add, var(8), var(8)));
    assert_eq!(parser.symbols().len(), 1);
    assert_eq!(offset_of(&parser, "a"), 8);
}

#[test]
fn two_names_have_two_rising_offsets() {
    let mut parser = Parser::new(Lexer::new(b"a+b"));
    let tree = parser.expr().unwrap();
    assert_eq!(tree, *binary(BinaryKind::Add, var(8), var(16)));
    assert_eq!(parser.symbols().len(), 2);
    assert!(offset_of(&parser, "a") < offset_of(&parser, "b"));
}

#[test]
fn parentheses_group() {
    let grouped = parse(b"(1+2)*3").unwrap();
    let plain = parse(b"1+2*3").unwrap();
    assert_ne!(grouped, plain);
    assert_eq!(
        grouped,
        *binary(BinaryKind::Mul, binary(BinaryKind::Add, num(1), num(2)), num(3))
    );
    assert_eq!(
        plain,
        *binary(BinaryKind::Add, num(1), binary(BinaryKind::Mul, num(2), num(3)))
    );
    assert_eq!(eval(&grouped), 9);
    assert_eq!(eval(&plain), 7);
}

#[test]
fn levels_bind_in_order() {
    assert_eq!(
        parse(b"1==2<3+4*5").unwrap(),
        *binary(
            BinaryKind::Eq,
            num(1),
            binary(
                BinaryKind::Lt,
                num(2),
                binary(BinaryKind::Add, num(3), binary(BinaryKind::Mul, num(4), num(5)))
            )
        )
    );
    assert_eq!(
        parse(b"1*2+3<4!=5").unwrap(),
        *binary(
            BinaryKind::Neq,
            binary(
                BinaryKind::Lt,
                binary(BinaryKind::Add, binary(BinaryKind::Mul, num(1), num(2)), num(3)),
                num(4)
            ),
            num(5)
        )
    );
}

#[test]
fn unary_minus_is_zero_minus() {
    assert_eq!(parse(b"-5").unwrap(), *binary(BinaryKind::Sub, num(0), num(5)));
    assert_eq!(eval(&parse(b"-5+8").unwrap()), 3);
    assert_eq!(
        parse(b"2*-3").unwrap(),
        *binary(BinaryKind::Mul, num(2), binary(BinaryKind::Sub, num(0), num(3)))
    );
}

#[test]
fn unary_plus_is_dropped() {
    assert_eq!(parse(b"+5").unwrap(), Node::NumberLiteral(5));
    assert_eq!(parse(b"1-+2").unwrap(), *binary(BinaryKind::Sub, num(1), num(2)));
}

#[test]
fn sign_is_read_once() {
    assert_eq!(
        parse(b"--5"),
        Err(ParseError::UnexpectedToken(Pos(1, 2)))
    );
}

#[test]
fn call_takes_no_argument() {
    let mut parser = Parser::new(Lexer::new(b"f()"));
    assert_eq!(parser.expr(), Ok(Node::Call("f".to_string(), vec![1, 1])));
    assert_eq!(parser.symbols().len(), 0);
    assert_eq!(parser.look_ahead(), &Ok(None));
}

#[test]
fn call_is_an_operand() {
    assert_eq!(
        parse(b"1 + next () * 2").unwrap(),
        *binary(
            BinaryKind::Add,
            num(1),
            binary(BinaryKind::Mul, Box::new(Node::Call("next".to_string(), vec![1, 1])), num(2))
        )
    );
}

#[test]
fn call_with_an_argument_is_refused() {
    assert_eq!(parse(b"f(1)"), Err(ParseError::UnexpectedDelimiter(Pos(2, 3))));
}

#[test]
fn call_that_does_not_close_is_reported() {
    assert_eq!(parse(b"f("), Err(ParseError::MissingDelimiter(Pos(0, 0))));
}

#[test]
fn missing_operand_is_reported() {
    assert_eq!(parse(b"1+"), Err(ParseError::MissingExpression(Pos(0, 0))));
    assert_eq!(parse(b""), Err(ParseError::MissingExpression(Pos(0, 0))));
    assert_eq!(parse(b"a="), Err(ParseError::MissingExpression(Pos(0, 0))));
    assert_eq!(parse(b"("), Err(ParseError::MissingExpression(Pos(0, 0))));
}

#[test]
fn group_that_does_not_close_is_reported() {
    assert_eq!(parse(b"(1+2"), Err(ParseError::MissingDelimiter(Pos(0, 0))));
}

#[test]
fn group_closed_by_another_token_is_reported() {
    assert_eq!(parse(b"(1 2)"), Err(ParseError::UnexpectedDelimiter(Pos(3, 4))));
    assert_eq!(parse(b"(1;"), Err(ParseError::UnexpectedDelimiter(Pos(2, 3))));
}

#[test]
fn token_that_begins_no_expression_is_reported() {
    assert_eq!(parse(b")"), Err(ParseError::UnexpectedToken(Pos(0, 1))));
    assert_eq!(parse(b"1+*2"), Err(ParseError::UnexpectedToken(Pos(2, 3))));
    assert_eq!(parse(b"return 1"), Err(ParseError::UnexpectedToken(Pos(0, 6))));
}

#[test]
fn unknown_byte_is_reported() {
    assert_eq!(parse(b"@"), Err(ParseError::UnexpectedToken(Pos(0, 1))));
    assert_eq!(parse(b"1 + @"), Err(ParseError::UnexpectedToken(Pos(4, 5))));
    assert_eq!(parse(b"1 @"), Err(ParseError::UnexpectedToken(Pos(2, 3))));
    assert_eq!(parse(b"a@"), Err(ParseError::UnexpectedToken(Pos(1, 2))));
}

#[test]
fn number_that_does_not_fit_is_reported() {
    assert_eq!(
        parse(b"1+99999999999999999999999999"),
        Err(ParseError::UnexpectedToken(Pos(2, 28)))
    );
}

#[test]
fn refused_token_stays_the_lookahead() {
    let mut parser = Parser::new(Lexer::new(b"1+)"));
    assert_eq!(parser.expr(), Err(ParseError::UnexpectedToken(Pos(2, 3))));
    assert_eq!(
        parser.look_ahead(),
        &Ok(Some(Token(TokenKind::Delimiter(DelimiterKind::RightParen), Pos(2, 3))))
    );
    assert_eq!(parser.position(), 2);
}

#[test]
fn rule_stops_at_the_first_token_it_cannot_use() {
    let mut parser = Parser::new(Lexer::new(b"1 2"));
    assert_eq!(parser.expr(), Ok(Node::NumberLiteral(1)));
    assert_eq!(parser.look_ahead(), &Ok(Some(Token(TokenKind::Number(2), Pos(2, 3)))));
    assert_eq!(parser.position(), 1);
    assert_eq!(parser.expr(), Ok(Node::NumberLiteral(2)));
    assert_eq!(parser.look_ahead(), &Ok(None));
}

#[test]
fn rules_leave_the_looser_operators() {
    let mut parser = Parser::new(Lexer::new(b"1*2+3"));
    assert_eq!(parser.mul(), Ok(*binary(BinaryKind::Mul, num(1), num(2))));
    assert_eq!(
        parser.look_ahead(),
        &Ok(Some(Token(TokenKind::Operator(OperatorKind::Add), Pos(3, 4))))
    );
    let mut parser = Parser::new(Lexer::new(b"1+2<3"));
    assert_eq!(parser.add(), Ok(*binary(BinaryKind::Add, num(1), num(2))));
    let mut parser = Parser::new(Lexer::new(b"1<2==3"));
    assert_eq!(parser.relational(), Ok(*binary(BinaryKind::Lt, num(1), num(2))));
    let mut parser = Parser::new(Lexer::new(b"1==2=3"));
    assert_eq!(parser.equality(), Ok(*binary(BinaryKind::Eq, num(1), num(2))));
    let mut parser = Parser::new(Lexer::new(b"-1*2"));
    assert_eq!(parser.unary(), Ok(*binary(BinaryKind::Sub, num(0), num(1))));
    let mut parser = Parser::new(Lexer::new(b"-1"));
    assert_eq!(parser.primary(), Err(ParseError::UnexpectedToken(Pos(0, 1))));
    let mut parser = Parser::new(Lexer::new(b"x=1"));
    assert_eq!(parser.assign(), Ok(Node::Assign(var(8), num(1))));
}

#[test]
fn consume_takes_the_lookahead() {
    let mut parser = Parser::new(Lexer::new(b"7 +"));
    assert_eq!(parser.consume(), Ok(Some(Token(TokenKind::Number(7), Pos(0, 1)))));
    assert_eq!(parser.position(), 1);
    assert_eq!(
        parser.consume(),
        Ok(Some(Token(TokenKind::Operator(OperatorKind::Add), Pos(2, 3))))
    );
    assert_eq!(parser.consume(), Ok(None));
    assert_eq!(parser.consume(), Ok(None));
    assert_eq!(parser.position(), 3);
}

#[test]
fn consume_stops_at_an_error() {
    let mut parser = Parser::new(Lexer::new(b"7 @"));
    assert_eq!(parser.consume(), Ok(Some(Token(TokenKind::Number(7), Pos(0, 1)))));
    assert_eq!(parser.consume(), Err(ParseError::UnexpectedToken(Pos(2, 3))));
    assert_eq!(parser.look_ahead(), &Err(ParseError::UnexpectedToken(Pos(2, 3))));
}

#[test]
fn parser_reads_on_from_where_the_lexer_stands() {
    let mut lexer = Lexer::new(b"1 2+3");
    assert_eq!(lexer.next(), Ok(Some(Token(TokenKind::Number(1), Pos(0, 1)))));
    let mut parser = Parser::new(lexer);
    assert_eq!(parser.position(), 1);
    assert_eq!(parser.expr(), Ok(*binary(BinaryKind::Add, num(2), num(3))));
}

#[test]
fn assignment_to_a_sum_is_read() {
    let mut parser = Parser::new(Lexer::new(b"a+1=b"));
    assert_eq!(
        parser.expr(),
        Ok(Node::Assign(binary(BinaryKind::Add, var(8), num(1)), var(16)))
    );
}

#[test]
fn variables_of_a_failed_parse_stay_in_the_table() {
    let mut parser = Parser::new(Lexer::new(b"a+b+"));
    assert_eq!(parser.expr(), Err(ParseError::MissingExpression(Pos(0, 0))));
    assert_eq!(offset_of(&parser, "a"), 8);
    assert_eq!(offset_of(&parser, "b"), 16);
}

#[test]
fn same_source_parses_to_the_same_tree() {
    let source = b"x = (y + 2) * x - f() >= -z";
    let mut first = Parser::new(Lexer::new(source));
    let mut second = Parser::new(Lexer::new(source));
    let (one, two) = (first.expr(), second.expr());
    assert!(one.is_ok());
    assert_eq!(one, two);
    assert_eq!(first.position(), second.position());
    for name in ["x", "y", "z"] {
        assert_eq!(offset_of(&first, name), offset_of(&second, name));
    }
    assert_eq!(first.symbols().len(), 3);
}

#[test]
fn same_bad_source_fails_the_same_way() {
    let source = b"x = (y + 2";
    assert_eq!(parse(source), parse(source));
    assert_eq!(parse(source), Err(ParseError::MissingDelimiter(Pos(0, 0))));
}

#[test]
fn deep_nesting_is_read() {
    let tree = parse(b"((((((1))))))+((2))").unwrap();
    assert_eq!(tree, *binary(BinaryKind::Add, num(1), num(2)));
}

#[test]
fn spaces_between_tokens_do_not_matter() {
    assert_eq!(parse(b" 1 +\n2 * ( 3 - 4 ) "), parse(b"1+2*(3-4)"));
    assert_eq!(eval(&parse(b" 1 +\n2 * ( 3 - 4 ) ").unwrap()), -1);
}
