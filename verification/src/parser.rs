//! The parser: a recursive descent over the tokens of one source, with a
//! single token of lookahead.
//!
//! The parser owns its lexer and its symbol table for the length of a
//! parse. It never goes back in the source: a token is looked at, and then
//! either taken or left for the rule that called.
//!
//! The rules call each other, and they end: a rule calls a tighter rule
//! where it stands, and any rule only after a token has been taken. So each
//! rule decreases the number of bytes left and, second to that, a number
//! that is larger the looser the rule binds.

use vstd::prelude::*;
use crate::error::ParseError;
use crate::grammar::{
    operator_ahead, remaining, shift, spec_add, spec_assign, spec_chain, spec_closing,
    spec_equality, spec_expr, spec_mul, spec_named, spec_operand, spec_primary, spec_relational,
    spec_unary, Level, Outcome,
};
use crate::lexer::{item_view, Lexer};
use crate::node::{call_placeholder, BinaryKind, Node, NodeView};
use crate::scan::{lemma_lex_advances, lemma_lex_bounds, lex};
use crate::symbols::{SymbolTable, Symbols, FIRST_OFFSET, STRIDE};
use crate::token::{DelimiterKind, OperatorKind, Pos, Token, TokenKind, TokenKindView, TokenView};

verus! {

/// The state of one parse: the lexer, the token that it handed out last,
/// which no rule has taken yet, and the symbol table.
#[derive(Debug)]
pub struct Parser<'a> {
    lexer: Lexer<'a>,
    /// Where the lexer stood before it read the lookahead.
    at: usize,
    lookahead: Result<Option<Token>, ParseError>,
    symbols: SymbolTable,
}

/// The mathematical value of what a rule returns.
pub open spec fn result_view(result: Result<Node, ParseError>) -> Result<NodeView, ParseError> {
    match result {
        Ok(node) => Ok(node@),
        Err(e) => Err(e),
    }
}

impl<'a> Parser<'a> {
    /// The source that is parsed.
    pub closed spec fn source(&self) -> Seq<u8> {
        self.lexer.source()
    }

    /// The place in the source up to which the rules have read: the
    /// lookahead is the token found from there.
    pub closed spec fn at(&self) -> int {
        self.at as int
    }

    /// The symbol table.
    pub closed spec fn table(&self) -> Symbols {
        self.symbols@
    }

    /// The lookahead is the token at the place read up to, and the lexer
    /// stands behind it.
    spec fn inv(&self) -> bool {
        &&& self.lexer.wf()
        &&& self.symbols.wf()
        &&& 0 <= self.at <= self.lexer.source().len()
        &&& item_view(self.lookahead) == lex(self.lexer.source(), self.at as int).item
        &&& self.lexer.cursor() == self.at + lex(self.lexer.source(), self.at as int).used
    }

    /// The parser is consistent: the lookahead is the token at the place
    /// read up to, and the symbol table has room for as many new variables
    /// as the source has bytes left.
    pub closed spec fn wf(&self) -> bool {
        &&& self.inv()
        &&& self.table().cursor + STRIDE * remaining(self.source(), self.at()) <= usize::MAX
    }

    /// What a rule has done that was called in `before`, yielded `outcome`
    /// by the grammar, and returned `result`: the tree or the error is the
    /// grammar's, the parser has read as far as the grammar says, and the
    /// table is the grammar's, with nothing lost.
    pub open spec fn follows(
        &self,
        before: Parser<'a>,
        outcome: Outcome,
        result: Result<Node, ParseError>,
    ) -> bool {
        &&& self.wf()
        &&& self.source() == before.source()
        &&& self.at() == before.at() + outcome.used
        &&& self.table() == outcome.symbols
        &&& self.table().extends(before.table())
        &&& result_view(result) == outcome.result
    }

    /// A parser that reads on from where `lexer` stands, with an empty
    /// symbol table. Each variable takes [`STRIDE`] of the offsets that the
    /// machine can count, so the source may not have more bytes left than
    /// there are such strides.
    pub fn new(lexer: Lexer<'a>) -> (parser: Parser<'a>)
        requires
            lexer.wf(),
            FIRST_OFFSET + STRIDE * (lexer.source().len() - lexer.cursor()) <= usize::MAX,
        ensures
            parser.wf(),
            parser.source() == lexer.source(),
            parser.at() == lexer.cursor(),
            parser.table() == Symbols::empty(),
    {
        let mut lexer = lexer;
        let at = lexer.position();
        let lookahead = lexer.next();
        Parser { lexer, at, lookahead, symbols: SymbolTable::new() }
    }

    /// The lookahead: the next token that no rule has taken yet, `None` at
    /// the end of the input, or the lexer's error.
    pub fn look_ahead(&self) -> (item: &Result<Option<Token>, ParseError>)
        requires
            self.wf(),
        ensures
            item_view(*item) == lex(self.source(), self.at()).item,
    {
        &self.lookahead
    }

    /// The symbol table.
    pub fn symbols(&self) -> (table: &SymbolTable)
        requires
            self.wf(),
        ensures
            table@ == self.table(),
            table.wf(),
    {
        &self.symbols
    }

    /// The place in the source up to which the rules have read.
    pub fn position(&self) -> (at: usize)
        ensures
            at == self.at(),
    {
        self.at
    }

    /// Takes the lookahead, and reads the token behind it as the new
    /// lookahead. At the end of the input and at an error nothing changes.
    pub fn consume(&mut self) -> (item: Result<Option<Token>, ParseError>)
        requires
            old(self).wf(),
        ensures
            final(self).wf(),
            final(self).source() == old(self).source(),
            final(self).table() == old(self).table(),
            item_view(item) == lex(old(self).source(), old(self).at()).item,
            final(self).at() == if item matches Ok(Some(_)) {
                old(self).at() + lex(old(self).source(), old(self).at()).used
            } else {
                old(self).at()
            },
            item matches Ok(Some(_)) ==> old(self).at() < final(self).at() && old(self).at()
                < old(self).source().len(),
    {
        match &self.lookahead {
            Ok(Some(_)) => {},
            Ok(None) => {
                return Ok(None);
            },
            Err(e) => {
                return Err(*e);
            },
        }
        proof {
            lemma_lex_advances(self.lexer.source(), self.at as int);
            lemma_lex_bounds(self.lexer.source(), self.at as int);
        }
        let from = self.lexer.position();
        let mut item = self.lexer.next();
        proof {
            lemma_lex_bounds(self.lexer.source(), from as int);
        }
        std::mem::swap(&mut self.lookahead, &mut item);
        self.at = from;
        item
    }

    /// The operator in the lookahead, `None` where another token or the end
    /// of the input stands there.
    fn peek_operator(&self) -> (ahead: Result<Option<OperatorKind>, ParseError>)
        requires
            self.inv(),
        ensures
            ahead == operator_ahead(self.source(), self.at()),
    {
        match &self.lookahead {
            Err(e) => Err(*e),
            Ok(Some(Token(TokenKind::Operator(op), _))) => Ok(Some(*op)),
            Ok(_) => Ok(None),
        }
    }

    /// Whether an opening parenthesis is the lookahead.
    fn peek_opening(&self) -> (ahead: Result<bool, ParseError>)
        requires
            self.inv(),
        ensures
            match lex(self.source(), self.at()).item {
                Err(e) => ahead == Err::<bool, ParseError>(e),
                Ok(Some(TokenView(TokenKindView::Delimiter(DelimiterKind::LeftParen), _))) => ahead
                    == Ok::<bool, ParseError>(true),
                Ok(_) => ahead == Ok::<bool, ParseError>(false),
            },
    {
        match &self.lookahead {
            Err(e) => Err(*e),
            Ok(Some(Token(TokenKind::Delimiter(DelimiterKind::LeftParen), _))) => Ok(true),
            Ok(_) => Ok(false),
        }
    }

    /// Takes the closing parenthesis that must be the lookahead, and hands
    /// `node` back.
    fn closing(&mut self, node: Node) -> (result: Result<Node, ParseError>)
        requires
            old(self).wf(),
        ensures
            final(self).follows(
                *old(self),
                spec_closing(old(self).source(), old(self).at(), old(self).table(), node@),
                result,
            ),
    {
        let found = match &self.lookahead {
            Err(e) => Err(*e),
            Ok(None) => Err(ParseError::MissingDelimiter(Pos::default())),
            Ok(Some(Token(TokenKind::Delimiter(DelimiterKind::RightParen), _))) => Ok(()),
            Ok(Some(Token(_, pos))) => Err(ParseError::UnexpectedDelimiter(*pos)),
        };
        match found {
            Ok(()) => {
                let _ = self.consume();
                Ok(node)
            },
            Err(e) => Err(e),
        }
    }

    /// What the identifier `name`, which has been taken, means by the
    /// lookahead: a call, or a variable.
    fn named(&mut self, name: String) -> (result: Result<Node, ParseError>)
        requires
            old(self).inv(),
            old(self).table().cursor + STRIDE * (remaining(old(self).source(), old(self).at()) + 1)
                <= usize::MAX,
        ensures
            final(self).follows(
                *old(self),
                spec_named(old(self).source(), old(self).at(), old(self).table(), name@),
                result,
            ),
    {
        match self.peek_opening() {
            Err(e) => Err(e),
            Ok(true) => {
                let _ = self.consume();
                let node = Node::Call(name, vec![1, 1]);
                assert(node@ == NodeView::Call(name@, call_placeholder())) by {
                    assert(node->Call_1@ =~= call_placeholder());
                }
                self.closing(node)
            },
            Ok(false) => {
                let offset = self.symbols.resolve_or_allocate(name);
                Ok(Node::Variable(offset))
            },
        }
    }

    /// `expr = assign`
    pub fn expr(&mut self) -> (result: Result<Node, ParseError>)
        requires
            old(self).wf(),
        ensures
            final(self).follows(
                *old(self),
                spec_expr(old(self).source(), old(self).at(), old(self).table()),
                result,
            ),
        decreases remaining(old(self).source(), old(self).at()), 11nat,
    {
        self.assign()
    }

    /// `assign = equality ( "=" assign )?`: the assignment binds to the
    /// right.
    pub fn assign(&mut self) -> (result: Result<Node, ParseError>)
        requires
            old(self).wf(),
        ensures
            final(self).follows(
                *old(self),
                spec_assign(old(self).source(), old(self).at(), old(self).table()),
                result,
            ),
        decreases remaining(old(self).source(), old(self).at()), 10nat,
    {
        let node = self.equality()?;
        match self.peek_operator() {
            Err(e) => Err(e),
            Ok(Some(OperatorKind::Assign)) => {
                let _ = self.consume();
                let value = self.assign()?;
                Ok(Node::Assign(Box::new(node), Box::new(value)))
            },
            Ok(_) => Ok(node),
        }
    }

    /// `equality = relational ( ("==" | "!=") relational )*`
    pub fn equality(&mut self) -> (result: Result<Node, ParseError>)
        requires
            old(self).wf(),
        ensures
            final(self).follows(
                *old(self),
                spec_equality(old(self).source(), old(self).at(), old(self).table()),
                result,
            ),
        decreases remaining(old(self).source(), old(self).at()), 9nat,
    {
        let ghost start = *self;
        let mut node = self.relational()?;
        loop
            invariant
                self.wf(),
                self.source() == start.source(),
                start.at() <= self.at(),
                self.table().extends(start.table()),
                start == *old(self),
                spec_equality(start.source(), start.at(), start.table()) == shift(
                    spec_chain(Level::Equality, self.source(), self.at(), self.table(), node@),
                    (self.at() - start.at()) as nat,
                ),
            decreases remaining(self.source(), self.at()),
        {
            match self.peek_operator() {
                Err(e) => {
                    return Err(e);
                },
                Ok(Some(OperatorKind::Eq)) => {
                    let _ = self.consume();
                    assert(spec_operand(Level::Equality, self.source(), self.at(), self.table())
                        == spec_relational(self.source(), self.at(), self.table()));
                    let right = self.relational()?;
                    node = Node::BinaryOp(BinaryKind::Eq, Box::new(node), Box::new(right));
                },
                Ok(Some(OperatorKind::Neq)) => {
                    let _ = self.consume();
                    assert(spec_operand(Level::Equality, self.source(), self.at(), self.table())
                        == spec_relational(self.source(), self.at(), self.table()));
                    let right = self.relational()?;
                    node = Node::BinaryOp(BinaryKind::Neq, Box::new(node), Box::new(right));
                },
                Ok(_) => {
                    return Ok(node);
                },
            }
        }
    }

    /// `relational = add ( ("<" | "<=" | ">" | ">=") add )*`, where `a > b`
    /// is written as `b < a` and `a >= b` as `b <= a`.
    pub fn relational(&mut self) -> (result: Result<Node, ParseError>)
        requires
            old(self).wf(),
        ensures
            final(self).follows(
                *old(self),
                spec_relational(old(self).source(), old(self).at(), old(self).table()),
                result,
            ),
        decreases remaining(old(self).source(), old(self).at()), 7nat,
    {
        let ghost start = *self;
        let mut node = self.add()?;
        loop
            invariant
                self.wf(),
                self.source() == start.source(),
                start.at() <= self.at(),
                self.table().extends(start.table()),
                start == *old(self),
                spec_relational(start.source(), start.at(), start.table()) == shift(
                    spec_chain(Level::Relational, self.source(), self.at(), self.table(), node@),
                    (self.at() - start.at()) as nat,
                ),
            decreases remaining(self.source(), self.at()),
        {
            match self.peek_operator() {
                Err(e) => {
                    return Err(e);
                },
                Ok(Some(OperatorKind::Lt)) => {
                    let _ = self.consume();
                    assert(spec_operand(Level::Relational, self.source(), self.at(), self.table())
                        == spec_add(self.source(), self.at(), self.table()));
                    let right = self.add()?;
                    node = Node::BinaryOp(BinaryKind::Lt, Box::new(node), Box::new(right));
                },
                Ok(Some(OperatorKind::Leq)) => {
                    let _ = self.consume();
                    assert(spec_operand(Level::Relational, self.source(), self.at(), self.table())
                        == spec_add(self.source(), self.at(), self.table()));
                    let right = self.add()?;
                    node = Node::BinaryOp(BinaryKind::Leq, Box::new(node), Box::new(right));
                },
                Ok(Some(OperatorKind::Gt)) => {
                    let _ = self.consume();
                    assert(spec_operand(Level::Relational, self.source(), self.at(), self.table())
                        == spec_add(self.source(), self.at(), self.table()));
                    let right = self.add()?;
                    node = Node::BinaryOp(BinaryKind::Lt, Box::new(right), Box::new(node));
                },
                Ok(Some(OperatorKind::Geq)) => {
                    let _ = self.consume();
                    assert(spec_operand(Level::Relational, self.source(), self.at(), self.table())
                        == spec_add(self.source(), self.at(), self.table()));
                    let right = self.add()?;
                    node = Node::BinaryOp(BinaryKind::Leq, Box::new(right), Box::new(node));
                },
                Ok(_) => {
                    return Ok(node);
                },
            }
        }
    }

    /// `add = mul ( ("+" | "-") mul )*`
    pub fn add(&mut self) -> (result: Result<Node, ParseError>)
        requires
            old(self).wf(),
        ensures
            final(self).follows(
                *old(self),
                spec_add(old(self).source(), old(self).at(), old(self).table()),
                result,
            ),
        decreases remaining(old(self).source(), old(self).at()), 5nat,
    {
        let ghost start = *self;
        let mut node = self.mul()?;
        loop
            invariant
                self.wf(),
                self.source() == start.source(),
                start.at() <= self.at(),
                self.table().extends(start.table()),
                start == *old(self),
                spec_add(start.source(), start.at(), start.table()) == shift(
                    spec_chain(Level::Additive, self.source(), self.at(), self.table(), node@),
                    (self.at() - start.at()) as nat,
                ),
            decreases remaining(self.source(), self.at()),
        {
            match self.peek_operator() {
                Err(e) => {
                    return Err(e);
                },
                Ok(Some(OperatorKind::Add)) => {
                    let _ = self.consume();
                    assert(spec_operand(Level::Additive, self.source(), self.at(), self.table())
                        == spec_mul(self.source(), self.at(), self.table()));
                    let right = self.mul()?;
                    node = Node::BinaryOp(BinaryKind::Add, Box::new(node), Box::new(right));
                },
                Ok(Some(OperatorKind::Sub)) => {
                    let _ = self.consume();
                    assert(spec_operand(Level::Additive, self.source(), self.at(), self.table())
                        == spec_mul(self.source(), self.at(), self.table()));
                    let right = self.mul()?;
                    node = Node::BinaryOp(BinaryKind::Sub, Box::new(node), Box::new(right));
                },
                Ok(_) => {
                    return Ok(node);
                },
            }
        }
    }

    /// `mul = unary ( ("*" | "/") unary )*`
    pub fn mul(&mut self) -> (result: Result<Node, ParseError>)
        requires
            old(self).wf(),
        ensures
            final(self).follows(
                *old(self),
                spec_mul(old(self).source(), old(self).at(), old(self).table()),
                result,
            ),
        decreases remaining(old(self).source(), old(self).at()), 3nat,
    {
        let ghost start = *self;
        let mut node = self.unary()?;
        loop
            invariant
                self.wf(),
                self.source() == start.source(),
                start.at() <= self.at(),
                self.table().extends(start.table()),
                start == *old(self),
                spec_mul(start.source(), start.at(), start.table()) == shift(
                    spec_chain(
                        Level::Multiplicative,
                        self.source(),
                        self.at(),
                        self.table(),
                        node@,
                    ),
                    (self.at() - start.at()) as nat,
                ),
            decreases remaining(self.source(), self.at()),
        {
            match self.peek_operator() {
                Err(e) => {
                    return Err(e);
                },
                Ok(Some(OperatorKind::Mul)) => {
                    let _ = self.consume();
                    assert(spec_operand(
                        Level::Multiplicative,
                        self.source(),
                        self.at(),
                        self.table(),
                    ) == spec_unary(self.source(), self.at(), self.table()));
                    let right = self.unary()?;
                    node = Node::BinaryOp(BinaryKind::Mul, Box::new(node), Box::new(right));
                },
                Ok(Some(OperatorKind::Div)) => {
                    let _ = self.consume();
                    assert(spec_operand(
                        Level::Multiplicative,
                        self.source(),
                        self.at(),
                        self.table(),
                    ) == spec_unary(self.source(), self.at(), self.table()));
                    let right = self.unary()?;
                    node = Node::BinaryOp(BinaryKind::Div, Box::new(node), Box::new(right));
                },
                Ok(_) => {
                    return Ok(node);
                },
            }
        }
    }

    /// `unary = ("+" | "-")? primary`, where `+ x` is `x` and `- x` is
    /// `0 - x`.
    pub fn unary(&mut self) -> (result: Result<Node, ParseError>)
        requires
            old(self).wf(),
        ensures
            final(self).follows(
                *old(self),
                spec_unary(old(self).source(), old(self).at(), old(self).table()),
                result,
            ),
        decreases remaining(old(self).source(), old(self).at()), 1nat,
    {
        match self.peek_operator() {
            Ok(Some(OperatorKind::Add)) => {
                let _ = self.consume();
                self.primary()
            },
            Ok(Some(OperatorKind::Sub)) => {
                let _ = self.consume();
                let operand = self.primary()?;
                let zero = Node::NumberLiteral(0);
                assert(zero@ == NodeView::NumberLiteral(0));
                Ok(Node::BinaryOp(BinaryKind::Sub, Box::new(zero), Box::new(operand)))
            },
            _ => self.primary(),
        }
    }

    /// `primary = Number | Identifier ( "(" ")" )? | "(" expr ")"`
    pub fn primary(&mut self) -> (result: Result<Node, ParseError>)
        requires
            old(self).wf(),
        ensures
            final(self).follows(
                *old(self),
                spec_primary(old(self).source(), old(self).at(), old(self).table()),
                result,
            ),
        decreases remaining(old(self).source(), old(self).at()), 0nat,
    {
        let refused = match &self.lookahead {
            Err(e) => Some(*e),
            Ok(None) => Some(ParseError::MissingExpression(Pos::default())),
            Ok(Some(Token(kind, pos))) => match kind {
                TokenKind::Number(_) => None,
                TokenKind::Identifier(_) => None,
                TokenKind::Delimiter(DelimiterKind::LeftParen) => None,
                _ => Some(ParseError::UnexpectedToken(*pos)),
            },
        };
        if let Some(e) = refused {
            return Err(e);
        }
        match self.consume() {
            Ok(Some(Token(TokenKind::Number(value), _))) => Ok(Node::NumberLiteral(value)),
            Ok(Some(Token(TokenKind::Identifier(name), _))) => self.named(name),
            Ok(Some(Token(TokenKind::Delimiter(DelimiterKind::LeftParen), _))) => {
                let node = self.expr()?;
                self.closing(node)
            },
            _ => unreached(),
        }
    }
}

} // verus!
