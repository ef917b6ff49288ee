//! The grammar, as functions from a place in the source and a symbol table
//! to the tree that a rule yields there.
//!
//! ```text
//! expr       = assign
//! assign     = equality ( "=" assign )?
//! equality   = relational ( ("==" | "!=") relational )*
//! relational = add ( ("<" | "<=" | ">" | ">=") add )*
//! add        = mul ( ("+" | "-") mul )*
//! mul        = unary ( ("*" | "/") unary )*
//! unary      = ("+" | "-")? primary
//! primary    = Number | Identifier ( "(" ")" )? | "(" expr ")"
//! ```
//!
//! Each rule reads tokens from the left and stops at the first token that
//! it cannot use. A rule fails with the first error met, be it its own, that
//! of a rule it calls, or that of the lexer.

use vstd::prelude::*;
use crate::error::ParseError;
use crate::node::{call_placeholder, BinaryKind, NodeView};
use crate::scan::{lemma_lex_advances, lex};
use crate::symbols::Symbols;
use crate::token::{DelimiterKind, OperatorKind, Pos, TokenKindView, TokenView};

verus! {

/// What a rule yields: the tree or the error, and how it leaves the parser.
pub struct Outcome {
    /// The tree, or why there is none.
    pub result: Result<NodeView, ParseError>,
    /// The number of bytes that the rule read, spaces included. A rule that
    /// fails has read up to the token that it could not use.
    pub used: nat,
    /// The symbol table after the rule.
    pub symbols: Symbols,
}

impl Outcome {
    /// The outcome of a rule that read `used` bytes and built `node`.
    pub open spec fn done(node: NodeView, used: nat, symbols: Symbols) -> Outcome {
        Outcome { result: Ok(node), used, symbols }
    }

    /// The outcome of a rule that fails at its first token.
    pub open spec fn fail(error: ParseError, symbols: Symbols) -> Outcome {
        Outcome { result: Err(error), used: 0, symbols }
    }
}

/// The outcome of a rule that began `before` bytes after another, as the
/// outcome of that other rule.
pub open spec fn shift(outcome: Outcome, before: nat) -> Outcome {
    Outcome { result: outcome.result, used: before + outcome.used, symbols: outcome.symbols }
}

/// The number of bytes of the source from `at` on.
pub open spec fn remaining(src: Seq<u8>, at: int) -> nat {
    if at <= src.len() {
        (src.len() - at) as nat
    } else {
        0
    }
}

/// The four rules that read a chain of operands joined by binary
/// operators, from the loosest binding to the tightest.
pub enum Level {
    /// `==` and `!=` between relational expressions.
    Equality,
    /// `<`, `<=`, `>` and `>=` between sums.
    Relational,
    /// `+` and `-` between products.
    Additive,
    /// `*` and `/` between unary expressions.
    Multiplicative,
}

impl Level {
    /// How tightly the level binds: the larger, the looser.
    pub open spec fn rank(self) -> nat {
        match self {
            Level::Multiplicative => 1,
            Level::Additive => 2,
            Level::Relational => 3,
            Level::Equality => 4,
        }
    }
}

/// How a level reads an operator between two operands: the kind of the
/// node it builds, and whether the operands change places. `None` where the
/// operator is not of the level. `a > b` is written as `b < a`, and `a >= b`
/// as `b <= a`.
pub open spec fn binary_rule(level: Level, op: OperatorKind) -> Option<(BinaryKind, bool)> {
    match (level, op) {
        (Level::Equality, OperatorKind::Eq) => Some((BinaryKind::Eq, false)),
        (Level::Equality, OperatorKind::Neq) => Some((BinaryKind::Neq, false)),
        (Level::Relational, OperatorKind::Lt) => Some((BinaryKind::Lt, false)),
        (Level::Relational, OperatorKind::Leq) => Some((BinaryKind::Leq, false)),
        (Level::Relational, OperatorKind::Gt) => Some((BinaryKind::Lt, true)),
        (Level::Relational, OperatorKind::Geq) => Some((BinaryKind::Leq, true)),
        (Level::Additive, OperatorKind::Add) => Some((BinaryKind::Add, false)),
        (Level::Additive, OperatorKind::Sub) => Some((BinaryKind::Sub, false)),
        (Level::Multiplicative, OperatorKind::Mul) => Some((BinaryKind::Mul, false)),
        (Level::Multiplicative, OperatorKind::Div) => Some((BinaryKind::Div, false)),
        _ => None,
    }
}

/// The node that joins the operand read so far and the operand read after
/// the operator.
pub open spec fn combine(rule: (BinaryKind, bool), left: NodeView, right: NodeView) -> NodeView {
    if rule.1 {
        NodeView::BinaryOp(rule.0, Box::new(right), Box::new(left))
    } else {
        NodeView::BinaryOp(rule.0, Box::new(left), Box::new(right))
    }
}

/// The operator in the lookahead at `at`, `None` where another token or
/// the end of the input stands there.
pub open spec fn operator_ahead(src: Seq<u8>, at: int) -> Result<Option<OperatorKind>, ParseError> {
    match lex(src, at).item {
        Err(e) => Err(e),
        Ok(Some(TokenView(TokenKindView::Operator(op), _))) => Ok(Some(op)),
        Ok(_) => Ok(None),
    }
}

/// The closing parenthesis that must stand at `at`, behind `node`.
pub open spec fn spec_closing(src: Seq<u8>, at: int, symbols: Symbols, node: NodeView) -> Outcome {
    match lex(src, at).item {
        Err(e) => Outcome::fail(e, symbols),
        Ok(None) => Outcome::fail(ParseError::MissingDelimiter(Pos::sentinel()), symbols),
        Ok(Some(TokenView(TokenKindView::Delimiter(DelimiterKind::RightParen), _))) => {
            Outcome::done(node, lex(src, at).used, symbols)
        },
        Ok(Some(TokenView(_, pos))) => Outcome::fail(
            ParseError::UnexpectedDelimiter(pos),
            symbols,
        ),
    }
}

/// What the identifier `name` means, by what stands behind it at `at`: a
/// call where a parenthesis opens, which must close at once; else a
/// variable, whose offset the symbol table gives.
pub open spec fn spec_named(src: Seq<u8>, at: int, symbols: Symbols, name: Seq<char>) -> Outcome {
    match lex(src, at).item {
        Err(e) => Outcome::fail(e, symbols),
        Ok(Some(TokenView(TokenKindView::Delimiter(DelimiterKind::LeftParen), _))) => shift(
            spec_closing(
                src,
                at + lex(src, at).used,
                symbols,
                NodeView::Call(name, call_placeholder()),
            ),
            lex(src, at).used,
        ),
        Ok(_) => Outcome::done(
            NodeView::Variable(symbols.resolve(name).0),
            0,
            symbols.resolve(name).1,
        ),
    }
}

/// `primary = Number | Identifier ( "(" ")" )? | "(" expr ")"`
pub open spec fn spec_primary(src: Seq<u8>, at: int, symbols: Symbols) -> Outcome
    decreases remaining(src, at), 0nat,
{
    let first = lex(src, at);
    match first.item {
        Err(e) => Outcome::fail(e, symbols),
        Ok(None) => Outcome::fail(ParseError::MissingExpression(Pos::sentinel()), symbols),
        Ok(Some(TokenView(TokenKindView::Number(value), _))) => Outcome::done(
            NodeView::NumberLiteral(value),
            first.used,
            symbols,
        ),
        Ok(Some(TokenView(TokenKindView::Identifier(name), _))) => shift(
            spec_named(src, at + first.used, symbols, name),
            first.used,
        ),
        Ok(Some(TokenView(TokenKindView::Delimiter(DelimiterKind::LeftParen), _))) => {
            proof {
                lemma_lex_advances(src, at);
            }
            let inner = spec_assign(src, at + first.used, symbols);
            match inner.result {
                Ok(node) => shift(
                    spec_closing(src, at + first.used + inner.used, inner.symbols, node),
                    first.used + inner.used,
                ),
                Err(_) => shift(inner, first.used),
            }
        },
        Ok(Some(TokenView(_, pos))) => Outcome::fail(ParseError::UnexpectedToken(pos), symbols),
    }
}

/// `unary = ("+" | "-")? primary`, where `+ x` is `x` and `- x` is `0 - x`.
pub open spec fn spec_unary(src: Seq<u8>, at: int, symbols: Symbols) -> Outcome
    decreases remaining(src, at), 1nat,
{
    let used = lex(src, at).used;
    match operator_ahead(src, at) {
        Ok(Some(OperatorKind::Add)) => {
            proof {
                lemma_lex_advances(src, at);
            }
            shift(spec_primary(src, at + used, symbols), used)
        },
        Ok(Some(OperatorKind::Sub)) => {
            proof {
                lemma_lex_advances(src, at);
            }
            let operand = spec_primary(src, at + used, symbols);
            match operand.result {
                Ok(node) => Outcome::done(
                    NodeView::BinaryOp(
                        BinaryKind::Sub,
                        Box::new(NodeView::NumberLiteral(0)),
                        Box::new(node),
                    ),
                    used + operand.used,
                    operand.symbols,
                ),
                Err(_) => shift(operand, used),
            }
        },
        _ => spec_primary(src, at, symbols),
    }
}

/// An operand of the level: an expression of the next tighter level.
pub open spec fn spec_operand(level: Level, src: Seq<u8>, at: int, symbols: Symbols) -> Outcome
    decreases remaining(src, at), 2 * level.rank(),
{
    match level {
        Level::Multiplicative => spec_unary(src, at, symbols),
        Level::Additive => spec_binary(Level::Multiplicative, src, at, symbols),
        Level::Relational => spec_binary(Level::Additive, src, at, symbols),
        Level::Equality => spec_binary(Level::Relational, src, at, symbols),
    }
}

/// An expression of the level: an operand, and then each operator of the
/// level with the operand behind it, joined from the left.
pub open spec fn spec_binary(level: Level, src: Seq<u8>, at: int, symbols: Symbols) -> Outcome
    decreases remaining(src, at), 2 * level.rank() + 1,
{
    let first = spec_operand(level, src, at, symbols);
    match first.result {
        Ok(node) => shift(
            spec_chain(level, src, at + first.used, first.symbols, node),
            first.used,
        ),
        Err(_) => first,
    }
}

/// What follows the operands joined so far into `left`: an operator of the
/// level and one more operand, and what follows those; or nothing, where no
/// operator of the level stands at `at`.
pub open spec fn spec_chain(
    level: Level,
    src: Seq<u8>,
    at: int,
    symbols: Symbols,
    left: NodeView,
) -> Outcome
    decreases remaining(src, at), 0nat,
{
    let used = lex(src, at).used;
    match operator_ahead(src, at) {
        Err(e) => Outcome::fail(e, symbols),
        Ok(Some(op)) if binary_rule(level, op) is Some => {
            proof {
                lemma_lex_advances(src, at);
            }
            let right = spec_operand(level, src, at + used, symbols);
            match right.result {
                Ok(node) => shift(
                    spec_chain(
                        level,
                        src,
                        at + used + right.used,
                        right.symbols,
                        combine(binary_rule(level, op).unwrap(), left, node),
                    ),
                    used + right.used,
                ),
                Err(_) => shift(right, used),
            }
        },
        Ok(_) => Outcome::done(left, 0, symbols),
    }
}

/// `assign = equality ( "=" assign )?`
pub open spec fn spec_assign(src: Seq<u8>, at: int, symbols: Symbols) -> Outcome
    decreases remaining(src, at), 10nat,
{
    let target = spec_binary(Level::Equality, src, at, symbols);
    match target.result {
        Ok(node) => {
            let used = target.used + lex(src, at + target.used).used;
            match operator_ahead(src, at + target.used) {
                Err(e) => shift(Outcome::fail(e, target.symbols), target.used),
                Ok(Some(OperatorKind::Assign)) => {
                    proof {
                        lemma_lex_advances(src, at + target.used);
                    }
                    let value = spec_assign(src, at + used, target.symbols);
                    match value.result {
                        Ok(assigned) => Outcome::done(
                            NodeView::Assign(Box::new(node), Box::new(assigned)),
                            used + value.used,
                            value.symbols,
                        ),
                        Err(_) => shift(value, used),
                    }
                },
                Ok(_) => target,
            }
        },
        Err(_) => target,
    }
}

/// `expr = assign`
pub open spec fn spec_expr(src: Seq<u8>, at: int, symbols: Symbols) -> Outcome {
    spec_assign(src, at, symbols)
}

/// `equality = relational ( ("==" | "!=") relational )*`
pub open spec fn spec_equality(src: Seq<u8>, at: int, symbols: Symbols) -> Outcome {
    spec_binary(Level::Equality, src, at, symbols)
}

/// `relational = add ( ("<" | "<=" | ">" | ">=") add )*`
pub open spec fn spec_relational(src: Seq<u8>, at: int, symbols: Symbols) -> Outcome {
    spec_binary(Level::Relational, src, at, symbols)
}

/// `add = mul ( ("+" | "-") mul )*`
pub open spec fn spec_add(src: Seq<u8>, at: int, symbols: Symbols) -> Outcome {
    spec_binary(Level::Additive, src, at, symbols)
}

/// `mul = unary ( ("*" | "/") unary )*`
pub open spec fn spec_mul(src: Seq<u8>, at: int, symbols: Symbols) -> Outcome {
    spec_binary(Level::Multiplicative, src, at, symbols)
}

} // verus!
