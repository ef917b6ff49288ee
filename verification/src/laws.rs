//! Laws of the grammar: what holds of every parse.

use vstd::prelude::*;
use crate::error::ParseError;
use crate::grammar::{
    binary_rule, combine, operator_ahead, remaining, shift, spec_assign, spec_binary, spec_chain,
    spec_closing, spec_expr, spec_named, spec_operand, spec_primary, spec_unary, Level, Outcome,
};
use crate::node::{call_placeholder, Node, NodeView};
use crate::parser::{result_view, Parser};
use crate::scan::{
    decimal_value, fixed_token, in_class, lemma_lex_advances, lemma_lex_bounds, lemma_run_len_is,
    lex, run_len, starts_with, ByteClass, KW_ELSE, KW_FOR, KW_IF, KW_RETURN, KW_WHILE, OP_EQ,
    OP_GEQ, OP_LEQ, OP_NEQ,
};
use crate::symbols::{lemma_resolve_extends, lemma_resolve_keeps_valid, Symbols};
use crate::token::{DelimiterKind, OperatorKind, Pos, TokenKindView, TokenView};

verus! {

/// No fixed word begins with a digit.
proof fn lemma_digit_begins_no_fixed_token(src: Seq<u8>, at: int)
    requires
        0 <= at < src.len(),
        in_class(ByteClass::Digit, src[at]),
    ensures
        fixed_token(src, at) is None,
{
    assert forall|pat: Seq<u8>| pat.len() > 0 && starts_with(src, at, pat) implies pat[0]
        == src[at] by {
        assert(src.subrange(at, at + pat.len())[0] == src[at]);
    }
    assert(KW_RETURN@[0] == 0x72);
    assert(KW_IF@[0] == 0x69);
    assert(KW_WHILE@[0] == 0x77);
    assert(KW_ELSE@[0] == 0x65);
    assert(KW_FOR@[0] == 0x66);
    assert(OP_LEQ@[0] == 0x3c);
    assert(OP_GEQ@[0] == 0x3e);
    assert(OP_EQ@[0] == 0x3d);
    assert(OP_NEQ@[0] == 0x21);
}

/// The lexer reads a source that holds nothing but the digits of a number
/// as that number, and finds nothing behind it.
proof fn lemma_lex_number_alone(src: Seq<u8>)
    requires
        src.len() > 0,
        forall|i: int| 0 <= i < src.len() ==> in_class(ByteClass::Digit, #[trigger] src[i]),
        decimal_value(src) <= usize::MAX,
    ensures
        lex(src, 0).item == Ok::<Option<TokenView>, ParseError>(
            Some(
                TokenView(
                    TokenKindView::Number(decimal_value(src)),
                    Pos::span(0, src.len() as int),
                ),
            ),
        ),
        lex(src, 0).used == src.len(),
        lex(src, src.len() as int).item == Ok::<Option<TokenView>, ParseError>(None),
        lex(src, src.len() as int).used == 0,
{
    reveal(lex);
    assert(in_class(ByteClass::Digit, src[0]));
    assert(run_len(ByteClass::Space, src, 0) == 0);
    lemma_digit_begins_no_fixed_token(src, 0);
    lemma_run_len_is(ByteClass::Digit, src, 0, src.len() as int);
    assert(src.subrange(0, src.len() as int) =~= src);
    assert(run_len(ByteClass::Space, src, src.len() as int) == 0);
}

/// A source that holds nothing but the digits of a number `n` parses to
/// the literal `n`, whatever the symbol table holds, and no token is left
/// behind it.
pub proof fn lemma_number_parses_to_literal(src: Seq<u8>, symbols: Symbols)
    requires
        src.len() > 0,
        forall|i: int| 0 <= i < src.len() ==> in_class(ByteClass::Digit, #[trigger] src[i]),
        decimal_value(src) <= usize::MAX,
    ensures
        spec_expr(src, 0, symbols) == Outcome::done(
            NodeView::NumberLiteral(decimal_value(src)),
            src.len(),
            symbols,
        ),
        lex(src, src.len() as int).item == Ok::<Option<TokenView>, ParseError>(None),
{
    lemma_lex_number_alone(src);
    let node = NodeView::NumberLiteral(decimal_value(src));
    let end = src.len() as int;
    let whole = Outcome::done(node, src.len(), symbols);
    assert(operator_ahead(src, 0) == Ok::<Option<OperatorKind>, ParseError>(None));
    assert(operator_ahead(src, end) == Ok::<Option<OperatorKind>, ParseError>(None));
    assert(spec_primary(src, 0, symbols) == whole);
    assert(spec_unary(src, 0, symbols) == whole);
    assert forall|level: Level| #[trigger]
        spec_chain(level, src, end, symbols, node) == Outcome::done(node, 0, symbols) by {}
    assert(shift(Outcome::done(node, 0, symbols), src.len()) == whole);
    assert(spec_operand(Level::Multiplicative, src, 0, symbols) == whole);
    assert(spec_binary(Level::Multiplicative, src, 0, symbols) == whole);
    assert(spec_operand(Level::Additive, src, 0, symbols) == whole);
    assert(spec_binary(Level::Additive, src, 0, symbols) == whole);
    assert(spec_operand(Level::Relational, src, 0, symbols) == whole);
    assert(spec_binary(Level::Relational, src, 0, symbols) == whole);
    assert(spec_operand(Level::Equality, src, 0, symbols) == whole);
    assert(spec_binary(Level::Equality, src, 0, symbols) == whole);
    assert(spec_assign(src, 0, symbols) == whole);
}

/// Two parses of an expression that begin at the same place of the same
/// source with equal symbol tables end alike: they return the same tree or
/// the same error, stop at the same place and leave equal symbol tables.
pub proof fn lemma_expr_is_deterministic<'a, 'b>(
    first: Parser<'a>,
    first_after: Parser<'a>,
    first_result: Result<Node, ParseError>,
    second: Parser<'b>,
    second_after: Parser<'b>,
    second_result: Result<Node, ParseError>,
)
    requires
        first.source() == second.source(),
        first.at() == second.at(),
        first.table() == second.table(),
        first_after.follows(
            first,
            spec_expr(first.source(), first.at(), first.table()),
            first_result,
        ),
        second_after.follows(
            second,
            spec_expr(second.source(), second.at(), second.table()),
            second_result,
        ),
    ensures
        result_view(first_result) == result_view(second_result),
        first_after.at() == second_after.at(),
        first_after.table() == second_after.table(),
{
}

/// A tree whose variables a table holds has them in every table that
/// extends it.
pub proof fn lemma_resolved_in_larger(node: NodeView, earlier: Symbols, later: Symbols)
    requires
        node.resolved_in(earlier),
        later.extends(earlier),
    ensures
        node.resolved_in(later),
    decreases node,
{
    match node {
        NodeView::Variable(offset) => {
            let name = choose|name: Seq<char>| #[trigger]
                earlier.offsets.contains_key(name) && earlier.offsets[name] == offset;
            assert(later.offsets.contains_key(name) && later.offsets[name] == offset);
        },
        NodeView::Assign(target, value) => {
            lemma_resolved_in_larger(*target, earlier, later);
            lemma_resolved_in_larger(*value, earlier, later);
        },
        NodeView::BinaryOp(_, left, right) => {
            lemma_resolved_in_larger(*left, earlier, later);
            lemma_resolved_in_larger(*right, earlier, later);
        },
        _ => {},
    }
}

/// What holds of the outcome of every rule that begins at `at` with the
/// table `symbols`: the table has lost nothing and is valid if it was, the
/// rule has not read past the end of the source, and the table holds every
/// variable of the tree.
pub open spec fn sound(src: Seq<u8>, at: int, symbols: Symbols, outcome: Outcome) -> bool {
    &&& outcome.symbols.extends(symbols)
    &&& symbols.valid() ==> outcome.symbols.valid()
    &&& 0 <= at <= src.len() ==> at + outcome.used <= src.len()
    &&& outcome.result matches Ok(node) ==> node.resolved_in(outcome.symbols)
}

/// An outcome that is sound behind a sound step is sound from where the
/// step began.
proof fn lemma_sound_shift(
    src: Seq<u8>,
    at: int,
    symbols: Symbols,
    before: nat,
    between: Symbols,
    outcome: Outcome,
)
    requires
        between.extends(symbols),
        symbols.valid() ==> between.valid(),
        0 <= at <= src.len() ==> at + before <= src.len(),
        sound(src, at + before, between, outcome),
    ensures
        sound(src, at, symbols, shift(outcome, before)),
{
}

/// The closing parenthesis is read soundly.
proof fn lemma_closing_sound(src: Seq<u8>, at: int, symbols: Symbols, node: NodeView)
    requires
        node.resolved_in(symbols),
    ensures
        sound(src, at, symbols, spec_closing(src, at, symbols, node)),
{
    if 0 <= at <= src.len() {
        lemma_lex_bounds(src, at);
    }
}

/// A name is read soundly.
proof fn lemma_named_sound(src: Seq<u8>, at: int, symbols: Symbols, name: Seq<char>)
    ensures
        sound(src, at, symbols, spec_named(src, at, symbols, name)),
{
    let used = lex(src, at).used;
    if 0 <= at <= src.len() {
        lemma_lex_bounds(src, at);
    }
    lemma_resolve_extends(symbols, name);
    if symbols.valid() {
        lemma_resolve_keeps_valid(symbols, name);
    }
    let call = NodeView::Call(name, call_placeholder());
    lemma_closing_sound(src, at + used, symbols, call);
    lemma_sound_shift(src, at, symbols, used, symbols, spec_closing(src, at + used, symbols, call));
}

/// `primary` is read soundly.
pub proof fn lemma_primary_sound(src: Seq<u8>, at: int, symbols: Symbols)
    ensures
        sound(src, at, symbols, spec_primary(src, at, symbols)),
    decreases remaining(src, at), 0nat,
{
    let first = lex(src, at);
    lemma_lex_advances(src, at);
    if 0 <= at <= src.len() {
        lemma_lex_bounds(src, at);
    }
    match first.item {
        Ok(Some(TokenView(TokenKindView::Identifier(name), _))) => {
            lemma_named_sound(src, at + first.used, symbols, name);
            lemma_sound_shift(
                src,
                at,
                symbols,
                first.used,
                symbols,
                spec_named(src, at + first.used, symbols, name),
            );
        },
        Ok(Some(TokenView(TokenKindView::Delimiter(DelimiterKind::LeftParen), _))) => {
            let inner = spec_assign(src, at + first.used, symbols);
            lemma_assign_sound(src, at + first.used, symbols);
            lemma_sound_shift(src, at, symbols, first.used, symbols, inner);
            if let Ok(node) = inner.result {
                let close = spec_closing(src, at + first.used + inner.used, inner.symbols, node);
                lemma_closing_sound(src, at + first.used + inner.used, inner.symbols, node);
                lemma_sound_shift(
                    src,
                    at,
                    symbols,
                    first.used + inner.used,
                    inner.symbols,
                    close,
                );
            }
        },
        _ => {},
    }
}

/// `unary` is read soundly.
pub proof fn lemma_unary_sound(src: Seq<u8>, at: int, symbols: Symbols)
    ensures
        sound(src, at, symbols, spec_unary(src, at, symbols)),
    decreases remaining(src, at), 1nat,
{
    let used = lex(src, at).used;
    lemma_lex_advances(src, at);
    if 0 <= at <= src.len() {
        lemma_lex_bounds(src, at);
    }
    match operator_ahead(src, at) {
        Ok(Some(OperatorKind::Add)) => {
            lemma_primary_sound(src, at + used, symbols);
            lemma_sound_shift(
                src,
                at,
                symbols,
                used,
                symbols,
                spec_primary(src, at + used, symbols),
            );
        },
        Ok(Some(OperatorKind::Sub)) => {
            let operand = spec_primary(src, at + used, symbols);
            lemma_primary_sound(src, at + used, symbols);
            lemma_sound_shift(src, at, symbols, used, symbols, operand);
            assert(NodeView::NumberLiteral(0).resolved_in(operand.symbols));
        },
        _ => {
            lemma_primary_sound(src, at, symbols);
        },
    }
}

/// An operand of a level is read soundly.
pub proof fn lemma_operand_sound(level: Level, src: Seq<u8>, at: int, symbols: Symbols)
    ensures
        sound(src, at, symbols, spec_operand(level, src, at, symbols)),
    decreases remaining(src, at), 2 * level.rank(),
{
    match level {
        Level::Multiplicative => lemma_unary_sound(src, at, symbols),
        Level::Additive => lemma_binary_sound(Level::Multiplicative, src, at, symbols),
        Level::Relational => lemma_binary_sound(Level::Additive, src, at, symbols),
        Level::Equality => lemma_binary_sound(Level::Relational, src, at, symbols),
    }
}

/// An expression of a level is read soundly.
pub proof fn lemma_binary_sound(level: Level, src: Seq<u8>, at: int, symbols: Symbols)
    ensures
        sound(src, at, symbols, spec_binary(level, src, at, symbols)),
    decreases remaining(src, at), 2 * level.rank() + 1,
{
    let first = spec_operand(level, src, at, symbols);
    lemma_operand_sound(level, src, at, symbols);
    if let Ok(node) = first.result {
        lemma_chain_sound(level, src, at + first.used, first.symbols, node);
        lemma_sound_shift(
            src,
            at,
            symbols,
            first.used,
            first.symbols,
            spec_chain(level, src, at + first.used, first.symbols, node),
        );
    }
}

/// What follows an operand is read soundly.
pub proof fn lemma_chain_sound(
    level: Level,
    src: Seq<u8>,
    at: int,
    symbols: Symbols,
    left: NodeView,
)
    requires
        left.resolved_in(symbols),
    ensures
        sound(src, at, symbols, spec_chain(level, src, at, symbols, left)),
    decreases remaining(src, at), 0nat,
{
    let used = lex(src, at).used;
    lemma_lex_advances(src, at);
    if 0 <= at <= src.len() {
        lemma_lex_bounds(src, at);
    }
    match operator_ahead(src, at) {
        Ok(Some(op)) if binary_rule(level, op) is Some => {
            let right = spec_operand(level, src, at + used, symbols);
            lemma_operand_sound(level, src, at + used, symbols);
            lemma_sound_shift(src, at, symbols, used, symbols, right);
            if let Ok(node) = right.result {
                let joined = combine(binary_rule(level, op).unwrap(), left, node);
                lemma_resolved_in_larger(left, symbols, right.symbols);
                lemma_chain_sound(level, src, at + used + right.used, right.symbols, joined);
                lemma_sound_shift(
                    src,
                    at,
                    symbols,
                    used + right.used,
                    right.symbols,
                    spec_chain(level, src, at + used + right.used, right.symbols, joined),
                );
            }
        },
        _ => {},
    }
}

/// `assign` is read soundly.
pub proof fn lemma_assign_sound(src: Seq<u8>, at: int, symbols: Symbols)
    ensures
        sound(src, at, symbols, spec_assign(src, at, symbols)),
    decreases remaining(src, at), 10nat,
{
    let target = spec_binary(Level::Equality, src, at, symbols);
    lemma_binary_sound(Level::Equality, src, at, symbols);
    if let Ok(node) = target.result {
        let ahead = at + target.used;
        let used = target.used + lex(src, ahead).used;
        lemma_lex_advances(src, ahead);
        if 0 <= ahead <= src.len() {
            lemma_lex_bounds(src, ahead);
        }
        if operator_ahead(src, ahead) == Ok::<Option<OperatorKind>, ParseError>(
            Some(OperatorKind::Assign),
        ) {
            let value = spec_assign(src, at + used, target.symbols);
            lemma_assign_sound(src, at + used, target.symbols);
            lemma_sound_shift(src, at, symbols, used, target.symbols, value);
            if let Ok(assigned) = value.result {
                lemma_resolved_in_larger(node, target.symbols, value.symbols);
            }
        }
    }
}

/// Whatever an expression is parsed from: the symbol table loses nothing
/// and stays valid, the parser does not read past the end of the source,
/// and every variable of the tree has an offset that the table handed out.
pub proof fn lemma_expr_sound(src: Seq<u8>, at: int, symbols: Symbols)
    ensures
        sound(src, at, symbols, spec_expr(src, at, symbols)),
{
    lemma_assign_sound(src, at, symbols);
}

} // verus!
