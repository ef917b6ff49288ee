//! The lexical grammar, as a function from a byte sequence and a place in it
//! to the token that stands there.
//!
//! A token is found in three steps. Spaces and newlines before it are
//! skipped. Then the fixed words are tried, the longer before the shorter
//! where two of them begin alike: the keywords, each with the byte that must
//! follow it, the two-byte operators, the one-byte operators and delimiters.
//! Last come the runs: a run of digits is a number, a run of letters that
//! begins with a lower-case letter is an identifier. A byte that begins none
//! of these is an error.

use vstd::prelude::*;
use crate::error::ParseError;
use crate::token::{DelimiterKind, KeywordKind, OperatorKind, Pos, TokenKindView, TokenView};

verus! {

/// `return` and the space that must follow it.
pub const KW_RETURN: [u8; 7] = [0x72, 0x65, 0x74, 0x75, 0x72, 0x6e, 0x20];

/// `if` and the parenthesis that must follow it.
pub const KW_IF: [u8; 3] = [0x69, 0x66, 0x28];

/// `while` and the parenthesis that must follow it.
pub const KW_WHILE: [u8; 6] = [0x77, 0x68, 0x69, 0x6c, 0x65, 0x28];

/// `else` and the space that must follow it.
pub const KW_ELSE: [u8; 5] = [0x65, 0x6c, 0x73, 0x65, 0x20];

/// `for` and the parenthesis that must follow it.
pub const KW_FOR: [u8; 4] = [0x66, 0x6f, 0x72, 0x28];

/// `<=`
pub const OP_LEQ: [u8; 2] = [0x3c, 0x3d];

/// `>=`
pub const OP_GEQ: [u8; 2] = [0x3e, 0x3d];

/// `==`
pub const OP_EQ: [u8; 2] = [0x3d, 0x3d];

/// `!=`
pub const OP_NEQ: [u8; 2] = [0x21, 0x3d];

/// The classes of bytes that form runs.
#[derive(Debug, Clone, Copy, PartialEq, Eq, Structural)]
pub enum ByteClass {
    /// A space or a newline.
    Space,
    /// `0` to `9`.
    Digit,
    /// `a` to `z` and `A` to `Z`.
    Letter,
}

/// Whether `b` is of the class.
pub open spec fn in_class(class: ByteClass, b: u8) -> bool {
    match class {
        ByteClass::Space => b == 0x20 || b == 0x0a,
        ByteClass::Digit => 0x30 <= b <= 0x39,
        ByteClass::Letter => is_lower(b) || 0x41 <= b <= 0x5a,
    }
}

/// Whether `b` is one of `a` to `z`, the bytes that may begin an identifier.
pub open spec fn is_lower(b: u8) -> bool {
    0x61 <= b <= 0x7a
}

/// The length of the longest run of bytes of the class that begins at `at`.
pub open spec fn run_len(class: ByteClass, src: Seq<u8>, at: int) -> nat
    decreases src.len() - at,
{
    if 0 <= at < src.len() && in_class(class, src[at]) {
        1 + run_len(class, src, at + 1)
    } else {
        0
    }
}

/// Whether the bytes of `pat` stand in `src` at `at`.
pub open spec fn starts_with(src: Seq<u8>, at: int, pat: Seq<u8>) -> bool {
    0 <= at && at + pat.len() <= src.len() && src.subrange(at, at + pat.len()) == pat
}

/// The number that a sequence of decimal digits denotes.
pub open spec fn decimal_value(digits: Seq<u8>) -> nat
    decreases digits.len(),
{
    if digits.len() == 0 {
        0
    } else {
        (10 * decimal_value(digits.drop_last()) + (digits.last() - 0x30)) as nat
    }
}

/// Whether every byte is an ASCII code.
pub open spec fn is_ascii(bytes: Seq<u8>) -> bool {
    forall|i: int| 0 <= i < bytes.len() ==> bytes[i] < 0x80
}

/// The text that a sequence of ASCII bytes spells.
pub open spec fn ascii_text(bytes: Seq<u8>) -> Seq<char> {
    Seq::new(bytes.len(), |i: int| bytes[i] as char)
}

/// The operator or delimiter that the single byte `b` spells, if any.
pub open spec fn single_byte_token(b: u8) -> Option<TokenKindView> {
    if b == 0x2b {
        Some(TokenKindView::Operator(OperatorKind::Add))
    } else if b == 0x2d {
        Some(TokenKindView::Operator(OperatorKind::Sub))
    } else if b == 0x2a {
        Some(TokenKindView::Operator(OperatorKind::Mul))
    } else if b == 0x2f {
        Some(TokenKindView::Operator(OperatorKind::Div))
    } else if b == 0x3c {
        Some(TokenKindView::Operator(OperatorKind::Lt))
    } else if b == 0x3e {
        Some(TokenKindView::Operator(OperatorKind::Gt))
    } else if b == 0x3d {
        Some(TokenKindView::Operator(OperatorKind::Assign))
    } else if b == 0x3b {
        Some(TokenKindView::Delimiter(DelimiterKind::Semicolon))
    } else if b == 0x28 {
        Some(TokenKindView::Delimiter(DelimiterKind::LeftParen))
    } else if b == 0x29 {
        Some(TokenKindView::Delimiter(DelimiterKind::RightParen))
    } else if b == 0x7b {
        Some(TokenKindView::Delimiter(DelimiterKind::LeftBrace))
    } else if b == 0x7d {
        Some(TokenKindView::Delimiter(DelimiterKind::RightBrace))
    } else if b == 0x2c {
        Some(TokenKindView::Delimiter(DelimiterKind::Comma))
    } else {
        None
    }
}

/// The fixed word that stands at `at`, with the number of bytes that the
/// token covers. A keyword does not cover the byte that must follow it.
pub open spec fn fixed_token(src: Seq<u8>, at: int) -> Option<(TokenKindView, nat)> {
    if starts_with(src, at, KW_RETURN@) {
        Some((TokenKindView::Keyword(KeywordKind::Return), 6))
    } else if starts_with(src, at, KW_IF@) {
        Some((TokenKindView::Keyword(KeywordKind::If), 2))
    } else if starts_with(src, at, KW_WHILE@) {
        Some((TokenKindView::Keyword(KeywordKind::While), 5))
    } else if starts_with(src, at, KW_ELSE@) {
        Some((TokenKindView::Keyword(KeywordKind::Else), 4))
    } else if starts_with(src, at, KW_FOR@) {
        Some((TokenKindView::Keyword(KeywordKind::For), 3))
    } else if starts_with(src, at, OP_LEQ@) {
        Some((TokenKindView::Operator(OperatorKind::Leq), 2))
    } else if starts_with(src, at, OP_GEQ@) {
        Some((TokenKindView::Operator(OperatorKind::Geq), 2))
    } else if starts_with(src, at, OP_EQ@) {
        Some((TokenKindView::Operator(OperatorKind::Eq), 2))
    } else if starts_with(src, at, OP_NEQ@) {
        Some((TokenKindView::Operator(OperatorKind::Neq), 2))
    } else if 0 <= at < src.len() {
        match single_byte_token(src[at]) {
            Some(kind) => Some((kind, 1)),
            None => None,
        }
    } else {
        None
    }
}

/// The number that the run of digits at `at` denotes, with the length of
/// the run; an error that covers the run where the number does not fit the
/// machine's unsigned integer.
pub open spec fn number_at(src: Seq<u8>, at: int) -> Result<(TokenKindView, nat), ParseError> {
    let n = run_len(ByteClass::Digit, src, at);
    let value = decimal_value(src.subrange(at, at + n));
    if value <= usize::MAX {
        Ok((TokenKindView::Number(value), n))
    } else {
        Err(ParseError::UnexpectedToken(Pos::span(at, at + n)))
    }
}

/// The identifier that the run of letters at `at` spells, with the length
/// of the run.
pub open spec fn identifier_at(src: Seq<u8>, at: int) -> (TokenKindView, nat) {
    let n = run_len(ByteClass::Letter, src, at);
    (TokenKindView::Identifier(ascii_text(src.subrange(at, at + n))), n)
}

/// The token that begins at the byte at `at`, which is no space, with the
/// number of bytes that it covers; an error where no token begins there.
pub open spec fn word_at(src: Seq<u8>, at: int) -> Result<(TokenKindView, nat), ParseError> {
    match fixed_token(src, at) {
        Some(found) => Ok(found),
        None => {
            if in_class(ByteClass::Digit, src[at]) {
                number_at(src, at)
            } else if is_lower(src[at]) {
                Ok(identifier_at(src, at))
            } else {
                Err(ParseError::UnexpectedToken(Pos::span(at, at + 1)))
            }
        },
    }
}

/// One step of the lexer.
pub struct Lexed {
    /// The token found, `None` at the end of the input, or the error.
    pub item: Result<Option<TokenView>, ParseError>,
    /// The number of bytes that the step moves the cursor: the spaces
    /// skipped and the token. After an error the cursor stands at the byte
    /// that caused it.
    pub used: nat,
}

/// The step that the lexer takes with its cursor at `from`.
#[verifier::opaque]
pub open spec fn lex(src: Seq<u8>, from: int) -> Lexed {
    let skipped = run_len(ByteClass::Space, src, from);
    let at = from + skipped;
    if 0 <= at < src.len() {
        match word_at(src, at) {
            Ok((kind, len)) => Lexed {
                item: Ok(Some(TokenView(kind, Pos::span(at, at + len)))),
                used: skipped + len,
            },
            Err(e) => Lexed { item: Err(e), used: skipped },
        }
    } else {
        Lexed { item: Ok(None), used: skipped }
    }
}

/// A run ends within the source, holds bytes of its class only, and cannot
/// be made longer.
pub proof fn lemma_run_len(class: ByteClass, src: Seq<u8>, at: int)
    requires
        0 <= at <= src.len(),
    ensures
        at + run_len(class, src, at) <= src.len(),
        forall|i: int|
            at <= i < at + run_len(class, src, at) ==> in_class(class, #[trigger] src[i]),
        at + run_len(class, src, at) == src.len() || !in_class(
            class,
            src[at + run_len(class, src, at)],
        ),
    decreases src.len() - at,
{
    if at < src.len() && in_class(class, src[at]) {
        lemma_run_len(class, src, at + 1);
    }
}

/// A run that holds bytes of the class up to `end` and stops there has
/// exactly that length.
pub proof fn lemma_run_len_is(class: ByteClass, src: Seq<u8>, at: int, end: int)
    requires
        0 <= at <= end <= src.len(),
        forall|i: int| at <= i < end ==> in_class(class, #[trigger] src[i]),
        end == src.len() || !in_class(class, src[end]),
    ensures
        run_len(class, src, at) == end - at,
    decreases end - at,
{
    if at < end {
        lemma_run_len_is(class, src, at + 1, end);
    }
}

/// A fixed word covers at least one byte and ends within the source.
pub proof fn lemma_fixed_token_len(src: Seq<u8>, at: int)
    ensures
        fixed_token(src, at) matches Some(found) ==> 0 <= at && 1 <= found.1 && at + found.1
            <= src.len(),
{
}

/// A step of the lexer stays within the source, a token covers at least one
/// byte, begins at or after the cursor and ends where the cursor then
/// stands.
pub proof fn lemma_lex_bounds(src: Seq<u8>, from: int)
    requires
        0 <= from <= src.len(),
    ensures
        from + lex(src, from).used <= src.len(),
        lex(src, from).item matches Ok(Some(token)) ==> {
            &&& token.1 == Pos::span(
                from + run_len(ByteClass::Space, src, from),
                from + lex(src, from).used,
            )
            &&& from + run_len(ByteClass::Space, src, from) < from + lex(src, from).used
        },
{
    reveal(lex);
    lemma_run_len(ByteClass::Space, src, from);
    let at = from + run_len(ByteClass::Space, src, from);
    if at < src.len() {
        lemma_fixed_token_len(src, at);
        lemma_run_len(ByteClass::Digit, src, at);
        lemma_run_len(ByteClass::Letter, src, at);
    }
}

/// A step yields a token only where the cursor stands within the source,
/// and then it moves the cursor.
pub proof fn lemma_lex_advances(src: Seq<u8>, from: int)
    ensures
        lex(src, from).item matches Ok(Some(_)) ==> 0 <= from < src.len() && lex(src, from).used
            >= 1,
{
    reveal(lex);
    let at = from + run_len(ByteClass::Space, src, from);
    if 0 <= at < src.len() {
        lemma_fixed_token_len(src, at);
    }
}

} // verus!
