//! The lexer: a cursor over borrowed source bytes that hands out one token
//! at a time.

use vstd::prelude::*;
use vstd::slice::slice_subrange;
use vstd::string::StringSliceAdditionalSpecFns;
use vstd::utf8::{
    encode_utf8, encode_utf8_decode_utf8, encode_utf8_valid_utf8, is_ascii_chars,
    is_ascii_chars_encode_utf8, valid_utf8,
};
use crate::error::ParseError;
use crate::scan::{
    ascii_text, decimal_value, fixed_token, identifier_at, in_class, is_ascii, is_lower,
    lemma_lex_bounds, lex, number_at, run_len, single_byte_token, starts_with, ByteClass, KW_ELSE,
    KW_FOR, KW_IF, KW_RETURN, KW_WHILE, OP_EQ, OP_GEQ, OP_LEQ, OP_NEQ,
};
use crate::token::{DelimiterKind, KeywordKind, OperatorKind, Pos, Token, TokenKind, TokenView};

verus! {

/// A cursor over the source bytes. The lexer borrows the source and never
/// changes it.
#[derive(Debug, Clone, Copy, PartialEq, Eq)]
pub struct Lexer<'a> {
    txt: &'a [u8],
    pos: usize,
}

/// The mathematical value of what [`Lexer::next`] returns.
pub open spec fn item_view(item: Result<Option<Token>, ParseError>) -> Result<
    Option<TokenView>,
    ParseError,
> {
    match item {
        Ok(Some(token)) => Ok(Some(token@)),
        Ok(None) => Ok(None),
        Err(e) => Err(e),
    }
}

/// `std::str::from_utf8`: the bytes are read as text exactly where they are
/// valid UTF-8, and the text is then made of those bytes.
#[verifier::external_body]
fn text_of<'a>(bytes: &'a [u8]) -> (text: Option<&'a str>)
    ensures
        text is Some <==> valid_utf8(bytes@),
        text is Some ==> text.unwrap().spec_bytes() == bytes@,
{
    match std::str::from_utf8(bytes) {
        Ok(text) => Some(text),
        Err(_) => None,
    }
}

/// Bytes that are all ASCII are valid UTF-8: they encode the text that
/// holds one character for each byte, with the byte's code.
proof fn lemma_ascii_is_utf8(bytes: Seq<u8>)
    requires
        is_ascii(bytes),
    ensures
        valid_utf8(bytes),
        encode_utf8(ascii_text(bytes)) == bytes,
{
    let chars = ascii_text(bytes);
    assert(is_ascii_chars(chars));
    is_ascii_chars_encode_utf8(chars);
    assert(encode_utf8(chars) =~= bytes);
    encode_utf8_valid_utf8(chars);
}

/// Whether the bytes of `pat` stand in `txt` at `at`.
fn has_prefix(txt: &[u8], at: usize, pat: &[u8]) -> (found: bool)
    requires
        at <= txt@.len(),
    ensures
        found == starts_with(txt@, at as int, pat@),
{
    if pat.len() > txt.len() - at {
        return false;
    }
    let mut i: usize = 0;
    while i < pat.len()
        invariant
            at + pat@.len() <= txt@.len() <= usize::MAX,
            i <= pat@.len(),
            forall|j: int| 0 <= j < i ==> txt@[at + j] == pat@[j],
        decreases pat@.len() - i,
    {
        if txt[at + i] != pat[i] {
            assert(txt@.subrange(at as int, at + pat@.len())[i as int] != pat@[i as int]);
            return false;
        }
        i += 1;
    }
    assert(txt@.subrange(at as int, at + pat@.len()) =~= pat@);
    true
}

/// The operator or delimiter that the single byte `b` spells, if any.
fn single_byte(b: u8) -> (kind: Option<TokenKind>)
    ensures
        match kind {
            Some(k) => single_byte_token(b) == Some(k@),
            None => single_byte_token(b) is None,
        },
{
    match b {
        0x2b => Some(TokenKind::Operator(OperatorKind::Add)),
        0x2d => Some(TokenKind::Operator(OperatorKind::Sub)),
        0x2a => Some(TokenKind::Operator(OperatorKind::Mul)),
        0x2f => Some(TokenKind::Operator(OperatorKind::Div)),
        0x3c => Some(TokenKind::Operator(OperatorKind::Lt)),
        0x3e => Some(TokenKind::Operator(OperatorKind::Gt)),
        0x3d => Some(TokenKind::Operator(OperatorKind::Assign)),
        0x3b => Some(TokenKind::Delimiter(DelimiterKind::Semicolon)),
        0x28 => Some(TokenKind::Delimiter(DelimiterKind::LeftParen)),
        0x29 => Some(TokenKind::Delimiter(DelimiterKind::RightParen)),
        0x7b => Some(TokenKind::Delimiter(DelimiterKind::LeftBrace)),
        0x7d => Some(TokenKind::Delimiter(DelimiterKind::RightBrace)),
        0x2c => Some(TokenKind::Delimiter(DelimiterKind::Comma)),
        _ => None,
    }
}

/// Whether `b` is a decimal digit.
fn is_digit_byte(b: u8) -> (r: bool)
    ensures
        r == in_class(ByteClass::Digit, b),
{
    0x30 <= b && b <= 0x39
}

/// Whether `b` is one of `a` to `z`.
fn is_lower_byte(b: u8) -> (r: bool)
    ensures
        r == is_lower(b),
{
    0x61 <= b && b <= 0x7a
}

/// Whether `b` is an ASCII letter.
fn is_letter_byte(b: u8) -> (r: bool)
    ensures
        r == in_class(ByteClass::Letter, b),
{
    is_lower_byte(b) || (0x41 <= b && b <= 0x5a)
}

/// Whether `b` is a space or a newline.
fn is_space_byte(b: u8) -> (r: bool)
    ensures
        r == in_class(ByteClass::Space, b),
{
    b == 0x20 || b == 0x0a
}

impl<'a> Lexer<'a> {
    /// The source that the lexer reads.
    pub closed spec fn source(&self) -> Seq<u8> {
        self.txt@
    }

    /// The place of the next byte to read.
    pub closed spec fn cursor(&self) -> int {
        self.pos as int
    }

    /// The cursor stands within the source or at its end.
    pub open spec fn wf(&self) -> bool {
        0 <= self.cursor() <= self.source().len()
    }

    /// A lexer at the beginning of `input`.
    pub fn new(input: &'a [u8]) -> (lexer: Lexer<'a>)
        ensures
            lexer.wf(),
            lexer.source() == input@,
            lexer.cursor() == 0,
    {
        let txt = input;
        let pos: usize = 0;
        Lexer { txt, pos }
    }

    /// The place of the next byte to read.
    pub fn position(&self) -> (pos: usize)
        ensures
            pos == self.cursor(),
    {
        self.pos
    }

    /// Moves the cursor `n` bytes on, if the source has that many left.
    fn consume(&mut self, n: usize) -> (moved: Option<()>)
        requires
            old(self).wf(),
        ensures
            final(self).wf(),
            final(self).txt == old(self).txt,
            moved is Some <==> old(self).pos + n <= old(self).txt@.len(),
            moved is Some ==> final(self).pos == old(self).pos + n,
            moved is None ==> final(self).pos == old(self).pos,
    {
        if n <= self.txt.len() - self.pos {
            self.pos += n;
            Some(())
        } else {
            None
        }
    }

    /// The token of kind `val` that covers the next `len` bytes, with the
    /// cursor moved behind it.
    fn lex_token(&mut self, val: TokenKind, len: usize) -> (token: Option<Token>)
        requires
            old(self).wf(),
        ensures
            final(self).wf(),
            final(self).txt == old(self).txt,
            old(self).pos + len <= old(self).txt@.len() ==> final(self).pos == old(self).pos + len
                && token == Some(Token(val, Pos(old(self).pos, final(self).pos))),
            old(self).pos + len > old(self).txt@.len() ==> final(self).pos == old(self).pos
                && token is None,
    {
        let begin = self.pos;
        self.consume(len)?;
        Some(Token(val, Pos(begin, self.pos)))
    }

    /// The fixed word at the cursor, if one stands there, with the cursor
    /// moved behind it.
    fn lex_fixed(&mut self) -> (token: Option<Token>)
        requires
            old(self).wf(),
            old(self).pos < old(self).txt@.len(),
        ensures
            final(self).wf(),
            final(self).txt == old(self).txt,
            match fixed_token(old(self).txt@, old(self).pos as int) {
                Some((kind, len)) => {
                    &&& final(self).pos == old(self).pos + len
                    &&& token matches Some(t)
                    &&& t@ == TokenView(kind, Pos(old(self).pos, final(self).pos))
                },
                None => final(self).pos == old(self).pos && token is None,
            },
    {
        if has_prefix(self.txt, self.pos, &KW_RETURN) {
            self.lex_token(TokenKind::Keyword(KeywordKind::Return), 6)
        } else if has_prefix(self.txt, self.pos, &KW_IF) {
            self.lex_token(TokenKind::Keyword(KeywordKind::If), 2)
        } else if has_prefix(self.txt, self.pos, &KW_WHILE) {
            self.lex_token(TokenKind::Keyword(KeywordKind::While), 5)
        } else if has_prefix(self.txt, self.pos, &KW_ELSE) {
            self.lex_token(TokenKind::Keyword(KeywordKind::Else), 4)
        } else if has_prefix(self.txt, self.pos, &KW_FOR) {
            self.lex_token(TokenKind::Keyword(KeywordKind::For), 3)
        } else if has_prefix(self.txt, self.pos, &OP_LEQ) {
            self.lex_token(TokenKind::Operator(OperatorKind::Leq), 2)
        } else if has_prefix(self.txt, self.pos, &OP_GEQ) {
            self.lex_token(TokenKind::Operator(OperatorKind::Geq), 2)
        } else if has_prefix(self.txt, self.pos, &OP_EQ) {
            self.lex_token(TokenKind::Operator(OperatorKind::Eq), 2)
        } else if has_prefix(self.txt, self.pos, &OP_NEQ) {
            self.lex_token(TokenKind::Operator(OperatorKind::Neq), 2)
        } else {
            match single_byte(self.txt[self.pos]) {
                Some(kind) => self.lex_token(kind, 1),
                None => None,
            }
        }
    }

    /// The number that the run of digits at the cursor denotes, with the
    /// cursor moved behind the run; an error where it does not fit, with the
    /// cursor left at the run.
    fn lex_num(&mut self) -> (item: Result<Token, ParseError>)
        requires
            old(self).wf(),
            old(self).pos < old(self).txt@.len(),
        ensures
            final(self).wf(),
            final(self).txt == old(self).txt,
            match number_at(old(self).txt@, old(self).pos as int) {
                Ok((kind, len)) => {
                    &&& final(self).pos == old(self).pos + len
                    &&& item matches Ok(t)
                    &&& t@ == TokenView(kind, Pos(old(self).pos, final(self).pos))
                },
                Err(e) => final(self).pos == old(self).pos && item == Err::<Token, ParseError>(e),
            },
    {
        let begin = self.pos;
        let mut end: usize = begin;
        let mut value: usize = 0;
        let mut fits = true;
        let len = self.txt.len();
        let ghost src = self.txt@;
        while end < len && is_digit_byte(self.txt[end])
            invariant
                self.txt@ == src,
                begin <= end <= src.len() == len,
                run_len(ByteClass::Digit, src, begin as int) == (end - begin) + run_len(
                    ByteClass::Digit,
                    src,
                    end as int,
                ),
                fits ==> value == decimal_value(src.subrange(begin as int, end as int)),
                !fits ==> decimal_value(src.subrange(begin as int, end as int)) > usize::MAX,
            decreases src.len() - end,
        {
            let digit: usize = (self.txt[end] - 0x30) as usize;
            proof {
                let longer = src.subrange(begin as int, end + 1);
                assert(longer.drop_last() =~= src.subrange(begin as int, end as int));
                assert(longer.last() == src[end as int]);
            }
            if fits {
                match value.checked_mul(10) {
                    Some(tens) => match tens.checked_add(digit) {
                        Some(sum) => {
                            value = sum;
                        },
                        None => {
                            fits = false;
                        },
                    },
                    None => {
                        fits = false;
                    },
                }
            }
            end += 1;
        }
        if fits {
            self.pos = end;
            Ok(Token(TokenKind::Number(value), Pos(begin, end)))
        } else {
            Err(ParseError::UnexpectedToken(Pos(begin, end)))
        }
    }

    /// The identifier that the run of letters at the cursor spells, with
    /// the cursor moved behind the run.
    fn lex_ident(&mut self) -> (token: Token)
        requires
            old(self).wf(),
            old(self).pos < old(self).txt@.len(),
        ensures
            final(self).wf(),
            final(self).txt == old(self).txt,
            final(self).pos == old(self).pos + identifier_at(
                old(self).txt@,
                old(self).pos as int,
            ).1,
            token@ == TokenView(
                identifier_at(old(self).txt@, old(self).pos as int).0,
                Pos(old(self).pos, final(self).pos),
            ),
    {
        let begin = self.pos;
        let mut end: usize = begin;
        let len = self.txt.len();
        let ghost src = self.txt@;
        while end < len && is_letter_byte(self.txt[end])
            invariant
                self.txt@ == src,
                begin <= end <= src.len() == len,
                run_len(ByteClass::Letter, src, begin as int) == (end - begin) + run_len(
                    ByteClass::Letter,
                    src,
                    end as int,
                ),
                forall|i: int| begin <= i < end ==> src[i] < 0x80,
            decreases src.len() - end,
        {
            end += 1;
        }
        self.pos = end;
        let bytes = slice_subrange(self.txt, begin, end);
        proof {
            lemma_ascii_is_utf8(bytes@);
        }
        let name = match text_of(bytes) {
            Some(text) => {
                proof {
                    encode_utf8_decode_utf8(text@);
                    encode_utf8_decode_utf8(ascii_text(bytes@));
                }
                text.to_owned()
            },
            None => unreached(),
        };
        Token(TokenKind::Identifier(name), Pos(begin, end))
    }

    /// The next token, with the cursor moved behind it; `None` at the end
    /// of the input; an error at a byte that begins no token and at a
    /// number that does not fit, with the cursor left there. Spaces and
    /// newlines before the token are skipped in every case.
    pub fn next(&mut self) -> (item: Result<Option<Token>, ParseError>)
        requires
            old(self).wf(),
        ensures
            final(self).wf(),
            final(self).source() == old(self).source(),
            item_view(item) == lex(old(self).source(), old(self).cursor()).item,
            final(self).cursor() == old(self).cursor() + lex(
                old(self).source(),
                old(self).cursor(),
            ).used,
            item matches Ok(Some(token)) ==> old(self).cursor() <= token.1.0 < token.1.1
                == final(self).cursor(),
    {
        let ghost src = self.txt@;
        let ghost from = self.pos as int;
        while self.pos < self.txt.len() && is_space_byte(self.txt[self.pos])
            invariant
                self.txt@ == src,
                from <= self.pos <= src.len(),
                run_len(ByteClass::Space, src, from) == (self.pos - from) + run_len(
                    ByteClass::Space,
                    src,
                    self.pos as int,
                ),
            decreases src.len() - self.pos,
        {
            self.pos += 1;
        }
        proof {
            reveal(lex);
            lemma_lex_bounds(src, from);
        }
        if self.pos >= self.txt.len() {
            return Ok(None);
        }
        let at = self.pos;
        match self.lex_fixed() {
            Some(token) => Ok(Some(token)),
            None => {
                let b = self.txt[at];
                if is_digit_byte(b) {
                    match self.lex_num() {
                        Ok(token) => Ok(Some(token)),
                        Err(e) => Err(e),
                    }
                } else if is_lower_byte(b) {
                    Ok(Some(self.lex_ident()))
                } else {
                    Err(ParseError::UnexpectedToken(Pos(at, at + 1)))
                }
            },
        }
    }
}

} // verus!
