//! The lexical grammar, as functions on the bytes of a source text.

use crate::lexer::token::{TokenKind, TokenView};
use crate::utils::span::Span;
use vstd::prelude::*;
use vstd::utf8::{decode_utf8, is_continuation_byte};

verus! {

/// The bytes that separate tokens: space, tab, line feed, carriage return and
/// form feed.
pub open spec fn is_space(b: u8) -> bool {
    b == ' ' as u8 || b == '\t' as u8 || b == '\n' as u8 || b == '\r' as u8 || b == '\x0c' as u8
}

/// An ASCII decimal digit.
pub open spec fn is_digit(b: u8) -> bool {
    '0' as u8 <= b <= '9' as u8
}

/// A byte that may open an identifier: an ASCII letter or `_`.
pub open spec fn is_ident_start(b: u8) -> bool {
    ('a' as u8 <= b <= 'z' as u8) || ('A' as u8 <= b <= 'Z' as u8) || b == '_' as u8
}

/// A byte that may continue an identifier: an ASCII letter, a digit or `_`.
pub open spec fn is_ident_continue(b: u8) -> bool {
    is_ident_start(b) || is_digit(b)
}

/// The classes of bytes of which a lexeme takes the longest run it can.
#[derive(Clone, Copy, PartialEq, Eq, Structural)]
pub enum ByteClass {
    /// Letters, digits and `_`: the tail of a word.
    Word,
    /// Decimal digits: the tail of a number.
    Digit,
    /// UTF-8 continuation bytes: the tail of a character that is no part of
    /// the language.
    Continuation,
}

impl ByteClass {
    /// Whether the byte belongs to this class.
    pub open spec fn has(self, b: u8) -> bool {
        match self {
            ByteClass::Word => is_ident_continue(b),
            ByteClass::Digit => is_digit(b),
            ByteClass::Continuation => is_continuation_byte(b),
        }
    }
}

/// The length of the longest run of bytes of `class` that starts at `pos`.
pub open spec fn run_len(bytes: Seq<u8>, pos: int, class: ByteClass) -> nat
    decreases bytes.len() - pos,
{
    if 0 <= pos < bytes.len() && class.has(bytes[pos]) {
        1 + run_len(bytes, pos + 1, class)
    } else {
        0
    }
}

/// A run ends inside the input.
pub proof fn lemma_run_len_bound(bytes: Seq<u8>, pos: int, class: ByteClass)
    requires
        0 <= pos <= bytes.len(),
    ensures
        pos + run_len(bytes, pos, class) <= bytes.len(),
    decreases bytes.len() - pos,
{
    if pos < bytes.len() && class.has(bytes[pos]) {
        lemma_run_len_bound(bytes, pos + 1, class);
    }
}

/// A run holds bytes of its class only, and stops at the first byte that is
/// not of the class.
pub proof fn lemma_run_len_end(bytes: Seq<u8>, pos: int, class: ByteClass)
    requires
        0 <= pos <= bytes.len(),
    ensures
        pos + run_len(bytes, pos, class) <= bytes.len(),
        pos + run_len(bytes, pos, class) < bytes.len() ==> !class.has(
            bytes[pos + run_len(bytes, pos, class)],
        ),
        forall|i: int| pos <= i < pos + run_len(bytes, pos, class) ==> class.has(#[trigger] bytes[i]),
    decreases bytes.len() - pos,
{
    if pos < bytes.len() && class.has(bytes[pos]) {
        lemma_run_len_end(bytes, pos + 1, class);
    }
}

/// The kind of a word: the keyword it spells, or `Identifier`.
pub open spec fn word_kind(word: Seq<u8>) -> TokenKind {
    if word == seq!['i' as u8, 'f' as u8] {
        TokenKind::If
    } else if word == seq!['e' as u8, 'l' as u8, 's' as u8, 'e' as u8] {
        TokenKind::Else
    } else if word == seq!['w' as u8, 'h' as u8, 'i' as u8, 'l' as u8, 'e' as u8] {
        TokenKind::While
    } else if word == seq!['f' as u8, 'o' as u8, 'r' as u8] {
        TokenKind::For
    } else if word == seq!['r' as u8, 'e' as u8, 't' as u8, 'u' as u8, 'r' as u8, 'n' as u8] {
        TokenKind::Return
    } else if word == seq!['i' as u8, 'n' as u8, 't' as u8] {
        TokenKind::Int
    } else if word == seq!['v' as u8, 'o' as u8, 'i' as u8, 'd' as u8] {
        TokenKind::Void
    } else {
        TokenKind::Identifier
    }
}

/// Whether the byte after `pos` exists and equals `b`.
pub open spec fn followed_by(bytes: Seq<u8>, pos: int, b: u8) -> bool {
    pos + 1 < bytes.len() && bytes[pos + 1] == b
}

/// The lexeme that starts at `pos`, a position that holds a byte other than
/// white space: its kind and its length in bytes.
///
/// A word or a number takes the longest run it can; a word that spells a
/// keyword is that keyword. An operator of two bytes wins over its first byte
/// alone. Any other byte opens an `Error` lexeme, which covers that byte and
/// the continuation bytes behind it, that is one whole character.
pub open spec fn lexeme_at(bytes: Seq<u8>, pos: int) -> (TokenKind, nat) {
    let b = bytes[pos];
    if is_ident_start(b) {
        let n = 1 + run_len(bytes, pos + 1, ByteClass::Word);
        (word_kind(bytes.subrange(pos, pos + n)), n)
    } else if is_digit(b) {
        (TokenKind::IntegerLiteral, 1 + run_len(bytes, pos + 1, ByteClass::Digit))
    } else if b == '=' as u8 {
        if followed_by(bytes, pos, '=' as u8) {
            (TokenKind::Equal, 2)
        } else {
            (TokenKind::Assign, 1)
        }
    } else if b == '!' as u8 {
        if followed_by(bytes, pos, '=' as u8) {
            (TokenKind::NotEqual, 2)
        } else {
            (TokenKind::LogicalNot, 1)
        }
    } else if b == '<' as u8 {
        if followed_by(bytes, pos, '=' as u8) {
            (TokenKind::LessEqual, 2)
        } else {
            (TokenKind::Less, 1)
        }
    } else if b == '>' as u8 {
        if followed_by(bytes, pos, '=' as u8) {
            (TokenKind::GreaterEqual, 2)
        } else {
            (TokenKind::Greater, 1)
        }
    } else if b == '&' as u8 && followed_by(bytes, pos, '&' as u8) {
        (TokenKind::LogicalAnd, 2)
    } else if b == '|' as u8 && followed_by(bytes, pos, '|' as u8) {
        (TokenKind::LogicalOr, 2)
    } else if b == '+' as u8 {
        (TokenKind::Plus, 1)
    } else if b == '-' as u8 {
        (TokenKind::Minus, 1)
    } else if b == '*' as u8 {
        (TokenKind::Star, 1)
    } else if b == '/' as u8 {
        (TokenKind::Slash, 1)
    } else if b == ';' as u8 {
        (TokenKind::Semicolon, 1)
    } else if b == ',' as u8 {
        (TokenKind::Comma, 1)
    } else if b == '(' as u8 {
        (TokenKind::LParen, 1)
    } else if b == ')' as u8 {
        (TokenKind::RParen, 1)
    } else if b == '{' as u8 {
        (TokenKind::LBrace, 1)
    } else if b == '}' as u8 {
        (TokenKind::RBrace, 1)
    } else {
        (TokenKind::Error, 1 + run_len(bytes, pos + 1, ByteClass::Continuation))
    }
}

/// A lexeme holds at least one byte and ends inside the input.
pub proof fn lemma_lexeme_bound(bytes: Seq<u8>, pos: int)
    requires
        0 <= pos < bytes.len(),
    ensures
        1 <= lexeme_at(bytes, pos).1,
        pos + lexeme_at(bytes, pos).1 <= bytes.len(),
{
    lemma_run_len_bound(bytes, pos + 1, ByteClass::Word);
    lemma_run_len_bound(bytes, pos + 1, ByteClass::Digit);
    lemma_run_len_bound(bytes, pos + 1, ByteClass::Continuation);
}

/// The token that stands at `pos`: the lexeme there, with its span and the
/// text that the span covers.
pub open spec fn token_at(bytes: Seq<u8>, pos: int) -> TokenView {
    let (kind, n) = lexeme_at(bytes, pos);
    TokenView {
        kind,
        span: Span { start: pos as usize, end: (pos + n) as usize },
        text: decode_utf8(bytes.subrange(pos, pos + n)),
    }
}

/// The tokens of `bytes` from `pos` on: white space is skipped, and every other
/// byte belongs to exactly one token.
pub open spec fn tokens_from(bytes: Seq<u8>, pos: int) -> Seq<TokenView>
    decreases bytes.len() - pos,
{
    if pos < 0 || pos >= bytes.len() {
        Seq::empty()
    } else if is_space(bytes[pos]) {
        tokens_from(bytes, pos + 1)
    } else {
        let n = lexeme_at(bytes, pos).1;
        proof {
            lemma_lexeme_bound(bytes, pos);
        }
        seq![token_at(bytes, pos)] + tokens_from(bytes, pos + n)
    }
}

/// The tokens of a source text, given as its UTF-8 bytes.
pub open spec fn tokenize(bytes: Seq<u8>) -> Seq<TokenView> {
    tokens_from(bytes, 0)
}

} // verus!
