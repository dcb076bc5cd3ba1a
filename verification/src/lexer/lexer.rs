//! The scanner.

use crate::lexer::grammar::{
    is_digit, is_ident_start, is_space, lemma_lexeme_bound, lemma_run_len_end, lexeme_at, run_len,
    token_at, tokenize, tokens_from, word_kind, ByteClass,
};
use crate::lexer::token::{tokens_view, Token, TokenKind};
use crate::utils::span::Span;
use vstd::prelude::*;
use vstd::string::StringSliceAdditionalSpecFns;
use vstd::utf8::{
    decode_utf8, is_char_boundary, is_continuation_byte, length_of_first_scalar,
    pop_first_scalar, valid_utf8,
};

verus! {

/// Whether a lexeme may start or end at `pos`: at the end of the input, or at
/// a byte that opens a character.
pub open spec fn aligned(bytes: Seq<u8>, pos: int) -> bool {
    pos == bytes.len() || (0 <= pos < bytes.len() && !is_continuation_byte(bytes[pos]))
}

proof fn lemma_aligned_is_boundary(bytes: Seq<u8>, pos: int)
    requires
        valid_utf8(bytes),
        0 <= pos <= bytes.len(),
    ensures
        aligned(bytes, pos) <==> is_char_boundary(bytes, pos),
{
    if pos == bytes.len() {
        vstd::utf8::is_char_boundary_start_end_of_seq(bytes);
    } else {
        vstd::utf8::is_char_boundary_iff_not_is_continuation_byte(bytes, pos);
    }
}

proof fn lemma_boundary_after_ascii(bytes: Seq<u8>, pos: int)
    requires
        valid_utf8(bytes),
        0 <= pos < bytes.len(),
        is_char_boundary(bytes, pos),
        bytes[pos] <= 0x7f,
    ensures
        is_char_boundary(bytes, pos + 1),
    decreases bytes.len(),
{
    reveal_with_fuel(is_char_boundary, 2);
    reveal_with_fuel(valid_utf8, 2);
    if pos != 0 {
        let first = length_of_first_scalar(bytes);
        let rest = pop_first_scalar(bytes);
        assert(rest[pos - first] == bytes[pos]);
        lemma_boundary_after_ascii(rest, pos - first);
    }
}

/// In well-formed UTF-8 a character may start right after an ASCII byte.
proof fn lemma_aligned_after_ascii(bytes: Seq<u8>, pos: int)
    requires
        valid_utf8(bytes),
        0 <= pos < bytes.len(),
        bytes[pos] <= 0x7f,
    ensures
        aligned(bytes, pos + 1),
{
    lemma_aligned_is_boundary(bytes, pos);
    lemma_boundary_after_ascii(bytes, pos);
    lemma_aligned_is_boundary(bytes, pos + 1);
}

/// A lexeme that starts where a character starts also ends where one starts.
proof fn lemma_lexeme_end_aligned(bytes: Seq<u8>, pos: int)
    requires
        valid_utf8(bytes),
        0 <= pos < bytes.len(),
    ensures
        aligned(bytes, pos + lexeme_at(bytes, pos).1),
{
    let n = lexeme_at(bytes, pos).1;
    lemma_lexeme_bound(bytes, pos);
    lemma_run_len_end(bytes, pos + 1, ByteClass::Word);
    lemma_run_len_end(bytes, pos + 1, ByteClass::Digit);
    lemma_run_len_end(bytes, pos + 1, ByteClass::Continuation);
    if lexeme_at(bytes, pos).0 != TokenKind::Error {
        assert(bytes[pos + n - 1] <= 0x7f);
        lemma_aligned_after_ascii(bytes, pos + n - 1);
    }
}

impl ByteClass {
    fn contains(self, b: u8) -> (r: bool)
        ensures
            r == self.has(b),
    {
        match self {
            ByteClass::Word => byte_is_ident_start(b) || byte_is_digit(b),
            ByteClass::Digit => byte_is_digit(b),
            ByteClass::Continuation => 0x80 <= b && b <= 0xbf,
        }
    }
}

fn byte_is_space(b: u8) -> (r: bool)
    ensures
        r == is_space(b),
{
    b == ' ' as u8 || b == '\t' as u8 || b == '\n' as u8 || b == '\r' as u8 || b == '\x0c' as u8
}

fn byte_is_digit(b: u8) -> (r: bool)
    ensures
        r == is_digit(b),
{
    '0' as u8 <= b && b <= '9' as u8
}

fn byte_is_ident_start(b: u8) -> (r: bool)
    ensures
        r == is_ident_start(b),
{
    ('a' as u8 <= b && b <= 'z' as u8) || ('A' as u8 <= b && b <= 'Z' as u8) || b == '_' as u8
}

/// Measures the longest run of bytes of `class` from `pos` on.
fn scan_run(bytes: &[u8], pos: usize, class: ByteClass) -> (n: usize)
    requires
        pos <= bytes@.len(),
    ensures
        n == run_len(bytes@, pos as int, class),
        pos + n <= bytes@.len(),
{
    let mut i: usize = pos;
    while i < bytes.len() && class.contains(bytes[i])
        invariant
            pos <= i <= bytes@.len(),
            run_len(bytes@, pos as int, class) == (i - pos) + run_len(bytes@, i as int, class),
        decreases bytes@.len() - i,
    {
        i = i + 1;
    }
    i - pos
}

/// Tells a keyword from an identifier.
fn classify_word(bytes: &[u8], start: usize, len: usize) -> (kind: TokenKind)
    requires
        start + len <= bytes@.len(),
    ensures
        kind == word_kind(bytes@.subrange(start as int, start + len)),
{
    let ghost word = bytes@.subrange(start as int, start + len);
    if len == 2 && bytes[start] == 'i' as u8 && bytes[start + 1] == 'f' as u8 {
        assert(word =~= seq!['i' as u8, 'f' as u8]);
        TokenKind::If
    } else if len == 4 && bytes[start] == 'e' as u8 && bytes[start + 1] == 'l' as u8 && bytes[start + 2]
        == 's' as u8 && bytes[start + 3] == 'e' as u8 {
        assert(word =~= seq!['e' as u8, 'l' as u8, 's' as u8, 'e' as u8]);
        TokenKind::Else
    } else if len == 5 && bytes[start] == 'w' as u8 && bytes[start + 1] == 'h' as u8 && bytes[start + 2]
        == 'i' as u8 && bytes[start + 3] == 'l' as u8 && bytes[start + 4] == 'e' as u8 {
        assert(word =~= seq!['w' as u8, 'h' as u8, 'i' as u8, 'l' as u8, 'e' as u8]);
        TokenKind::While
    } else if len == 3 && bytes[start] == 'f' as u8 && bytes[start + 1] == 'o' as u8 && bytes[start + 2]
        == 'r' as u8 {
        assert(word =~= seq!['f' as u8, 'o' as u8, 'r' as u8]);
        TokenKind::For
    } else if len == 6 && bytes[start] == 'r' as u8 && bytes[start + 1] == 'e' as u8 && bytes[start + 2]
        == 't' as u8 && bytes[start + 3] == 'u' as u8 && bytes[start + 4] == 'r' as u8 && bytes[start + 5]
        == 'n' as u8 {
        assert(word =~= seq!['r' as u8, 'e' as u8, 't' as u8, 'u' as u8, 'r' as u8, 'n' as u8]);
        TokenKind::Return
    } else if len == 3 && bytes[start] == 'i' as u8 && bytes[start + 1] == 'n' as u8 && bytes[start + 2]
        == 't' as u8 {
        assert(word =~= seq!['i' as u8, 'n' as u8, 't' as u8]);
        TokenKind::Int
    } else if len == 4 && bytes[start] == 'v' as u8 && bytes[start + 1] == 'o' as u8 && bytes[start + 2]
        == 'i' as u8 && bytes[start + 3] == 'd' as u8 {
        assert(word =~= seq!['v' as u8, 'o' as u8, 'i' as u8, 'd' as u8]);
        TokenKind::Void
    } else {
        proof {
            let w2 = seq!['i' as u8, 'f' as u8];
            let w4a = seq!['e' as u8, 'l' as u8, 's' as u8, 'e' as u8];
            let w5 = seq!['w' as u8, 'h' as u8, 'i' as u8, 'l' as u8, 'e' as u8];
            let w3a = seq!['f' as u8, 'o' as u8, 'r' as u8];
            let w6 = seq!['r' as u8, 'e' as u8, 't' as u8, 'u' as u8, 'r' as u8, 'n' as u8];
            let w3b = seq!['i' as u8, 'n' as u8, 't' as u8];
            let w4b = seq!['v' as u8, 'o' as u8, 'i' as u8, 'd' as u8];
            assert(w2.len() == 2 && w2[0] == 'i' as u8 && w2[1] == 'f' as u8);
            assert(w4a.len() == 4 && w4a[0] == 'e' as u8 && w4a[1] == 'l' as u8 && w4a[2] == 's' as u8 && w4a[3]
                == 'e' as u8);
            assert(w5.len() == 5 && w5[0] == 'w' as u8 && w5[1] == 'h' as u8 && w5[2] == 'i' as u8 && w5[3]
                == 'l' as u8 && w5[4] == 'e' as u8);
            assert(w3a.len() == 3 && w3a[0] == 'f' as u8 && w3a[1] == 'o' as u8 && w3a[2] == 'r' as u8);
            assert(w6.len() == 6 && w6[0] == 'r' as u8 && w6[1] == 'e' as u8 && w6[2] == 't' as u8 && w6[3]
                == 'u' as u8 && w6[4] == 'r' as u8 && w6[5] == 'n' as u8);
            assert(w3b.len() == 3 && w3b[0] == 'i' as u8 && w3b[1] == 'n' as u8 && w3b[2] == 't' as u8);
            assert(w4b.len() == 4 && w4b[0] == 'v' as u8 && w4b[1] == 'o' as u8 && w4b[2] == 'i' as u8 && w4b[3]
                == 'd' as u8);
            assert(forall|i: int| 0 <= i < len ==> word[i] == bytes@[start + i]);
        }
        TokenKind::Identifier
    }
}

/// Whether the byte after `pos` exists and equals `b`.
fn next_is(bytes: &[u8], pos: usize, b: u8) -> (r: bool)
    requires
        pos < bytes@.len(),
    ensures
        r == crate::lexer::grammar::followed_by(bytes@, pos as int, b),
{
    pos < bytes.len() - 1 && bytes[pos + 1] == b
}

/// Reads the lexeme that starts at `pos`.
fn next_lexeme(bytes: &[u8], pos: usize) -> (r: (TokenKind, usize))
    requires
        pos < bytes@.len(),
    ensures
        r.0 == lexeme_at(bytes@, pos as int).0,
        r.1 == lexeme_at(bytes@, pos as int).1,
        1 <= r.1,
        pos + r.1 <= bytes@.len(),
{
    proof {
        lemma_lexeme_bound(bytes@, pos as int);
    }
    let b = bytes[pos];
    if byte_is_ident_start(b) {
        let n = 1 + scan_run(bytes, pos + 1, ByteClass::Word);
        (classify_word(bytes, pos, n), n)
    } else if byte_is_digit(b) {
        (TokenKind::IntegerLiteral, 1 + scan_run(bytes, pos + 1, ByteClass::Digit))
    } else if b == '=' as u8 {
        if next_is(bytes, pos, '=' as u8) {
            (TokenKind::Equal, 2)
        } else {
            (TokenKind::Assign, 1)
        }
    } else if b == '!' as u8 {
        if next_is(bytes, pos, '=' as u8) {
            (TokenKind::NotEqual, 2)
        } else {
            (TokenKind::LogicalNot, 1)
        }
    } else if b == '<' as u8 {
        if next_is(bytes, pos, '=' as u8) {
            (TokenKind::LessEqual, 2)
        } else {
            (TokenKind::Less, 1)
        }
    } else if b == '>' as u8 {
        if next_is(bytes, pos, '=' as u8) {
            (TokenKind::GreaterEqual, 2)
        } else {
            (TokenKind::Greater, 1)
        }
    } else if b == '&' as u8 && next_is(bytes, pos, '&' as u8) {
        (TokenKind::LogicalAnd, 2)
    } else if b == '|' as u8 && next_is(bytes, pos, '|' as u8) {
        (TokenKind::LogicalOr, 2)
    } else if b == '+' as u8 {
        (TokenKind::Plus, 1)
    } else if b == '-' as u8 {
        (TokenKind::Minus, 1)
    } else if b == '*' as u8 {
        (TokenKind::Star, 1)
    } else if b == '/' as u8 {
        (TokenKind::Slash, 1)
    } else if b == ';' as u8 {
        (TokenKind::Semicolon, 1)
    } else if b == ',' as u8 {
        (TokenKind::Comma, 1)
    } else if b == '(' as u8 {
        (TokenKind::LParen, 1)
    } else if b == ')' as u8 {
        (TokenKind::RParen, 1)
    } else if b == '{' as u8 {
        (TokenKind::LBrace, 1)
    } else if b == '}' as u8 {
        (TokenKind::RBrace, 1)
    } else {
        (TokenKind::Error, 1 + scan_run(bytes, pos + 1, ByteClass::Continuation))
    }
}

/// Copies the text between two byte offsets at which characters start.
fn slice_text(source: &str, start: usize, end: usize) -> (text: String)
    requires
        start < end <= source.spec_bytes().len(),
        aligned(source.spec_bytes(), start as int),
        aligned(source.spec_bytes(), end as int),
    ensures
        text@ == decode_utf8(source.spec_bytes().subrange(start as int, end as int)),
{
    broadcast use vstd::utf8::group_utf8_lib;

    let ghost bytes = source.spec_bytes();
    proof {
        lemma_aligned_is_boundary(bytes, end as int);
    }
    let (head, _) = source.split_at(end);
    proof {
        assert(head.spec_bytes()[start as int] == bytes[start as int]);
        lemma_aligned_is_boundary(head.spec_bytes(), start as int);
    }
    let (_, piece) = head.split_at(start);
    proof {
        assert(piece.spec_bytes() =~= bytes.subrange(start as int, end as int));
    }
    piece.to_owned()
}

/// Splits a source text into its tokens.
///
/// Lexing cannot fail: a character that is no part of the language becomes a
/// token of kind `Error` that holds it. White space separates tokens and is
/// dropped. Spans are byte offsets into `source`.
pub fn lex(source: &str) -> (tokens: Vec<Token>)
    ensures
        tokens_view(tokens@) == tokenize(source.spec_bytes()),
{
    broadcast use vstd::utf8::group_utf8_lib;

    let bytes = source.as_bytes();
    let mut tokens: Vec<Token> = Vec::new();
    let mut pos: usize = 0;
    while pos < bytes.len()
        invariant
            bytes@ == source.spec_bytes(),
            valid_utf8(bytes@),
            pos <= bytes@.len(),
            aligned(bytes@, pos as int),
            tokens_view(tokens@) + tokens_from(bytes@, pos as int) =~= tokenize(bytes@),
        decreases bytes@.len() - pos,
    {
        if byte_is_space(bytes[pos]) {
            proof {
                lemma_aligned_after_ascii(bytes@, pos as int);
            }
            pos = pos + 1;
        } else {
            let (kind, len) = next_lexeme(bytes, pos);
            let end = pos + len;
            proof {
                lemma_lexeme_end_aligned(bytes@, pos as int);
            }
            let text = slice_text(source, pos, end);
            let token = Token { kind, span: Span { start: pos, end }, text };
            proof {
                assert(token@ == token_at(bytes@, pos as int));
                assert(tokens_view(tokens@.push(token)) =~= tokens_view(tokens@) + seq![token@]);
            }
            tokens.push(token);
            pos = end;
        }
    }
    tokens
}

} // verus!
