//! What holds of the tokens of every source text.

use crate::lexer::grammar::{
    is_digit, is_space, lemma_lexeme_bound, lemma_run_len_end, lexeme_at, token_at, tokenize,
    tokens_from, ByteClass,
};
use crate::lexer::token::{TokenKind, TokenView};
use crate::parser::grammar::is_decimal;
use vstd::prelude::*;
use vstd::utf8::{decode_utf8, pop_first_scalar, valid_utf8};

verus! {

/// Whether `tokens` account for `bytes` from `pos` on: the tokens stand in
/// source order and do not overlap, each covers at least one byte and holds
/// the text that its span covers, a token starts at a byte that is no white
/// space, and every byte between and around the tokens is white space.
pub open spec fn accounts_for(bytes: Seq<u8>, pos: int, tokens: Seq<TokenView>) -> bool
    decreases tokens.len(),
{
    if tokens.len() == 0 {
        forall|i: int| pos <= i < bytes.len() ==> is_space(#[trigger] bytes[i])
    } else {
        let first = tokens[0];
        &&& pos <= first.span.start < first.span.end <= bytes.len()
        &&& forall|i: int| pos <= i < first.span.start ==> is_space(#[trigger] bytes[i])
        &&& !is_space(bytes[first.span.start as int])
        &&& first.text == decode_utf8(bytes.subrange(first.span.start as int, first.span.end as int))
        &&& accounts_for(bytes, first.span.end as int, tokens.drop_first())
    }
}

proof fn lemma_tokens_from_account(bytes: Seq<u8>, pos: int)
    requires
        0 <= pos,
        bytes.len() <= usize::MAX,
    ensures
        accounts_for(bytes, pos, tokens_from(bytes, pos)),
    decreases bytes.len() - pos,
{
    if pos >= bytes.len() {
    } else if is_space(bytes[pos]) {
        lemma_tokens_from_account(bytes, pos + 1);
        let tokens = tokens_from(bytes, pos + 1);
        if tokens.len() == 0 {
            assert forall|i: int| pos <= i < bytes.len() implies is_space(#[trigger] bytes[i]) by {
                if i > pos {
                }
            }
        } else {
            let first = tokens[0];
            assert forall|i: int| pos <= i < first.span.start implies is_space(
                #[trigger] bytes[i],
            ) by {
                if i > pos {
                }
            }
        }
    } else {
        lemma_lexeme_bound(bytes, pos);
        let n = lexeme_at(bytes, pos).1;
        lemma_tokens_from_account(bytes, pos + n);
        let tokens = tokens_from(bytes, pos);
        assert(tokens[0] == token_at(bytes, pos));
        assert(tokens.drop_first() =~= tokens_from(bytes, pos + n));
    }
}

/// Lexing loses nothing: the tokens of a source text account for every byte of
/// it that is no white space, in source order, whatever the text holds.
pub proof fn lemma_tokens_account_for_source(bytes: Seq<u8>)
    requires
        bytes.len() <= usize::MAX,
    ensures
        accounts_for(bytes, 0, tokenize(bytes)),
{
    lemma_tokens_from_account(bytes, 0);
}

/// ASCII bytes are well-formed UTF-8, and decode to the characters with their
/// values.
proof fn lemma_decode_ascii(bytes: Seq<u8>)
    requires
        forall|i: int| 0 <= i < bytes.len() ==> #[trigger] bytes[i] <= 0x7f,
    ensures
        valid_utf8(bytes),
        decode_utf8(bytes).len() == bytes.len(),
        forall|i: int| 0 <= i < bytes.len() ==> #[trigger] decode_utf8(bytes)[i] == bytes[i] as char,
    decreases bytes.len(),
{
    if bytes.len() > 0 {
        let first = bytes[0];
        assert(first & 0x7f == first) by (bit_vector)
            requires
                first <= 0x7f,
        ;
        let rest = pop_first_scalar(bytes);
        assert forall|i: int| 0 <= i < rest.len() implies #[trigger] rest[i] <= 0x7f by {
            assert(rest[i] == bytes[i + 1]);
        }
        lemma_decode_ascii(rest);
        assert forall|i: int| 0 <= i < bytes.len() implies #[trigger] decode_utf8(bytes)[i]
            == bytes[i] as char by {
            if i > 0 {
                assert(decode_utf8(bytes)[i] == decode_utf8(rest)[i - 1]);
                assert(rest[i - 1] == bytes[i]);
            }
        }
    }
}

proof fn lemma_literals_from(bytes: Seq<u8>, pos: int)
    requires
        0 <= pos,
    ensures
        forall|i: int|
            0 <= i < tokens_from(bytes, pos).len() && (#[trigger] tokens_from(bytes, pos)[i]).kind
                == TokenKind::IntegerLiteral ==> is_decimal(tokens_from(bytes, pos)[i].text),
    decreases bytes.len() - pos,
{
    if pos >= bytes.len() {
    } else if is_space(bytes[pos]) {
        lemma_literals_from(bytes, pos + 1);
    } else {
        lemma_lexeme_bound(bytes, pos);
        let (kind, n) = lexeme_at(bytes, pos);
        lemma_literals_from(bytes, pos + n);
        let first = token_at(bytes, pos);
        let rest = tokens_from(bytes, pos + n);
        let tokens = tokens_from(bytes, pos);
        assert(tokens == seq![first] + rest);
        if kind == TokenKind::IntegerLiteral {
            lemma_run_len_end(bytes, pos + 1, ByteClass::Digit);
            let digits = bytes.subrange(pos, pos + n);
            assert forall|i: int| 0 <= i < digits.len() implies is_digit(#[trigger] digits[i]) by {
                assert(digits[i] == bytes[pos + i]);
            }
            lemma_decode_ascii(digits);
            assert forall|i: int| 0 <= i < first.text.len() implies '0' <= #[trigger] first.text[i]
                <= '9' by {
                assert(is_digit(digits[i]));
            }
        }
        assert forall|i: int|
            0 <= i < tokens.len() && (#[trigger] tokens[i]).kind
                == TokenKind::IntegerLiteral implies is_decimal(tokens[i].text) by {
            if i > 0 {
                assert(tokens[i] == rest[i - 1]);
            }
        }
    }
}

/// Every integer literal among the tokens of a source text is a decimal
/// numeral: only its size can keep a literal from having a value.
pub proof fn lemma_literal_tokens_are_decimal(bytes: Seq<u8>)
    ensures
        forall|i: int|
            0 <= i < tokenize(bytes).len() && (#[trigger] tokenize(bytes)[i]).kind
                == TokenKind::IntegerLiteral ==> is_decimal(tokenize(bytes)[i].text),
{
    lemma_literals_from(bytes, 0);
}

} // verus!
