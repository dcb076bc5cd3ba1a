//! The values of integer literals.

use crate::parser::grammar::{decimal_value, literal_fits};
use vstd::prelude::*;
use vstd::string::StringSliceAdditionalSpecFns;

verus! {

/// A numeral denotes at least what any of its prefixes denotes.
proof fn lemma_prefix_value(text: Seq<char>, k: int)
    requires
        0 <= k <= text.len(),
    ensures
        decimal_value(text.take(k)) <= decimal_value(text),
    decreases text.len() - k,
{
    if k == text.len() {
        assert(text.take(k) =~= text);
    } else {
        assert(text.take(k + 1).drop_last() =~= text.take(k));
        lemma_prefix_value(text, k + 1);
    }
}

/// The bytes of a text of ASCII characters are its characters.
proof fn lemma_ascii_bytes(text: &str)
    requires
        text.is_ascii(),
    ensures
        text.spec_bytes().len() == text@.len(),
        forall|i: int| 0 <= i < text@.len() ==> #[trigger] text.spec_bytes()[i] == text@[i] as u8,
{
    vstd::utf8::is_ascii_chars_encode_utf8(text@);
}

/// The value of an integer literal: the number that the text denotes, if the
/// text is a decimal numeral whose value a literal can hold.
pub fn literal_value(text: &str) -> (value: Option<i64>)
    ensures
        match value {
            Some(v) => literal_fits(text@) && v == decimal_value(text@),
            None => !literal_fits(text@),
        },
{
    if !text.is_ascii() {
        proof {
            let i = choose|i: int|
                0 <= i < text@.len() && !('\0' <= #[trigger] text@[i] <= '\u{7f}');
            assert(!('0' <= text@[i] <= '9'));
        }
        return None;
    }
    proof {
        lemma_ascii_bytes(text);
    }
    let bytes = text.as_bytes();
    if bytes.len() == 0 {
        return None;
    }
    let mut value: i64 = 0;
    let mut i: usize = 0;
    assert(text@.take(0) =~= Seq::<char>::empty());
    while i < bytes.len()
        invariant
            bytes@.len() == text@.len(),
            text@.len() > 0,
            forall|j: int| 0 <= j < text@.len() ==> #[trigger] bytes@[j] == text@[j] as u8,
            forall|j: int| 0 <= j < text@.len() ==> '\0' <= #[trigger] text@[j] <= '\u{7f}',
            0 <= i <= bytes@.len(),
            forall|j: int| 0 <= j < i ==> '0' <= #[trigger] text@[j] <= '9',
            0 <= value == decimal_value(text@.take(i as int)),
        decreases bytes@.len() - i,
    {
        let b = bytes[i];
        if b < '0' as u8 || b > '9' as u8 {
            assert(!('0' <= text@[i as int] <= '9'));
            return None;
        }
        let digit: i64 = (b - '0' as u8) as i64;
        proof {
            assert(text@.take(i + 1).drop_last() =~= text@.take(i as int));
            assert(text@.take(i + 1).last() == text@[i as int]);
            lemma_prefix_value(text@, i + 1);
        }
        if value > (i64::MAX - digit) / 10 {
            return None;
        }
        value = value * 10 + digit;
        i = i + 1;
    }
    assert(text@.take(i as int) =~= text@);
    Some(value)
}

} // verus!
