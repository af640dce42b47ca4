//! What holds of numbers and bytes as text.

use vstd::prelude::*;

verus! {

/// The number that a decimal text stands for.
pub open spec fn value(text: Seq<char>) -> int
    decreases text.len(),
{
    if text.len() == 0 {
        0
    } else {
        value(text.drop_last()) * 10 + (text.last() as int - '0' as int)
    }
}

/// A number in decimal is nothing but digits, stands for the number, and has no zero in
/// front but the number zero itself.
pub proof fn decimal_reads_back(n: nat)
    ensures
        ({
            let text = crate::text::decimal(n);
            &&& text.len() > 0
            &&& forall|i: int| 0 <= i < text.len() ==> '0' <= #[trigger] text[i] <= '9'
            &&& value(text) == n
            &&& text[0] == '0' ==> n == 0 && text.len() == 1
        }),
    decreases n,
{
    let text = crate::text::decimal(n);
    if n < 10 {
        assert(text.drop_last() == Seq::<char>::empty());
        assert(value(text.drop_last()) == 0);
    } else {
        decimal_reads_back(n / 10);
        assert(text.drop_last() == crate::text::decimal(n / 10));
        assert(text[0] == crate::text::decimal(n / 10)[0]);
    }
}

/// A negative number has a minus sign in front of what the number without it is.
pub proof fn signed_decimal_reads_back(n: int)
    ensures
        n >= 0 ==> crate::text::signed_decimal(n) == crate::text::decimal(n as nat),
        n < 0 ==> crate::text::signed_decimal(n)[0] == '-' && value(
            crate::text::signed_decimal(n).drop_first(),
        ) == -n,
        n < 0 ==> crate::text::signed_decimal(n).drop_first() == crate::text::decimal((-n) as nat),
{
    if n < 0 {
        decimal_reads_back((-n) as nat);
        assert(crate::text::signed_decimal(n).drop_first() == crate::text::decimal((-n) as nat));
    }
}

/// The digits of a number are its decimal text, byte by byte.
pub proof fn digits_are_the_decimal_text(n: nat)
    ensures
        crate::text::digits(n).len() == crate::text::decimal(n).len(),
        forall|i: int|
            0 <= i < crate::text::digits(n).len() ==> (#[trigger] crate::text::digits(n)[i])
                == crate::text::decimal(n)[i] as int,
    decreases n,
{
    if n >= 10 {
        digits_are_the_decimal_text(n / 10);
    }
}

/// A text that is put into bytes and read back, put right where need be, is that text.
pub proof fn encoded_text_is_read_back(text: Seq<char>)
    ensures
        crate::text::lossy(vstd::utf8::encode_utf8(text)) == text,
{
    vstd::utf8::encode_utf8_valid_utf8(text);
    vstd::utf8::encode_utf8_decode_utf8(text);
}

} // verus!
