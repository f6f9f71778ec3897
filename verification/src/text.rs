//! Comparing words and reading whole numbers.

use vstd::prelude::*;
use vstd::utf8::{encode_utf8, encode_utf8_decode_utf8};

verus! {

/// The character `0`.
pub const ZERO: u8 = 0x30;

/// The character `9`.
pub const NINE: u8 = 0x39;

/// The character `+`.
pub const PLUS: u8 = 0x2b;

/// The character `-`.
pub const MINUS: u8 = 0x2d;

/// Whether two words are the same.
pub fn same_text(a: &str, b: &str) -> (r: bool)
    ensures
        r == (a@ == b@),
{
    let x = a.as_bytes();
    let y = b.as_bytes();
    proof {
        encode_utf8_decode_utf8(a@);
        encode_utf8_decode_utf8(b@);
    }
    if x.len() != y.len() {
        return false;
    }
    for i in 0..x.len()
        invariant
            x@.len() == y@.len(),
            x@ == encode_utf8(a@),
            y@ == encode_utf8(b@),
            forall|j: int| 0 <= j < i ==> x@[j] == y@[j],
    {
        if x[i] != y[i] {
            return false;
        }
    }
    assert(x@ =~= y@);
    true
}

pub open spec fn is_digit(b: u8) -> bool {
    ZERO <= b <= NINE
}

/// One digit at least, and nothing but digits.
pub open spec fn is_number(digits: Seq<u8>) -> bool {
    digits.len() > 0 && forall|i: int| 0 <= i < digits.len() ==> is_digit(#[trigger] digits[i])
}

/// The number that decimal digits spell.
pub open spec fn decimal(digits: Seq<u8>) -> int
    decreases digits.len(),
{
    if digits.len() == 0 {
        0
    } else {
        10 * decimal(digits.drop_last()) + (digits.last() - ZERO)
    }
}

/// More digits never make a smaller number.
proof fn lemma_decimal_grows(digits: Seq<u8>, i: int)
    requires
        is_number(digits),
        0 <= i <= digits.len(),
    ensures
        0 <= decimal(digits.take(i)) <= decimal(digits),
    decreases digits.len() - i, i,
{
    if i == digits.len() {
        assert(digits.take(i) =~= digits);
        if i > 0 {
            lemma_decimal_positive(digits);
        }
    } else {
        lemma_decimal_grows(digits, i + 1);
        assert(digits.take(i + 1).drop_last() =~= digits.take(i));
        assert(is_digit(digits[i]));
        lemma_decimal_positive(digits.take(i));
    }
}

proof fn lemma_decimal_positive(digits: Seq<u8>)
    requires
        forall|i: int| 0 <= i < digits.len() ==> is_digit(#[trigger] digits[i]),
    ensures
        0 <= decimal(digits),
    decreases digits.len(),
{
    if digits.len() > 0 {
        let init = digits.drop_last();
        assert forall|i: int| 0 <= i < init.len() implies is_digit(#[trigger] init[i]) by {
            assert(init[i] == digits[i]);
        }
        lemma_decimal_positive(init);
        assert(is_digit(digits[digits.len() - 1]));
    }
}

/// Reads the digits from `start` on; `None` if they are no number, or one above
/// `largest`.
fn read_digits(text: &[u8], start: usize, largest: u32) -> (r: Option<u32>)
    requires
        start <= text@.len(),
    ensures
        ({
            let digits = text@.skip(start as int);
            r == (if is_number(digits) && decimal(digits) <= largest {
                Some(decimal(digits) as u32)
            } else {
                None
            })
        }),
{
    let ghost digits = text@.skip(start as int);
    if start == text.len() {
        return None;
    }
    let mut value: u32 = 0;
    for i in start..text.len()
        invariant
            start <= i <= text@.len(),
            start < text@.len(),
            digits == text@.skip(start as int),
            forall|j: int| 0 <= j < i - start ==> is_digit(#[trigger] digits[j]),
            value == decimal(digits.take(i - start)),
            value <= largest,
    {
        let b = text[i];
        assert(digits[i - start] == b);
        if b < ZERO || b > NINE {
            assert(!is_digit(digits[i - start]));
            return None;
        }
        let next: u64 = 10 * value as u64 + (b - ZERO) as u64;
        assert(digits.take(i - start + 1).drop_last() =~= digits.take(i - start));
        assert(next == decimal(digits.take(i - start + 1)));
        if next > largest as u64 {
            proof {
                if is_number(digits) {
                    lemma_decimal_grows(digits, i - start + 1);
                }
            }
            return None;
        }
        value = next as u32;
    }
    assert(digits.take(digits.len() as int) =~= digits);
    Some(value)
}

/// The text without one sign `sign` in front.
pub open spec fn unsigned(text: Seq<u8>, sign: u8) -> Seq<u8> {
    if text.len() > 0 && text[0] == sign {
        text.skip(1)
    } else {
        text
    }
}

/// The number below 2^32 that a text spells: decimal digits, with or without a `+`.
pub open spec fn number_u32(text: Seq<u8>) -> Option<u32> {
    let digits = unsigned(text, PLUS);
    if is_number(digits) && decimal(digits) <= u32::MAX {
        Some(decimal(digits) as u32)
    } else {
        None
    }
}

pub fn parse_u32(s: &str) -> (r: Option<u32>)
    ensures
        r == number_u32(encode_utf8(s@)),
{
    let text = s.as_bytes();
    assert(text@.skip(0) =~= text@);
    if text.len() > 0 && text[0] == PLUS {
        read_digits(text, 1, u32::MAX)
    } else {
        read_digits(text, 0, u32::MAX)
    }
}

/// The number from -2^31 to 2^31 - 1 that a text spells: decimal digits, with or
/// without a `+` or a `-`.
pub open spec fn number_i32(text: Seq<u8>) -> Option<i32> {
    if text.len() > 0 && text[0] == MINUS {
        let digits = text.skip(1);
        if is_number(digits) && decimal(digits) <= 0x8000_0000 {
            Some((-decimal(digits)) as i32)
        } else {
            None
        }
    } else {
        let digits = unsigned(text, PLUS);
        if is_number(digits) && decimal(digits) <= i32::MAX {
            Some(decimal(digits) as i32)
        } else {
            None
        }
    }
}

pub fn parse_i32(s: &str) -> (r: Option<i32>)
    ensures
        r == number_i32(encode_utf8(s@)),
{
    let text = s.as_bytes();
    assert(text@.skip(0) =~= text@);
    if text.len() > 0 && text[0] == MINUS {
        proof {
            if is_number(text@.skip(1)) {
                lemma_decimal_positive(text@.skip(1));
            }
        }
        match read_digits(text, 1, 0x8000_0000) {
            Some(v) => Some((-(v as i64)) as i32),
            None => None,
        }
    } else {
        let digits = if text.len() > 0 && text[0] == PLUS {
            read_digits(text, 1, 0x7fff_ffff)
        } else {
            read_digits(text, 0, 0x7fff_ffff)
        };
        proof {
            if is_number(unsigned(text@, PLUS)) {
                lemma_decimal_positive(unsigned(text@, PLUS));
            }
        }
        match digits {
            Some(v) => Some(v as i32),
            None => None,
        }
    }
}

/// A digit stands for its distance from `0`, and each further digit for one more of ones
/// where those before it become tens.
pub proof fn law_decimal_digits(digits: Seq<u8>, b: u8)
    ensures
        decimal(seq![]) == 0,
        decimal(digits.push(b)) == 10 * decimal(digits) + b - 0x30,
        is_digit(b) <==> 0x30 <= b < 0x3a,
{
    assert(digits.push(b).drop_last() =~= digits);
}

/// The digits of a number, read from the right, are its remainders by ten.
pub proof fn law_last_digit_is_the_remainder(digits: Seq<u8>)
    requires
        is_number(digits),
    ensures
        decimal(digits) >= 0,
        decimal(digits) % 10 == digits.last() - 0x30,
        decimal(digits) / 10 == decimal(digits.drop_last()),
{
    lemma_decimal_positive(digits);
    let init = digits.drop_last();
    assert forall|i: int| 0 <= i < init.len() implies is_digit(#[trigger] init[i]) by {
        assert(init[i] == digits[i]);
    }
    lemma_decimal_positive(init);
    assert(is_digit(digits[digits.len() - 1]));
}

/// A text of digits is a number exactly if its value fits, and one `+` in front of it
/// makes no difference. A `-` makes the value negative where there can be such, and no
/// number elsewhere.
pub proof fn law_numbers_and_signs(digits: Seq<u8>)
    requires
        is_number(digits),
    ensures
        number_u32(digits) == (if decimal(digits) < 0x1_0000_0000 {
            Some(decimal(digits) as u32)
        } else {
            None
        }),
        number_i32(digits) == (if decimal(digits) < 0x8000_0000 {
            Some(decimal(digits) as i32)
        } else {
            None
        }),
        number_u32(seq![0x2bu8] + digits) == number_u32(digits),
        number_i32(seq![0x2bu8] + digits) == number_i32(digits),
        number_u32(seq![0x2du8] + digits) is None,
        number_i32(seq![0x2du8] + digits) == (if decimal(digits) <= 0x8000_0000 {
            Some((-decimal(digits)) as i32)
        } else {
            None
        }),
{
    assert(is_digit(digits[0]));
    assert((seq![0x2bu8] + digits).skip(1) =~= digits);
    assert((seq![0x2du8] + digits).skip(1) =~= digits);
    assert(!is_digit((seq![0x2du8] + digits)[0]));
}

/// A text that is no digits, behind one sign at most, is no number.
pub proof fn law_other_texts_are_no_numbers(text: Seq<u8>)
    ensures
        number_u32(text) is Some ==> is_number(text) || (text.len() > 0 && text[0] == 0x2b
            && is_number(text.skip(1))),
        number_i32(text) is Some ==> is_number(text) || (text.len() > 0 && (text[0] == 0x2b
            || text[0] == 0x2d) && is_number(text.skip(1))),
        !is_number(seq![]),
{
}

}
