//! Sizes written as a number with a unit letter.

use vstd::prelude::*;

verus! {

/// A size could not be read.
#[derive(Clone, Copy, Debug, PartialEq, Eq)]
pub struct SizeParseError;

impl SizeParseError {
    /// The text shown for this error.
    pub fn message(&self) -> (text: String)
        ensures
            text@ == "Invalid size unit"@,
    {
        String::from_str("Invalid size unit")
    }
}

/// `c` is one of the ten decimal digits.
pub open spec fn is_digit(c: char) -> bool {
    '0' <= c <= '9'
}

/// The number that a digit stands for.
pub open spec fn digit_value(c: char) -> nat {
    (c as u32 - '0' as u32) as nat
}

/// Every character of `text` is a decimal digit.
pub open spec fn all_digits(text: Seq<char>) -> bool {
    forall|i: int| 0 <= i < text.len() ==> is_digit(#[trigger] text[i])
}

/// The number that a run of digits stands for in base ten.
pub open spec fn decimal_value(digits: Seq<char>) -> nat
    decreases digits.len(),
{
    if digits.len() == 0 {
        0
    } else {
        decimal_value(digits.drop_last()) * 10 + digit_value(digits.last())
    }
}

/// The digits of a number: the text without a leading plus sign.
pub open spec fn unsigned_part(text: Seq<char>) -> Seq<char> {
    if text.len() > 0 && text[0] == '+' {
        text.drop_first()
    } else {
        text
    }
}

/// The number that `text` stands for: an optional plus sign followed by at
/// least one digit and nothing else.
pub open spec fn number(text: Seq<char>) -> Option<nat> {
    let digits = unsigned_part(text);
    if digits.len() > 0 && all_digits(digits) {
        Some(decimal_value(digits))
    } else {
        None
    }
}

/// How many bytes one of a unit is: `K` is 1024 bytes, `M` is 1024 of `K`
/// and `G` is 1024 of `M`.
pub open spec fn unit_factor(unit: char) -> Option<nat> {
    if unit == 'K' {
        Some(1024)
    } else if unit == 'M' {
        Some(1024 * 1024)
    } else if unit == 'G' {
        Some(1024 * 1024 * 1024)
    } else {
        None
    }
}

/// The size in bytes that `text` stands for: a number followed by one of
/// the unit letters `K`, `M` and `G`, where the product fits the machine
/// word.
pub open spec fn size_value(text: Seq<char>) -> Option<nat> {
    if text.len() == 0 {
        None
    } else {
        match (number(text.drop_last()), unit_factor(text.last())) {
            (Some(n), Some(factor)) => if n * factor <= usize::MAX {
                Some(n * factor)
            } else {
                None
            },
            _ => None,
        }
    }
}

/// Reading more digits never makes the number smaller.
proof fn lemma_decimal_value_grows(digits: Seq<char>, i: int)
    requires
        0 <= i <= digits.len(),
    ensures
        decimal_value(digits.take(i)) <= decimal_value(digits),
    decreases digits.len() - i,
{
    if i < digits.len() {
        lemma_decimal_value_grows(digits, i + 1);
        assert(digits.take(i + 1).drop_last() =~= digits.take(i));
    } else {
        assert(digits.take(i) =~= digits);
    }
}

/// Reads a size such as `1M` or `512K` and gives it in bytes.
///
/// The text is a decimal number, which a plus sign may precede, followed by
/// a unit letter: `K` multiplies the number by 1024, `M` by 1024 * 1024 and
/// `G` by 1024 * 1024 * 1024. Anything else is refused, and so is a size
/// that does not fit the machine word.
pub fn parse_size(size: &str) -> (parsed: Result<usize, SizeParseError>)
    ensures
        match parsed {
            Ok(value) => size_value(size@) == Some(value as nat),
            Err(_) => size_value(size@).is_none(),
        },
{
    let len: usize = size.unicode_len();
    if len == 0 {
        return Err(SizeParseError);
    }
    let unit = size.get_char(len - 1);
    let factor: usize = if unit == 'K' {
        1024
    } else if unit == 'M' {
        1024 * 1024
    } else if unit == 'G' {
        1024 * 1024 * 1024
    } else {
        return Err(SizeParseError);
    };
    let end: usize = len - 1;
    let start: usize = if end > 0 && size.get_char(0) == '+' {
        1
    } else {
        0
    };
    let ghost text = size@.drop_last();
    let ghost digits = unsigned_part(text);
    proof {
        assert(digits =~= size@.subrange(start as int, end as int));
    }
    if start >= end {
        return Err(SizeParseError);
    }
    let mut value: usize = 0;
    let mut i: usize = start;
    proof {
        assert(digits.take(0) =~= Seq::<char>::empty());
    }
    while i < end
        invariant
            start <= i <= end,
            end == size@.len() - 1,
            size@.len() > 0,
            digits == size@.subrange(start as int, end as int),
            digits == unsigned_part(size@.drop_last()),
            factor == 1024 || factor == 1024 * 1024 || factor == 1024 * 1024 * 1024,
            unit_factor(size@.last()) == Some(factor as nat),
            all_digits(digits.take(i - start)),
            value == decimal_value(digits.take(i - start)),
        decreases end - i,
    {
        let c = size.get_char(i);
        let ghost seen = digits.take(i - start);
        proof {
            assert(digits[i - start] == c);
            assert(digits.take(i - start + 1).drop_last() =~= seen);
            assert(digits.take(i - start + 1).last() == c);
        }
        if !(c >= '0' && c <= '9') {
            proof {
                assert(!is_digit(digits[i - start]));
            }
            return Err(SizeParseError);
        }
        let d: usize = (c as u32 - '0' as u32) as usize;
        if value > (usize::MAX - d) / 10 {
            proof {
                lemma_decimal_value_grows(digits, i - start + 1);
                assert(decimal_value(digits) * factor > usize::MAX) by (nonlinear_arith)
                    requires
                        decimal_value(digits) > usize::MAX,
                        factor >= 1,
                ;
            }
            return Err(SizeParseError);
        }
        value = value * 10 + d;
        i += 1;
    }
    proof {
        assert(digits.take(end - start) =~= digits);
    }
    if value > usize::MAX / factor {
        proof {
            assert(value * factor > usize::MAX) by (nonlinear_arith)
                requires
                    value > usize::MAX / factor,
                    factor == 1024 || factor == 1024 * 1024 || factor == 1024 * 1024 * 1024,
            ;
        }
        return Err(SizeParseError);
    }
    proof {
        assert(value * factor <= usize::MAX) by (nonlinear_arith)
            requires
                value <= usize::MAX / factor,
                factor == 1024 || factor == 1024 * 1024 || factor == 1024 * 1024 * 1024,
        ;
    }
    Ok(value * factor)
}

} // verus!
