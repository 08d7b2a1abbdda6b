//! Whole numbers in decimal notation.
use crate::text::chars_of;
use vstd::prelude::*;
use vstd::slice::slice_subrange;

verus! {

/// Why a text is not a number in range.
#[derive(Clone, Copy, Debug, PartialEq, Eq, Structural)]
pub enum NumberError {
    Empty,
    InvalidDigit,
    TooLarge,
}

/// Whether a character is a decimal digit.
pub open spec fn is_digit(c: char) -> bool {
    '0' <= c <= '9'
}

/// The value of a decimal digit.
pub open spec fn digit(c: char) -> nat {
    (c as u32 - '0' as u32) as nat
}

/// The number that a run of digits stands for, read from the left and given up
/// at the first character that is no digit or takes it beyond `max`.
pub open spec fn decimal(s: Seq<char>, max: nat) -> Result<nat, NumberError>
    decreases s.len(),
{
    if s.len() == 0 {
        Ok(0)
    } else {
        match decimal(s.drop_last(), max) {
            Ok(n) => if !is_digit(s.last()) {
                Err(NumberError::InvalidDigit)
            } else if 10 * n + digit(s.last()) > max {
                Err(NumberError::TooLarge)
            } else {
                Ok(10 * n + digit(s.last()))
            },
            Err(e) => Err(e),
        }
    }
}

/// The number from zero to `max` that a text stands for: digits, after a plus
/// sign or none.
pub open spec fn number(s: Seq<char>, max: nat) -> Result<nat, NumberError> {
    if s.len() == 0 {
        Err(NumberError::Empty)
    } else if s[0] != '+' {
        decimal(s, max)
    } else if s.len() == 1 {
        Err(NumberError::InvalidDigit)
    } else {
        decimal(s.skip(1), max)
    }
}

/// Reads a run of digits.
fn read_decimal(s: &[char], max: u64) -> (res: Result<u64, NumberError>)
    ensures
        match res {
            Ok(n) => decimal(s@, max as nat) == Ok::<nat, NumberError>(n as nat),
            Err(e) => decimal(s@, max as nat) == Err::<nat, NumberError>(e),
        },
{
    let mut n: u64 = 0;
    assert(s@.take(0) =~= Seq::empty());
    for i in 0..s.len()
        invariant
            decimal(s@.take(i as int), max as nat) == Ok::<nat, NumberError>(n as nat),
            n <= max,
    {
        let ghost before = s@.take(i as int);
        let ghost now = s@.take(i + 1);
        assert(now.drop_last() =~= before);
        assert(now.last() == s@[i as int]);
        let c = s[i];
        if c < '0' || '9' < c {
            proof {
                lemma_error_stays(s@, i + 1, max as nat);
            }
            return Err(NumberError::InvalidDigit);
        }
        let d = c as u64 - '0' as u64;
        if d > max || n > (max - d) / 10 {
            assert(10 * n + d > max);
            proof {
                lemma_error_stays(s@, i + 1, max as nat);
            }
            return Err(NumberError::TooLarge);
        }
        n = 10 * n + d;
    }
    assert(s@.take(s@.len() as int) =~= s@);
    Ok(n)
}

proof fn lemma_error_stays(s: Seq<char>, k: int, max: nat)
    requires
        0 <= k <= s.len(),
        decimal(s.take(k), max) is Err,
    ensures
        decimal(s, max) == decimal(s.take(k), max),
    decreases s.len(),
{
    if k < s.len() {
        assert(s.drop_last().take(k) =~= s.take(k));
        lemma_error_stays(s.drop_last(), k, max);
    } else {
        assert(s.take(k) =~= s);
    }
}

/// Reads a number from zero to `max`.
pub fn read_number(s: &str, max: u64) -> (res: Result<u64, NumberError>)
    ensures
        match res {
            Ok(n) => number(s@, max as nat) == Ok::<nat, NumberError>(n as nat),
            Err(e) => number(s@, max as nat) == Err::<nat, NumberError>(e),
        },
{
    let chars = chars_of(s);
    if chars.len() == 0 {
        return Err(NumberError::Empty);
    }
    if chars[0] != '+' {
        return read_decimal(chars.as_slice(), max);
    }
    if chars.len() == 1 {
        return Err(NumberError::InvalidDigit);
    }
    assert(chars@.subrange(1, chars@.len() as int) =~= s@.skip(1));
    read_decimal(slice_subrange(chars.as_slice(), 1, chars.len()), max)
}

/// Whether a text is made of digits.
pub open spec fn all_digits(s: Seq<char>) -> bool {
    forall|i: int| 0 <= i < s.len() ==> is_digit(#[trigger] s[i])
}

/// The value of a text that is made of digits.
pub open spec fn value(s: Seq<char>) -> nat
    decreases s.len(),
{
    if s.len() == 0 {
        0
    } else {
        10 * value(s.drop_last()) + digit(s.last())
    }
}

/// Exactly the texts of digits, after a plus sign or none, whose value is in
/// range are numbers, and each stands for its value.
pub proof fn law_number_is_its_value(s: Seq<char>, max: nat)
    ensures
        ({
            let digits = if s.len() > 0 && s[0] == '+' {
                s.skip(1)
            } else {
                s
            };
            let fits = digits.len() > 0 && all_digits(digits) && value(digits) <= max;
            &&& number(s, max) is Ok <==> fits
            &&& fits ==> number(s, max) == Ok::<nat, NumberError>(value(digits))
        }),
{
    lemma_decimal_is_its_value(s, max);
    if s.len() > 0 {
        lemma_decimal_is_its_value(s.skip(1), max);
    }
}

proof fn lemma_decimal_is_its_value(s: Seq<char>, max: nat)
    ensures
        decimal(s, max) is Ok <==> all_digits(s) && value(s) <= max,
        all_digits(s) && value(s) <= max ==> decimal(s, max) == Ok::<nat, NumberError>(value(s)),
    decreases s.len(),
{
    if s.len() > 0 {
        let t = s.drop_last();
        lemma_decimal_is_its_value(t, max);
        assert(all_digits(s) <==> all_digits(t) && is_digit(s.last())) by {
            if all_digits(s) {
                assert forall|i: int| 0 <= i < t.len() implies is_digit(#[trigger] t[i]) by {
                    assert(is_digit(s[i]));
                }
                assert(is_digit(s[s.len() - 1]));
            }
            if all_digits(t) && is_digit(s.last()) {
                assert forall|i: int| 0 <= i < s.len() implies is_digit(#[trigger] s[i]) by {
                    if i < t.len() {
                        assert(is_digit(t[i]));
                    }
                }
            }
        }
    }
}

/// The digits are the ten from `0` to `9`, each worth its distance from `0`.
pub proof fn law_digits(c: char)
    ensures
        is_digit(c) <==> 48 <= c as u32 <= 57,
        is_digit(c) ==> digit(c) == c as u32 - 48,
{
}

/// Why a text is no number: it is empty; or it has no digit after the plus sign;
/// or, up to some character, it is a number in range, and that character is no
/// digit, or makes it too large.
pub proof fn law_why_a_text_is_no_number(s: Seq<char>, max: nat, k: int)
    ensures
        s.len() == 0 ==> number(s, max) == Err::<nat, NumberError>(NumberError::Empty),
        s == seq!['+'] ==> number(s, max) == Err::<nat, NumberError>(NumberError::InvalidDigit),
        ({
            let digits = if s.len() > 0 && s[0] == '+' {
                s.skip(1)
            } else {
                s
            };
            let upto = digits.take(k);
            0 <= k < digits.len() && all_digits(upto) && value(upto) <= max ==> {
                &&& !(48 <= digits[k] as u32 <= 57) ==> number(s, max) == Err::<nat, NumberError>(
                    NumberError::InvalidDigit,
                )
                &&& 48 <= digits[k] as u32 <= 57 && 10 * value(upto) + (digits[k] as u32 - 48)
                    > max ==> number(s, max) == Err::<nat, NumberError>(NumberError::TooLarge)
            }
        }),
{
    let digits = if s.len() > 0 && s[0] == '+' {
        s.skip(1)
    } else {
        s
    };
    let upto = digits.take(k);
    if 0 <= k < digits.len() && all_digits(upto) && value(upto) <= max {
        lemma_decimal_is_its_value(upto, max);
        let now = digits.take(k + 1);
        assert(now.drop_last() =~= upto);
        assert(now.last() == digits[k]);
        law_digits(digits[k]);
        assert(decimal(upto, max) == Ok::<nat, NumberError>(value(upto)));
        assert(number(s, max) == decimal(digits, max));
        if decimal(now, max) is Err {
            lemma_error_stays(digits, k + 1, max);
        }
    }
}

} // verus!
