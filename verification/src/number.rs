//! Decimal numbers as text: reading them and writing them.

use crate::error::IntErrorKind;
use vstd::prelude::*;
use vstd::slice::*;

verus! {

/// Whether `c` is one of the ten ASCII digits.
pub open spec fn is_digit(c: char) -> bool {
    '0' <= c && c <= '9'
}

/// The number that the digit `c` stands for.
pub open spec fn digit_value(c: char) -> nat {
    (c as u32 - '0' as u32) as nat
}

/// The digit that stands for `d`, for `d` below ten.
pub open spec fn digit_char(d: nat) -> char {
    if d == 0 {
        '0'
    } else if d == 1 {
        '1'
    } else if d == 2 {
        '2'
    } else if d == 3 {
        '3'
    } else if d == 4 {
        '4'
    } else if d == 5 {
        '5'
    } else if d == 6 {
        '6'
    } else if d == 7 {
        '7'
    } else if d == 8 {
        '8'
    } else {
        '9'
    }
}

/// Whether `s` holds digits only.
pub open spec fn all_digits(s: Seq<char>) -> bool {
    forall|i: int| 0 <= i < s.len() ==> is_digit(#[trigger] s[i])
}

/// The number that the digits `s` spell in base ten.
pub open spec fn digits_value(s: Seq<char>) -> nat
    decreases s.len(),
{
    if s.len() == 0 {
        0
    } else {
        digits_value(s.drop_last()) * 10 + digit_value(s.last())
    }
}

/// `s` without the plus sign that may lead a number.
pub open spec fn unsigned_digits(s: Seq<char>) -> Seq<char> {
    if s.len() > 0 && s[0] == '+' {
        s.drop_first()
    } else {
        s
    }
}

/// What `s` is read as: an optional plus sign, then one or more digits whose
/// value fits in `usize`.
pub open spec fn parsed_number(s: Seq<char>) -> Result<usize, IntErrorKind> {
    let digits = unsigned_digits(s);
    if s.len() == 0 {
        Err(IntErrorKind::Empty)
    } else if digits.len() == 0 || !all_digits(digits) {
        Err(IntErrorKind::InvalidDigit)
    } else if digits_value(digits) > usize::MAX {
        Err(IntErrorKind::PosOverflow)
    } else {
        Ok(digits_value(digits) as usize)
    }
}

/// `n` in base ten, without leading zeros.
pub open spec fn decimal(n: nat) -> Seq<char>
    decreases n,
{
    if n < 10 {
        seq![digit_char(n)]
    } else {
        decimal(n / 10).push(digit_char(n % 10))
    }
}

/// `n` in base ten, with a leading zero where it has one digit only.
pub open spec fn decimal_padded(n: nat) -> Seq<char> {
    if n < 10 {
        seq!['0'] + decimal(n)
    } else {
        decimal(n)
    }
}

/// A prefix of a digit string spells no larger a number than the whole.
pub proof fn lemma_digits_value_prefix(s: Seq<char>, n: int)
    requires
        0 <= n <= s.len(),
    ensures
        digits_value(s.take(n)) <= digits_value(s),
    decreases s.len(),
{
    if n == s.len() {
        assert(s.take(n) =~= s);
    } else {
        lemma_digits_value_prefix(s.drop_last(), n);
        assert(s.drop_last().take(n) =~= s.take(n));
    }
}

/// What is written by `decimal` is read back as the number it was made from.
pub proof fn lemma_decimal_reads_back(n: nat)
    ensures
        decimal(n).len() >= 1,
        all_digits(decimal(n)),
        digits_value(decimal(n)) == n,
    decreases n,
{
    if n < 10 {
        let s = decimal(n);
        assert(s.drop_last() =~= Seq::<char>::empty());
        assert(digits_value(s.drop_last()) == 0);
    } else {
        lemma_decimal_reads_back(n / 10);
        let s = decimal(n);
        assert(s.drop_last() =~= decimal(n / 10));
        assert(s.last() == digit_char(n % 10));
    }
}

/// A number that is not zero is written without a zero in front.
pub proof fn lemma_decimal_begins(n: nat)
    ensures
        decimal(n).len() >= 1,
        n > 0 ==> decimal(n)[0] != '0',
    decreases n,
{
    if n >= 10 {
        lemma_decimal_begins(n / 10);
        assert(decimal(n)[0] == decimal(n / 10)[0]);
    }
}

/// A zero in front of a digit string does not change the number it spells.
pub proof fn lemma_leading_zero(s: Seq<char>)
    ensures
        digits_value(seq!['0'] + s) == digits_value(s),
    decreases s.len(),
{
    let z = seq!['0'] + s;
    if s.len() == 0 {
        assert(z.drop_last() =~= Seq::<char>::empty());
        assert(digits_value(z.drop_last()) == 0);
    } else {
        lemma_leading_zero(s.drop_last());
        assert(z.drop_last() =~= seq!['0'] + s.drop_last());
        assert(z.last() == s.last());
    }
}

/// The padded form reads back as well.
pub proof fn lemma_decimal_padded_reads_back(n: nat)
    ensures
        decimal_padded(n).len() >= 1,
        all_digits(decimal_padded(n)),
        digits_value(decimal_padded(n)) == n,
{
    lemma_decimal_reads_back(n);
    if n < 10 {
        lemma_leading_zero(decimal(n));
    }
}

/// The digit for `d`.
pub fn digit_for(d: usize) -> (c: char)
    requires
        d < 10,
    ensures
        c == digit_char(d as nat),
{
    if d == 0 {
        '0'
    } else if d == 1 {
        '1'
    } else if d == 2 {
        '2'
    } else if d == 3 {
        '3'
    } else if d == 4 {
        '4'
    } else if d == 5 {
        '5'
    } else if d == 6 {
        '6'
    } else if d == 7 {
        '7'
    } else if d == 8 {
        '8'
    } else {
        '9'
    }
}

/// Appends `n` in base ten to `out`.
pub fn push_decimal(out: &mut String, n: usize)
    ensures
        final(out)@ == old(out)@ + decimal(n as nat),
    decreases n,
{
    if n >= 10 {
        push_decimal(out, n / 10);
    }
    out.push(digit_for(n % 10));
    assert(out@ =~= old(out)@ + decimal(n as nat));
}

/// Appends `n` in base ten to `out`, in two digits at least.
pub fn push_decimal_padded(out: &mut String, n: usize)
    ensures
        final(out)@ == old(out)@ + decimal_padded(n as nat),
{
    if n < 10 {
        out.push('0');
    }
    push_decimal(out, n);
    assert(out@ =~= old(out)@ + decimal_padded(n as nat));
}

/// Reads `cs` as a decimal number.
pub fn parse_number(cs: &[char]) -> (r: Result<usize, IntErrorKind>)
    ensures
        r == parsed_number(cs@),
{
    if cs.len() == 0 {
        return Err(IntErrorKind::Empty);
    }
    let digits = if cs[0] == '+' {
        slice_subrange(cs, 1, cs.len())
    } else {
        cs
    };
    assert(digits@ == unsigned_digits(cs@));
    if digits.len() == 0 {
        return Err(IntErrorKind::InvalidDigit);
    }
    let mut i: usize = 0;
    while i < digits.len()
        invariant
            i <= digits.len(),
            cs@.len() > 0,
            digits@.len() > 0,
            digits@ == unsigned_digits(cs@),
            forall|j: int| 0 <= j < i ==> is_digit(#[trigger] digits@[j]),
        decreases digits.len() - i,
    {
        let c = digits[i];
        if !('0' <= c && c <= '9') {
            assert(!is_digit(digits@[i as int]));
            return Err(IntErrorKind::InvalidDigit);
        }
        i += 1;
    }
    let mut value: usize = 0;
    let mut k: usize = 0;
    while k < digits.len()
        invariant
            k <= digits.len(),
            cs@.len() > 0,
            digits@.len() > 0,
            digits@ == unsigned_digits(cs@),
            all_digits(digits@),
            value == digits_value(digits@.take(k as int)),
        decreases digits.len() - k,
    {
        let d = (digits[k] as u32 - '0' as u32) as usize;
        proof {
            let next = digits@.take(k + 1);
            assert(next.drop_last() =~= digits@.take(k as int));
            assert(next.last() == digits@[k as int]);
            assert(digits_value(next) == value * 10 + d);
            lemma_digits_value_prefix(digits@, k + 1);
        }
        let tens = match value.checked_mul(10) {
            Some(t) => t,
            None => {
                return Err(IntErrorKind::PosOverflow);
            },
        };
        value = match tens.checked_add(d) {
            Some(v) => v,
            None => {
                return Err(IntErrorKind::PosOverflow);
            },
        };
        k += 1;
    }
    assert(digits@.take(k as int) =~= digits@);
    Ok(value)
}

} // verus!
