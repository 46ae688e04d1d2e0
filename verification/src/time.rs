//! The time codec: milliseconds to and from the time texts of the formats,
//! and the rounding of a duration to centiseconds.

use crate::error::{time_error, ConversionError, FieldFault, FormatError, IntErrorKind};
use crate::number::{
    all_digits, decimal, decimal_padded, digits_value, is_digit, lemma_decimal_padded_reads_back,
    lemma_decimal_reads_back, parse_number, parsed_number, push_decimal, push_decimal_padded,
    unsigned_digits,
};
use crate::text::chars_of;
use vstd::arithmetic::div_mod::{lemma_fundamental_div_mod, lemma_mod_mod};
use vstd::prelude::*;
use vstd::slice::*;

verus! {

/// Milliseconds in one second.
pub const MILLISECONDS_PER_SECOND: usize = 1000;

/// Milliseconds in one minute.
pub const MILLISECONDS_PER_MINUTE: usize = 60_000;

/// Milliseconds in one hour.
pub const MILLISECONDS_PER_HOUR: usize = 3_600_000;

/// Milliseconds in one centisecond, the unit of the last part of an ASS time.
pub const CENTISECONDS_TO_MILLISECONDS: usize = 10;

/// Milliseconds in one unit of a karaoke tag.
pub const K_TAG_MULTIPLIER: usize = 10;

/// A duration in the unit of a karaoke tag, rounded half up.
pub open spec fn k_value_of(duration_ms: nat) -> nat {
    (duration_ms + 5) / 10
}

/// `ms` as an ASS time, `H:MM:SS.cs`; what is left of a centisecond is cut off.
pub open spec fn ass_time_text(ms: nat) -> Seq<char> {
    decimal(ms / 3_600_000) + seq![':'] + decimal_padded(ms % 3_600_000 / 60_000) + seq![':']
        + decimal_padded(ms % 60_000 / 1000) + seq!['.'] + decimal_padded(ms % 1000 / 10)
}

/// `ms` as an LRC time, `[MM:SS.xx]`; what is left of a hundredth is cut off.
pub open spec fn lrc_time_text(ms: nat) -> Seq<char> {
    seq!['['] + decimal_padded(ms / 60_000) + seq![':'] + decimal_padded(ms % 60_000 / 1000)
        + seq!['.'] + decimal_padded(ms % 1000 / 10) + seq![']']
}

/// The characters that part an ASS time.
pub open spec fn is_time_separator(c: char) -> bool {
    c == ':' || c == '.'
}

/// The position of the first separator in `s`, if it holds one.
pub open spec fn first_separator(s: Seq<char>) -> Option<int>
    decreases s.len(),
{
    if s.len() == 0 {
        None
    } else if is_time_separator(s[0]) {
        Some(0)
    } else {
        match first_separator(s.drop_first()) {
            Some(i) => Some(i + 1),
            None => None,
        }
    }
}

/// The parts that the separators cut `s` into: one more than it holds
/// separators.
pub open spec fn time_parts(s: Seq<char>) -> Seq<Seq<char>>
    decreases s.len(),
{
    match first_separator(s) {
        Some(i) if 0 <= i < s.len() => seq![s.take(i)] + time_parts(s.skip(i + 1)),
        _ => seq![s],
    }
}

/// The milliseconds that four numbers of an ASS time stand for.
pub open spec fn time_total(h: nat, m: nat, s: nat, cs: nat) -> nat {
    h * 3_600_000 + m * 60_000 + s * 1000 + cs * 10
}

/// The milliseconds of four numbers read from a time, where each was read
/// and the total fits in `usize`. The first that was not read decides the
/// fault.
pub open spec fn time_of_numbers(
    h: Result<usize, IntErrorKind>,
    m: Result<usize, IntErrorKind>,
    s: Result<usize, IntErrorKind>,
    cs: Result<usize, IntErrorKind>,
) -> Result<usize, FieldFault> {
    match h {
        Err(kind) => Err(FieldFault::Number(kind)),
        Ok(h) => match m {
            Err(kind) => Err(FieldFault::Number(kind)),
            Ok(m) => match s {
                Err(kind) => Err(FieldFault::Number(kind)),
                Ok(s) => match cs {
                    Err(kind) => Err(FieldFault::Number(kind)),
                    Ok(cs) => {
                        let total = time_total(h as nat, m as nat, s as nat, cs as nat);
                        if total > usize::MAX {
                            Err(FieldFault::Number(IntErrorKind::PosOverflow))
                        } else {
                            Ok(total as usize)
                        }
                    },
                },
            },
        },
    }
}

/// What a time text is read as: four numbers, parted by `:` or `.`.
pub open spec fn time_value(s: Seq<char>) -> Result<usize, FieldFault> {
    let parts = time_parts(s);
    if parts.len() != 4 {
        Err(FieldFault::Shape)
    } else {
        time_of_numbers(
            parsed_number(parts[0]),
            parsed_number(parts[1]),
            parsed_number(parts[2]),
            parsed_number(parts[3]),
        )
    }
}

/// The first separator stands where no separator stands before it.
pub proof fn lemma_first_separator(s: Seq<char>, n: int)
    requires
        0 <= n <= s.len(),
        forall|j: int| 0 <= j < n ==> !is_time_separator(#[trigger] s[j]),
        n < s.len() ==> is_time_separator(s[n]),
    ensures
        first_separator(s) == (if n < s.len() { Some(n) } else { None::<int> }),
    decreases n,
{
    if n > 0 {
        let rest = s.drop_first();
        assert forall|j: int| 0 <= j < n - 1 implies !is_time_separator(#[trigger] rest[j]) by {
            assert(rest[j] == s[j + 1]);
        }
        lemma_first_separator(rest, n - 1);
    }
}

/// A text always falls into one part at least.
pub proof fn lemma_time_parts_nonempty(s: Seq<char>)
    ensures
        time_parts(s).len() >= 1,
{
}

/// A text that begins with digits and goes on with a separator has those
/// digits as its first part.
pub proof fn lemma_time_parts_first(digits: Seq<char>, sep: char, rest: Seq<char>)
    requires
        all_digits(digits),
        is_time_separator(sep),
    ensures
        time_parts(digits + seq![sep] + rest) == seq![digits] + time_parts(rest),
{
    let s = digits + seq![sep] + rest;
    let n = digits.len() as int;
    assert forall|j: int| 0 <= j < n implies !is_time_separator(#[trigger] s[j]) by {
        assert(s[j] == digits[j]);
        assert(is_digit(digits[j]));
    }
    assert(s[n] == sep);
    lemma_first_separator(s, n);
    assert(s.take(n) =~= digits);
    assert(s.skip(n + 1) =~= rest);
}

/// A text of digits alone is one part.
pub proof fn lemma_time_parts_last(digits: Seq<char>)
    requires
        all_digits(digits),
    ensures
        time_parts(digits) == seq![digits],
{
    assert forall|j: int| 0 <= j < digits.len() implies !is_time_separator(
        #[trigger] digits[j],
    ) by {
        assert(is_digit(digits[j]));
    }
    lemma_first_separator(digits, digits.len() as int);
}

/// Digits that `decimal` or `decimal_padded` wrote are read as their number.
pub proof fn lemma_parsed_digits(digits: Seq<char>)
    requires
        digits.len() >= 1,
        all_digits(digits),
        digits_value(digits) <= usize::MAX,
    ensures
        parsed_number(digits) == Ok::<usize, IntErrorKind>(digits_value(digits) as usize),
{
    assert(is_digit(digits[0]));
    assert(unsigned_digits(digits) == digits);
}

/// The parts of a written ASS time are its four numbers.
pub proof fn lemma_written_time_parts(n: nat)
    ensures
        time_parts(ass_time_text(n)) == seq![
            decimal(n / 3_600_000),
            decimal_padded(n % 3_600_000 / 60_000),
            decimal_padded(n % 60_000 / 1000),
            decimal_padded(n % 1000 / 10),
        ],
{
    let ht = decimal(n / 3_600_000);
    let mt = decimal_padded(n % 3_600_000 / 60_000);
    let st = decimal_padded(n % 60_000 / 1000);
    let ct = decimal_padded(n % 1000 / 10);
    lemma_decimal_reads_back(n / 3_600_000);
    lemma_decimal_padded_reads_back(n % 3_600_000 / 60_000);
    lemma_decimal_padded_reads_back(n % 60_000 / 1000);
    lemma_decimal_padded_reads_back(n % 1000 / 10);
    let t2 = st + seq!['.'] + ct;
    let t1 = mt + seq![':'] + t2;
    let t0 = ht + seq![':'] + t1;
    assert(t0 =~= ass_time_text(n));
    lemma_time_parts_first(ht, ':', t1);
    lemma_time_parts_first(mt, ':', t2);
    lemma_time_parts_first(st, '.', ct);
    lemma_time_parts_last(ct);
    assert(time_parts(t0) =~= seq![ht, mt, st, ct]);
}

/// Hours, minutes, seconds and centiseconds add up to the whole centiseconds
/// they were cut from.
pub proof fn lemma_time_total(n: nat)
    ensures
        time_total(n / 3_600_000, n % 3_600_000 / 60_000, n % 60_000 / 1000, n % 1000 / 10) == n
            - n % 10,
{
    let x = n as int;
    let r1 = x % 3_600_000;
    let r2 = x % 60_000;
    let r3 = x % 1000;
    lemma_mod_mod(x, 60_000, 60);
    lemma_mod_mod(x, 1000, 60);
    lemma_mod_mod(x, 10, 100);
    assert(r1 % 60_000 == r2);
    assert(r2 % 1000 == r3);
    assert(r3 % 10 == x % 10);
    lemma_fundamental_div_mod(x, 3_600_000);
    lemma_fundamental_div_mod(r1, 60_000);
    lemma_fundamental_div_mod(r2, 1000);
    lemma_fundamental_div_mod(r3, 10);
}

/// Reading back a written ASS time gives the milliseconds it was written
/// from, less what was cut off of the last centisecond: whole centiseconds
/// come back unchanged.
pub proof fn lemma_time_round_trip(ms: usize)
    ensures
        time_value(ass_time_text(ms as nat)) == Ok::<usize, FieldFault>((ms - ms % 10) as usize),
        ms % 10 == 0 ==> time_value(ass_time_text(ms as nat)) == Ok::<usize, FieldFault>(ms),
{
    let n = ms as nat;
    let h = n / 3_600_000;
    let m = n % 3_600_000 / 60_000;
    let s = n % 60_000 / 1000;
    let c = n % 1000 / 10;
    lemma_written_time_parts(n);
    lemma_time_total(n);
    lemma_decimal_reads_back(h);
    lemma_decimal_padded_reads_back(m);
    lemma_decimal_padded_reads_back(s);
    lemma_decimal_padded_reads_back(c);
    lemma_parsed_digits(decimal(h));
    lemma_parsed_digits(decimal_padded(m));
    lemma_parsed_digits(decimal_padded(s));
    lemma_parsed_digits(decimal_padded(c));
    let parts = time_parts(ass_time_text(n));
    assert(parts.len() == 4);
    assert(parsed_number(parts[0]) == Ok::<usize, IntErrorKind>(h as usize));
    assert(parsed_number(parts[1]) == Ok::<usize, IntErrorKind>(m as usize));
    assert(parsed_number(parts[2]) == Ok::<usize, IntErrorKind>(s as usize));
    assert(parsed_number(parts[3]) == Ok::<usize, IntErrorKind>(c as usize));
}

/// A duration in the unit of a karaoke tag: tenths of it, rounded half up.
pub fn k_value(duration_ms: usize) -> (k: usize)
    ensures
        k == k_value_of(duration_ms as nat),
        k == (duration_ms + 5) / 10,
        duration_ms == 0 ==> k == 0,
{
    if duration_ms % 10 >= 5 {
        duration_ms / 10 + 1
    } else {
        duration_ms / 10
    }
}

/// Writes `ms` as an ASS time, `H:MM:SS.cs`.
pub fn milliseconds_to_time(ms: usize) -> (text: String)
    ensures
        text@ == ass_time_text(ms as nat),
{
    let hours = ms / MILLISECONDS_PER_HOUR;
    let minutes = (ms % MILLISECONDS_PER_HOUR) / MILLISECONDS_PER_MINUTE;
    let seconds = (ms % MILLISECONDS_PER_MINUTE) / MILLISECONDS_PER_SECOND;
    let centiseconds = (ms % MILLISECONDS_PER_SECOND) / CENTISECONDS_TO_MILLISECONDS;
    let mut text = String::new();
    push_decimal(&mut text, hours);
    text.push(':');
    push_decimal_padded(&mut text, minutes);
    text.push(':');
    push_decimal_padded(&mut text, seconds);
    text.push('.');
    push_decimal_padded(&mut text, centiseconds);
    assert(text@ =~= ass_time_text(ms as nat));
    text
}

/// Writes `ms` as an LRC time, `[MM:SS.xx]`.
pub fn milliseconds_to_lrc_time(ms: usize) -> (text: String)
    ensures
        text@ == lrc_time_text(ms as nat),
{
    let minutes = ms / MILLISECONDS_PER_MINUTE;
    let seconds = (ms % MILLISECONDS_PER_MINUTE) / MILLISECONDS_PER_SECOND;
    let hundredths = (ms % MILLISECONDS_PER_SECOND) / 10;
    let mut text = String::new();
    text.push('[');
    push_decimal_padded(&mut text, minutes);
    text.push(':');
    push_decimal_padded(&mut text, seconds);
    text.push('.');
    push_decimal_padded(&mut text, hundredths);
    text.push(']');
    assert(text@ =~= lrc_time_text(ms as nat));
    text
}

/// Where the first separator stands in `cs`.
fn find_separator(cs: &[char]) -> (found: Option<usize>)
    ensures
        match found {
            Some(i) => i < cs@.len() && first_separator(cs@) == Some(i as int),
            None => first_separator(cs@) is None,
        },
{
    let mut n: usize = 0;
    while n < cs.len() && !(cs[n] == ':' || cs[n] == '.')
        invariant
            n <= cs.len(),
            forall|j: int| 0 <= j < n ==> !is_time_separator(#[trigger] cs@[j]),
        decreases cs.len() - n,
    {
        n += 1;
    }
    proof {
        lemma_first_separator(cs@, n as int);
    }
    if n < cs.len() {
        Some(n)
    } else {
        None
    }
}

/// The four parts of `cs`, where the separators cut it into four.
fn split_in_four(cs: &[char]) -> (r: Option<(&[char], &[char], &[char], &[char])>)
    ensures
        match r {
            Some((a, b, c, d)) => time_parts(cs@) == seq![a@, b@, c@, d@],
            None => time_parts(cs@).len() != 4,
        },
{
    let len = cs.len();
    let i1 = match find_separator(cs) {
        Some(i) => i,
        None => {
            return None;
        },
    };
    let rest1 = slice_subrange(cs, i1 + 1, len);
    let len1 = rest1.len();
    proof {
        lemma_time_parts_nonempty(rest1@);
        assert(time_parts(cs@) == seq![cs@.take(i1 as int)] + time_parts(rest1@));
    }
    let i2 = match find_separator(rest1) {
        Some(i) => i,
        None => {
            return None;
        },
    };
    let rest2 = slice_subrange(rest1, i2 + 1, len1);
    let len2 = rest2.len();
    proof {
        lemma_time_parts_nonempty(rest2@);
        assert(time_parts(rest1@) == seq![rest1@.take(i2 as int)] + time_parts(rest2@));
    }
    let i3 = match find_separator(rest2) {
        Some(i) => i,
        None => {
            return None;
        },
    };
    let rest3 = slice_subrange(rest2, i3 + 1, len2);
    proof {
        lemma_time_parts_nonempty(rest3@);
        assert(time_parts(rest2@) == seq![rest2@.take(i3 as int)] + time_parts(rest3@));
    }
    match find_separator(rest3) {
        Some(i4) => {
            proof {
                lemma_time_parts_nonempty(rest3@.skip(i4 + 1));
            }
            None
        },
        None => {
            let a = slice_subrange(cs, 0, i1);
            let b = slice_subrange(rest1, 0, i2);
            let c = slice_subrange(rest2, 0, i3);
            assert(time_parts(cs@) =~= seq![a@, b@, c@, rest3@]);
            Some((a, b, c, rest3))
        },
    }
}

/// Reads the characters of an ASS time.
pub fn parse_time(cs: &[char]) -> (r: Result<usize, FieldFault>)
    ensures
        r == time_value(cs@),
{
    let (a, b, c, d) = match split_in_four(cs) {
        Some(parts) => parts,
        None => {
            return Err(FieldFault::Shape);
        },
    };
    let hours = match parse_number(a) {
        Ok(n) => n,
        Err(kind) => {
            return Err(FieldFault::Number(kind));
        },
    };
    let minutes = match parse_number(b) {
        Ok(n) => n,
        Err(kind) => {
            return Err(FieldFault::Number(kind));
        },
    };
    let seconds = match parse_number(c) {
        Ok(n) => n,
        Err(kind) => {
            return Err(FieldFault::Number(kind));
        },
    };
    let centiseconds = match parse_number(d) {
        Ok(n) => n,
        Err(kind) => {
            return Err(FieldFault::Number(kind));
        },
    };
    let total = sum_of(
        product_of(hours, MILLISECONDS_PER_HOUR),
        sum_of(
            product_of(minutes, MILLISECONDS_PER_MINUTE),
            sum_of(
                product_of(seconds, MILLISECONDS_PER_SECOND),
                product_of(centiseconds, CENTISECONDS_TO_MILLISECONDS),
            ),
        ),
    );
    match total {
        Some(ms) => Ok(ms),
        None => Err(FieldFault::Number(IntErrorKind::PosOverflow)),
    }
}

/// `a * b` where it fits.
fn product_of(a: usize, b: usize) -> (r: Option<usize>)
    ensures
        r == (if a * b <= usize::MAX { Some((a * b) as usize) } else { None }),
{
    a.checked_mul(b)
}

/// The sum of two numbers that fit, where it fits too.
fn sum_of(a: Option<usize>, b: Option<usize>) -> (r: Option<usize>)
    ensures
        r == (match (a, b) {
            (Some(x), Some(y)) if x + y <= usize::MAX => Some((x + y) as usize),
            _ => None,
        }),
{
    match (a, b) {
        (Some(x), Some(y)) => x.checked_add(y),
        _ => None,
    }
}

/// Reads an ASS time, `H:MM:SS.cs`, as milliseconds. A text that is not made
/// of four parts, a part that is no number and a total that does not fit
/// are all errors of format; the error tells which.
pub fn time_to_milliseconds(time_str: &str) -> (r: Result<usize, ConversionError>)
    ensures
        r == (match time_value(time_str@) {
            Ok(ms) => Ok::<usize, ConversionError>(ms),
            Err(fault) => Err(time_error(fault)),
        }),
        r is Ok <==> time_value(time_str@) is Ok,
{
    let cs = chars_of(time_str);
    match parse_time(cs.as_slice()) {
        Ok(ms) => Ok(ms),
        Err(cause) => Err(ConversionError::InvalidFormat(FormatError::Time { cause })),
    }
}

} // verus!
