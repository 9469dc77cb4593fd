//! Numbers in text: decimal and hexadecimal notation, written and read.

use crate::text::chars_of;
use vstd::prelude::*;

verus! {

/// The character of a decimal digit.
pub open spec fn digit(d: int) -> char {
    (48 + d) as char
}

/// A natural number in decimal notation, without leading zeros.
pub open spec fn decimal(n: nat) -> Seq<char>
    decreases n,
{
    if n < 10 {
        seq![digit(n as int)]
    } else {
        decimal(n / 10).push(digit((n % 10) as int))
    }
}

/// An integer in decimal notation, with a `-` in front where it is negative.
pub open spec fn decimal_int(i: int) -> Seq<char> {
    if i < 0 {
        seq!['-'] + decimal((-i) as nat)
    } else {
        decimal(i as nat)
    }
}

/// Writes one decimal digit.
fn digit_char(d: u8) -> (r: char)
    requires
        d < 10,
    ensures
        r == digit(d as int),
{
    (48u8 + d) as char
}

/// Appends a number in decimal notation.
pub fn push_decimal(s: &mut String, n: u128)
    ensures
        final(s)@ == old(s)@ + decimal(n as nat),
    decreases n,
{
    if n < 10 {
        s.push(digit_char(n as u8));
        assert(s@ =~= old(s)@ + decimal(n as nat));
    } else {
        push_decimal(s, n / 10);
        s.push(digit_char((n % 10) as u8));
        assert(s@ =~= old(s)@ + decimal(n as nat));
    }
}

/// Appends an integer in decimal notation.
pub fn push_decimal_int(s: &mut String, i: i128)
    requires
        i > i128::MIN,
    ensures
        final(s)@ == old(s)@ + decimal_int(i as int),
{
    if i < 0 {
        s.push('-');
        push_decimal(s, (-i) as u128);
        assert(s@ =~= old(s)@ + decimal_int(i as int));
    } else {
        push_decimal(s, i as u128);
    }
}

/// A number in decimal notation.
pub fn to_decimal(n: u128) -> (r: String)
    ensures
        r@ == decimal(n as nat),
{
    let mut s = String::new();
    push_decimal(&mut s, n);
    assert(s@ =~= decimal(n as nat));
    s
}

/// An integer in decimal notation.
pub fn to_decimal_int(i: i128) -> (r: String)
    requires
        i > i128::MIN,
    ensures
        r@ == decimal_int(i as int),
{
    let mut s = String::new();
    push_decimal_int(&mut s, i);
    assert(s@ =~= decimal_int(i as int));
    s
}

/// The character of a lower-case hexadecimal digit.
pub open spec fn hex_digit(d: int) -> char {
    if d < 10 {
        (48 + d) as char
    } else {
        (87 + d) as char
    }
}

/// The lowest `width` hexadecimal digits of `n`, the highest first.
pub open spec fn hex(n: nat, width: nat) -> Seq<char>
    decreases width,
{
    if width == 0 {
        Seq::empty()
    } else {
        hex(n / 16, (width - 1) as nat).push(hex_digit((n % 16) as int))
    }
}

/// Appends the lowest `width` hexadecimal digits of a number.
pub fn push_hex(s: &mut String, n: u64, width: usize)
    ensures
        final(s)@ == old(s)@ + hex(n as nat, width as nat),
    decreases width,
{
    if width > 0 {
        push_hex(s, n / 16, width - 1);
        let d: u8 = (n % 16) as u8;
        let c = if d < 10 {
            (48u8 + d) as char
        } else {
            (87u8 + d) as char
        };
        s.push(c);
    }
    assert(s@ =~= old(s)@ + hex(n as nat, width as nat));
}

/// Whether a character is an ASCII decimal digit.
pub open spec fn is_digit(c: char) -> bool {
    '0' <= c <= '9'
}

/// Whether a text consists of digits only.
pub open spec fn all_digits(s: Seq<char>) -> bool {
    forall|i: int| 0 <= i < s.len() ==> is_digit(#[trigger] s[i])
}

/// The number that a row of decimal digits denotes.
pub open spec fn digits_value(s: Seq<char>) -> nat
    decreases s.len(),
{
    if s.len() == 0 {
        0
    } else {
        digits_value(s.drop_last()) * 10 + (s.last() as nat - 48) as nat
    }
}

/// The number that a text denotes: digits, with an optional `+` in front.
/// `None` where it is no such text, or the number is larger than `max`.
pub open spec fn parse_unsigned_spec(s: Seq<char>, max: nat) -> Option<nat> {
    let digits = if s.len() > 0 && s[0] == '+' {
        s.drop_first()
    } else {
        s
    };
    if digits.len() > 0 && all_digits(digits) && digits_value(digits) <= max {
        Some(digits_value(digits))
    } else {
        None
    }
}

/// The integer that a text denotes: digits, with an optional `+` or `-` in
/// front. `None` where it is no such text, or the integer does not fit `i64`.
pub open spec fn parse_i64_spec(s: Seq<char>) -> Option<int> {
    if s.len() > 0 && s[0] == '-' {
        let digits = s.drop_first();
        if digits.len() > 0 && all_digits(digits) && digits_value(digits) <= 0x8000_0000_0000_0000 {
            Some(-(digits_value(digits) as int))
        } else {
            None
        }
    } else {
        match parse_unsigned_spec(s, 0x7fff_ffff_ffff_ffff) {
            Some(n) => Some(n as int),
            None => None,
        }
    }
}

/// The value of a prefix is no larger than that of the whole row of digits.
proof fn lemma_prefix_value(s: Seq<char>, i: int)
    requires
        0 <= i <= s.len(),
        all_digits(s),
    ensures
        digits_value(s.take(i)) <= digits_value(s),
    decreases s.len() - i,
{
    if i == s.len() {
        assert(s.take(i) =~= s);
    } else {
        lemma_prefix_value(s, i + 1);
        assert(s.take(i + 1).drop_last() =~= s.take(i));
    }
}

/// Reads a row of digits that starts at `from`, up to the bound `max`.
fn read_digits(chars: &Vec<char>, from: usize, max: u64) -> (r: Option<u64>)
    requires
        from <= chars@.len(),
    ensures
        ({
            let digits = chars@.skip(from as int);
            match r {
                Some(n) => digits.len() > 0 && all_digits(digits) && n == digits_value(digits) && n
                    <= max,
                None => !(digits.len() > 0 && all_digits(digits) && digits_value(digits) <= max),
            }
        }),
{
    let ghost digits = chars@.skip(from as int);
    if from == chars.len() {
        return None;
    }
    let mut i: usize = from;
    let mut n: u64 = 0;
    assert(digits.take(0) =~= Seq::empty());
    while i < chars.len()
        invariant
            digits == chars@.skip(from as int),
            from <= i <= chars@.len(),
            from < chars@.len(),
            n == digits_value(digits.take(i - from)),
            n <= max,
            forall|j: int| 0 <= j < i - from ==> is_digit(#[trigger] digits[j]),
        decreases chars@.len() - i,
    {
        let c = chars[i];
        assert(c == digits[i - from]);
        if !('0' <= c && c <= '9') {
            return None;
        }
        let d: u64 = (c as u32 as u64) - 48;
        let ghost next = digits.take(i - from + 1);
        assert(next.drop_last() =~= digits.take(i - from));
        assert(next.last() == c);
        assert(digits_value(next) == n * 10 + d);
        if d > max || n > (max - d) / 10 {
            assert(digits_value(next) > max);
            proof {
                if all_digits(digits) {
                    lemma_prefix_value(digits, i - from + 1);
                }
            }
            return None;
        }
        n = n * 10 + d;
        i = i + 1;
    }
    assert(digits.take(i - from) =~= digits);
    Some(n)
}

/// Reads an unsigned number no larger than `max`.
pub fn parse_unsigned(s: &str, max: u64) -> (r: Option<u64>)
    ensures
        r is Some <==> parse_unsigned_spec(s@, max as nat) is Some,
        r matches Some(n) ==> parse_unsigned_spec(s@, max as nat) == Some(n as nat),
{
    let chars = chars_of(s);
    if chars.len() > 0 && chars[0] == '+' {
        assert(s@.drop_first() =~= chars@.skip(1));
        read_digits(&chars, 1, max)
    } else {
        assert(s@ =~= chars@.skip(0));
        read_digits(&chars, 0, max)
    }
}

/// Reads an `i64`.
pub fn parse_i64(s: &str) -> (r: Option<i64>)
    ensures
        r is Some <==> parse_i64_spec(s@) is Some,
        r matches Some(n) ==> parse_i64_spec(s@) == Some(n as int),
{
    let chars = chars_of(s);
    if chars.len() > 0 && chars[0] == '-' {
        assert(s@.drop_first() =~= chars@.skip(1));
        match read_digits(&chars, 1, 0x8000_0000_0000_0000) {
            Some(n) => Some((-(n as i128)) as i64),
            None => None,
        }
    } else {
        match parse_unsigned(s, 0x7fff_ffff_ffff_ffff) {
            Some(n) => Some(n as i64),
            None => None,
        }
    }
}

/// A number is written digit by digit: a single digit as that digit, and a further
/// digit behind those of the rest.
pub proof fn lemma_decimal_grows(n: nat, d: nat)
    requires
        d < 10,
    ensures
        decimal(d) == seq![(('0' as nat) + d) as char],
        n > 0 ==> decimal(10 * n + d) == decimal(n).push((('0' as nat) + d) as char),
{
    if n > 0 {
        assert((10 * n + d) / 10 == n);
        assert((10 * n + d) % 10 == d);
    }
}

/// A row of digits denotes ten times what it denotes without the last digit, and that
/// digit.
pub proof fn lemma_digits_grow(s: Seq<char>, d: nat)
    requires
        d < 10,
    ensures
        digits_value(Seq::empty()) == 0,
        digits_value(s.push((('0' as nat) + d) as char)) == 10 * digits_value(s) + d,
{
    let c = (('0' as nat) + d) as char;
    assert(s.push(c).drop_last() =~= s);
    assert(s.push(c).last() == c);
}

/// What is written in decimal notation consists of digits, and is read as the number
/// that it was.
pub proof fn lemma_decimal_is_read(n: nat)
    ensures
        decimal(n).len() > 0,
        forall|i: int| 0 <= i < decimal(n).len() ==> '0' <= #[trigger] decimal(n)[i] <= '9',
        decimal(n)[0] == '0' ==> n == 0,
        digits_value(decimal(n)) == n,
    decreases n,
{
    reveal_with_fuel(digits_value, 2);
    if n < 10 {
        assert(decimal(n).drop_last() =~= Seq::empty());
    } else {
        lemma_decimal_is_read(n / 10);
        assert(decimal(n).drop_last() =~= decimal(n / 10));
        assert(decimal(n)[0] == decimal(n / 10)[0]);
    }
}

/// A number that is written is read again, as far as it is not too large; and so is an
/// integer.
pub proof fn lemma_number_round_trip(n: nat, max: nat, i: int)
    ensures
        parse_unsigned_spec(decimal(n), max) == if n <= max {
            Some(n)
        } else {
            None
        },
        parse_unsigned_spec(seq!['+'] + decimal(n), max) == if n <= max {
            Some(n)
        } else {
            None
        },
        parse_i64_spec(decimal_int(i)) == if -0x8000_0000_0000_0000 <= i
            <= 0x7fff_ffff_ffff_ffff {
            Some(i)
        } else {
            None
        },
{
    lemma_decimal_is_read(n);
    assert((seq!['+'] + decimal(n)).drop_first() =~= decimal(n));
    if i < 0 {
        lemma_decimal_is_read((-i) as nat);
        assert(decimal_int(i).drop_first() =~= decimal((-i) as nat));
    } else {
        lemma_decimal_is_read(i as nat);
    }
}

/// Only digits, behind a sign, are a number: no other text is read as one.
pub proof fn lemma_only_digits_are_read(s: Seq<char>, max: nat, k: int)
    requires
        0 <= k < s.len(),
        !('0' <= s[k] <= '9'),
        k > 0 || (s[0] != '+' && s[0] != '-') || s.len() == 1,
    ensures
        parse_unsigned_spec(s, max) is None,
        parse_i64_spec(s) is None,
        parse_unsigned_spec(Seq::empty(), max) is None,
        parse_i64_spec(Seq::empty()) is None,
{
    if s.len() > 1 && k > 0 {
        assert(s.drop_first()[k - 1] == s[k]);
    }
    assert(!is_digit(s[k]));
}

/// A hexadecimal digit is added behind the others.
pub proof fn lemma_hex_grows(n: nat, d: nat, width: nat)
    requires
        d < 16,
    ensures
        hex(n, 0) == Seq::<char>::empty(),
        hex(16 * n + d, width + 1) == hex(n, width).push(
            if d < 10 {
                (('0' as nat) + d) as char
            } else {
                (('a' as nat) + (d - 10)) as char
            },
        ),
        hex(n, width).len() == width,
    decreases width,
{
    assert((16 * n + d) / 16 == n);
    assert((16 * n + d) % 16 == d);
    if width > 0 {
        lemma_hex_grows(n / 16, 0, (width - 1) as nat);
    }
}

} // verus!
