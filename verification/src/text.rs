//! Character-level helpers: decimal rendering and parsing of integers, and building strings.

use vstd::prelude::*;

verus! {

/// The decimal digit character of `d` (`0 <= d < 10`).
pub open spec fn digit_char(d: nat) -> char {
    if d == 0 { '0' } else if d == 1 { '1' } else if d == 2 { '2' } else if d == 3 { '3' }
    else if d == 4 { '4' } else if d == 5 { '5' } else if d == 6 { '6' } else if d == 7 { '7' }
    else if d == 8 { '8' } else { '9' }
}

/// The decimal digits of `n`, most significant first, without leading zeros (`"0"` for zero).
pub open spec fn decimal(n: nat) -> Seq<char>
    decreases n,
{
    if n < 10 {
        seq![digit_char(n)]
    } else {
        decimal(n / 10).push(digit_char(n % 10))
    }
}

/// The decimal rendering of a signed integer, with a leading `-` for negative numbers.
pub open spec fn signed_decimal(n: int) -> Seq<char> {
    if n < 0 { seq!['-'] + decimal((-n) as nat) } else { decimal(n as nat) }
}

/// Appends the character `c` to `s` (std's `String::push`).
#[verifier::external_body]
pub fn string_push(s: &mut String, c: char)
    ensures
        final(s)@ == old(s)@.push(c),
{
    s.push(c);
}

/// A new string with the characters of `chars`, in order.
pub fn string_from_chars(chars: &Vec<char>) -> (s: String)
    ensures
        s@ == chars@,
{
    let mut s = String::new();
    let mut i: usize = 0;
    while i < chars.len()
        invariant
            i <= chars.len(),
            s@ == chars@.subrange(0, i as int),
        decreases chars.len() - i,
    {
        string_push(&mut s, chars[i]);
        i = i + 1;
        assert(s@ =~= chars@.subrange(0, i as int));
    }
    assert(chars@.subrange(0, chars@.len() as int) =~= chars@);
    s
}

/// The characters of `s`, in order.
pub fn chars_of(s: &str) -> (v: Vec<char>)
    ensures
        v@ == s@,
{
    let mut v: Vec<char> = Vec::new();
    let n = s.unicode_len();
    let mut i: usize = 0;
    while i < n
        invariant
            n == s@.len(),
            i <= n,
            v@ == s@.subrange(0, i as int),
        decreases n - i,
    {
        v.push(s.get_char(i));
        i = i + 1;
        assert(v@ =~= s@.subrange(0, i as int));
    }
    assert(s@.subrange(0, n as int) =~= s@);
    v
}

/// Appends the characters of `t` to `s`.
pub fn push_str(s: &mut String, t: &str)
    ensures
        final(s)@ == old(s)@ + t@,
{
    s.append(t);
}

fn digit(d: u64) -> (c: char)
    requires
        d < 10,
    ensures
        c == digit_char(d as nat),
{
    if d == 0 { '0' } else if d == 1 { '1' } else if d == 2 { '2' } else if d == 3 { '3' }
    else if d == 4 { '4' } else if d == 5 { '5' } else if d == 6 { '6' } else if d == 7 { '7' }
    else if d == 8 { '8' } else { '9' }
}

/// Appends the decimal digits of `n` to `s`.
pub fn push_decimal(s: &mut String, n: u64)
    ensures
        final(s)@ == old(s)@ + decimal(n as nat),
    decreases n,
{
    if n < 10 {
        string_push(s, digit(n));
        assert(decimal(n as nat) =~= seq![digit_char(n as nat)]);
    } else {
        push_decimal(s, n / 10);
        string_push(s, digit(n % 10));
        assert(decimal(n as nat) == decimal((n / 10) as nat).push(digit_char((n % 10) as nat)));
        assert(final(s)@ =~= old(s)@ + decimal(n as nat));
    }
}

/// The decimal rendering of `n`, with a leading `-` when it is negative.
pub fn i64_to_string(n: i64) -> (s: String)
    ensures
        s@ == signed_decimal(n as int),
{
    let mut s = String::new();
    if n < 0 {
        string_push(&mut s, '-');
        let m: u64 = if n == i64::MIN { 9223372036854775808u64 } else { (-n) as u64 };
        push_decimal(&mut s, m);
        assert(s@ =~= seq!['-'] + decimal((-(n as int)) as nat));
    } else {
        push_decimal(&mut s, n as u64);
        assert(s@ =~= decimal(n as nat));
    }
    s
}


/// The characters with the Unicode property White_Space, which std's `char::is_whitespace`
/// tests for.
pub open spec fn white_space(c: char) -> bool {
    let u = c as u32;
    ||| 0x9 <= u <= 0xd
    ||| u == 0x20
    ||| u == 0x85
    ||| u == 0xa0
    ||| u == 0x1680
    ||| 0x2000 <= u <= 0x200a
    ||| u == 0x2028
    ||| u == 0x2029
    ||| u == 0x202f
    ||| u == 0x205f
    ||| u == 0x3000
}

/// `c` is white space.
pub fn is_whitespace(c: char) -> (r: bool)
    ensures
        r == white_space(c),
{
    let u = c as u32;
    (0x9 <= u && u <= 0xd) || u == 0x20 || u == 0x85 || u == 0xa0 || u == 0x1680
        || (0x2000 <= u && u <= 0x200a) || u == 0x2028 || u == 0x2029 || u == 0x202f
        || u == 0x205f || u == 0x3000
}

/// `c` is one of the digits `0` to `9`.
pub open spec fn ascii_digit(c: char) -> bool {
    '0' <= c <= '9'
}

/// `c` is one of the digits `0` to `9`.
pub fn is_ascii_digit(c: char) -> (r: bool)
    ensures
        r == ascii_digit(c),
{
    let u = c as u32;
    48 <= u && u <= 57
}

/// Why a text is not a number.
#[derive(Debug, PartialEq, Eq, Clone, Copy, Structural)]
pub enum IntError {
    Empty,
    InvalidDigit,
    PosOverflow,
    NegOverflow,
}

/// The value of the digits `ds` appended, one by one, to `acc`: added where `positive`,
/// subtracted otherwise. The first digit that leaves the range of `i64` is an overflow, and
/// a character that is not a digit, reached before that, is an invalid digit.
pub open spec fn accumulate_digits(ds: Seq<char>, acc: int, positive: bool) -> Result<int, IntError>
    decreases ds.len(),
{
    if ds.len() == 0 {
        Ok(acc)
    } else if !ascii_digit(ds[0]) {
        Err(IntError::InvalidDigit)
    } else {
        let d = (ds[0] as u32 - 48) as int;
        let v = if positive { acc * 10 + d } else { acc * 10 - d };
        if v > i64::MAX {
            Err(IntError::PosOverflow)
        } else if v < i64::MIN {
            Err(IntError::NegOverflow)
        } else {
            accumulate_digits(ds.drop_first(), v, positive)
        }
    }
}

/// The `i64` that the decimal text `s` denotes: an optional sign, then digits.
pub open spec fn parse_int(s: Seq<char>) -> Result<int, IntError> {
    if s.len() == 0 {
        Err(IntError::Empty)
    } else if (s[0] == '+' || s[0] == '-') && s.len() == 1 {
        Err(IntError::InvalidDigit)
    } else if s[0] == '+' {
        accumulate_digits(s.drop_first(), 0, true)
    } else if s[0] == '-' {
        accumulate_digits(s.drop_first(), 0, false)
    } else {
        accumulate_digits(s, 0, true)
    }
}

/// The text std gives for each reason a text is not a number.
pub open spec fn int_error_text(e: IntError) -> Seq<char> {
    match e {
        IntError::Empty => "cannot parse integer from empty string"@,
        IntError::InvalidDigit => "invalid digit found in string"@,
        IntError::PosOverflow => "number too large to fit in target type"@,
        IntError::NegOverflow => "number too small to fit in target type"@,
    }
}

/// The text of `e`.
pub fn int_error_message(e: IntError) -> (r: &'static str)
    ensures
        r@ == int_error_text(e),
{
    match e {
        IntError::Empty => "cannot parse integer from empty string",
        IntError::InvalidDigit => "invalid digit found in string",
        IntError::PosOverflow => "number too large to fit in target type",
        IntError::NegOverflow => "number too small to fit in target type",
    }
}

/// The number that the decimal text `s` denotes, as std's `str::parse::<i64>` reads it.
pub fn parse_i64(s: &Vec<char>) -> (r: Result<i64, IntError>)
    ensures
        match parse_int(s@) {
            Ok(v) => r == Ok::<i64, IntError>(v as i64) && i64::MIN <= v <= i64::MAX,
            Err(e) => r == Err::<i64, IntError>(e),
        },
{
    if s.len() == 0 {
        return Err(IntError::Empty);
    }
    if (s[0] == '+' || s[0] == '-') && s.len() == 1 {
        return Err(IntError::InvalidDigit);
    }
    let positive = s[0] != '-';
    let mut i: usize = if s[0] == '+' || s[0] == '-' { 1 } else { 0 };
    proof {
        assert(s@.skip(i as int) =~= if s@[0] == '+' || s@[0] == '-' { s@.drop_first() } else { s@ });
    }
    let mut acc: i64 = 0;
    while i < s.len()
        invariant
            i <= s@.len(),
            parse_int(s@) == accumulate_digits(s@.skip(i as int), acc as int, positive),
        decreases s@.len() - i,
    {
        let c = s[i];
        if !is_ascii_digit(c) {
            return Err(IntError::InvalidDigit);
        }
        let d = (c as u32 - 48) as i64;
        let v: i128 = if positive { (acc as i128) * 10 + (d as i128) } else { (acc as i128) * 10 - (d as i128) };
        if v > 9223372036854775807i128 {
            return Err(IntError::PosOverflow);
        }
        if v < -9223372036854775808i128 {
            return Err(IntError::NegOverflow);
        }
        proof {
            assert(s@.skip(i as int).drop_first() =~= s@.skip(i + 1));
        }
        acc = v as i64;
        i = i + 1;
    }
    proof {
        assert(s@.skip(i as int).len() == 0);
    }
    Ok(acc)
}
} // verus!
