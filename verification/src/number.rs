//! Whole numbers and their decimal texts.

use crate::text::chars_of;
use vstd::prelude::*;

verus! {

/// The digit for a number below ten.
pub open spec fn digit_char(d: nat) -> char {
    (48 + d) as char
}

/// A number written in decimal, without leading zeros.
pub open spec fn decimal_text(n: nat) -> Seq<char>
    decreases n,
{
    if n < 10 {
        seq![digit_char(n)]
    } else {
        decimal_text(n / 10).push(digit_char(n % 10))
    }
}

/// Writes a number in decimal.
pub fn decimal(n: u64) -> (r: String)
    ensures
        r@ == decimal_text(n as nat),
    decreases n,
{
    let d: u8 = (n % 10) as u8;
    let c: char = (48 + d) as char;
    if n < 10 {
        let mut r = String::new();
        r.push(c);
        r
    } else {
        let mut r = decimal(n / 10);
        r.push(c);
        r
    }
}

/// Why a text is no number of the wanted range.
#[derive(Debug, Clone, Copy, PartialEq, Eq, Structural)]
pub enum NumberError {
    /// The text is empty.
    Empty,
    /// A character is not a digit, or a sign stands alone.
    InvalidDigit,
    /// The number is above the range.
    TooLarge,
    /// The number is below the range.
    TooSmall,
}

impl NumberError {
    /// The sentence for this error.
    pub open spec fn text(self) -> Seq<char> {
        match self {
            NumberError::Empty => "cannot parse integer from empty string"@,
            NumberError::InvalidDigit => "invalid digit found in string"@,
            NumberError::TooLarge => "number too large to fit in target type"@,
            NumberError::TooSmall => "number too small to fit in target type"@,
        }
    }

    /// The sentence for this error.
    pub fn message(&self) -> (r: String)
        ensures
            r@ == self.text(),
    {
        match self {
            NumberError::Empty => "cannot parse integer from empty string".to_owned(),
            NumberError::InvalidDigit => "invalid digit found in string".to_owned(),
            NumberError::TooLarge => "number too large to fit in target type".to_owned(),
            NumberError::TooSmall => "number too small to fit in target type".to_owned(),
        }
    }
}

/// Whether a character is a decimal digit.
pub open spec fn is_digit(c: char) -> bool {
    '0' <= c <= '9'
}

/// The number that a sequence of digits stands for.
pub open spec fn digits_value(s: Seq<char>) -> nat
    decreases s.len(),
{
    if s.len() == 0 {
        0
    } else {
        (digits_value(s.drop_last()) * 10 + (s.last() as int - '0' as int)) as nat
    }
}

/// How many digits a text begins with.
pub open spec fn digit_run(s: Seq<char>) -> int
    decreases s.len(),
{
    if s.len() == 0 || !is_digit(s[0]) {
        0
    } else {
        1 + digit_run(s.drop_first())
    }
}

/// What a text without a sign stands for: its number, where it is made of digits alone
/// and the number is at most `max`. Otherwise what is wrong with it is decided from left to
/// right: `over` where the digits that it begins with already exceed `max`.
pub open spec fn parsed_digits(s: Seq<char>, max: nat, over: NumberError) -> Result<nat, NumberError> {
    let run = digit_run(s);
    if digits_value(s.take(run)) > max {
        Err(over)
    } else if run < s.len() {
        Err(NumberError::InvalidDigit)
    } else {
        Ok(digits_value(s))
    }
}

/// What a text stands for as a number from 0 to `max`: digits, after an optional `+`.
pub open spec fn parsed_unsigned(s: Seq<char>, max: nat) -> Result<nat, NumberError> {
    if s.len() == 0 {
        Err(NumberError::Empty)
    } else if s == seq!['+'] {
        Err(NumberError::InvalidDigit)
    } else if s[0] == '+' {
        parsed_digits(s.skip(1), max, NumberError::TooLarge)
    } else {
        parsed_digits(s, max, NumberError::TooLarge)
    }
}

/// What a text stands for as a number from `-max - 1` to `max`: digits, after an optional
/// `+` or `-`.
pub open spec fn parsed_signed(s: Seq<char>, max: nat) -> Result<int, NumberError> {
    if s.len() > 0 && s[0] == '-' {
        if s.len() == 1 {
            Err(NumberError::InvalidDigit)
        } else {
            match parsed_digits(s.skip(1), max + 1, NumberError::TooSmall) {
                Ok(n) => Ok(-n),
                Err(e) => Err(e),
            }
        }
    } else {
        match parsed_unsigned(s, max) {
            Ok(n) => Ok(n as int),
            Err(e) => Err(e),
        }
    }
}

/// The run of digits ends where the first other character stands.
proof fn lemma_digit_run(s: Seq<char>, at: int)
    requires
        0 <= at <= s.len(),
        forall|i: int| 0 <= i < at ==> is_digit(s[i]),
        at < s.len() ==> !is_digit(s[at]),
    ensures
        digit_run(s) == at,
    decreases s.len(),
{
    if at > 0 {
        lemma_digit_run(s.drop_first(), at - 1);
    }
}

/// The run of digits holds digits alone, and reaches to another character or to the end.
proof fn lemma_digit_run_bounds(s: Seq<char>)
    ensures
        0 <= digit_run(s) <= s.len(),
        forall|i: int| 0 <= i < digit_run(s) ==> is_digit(s[i]),
        digit_run(s) < s.len() ==> !is_digit(s[digit_run(s)]),
    decreases s.len(),
{
    if s.len() > 0 && is_digit(s[0]) {
        lemma_digit_run_bounds(s.drop_first());
        let d = s.drop_first();
        assert forall|i: int| 0 <= i < digit_run(s) implies is_digit(s[i]) by {
            if i > 0 {
                assert(is_digit(d[i - 1]));
            }
        }
    }
}

/// More digits never make a smaller number.
proof fn lemma_digits_value_grows(s: Seq<char>, i: int, j: int)
    requires
        0 <= i <= j <= s.len(),
        forall|k: int| 0 <= k < j ==> is_digit(s[k]),
    ensures
        digits_value(s.take(i)) <= digits_value(s.take(j)),
    decreases j - i,
{
    if i < j {
        lemma_digits_value_grows(s, i, j - 1);
        assert(s.take(j).drop_last() =~= s.take(j - 1));
    }
}

/// A number written in decimal is made of digits alone, and they stand for the number again.
pub proof fn law_decimal_text_is_digits(n: nat)
    ensures
        decimal_text(n).len() > 0,
        forall|i: int| 0 <= i < decimal_text(n).len() ==> is_digit(decimal_text(n)[i]),
        digits_value(decimal_text(n)) == n,
    decreases n,
{
    let d = n % 10;
    assert(is_digit(digit_char(d)) && digit_char(d) as int - '0' as int == d);
    if n >= 10 {
        law_decimal_text_is_digits(n / 10);
        assert(decimal_text(n).drop_last() =~= decimal_text(n / 10));
    } else {
        assert(decimal_text(n).drop_last() =~= Seq::<char>::empty());
        assert(digits_value(decimal_text(n).drop_last()) == 0);
    }
}

/// Reading a number that was written in decimal gives the number back.
pub proof fn law_read_back(n: nat, max: nat)
    requires
        n <= max,
    ensures
        parsed_unsigned(decimal_text(n), max) == Ok::<nat, NumberError>(n),
        parsed_signed(decimal_text(n), max) == Ok::<int, NumberError>(n as int),
{
    let s = decimal_text(n);
    law_decimal_text_is_digits(n);
    lemma_digit_run(s, s.len() as int);
    assert(s.take(s.len() as int) =~= s);
    assert(is_digit(s[0]));
}

/// Two numbers with the same decimal text are the same.
pub proof fn law_decimal_text_tells_numbers_apart(m: nat, n: nat)
    requires
        decimal_text(m) == decimal_text(n),
    ensures
        m == n,
{
    law_decimal_text_is_digits(m);
    law_decimal_text_is_digits(n);
}

/// The number that digits stand for is read from left to right, each digit counting one and
/// whatever stands before it ten times as much.
pub proof fn law_each_digit_counts(s: Seq<char>, c: char)
    requires
        '0' <= c <= '9',
    ensures
        digits_value(Seq::<char>::empty()) == 0,
        digits_value(s.push(c)) == 10 * digits_value(s) + (c as int - '0' as int),
{
    assert(s.push(c).drop_last() =~= s);
}

proof fn lemma_decimal_text_of_digits(s: Seq<char>)
    requires
        s.len() > 0,
        forall|i: int| 0 <= i < s.len() ==> '0' <= #[trigger] s[i] <= '9',
        s.len() > 1 ==> s[0] != '0',
    ensures
        decimal_text(digits_value(s)) == s,
        s.len() > 1 ==> digits_value(s) >= 10,
    decreases s.len(),
{
    let d = (s.last() as int - '0' as int) as nat;
    assert('0' <= s[s.len() - 1] <= '9');
    if s.len() == 1 {
        assert(digits_value(s.drop_last()) == 0);
        assert(s =~= seq![digit_char(d)]);
    } else {
        let front = s.drop_last();
        if front.len() == 1 {
            assert(front[0] == s[0]);
            assert('0' <= s[0] <= '9');
            assert(digits_value(front.drop_last()) == 0);
            assert(digits_value(front) >= 1);
        }
        lemma_decimal_text_of_digits(front);
        assert(digits_value(s) == 10 * digits_value(front) + d);
        assert(digits_value(s) / 10 == digits_value(front));
        assert(digits_value(s) % 10 == d);
        assert(s =~= front.push(digit_char(d)));
    }
}

/// The decimal text of a number is the one text of digits, without a leading zero unless it is
/// `0` itself, that stands for the number.
pub proof fn law_decimal_text_is_the_only_one(n: nat, s: Seq<char>)
    requires
        s.len() > 0,
        forall|i: int| 0 <= i < s.len() ==> '0' <= #[trigger] s[i] <= '9',
        s.len() > 1 ==> s[0] != '0',
        digits_value(s) == n,
    ensures
        decimal_text(n) == s,
{
    lemma_decimal_text_of_digits(s);
}

/// A number that is not zero is written without a leading zero.
pub proof fn law_no_leading_zero(n: nat)
    ensures
        n > 0 ==> decimal_text(n)[0] != '0',
        n == 0 ==> decimal_text(n) == seq!['0'],
    decreases n,
{
    if n >= 10 {
        law_no_leading_zero(n / 10);
        law_decimal_text_is_digits(n / 10);
        assert(decimal_text(n)[0] == decimal_text(n / 10)[0]);
    }
}

/// Digits alone are read as the number that they stand for, whatever zeros they begin with and
/// with a `+` or without; where the number exceeds the range it is too large. After a `-` the
/// number below zero is read, and where it is below the range it is too small.
pub proof fn law_digits_are_read(s: Seq<char>, max: nat)
    requires
        s.len() > 0,
        forall|i: int| 0 <= i < s.len() ==> '0' <= #[trigger] s[i] <= '9',
    ensures
        digits_value(s) <= max ==> {
            &&& parsed_unsigned(s, max) == Ok::<nat, NumberError>(digits_value(s))
            &&& parsed_unsigned(seq!['+'] + s, max) == Ok::<nat, NumberError>(digits_value(s))
            &&& parsed_signed(s, max) == Ok::<int, NumberError>(digits_value(s) as int)
            &&& parsed_signed(seq!['+'] + s, max) == Ok::<int, NumberError>(digits_value(s) as int)
        },
        digits_value(s) > max ==> {
            &&& parsed_unsigned(s, max) == Err::<nat, NumberError>(NumberError::TooLarge)
            &&& parsed_unsigned(seq!['+'] + s, max) == Err::<nat, NumberError>(
                NumberError::TooLarge,
            )
            &&& parsed_signed(s, max) == Err::<int, NumberError>(NumberError::TooLarge)
            &&& parsed_signed(seq!['+'] + s, max) == Err::<int, NumberError>(NumberError::TooLarge)
        },
        digits_value(s) <= max + 1 ==> parsed_signed(seq!['-'] + s, max) == Ok::<int, NumberError>(
            -digits_value(s),
        ),
        digits_value(s) > max + 1 ==> parsed_signed(seq!['-'] + s, max) == Err::<int, NumberError>(
            NumberError::TooSmall,
        ),
{
    assert('0' <= s[0] <= '9');
    assert forall|i: int| 0 <= i < s.len() implies is_digit(s[i]) by {
        assert('0' <= s[i] <= '9');
    }
    lemma_digit_run(s, s.len() as int);
    assert(s.take(s.len() as int) =~= s);
    assert((seq!['+'] + s).skip(1) =~= s);
    assert((seq!['-'] + s).skip(1) =~= s);
    assert((seq!['+'] + s).len() > 1);
    assert(seq!['+'] + s != seq!['+']);
}

/// Where another character stands behind digits, the text is no number: the digit is invalid, or
/// the number is out of range where the digits before it already are.
pub proof fn law_other_characters_are_invalid(s: Seq<char>, c: char, rest: Seq<char>, max: nat)
    requires
        forall|i: int| 0 <= i < s.len() ==> '0' <= #[trigger] s[i] <= '9',
        !('0' <= c <= '9'),
        s.len() == 0 ==> c != '+' && c != '-',
    ensures
        ({
            let text = s.push(c) + rest;
            let e = if digits_value(s) <= max {
                NumberError::InvalidDigit
            } else {
                NumberError::TooLarge
            };
            &&& parsed_unsigned(text, max) == Err::<nat, NumberError>(e)
            &&& parsed_signed(text, max) == Err::<int, NumberError>(e)
        }),
{
    let text = s.push(c) + rest;
    let n = s.len() as int;
    assert(text[n] == c);
    assert forall|i: int| 0 <= i < n implies is_digit(text[i]) by {
        assert(text[i] == s[i]);
    }
    lemma_digit_run(text, n);
    assert(text.take(n) =~= s);
    if n > 0 {
        assert(text[0] == s[0]);
        assert('0' <= s[0] <= '9');
    }
    assert(text[0] != '+' && text[0] != '-');
    assert(text != seq!['+']);
}

/// A `+` before a text that has no sign changes nothing; a `-` turns the number round, and with it
/// the end of the range at which it is out of range. A second sign is no digit, and neither is a
/// `-` where only numbers from 0 on are read.
pub proof fn law_signs(s: Seq<char>, max: nat)
    requires
        s.len() > 0,
    ensures
        s[0] != '+' && s[0] != '-' ==> {
            &&& parsed_unsigned(seq!['+'] + s, max) == parsed_unsigned(s, max)
            &&& parsed_signed(seq!['+'] + s, max) == parsed_signed(s, max)
            &&& parsed_signed(seq!['-'] + s, max) == (match parsed_unsigned(s, max + 1) {
                Ok(n) => Ok::<int, NumberError>(-n),
                Err(NumberError::TooLarge) => Err(NumberError::TooSmall),
                Err(e) => Err(e),
            })
            &&& parsed_signed(s, max) == (match parsed_unsigned(s, max) {
                Ok(n) => Ok::<int, NumberError>(n as int),
                Err(e) => Err(e),
            })
        },
        s[0] == '+' || s[0] == '-' ==> {
            &&& parsed_unsigned(seq!['+'] + s, max) == Err::<nat, NumberError>(
                NumberError::InvalidDigit,
            )
            &&& parsed_signed(seq!['+'] + s, max) == Err::<int, NumberError>(
                NumberError::InvalidDigit,
            )
            &&& parsed_signed(seq!['-'] + s, max) == Err::<int, NumberError>(
                NumberError::InvalidDigit,
            )
        },
        parsed_unsigned(seq!['-'] + s, max) == Err::<nat, NumberError>(NumberError::InvalidDigit),
{
    let p = seq!['+'] + s;
    let m = seq!['-'] + s;
    assert(p.skip(1) =~= s);
    assert(m.skip(1) =~= s);
    assert(p.len() > 1 && m.len() > 1);
    assert(p != seq!['+'] && m != seq!['+']);
    if s[0] == '+' || s[0] == '-' {
        lemma_digit_run(s, 0);
        assert(digits_value(s.take(0)) == 0);
    }
    lemma_digit_run(m, 0);
    assert(digits_value(m.take(0)) == 0);
    assert(s[0] != '+' ==> s != seq!['+']);
}

/// No number stands in an empty text or in a sign alone.
pub proof fn law_no_digits_no_number(max: nat)
    ensures
        parsed_unsigned(Seq::<char>::empty(), max) == Err::<nat, NumberError>(NumberError::Empty),
        parsed_signed(Seq::<char>::empty(), max) == Err::<int, NumberError>(NumberError::Empty),
        parsed_unsigned(seq!['+'], max) == Err::<nat, NumberError>(NumberError::InvalidDigit),
        parsed_signed(seq!['+'], max) == Err::<int, NumberError>(NumberError::InvalidDigit),
        parsed_signed(seq!['-'], max) == Err::<int, NumberError>(NumberError::InvalidDigit),
{
}

/// Reads the digits from position `from` on.
fn parse_digits(chars: &Vec<char>, from: usize, max: u64, over: NumberError) -> (r: Result<u64, NumberError>)
    requires
        from <= chars@.len(),
    ensures
        r matches Ok(a) ==> a <= max,
        match (r, parsed_digits(chars@.skip(from as int), max as nat, over)) {
            (Ok(a), Ok(b)) => a == b,
            (Err(a), Err(b)) => a == b,
            _ => false,
        },
{
    let ghost s = chars@.skip(from as int);
    let mut n: u64 = 0;
    let mut i: usize = from;
    assert(s.take(0) =~= Seq::<char>::empty());
    while i < chars.len()
        invariant
            from <= i <= chars@.len(),
            s == chars@.skip(from as int),
            forall|k: int| 0 <= k < i - from ==> is_digit(s[k]),
            n == digits_value(s.take(i - from)),
            n <= max,
        decreases chars@.len() - i,
    {
        let c = chars[i];
        assert(c == s[i - from]);
        if c < '0' || '9' < c {
            proof {
                lemma_digit_run(s, i - from);
            }
            return Err(NumberError::InvalidDigit);
        }
        let d: u64 = (c as u32 - 48) as u64;
        assert(s.take(i - from + 1).drop_last() =~= s.take(i - from));
        assert(digits_value(s.take(i - from + 1)) == n * 10 + d);
        if n > max / 10 || d > max - n * 10 {
            proof {
                lemma_digit_run_bounds(s);
                if digit_run(s) < i - from + 1 {
                    assert(is_digit(s[digit_run(s)]));
                }
                lemma_digits_value_grows(s, i - from + 1, digit_run(s));
            }
            return Err(over);
        }
        n = n * 10 + d;
        i += 1;
    }
    proof {
        lemma_digit_run(s, s.len() as int);
        assert(s.take(s.len() as int) =~= s);
    }
    Ok(n)
}

/// Reads a number from 0 to `max`.
pub fn parse_unsigned(text: &str, max: u64) -> (r: Result<u64, NumberError>)
    ensures
        r matches Ok(a) ==> a <= max,
        match (r, parsed_unsigned(text@, max as nat)) {
            (Ok(a), Ok(b)) => a == b,
            (Err(a), Err(b)) => a == b,
            _ => false,
        },
{
    let chars = chars_of(text);
    if chars.len() == 0 {
        return Err(NumberError::Empty);
    }
    if chars[0] == '+' {
        if chars.len() == 1 {
            assert(text@ =~= seq!['+']);
            return Err(NumberError::InvalidDigit);
        }
        return parse_digits(&chars, 1, max, NumberError::TooLarge);
    }
    assert(chars@.skip(0) =~= chars@);
    parse_digits(&chars, 0, max, NumberError::TooLarge)
}

/// Reads a number from the range of `i64`.
pub fn parse_signed(text: &str) -> (r: Result<i64, NumberError>)
    ensures
        match (r, parsed_signed(text@, i64::MAX as nat)) {
            (Ok(a), Ok(b)) => a == b,
            (Err(a), Err(b)) => a == b,
            _ => false,
        },
{
    let chars = chars_of(text);
    if chars.len() > 0 && chars[0] == '-' {
        if chars.len() == 1 {
            return Err(NumberError::InvalidDigit);
        }
        return match parse_digits(&chars, 1, 0x8000_0000_0000_0000, NumberError::TooSmall) {
            Ok(n) => {
                if n == 0x8000_0000_0000_0000 {
                    Ok(i64::MIN)
                } else {
                    Ok(-(n as i64))
                }
            },
            Err(e) => Err(e),
        };
    }
    match parse_unsigned(text, i64::MAX as u64) {
        Ok(n) => Ok(n as i64),
        Err(e) => Err(e),
    }
}

} // verus!
