//! Small unsigned integers: a non-zero byte, parsing bytes from digits in a
//! radix, and writing them back as digits.
use vstd::prelude::*;
use vstd::string::StringExecFns;

verus! {

/// Why digits could not be parsed into an integer.
#[derive(Debug, Clone, Copy, PartialEq, Eq, Structural, Hash)]
pub enum IntErrorKind {
    /// The text is empty.
    Empty,
    /// The text holds a character that is not a digit of the radix, or a sign
    /// on its own.
    InvalidDigit,
    /// The value is too large for the type.
    PosOverflow,
    /// The value is too small for the type.
    NegOverflow,
    /// The value is zero, which the type does not hold.
    Zero,
}

/// An error from parsing an integer.
#[derive(Debug, Clone, Copy, PartialEq, Eq, Structural)]
pub struct ParseIntError {
    pub kind: IntErrorKind,
}

impl ParseIntError {
    /// Why the integer could not be parsed.
    pub fn kind(&self) -> (r: &IntErrorKind)
        ensures
            *r == self.kind,
    {
        &self.kind
    }

    /// The message of this error.
    pub open spec fn spec_message(self) -> Seq<char> {
        match self.kind {
            IntErrorKind::Empty => "cannot parse integer from empty string"@,
            IntErrorKind::InvalidDigit => "invalid digit found in string"@,
            IntErrorKind::PosOverflow => "number too large to fit in target type"@,
            IntErrorKind::NegOverflow => "number too small to fit in target type"@,
            IntErrorKind::Zero => "number would be zero for non-zero type"@,
        }
    }

    /// The message of this error, as std words it.
    pub fn to_string(&self) -> (r: String)
        ensures
            r@ == self.spec_message(),
    {
        match self.kind {
            IntErrorKind::Empty => "cannot parse integer from empty string".to_owned(),
            IntErrorKind::InvalidDigit => "invalid digit found in string".to_owned(),
            IntErrorKind::PosOverflow => "number too large to fit in target type".to_owned(),
            IntErrorKind::NegOverflow => "number too small to fit in target type".to_owned(),
            IntErrorKind::Zero => "number would be zero for non-zero type".to_owned(),
        }
    }
}

/// A byte that is not zero.
#[derive(Debug, Clone, Copy, PartialEq, Eq, Structural, PartialOrd, Ord, Hash)]
pub struct NonZeroU8 {
    value: u8,
}

impl NonZeroU8 {
    #[verifier::type_invariant]
    pub(crate) closed spec fn inv(self) -> bool {
        self.value != 0
    }

    /// A non-zero byte that meets the type invariant is not zero.
    pub(crate) proof fn lemma_inv(self)
        requires
            self.inv(),
        ensures
            self.spec_get() != 0,
    {
    }

    /// The value.
    pub closed spec fn spec_get(self) -> u8 {
        self.value
    }

    /// The non-zero byte of value `n`, for `n != 0`.
    pub closed spec fn spec_from_value(n: u8) -> NonZeroU8 {
        NonZeroU8 { value: n }
    }

    pub broadcast proof fn lemma_from_value(n: u8)
        ensures
            #[trigger] Self::spec_from_value(n).spec_get() == n,
    {
    }

    /// Two non-zero bytes of the same value are equal.
    pub broadcast proof fn lemma_get_injective(x: NonZeroU8, y: NonZeroU8)
        ensures
            #[trigger] x.spec_get() == #[trigger] y.spec_get() ==> x == y,
    {
    }

    /// `n` as a non-zero byte, unless `n` is zero.
    pub fn new(n: u8) -> (r: Option<NonZeroU8>)
        ensures
            r == (if n == 0 { None } else { Some(Self::spec_from_value(n)) }),
    {
        if n == 0 {
            None
        } else {
            Some(NonZeroU8 { value: n })
        }
    }

    /// The value, which is not zero.
    #[verifier::when_used_as_spec(spec_get)]
    pub fn get(self) -> (r: u8)
        ensures
            r == self.spec_get(),
            r != 0,
    {
        proof {
            use_type_invariant(&self);
        }
        self.value
    }

}

/// The value of the digit `c` in `radix` (at most 36): `0`-`9`, then `a`-`z`
/// or `A`-`Z` for ten and up.
pub open spec fn spec_digit_value(c: char, radix: u32) -> Option<u32> {
    let code = c as u32;
    let v: Option<u32> = if 0x30 <= code <= 0x39 {
        Some((code - 0x30) as u32)
    } else if 0x61 <= code <= 0x7a {
        Some((code - 0x61 + 10) as u32)
    } else if 0x41 <= code <= 0x5a {
        Some((code - 0x41 + 10) as u32)
    } else {
        None
    };
    match v {
        Some(d) => if d < radix {
            Some(d)
        } else {
            None
        },
        None => None,
    }
}

/// The byte that the digits `digits` stand for in `radix`, read from the most
/// significant: the first character that is not a digit, or the first digit
/// after which the value exceeds 255, decides the error.
pub open spec fn spec_parse_digits(digits: Seq<char>, radix: u32) -> Result<u8, IntErrorKind>
    decreases digits.len(),
{
    if digits.len() == 0 {
        Ok(0)
    } else {
        match spec_parse_digits(digits.drop_last(), radix) {
            Err(e) => Err(e),
            Ok(v) => match spec_digit_value(digits.last(), radix) {
                None => Err(IntErrorKind::InvalidDigit),
                Some(d) => if v * radix + d > 255 {
                    Err(IntErrorKind::PosOverflow)
                } else {
                    Ok((v * radix + d) as u8)
                },
            },
        }
    }
}

/// Parses a byte from text in `radix`, as `u8::from_str_radix` does: an
/// optional `+` followed by at least one digit.
pub open spec fn spec_parse_u8_radix(s: Seq<char>, radix: u32) -> Result<u8, IntErrorKind> {
    if s.len() == 0 {
        Err(IntErrorKind::Empty)
    } else if s.len() == 1 && (s[0] == '+' || s[0] == '-') {
        Err(IntErrorKind::InvalidDigit)
    } else if s[0] == '+' {
        spec_parse_digits(s.drop_first(), radix)
    } else {
        spec_parse_digits(s, radix)
    }
}

/// Parses a non-zero byte from decimal text, as `NonZero<u8>`'s `FromStr` does.
pub open spec fn spec_parse_nonzero_u8(s: Seq<char>) -> Result<u8, IntErrorKind> {
    match spec_parse_u8_radix(s, 10) {
        Err(e) => Err(e),
        Ok(v) => if v == 0 {
            Err(IntErrorKind::Zero)
        } else {
            Ok(v)
        },
    }
}

/// An error in the digits before position `i` is the error of all of them.
proof fn lemma_parse_digits_prefix_error(digits: Seq<char>, radix: u32, i: int)
    requires
        0 <= i <= digits.len(),
        spec_parse_digits(digits.take(i), radix) is Err,
    ensures
        spec_parse_digits(digits, radix) == spec_parse_digits(digits.take(i), radix),
    decreases digits.len() - i,
{
    if i < digits.len() {
        assert(digits.take(i + 1).drop_last() =~= digits.take(i));
        lemma_parse_digits_prefix_error(digits, radix, i + 1);
    } else {
        assert(digits.take(i) =~= digits);
    }
}

fn digit_value(c: char, radix: u32) -> (r: Option<u32>)
    ensures
        r == spec_digit_value(c, radix),
{
    let code = c as u32;
    let v: Option<u32> = if 0x30 <= code && code <= 0x39 {
        Some(code - 0x30)
    } else if 0x61 <= code && code <= 0x7a {
        Some(code - 0x61 + 10)
    } else if 0x41 <= code && code <= 0x5a {
        Some(code - 0x41 + 10)
    } else {
        None
    };
    match v {
        Some(d) => if d < radix {
            Some(d)
        } else {
            None
        },
        None => None,
    }
}

/// Parses the digits `cs[lo..]` in `radix`.
fn parse_digits(cs: &Vec<char>, lo: usize, radix: u32) -> (r: Result<u8, ParseIntError>)
    requires
        lo <= cs@.len(),
        2 <= radix <= 36,
    ensures
        match r {
            Ok(v) => spec_parse_digits(cs@.subrange(lo as int, cs@.len() as int), radix) == Ok::<u8, IntErrorKind>(v),
            Err(e) => spec_parse_digits(cs@.subrange(lo as int, cs@.len() as int), radix) == Err::<u8, IntErrorKind>(e.kind),
        },
{
    let ghost digits = cs@.subrange(lo as int, cs@.len() as int);
    let mut acc: u8 = 0;
    let mut i: usize = lo;
    assert(digits.take(0) =~= Seq::<char>::empty());
    while i < cs.len()
        invariant
            lo <= i <= cs@.len(),
            2 <= radix <= 36,
            digits == cs@.subrange(lo as int, cs@.len() as int),
            spec_parse_digits(digits.take(i - lo), radix) == Ok::<u8, IntErrorKind>(acc),
        decreases cs@.len() - i,
    {
        let ghost k = i - lo;
        assert(digits.take(k + 1).drop_last() =~= digits.take(k));
        assert(digits.take(k + 1).last() == cs@[i as int]);
        match digit_value(cs[i], radix) {
            None => {
                proof {
                    lemma_parse_digits_prefix_error(digits, radix, k + 1);
                }
                return Err(ParseIntError { kind: IntErrorKind::InvalidDigit });
            },
            Some(d) => {
                assert((acc as u32) * radix <= 255 * 36) by (nonlinear_arith)
                    requires
                        acc <= 255,
                        radix <= 36,
                ;
                let next: u32 = (acc as u32) * radix + d;
                if next > 255 {
                    proof {
                        lemma_parse_digits_prefix_error(digits, radix, k + 1);
                    }
                    return Err(ParseIntError { kind: IntErrorKind::PosOverflow });
                }
                acc = next as u8;
            },
        }
        i = i + 1;
    }
    assert(digits.take(i - lo) =~= digits);
    Ok(acc)
}

/// Parses the text `cs[lo..]` as a byte in `radix`, as `u8::from_str_radix` does.
pub fn parse_u8_radix(cs: &Vec<char>, lo: usize, radix: u32) -> (r: Result<u8, ParseIntError>)
    requires
        lo <= cs@.len(),
        2 <= radix <= 36,
    ensures
        match r {
            Ok(v) => spec_parse_u8_radix(cs@.subrange(lo as int, cs@.len() as int), radix) == Ok::<u8, IntErrorKind>(v),
            Err(e) => spec_parse_u8_radix(cs@.subrange(lo as int, cs@.len() as int), radix) == Err::<u8, IntErrorKind>(e.kind),
        },
{
    let ghost s = cs@.subrange(lo as int, cs@.len() as int);
    let n = cs.len() - lo;
    if n == 0 {
        return Err(ParseIntError { kind: IntErrorKind::Empty });
    }
    let first = cs[lo];
    if n == 1 && (first == '+' || first == '-') {
        return Err(ParseIntError { kind: IntErrorKind::InvalidDigit });
    }
    if first == '+' {
        assert(s.drop_first() =~= cs@.subrange(lo + 1, cs@.len() as int));
        parse_digits(cs, lo + 1, radix)
    } else {
        parse_digits(cs, lo, radix)
    }
}

/// Parses the text `cs[lo..]` as a non-zero decimal byte, as `NonZero<u8>`'s `FromStr` does.
pub fn parse_nonzero_u8(cs: &Vec<char>, lo: usize) -> (r: Result<NonZeroU8, ParseIntError>)
    requires
        lo <= cs@.len(),
    ensures
        match r {
            Ok(v) => spec_parse_nonzero_u8(cs@.subrange(lo as int, cs@.len() as int)) == Ok::<u8, IntErrorKind>(v.spec_get()),
            Err(e) => spec_parse_nonzero_u8(cs@.subrange(lo as int, cs@.len() as int)) == Err::<u8, IntErrorKind>(e.kind),
        },
{
    match parse_u8_radix(cs, lo, 10) {
        Err(e) => Err(e),
        Ok(v) => match NonZeroU8::new(v) {
            Some(n) => {
                proof {
                    NonZeroU8::lemma_from_value(v);
                }
                Ok(n)
            },
            None => Err(ParseIntError { kind: IntErrorKind::Zero }),
        },
    }
}

/// The character of the digit `d` (below sixteen): `0`-`9`, then `a`-`f`.
pub open spec fn spec_digit_char(d: u8) -> char {
    if d < 10 {
        (0x30 + d) as char
    } else {
        (0x61 + d - 10) as char
    }
}

/// The decimal digits of `n`, without leading zeros.
pub open spec fn spec_decimal(n: u8) -> Seq<char> {
    if n < 10 {
        seq![spec_digit_char(n)]
    } else if n < 100 {
        seq![spec_digit_char(n / 10), spec_digit_char(n % 10)]
    } else {
        seq![spec_digit_char(n / 100), spec_digit_char((n / 10) % 10), spec_digit_char(n % 10)]
    }
}

/// The two lowercase hexadecimal digits of `n`.
pub open spec fn spec_hex2(n: u8) -> Seq<char> {
    seq![spec_digit_char(n / 16), spec_digit_char(n % 16)]
}

/// The text of the digit `d`.
fn digit_str(d: u8) -> (r: &'static str)
    requires
        d < 16,
    ensures
        r@ == seq![spec_digit_char(d)],
{
    proof {
        reveal_strlit("0");
        reveal_strlit("1");
        reveal_strlit("2");
        reveal_strlit("3");
        reveal_strlit("4");
        reveal_strlit("5");
        reveal_strlit("6");
        reveal_strlit("7");
        reveal_strlit("8");
        reveal_strlit("9");
        reveal_strlit("a");
        reveal_strlit("b");
        reveal_strlit("c");
        reveal_strlit("d");
        reveal_strlit("e");
        reveal_strlit("f");
    }
    match d {
        0 => "0",
        1 => "1",
        2 => "2",
        3 => "3",
        4 => "4",
        5 => "5",
        6 => "6",
        7 => "7",
        8 => "8",
        9 => "9",
        10 => "a",
        11 => "b",
        12 => "c",
        13 => "d",
        14 => "e",
        _ => "f",
    }
}

/// Appends the decimal digits of `n` to `s`.
pub fn push_decimal(s: &mut String, n: u8)
    ensures
        final(s)@ == old(s)@ + spec_decimal(n),
{
    if n >= 100 {
        s.append(digit_str(n / 100));
    }
    if n >= 10 {
        s.append(digit_str((n / 10) % 10));
    }
    s.append(digit_str(n % 10));
    assert(s@ =~= old(s)@ + spec_decimal(n));
}

/// Appends the two lowercase hexadecimal digits of `n` to `s`.
pub fn push_hex2(s: &mut String, n: u8)
    ensures
        final(s)@ == old(s)@ + spec_hex2(n),
{
    s.append(digit_str(n / 16));
    s.append(digit_str(n % 16));
    assert(s@ =~= old(s)@ + spec_hex2(n));
}

/// Parsing the decimal digits of a byte gives the byte back.
pub proof fn lemma_decimal_roundtrip(n: u8)
    ensures
        spec_parse_u8_radix(spec_decimal(n), 10) == Ok::<u8, IntErrorKind>(n),
{
    let s = spec_decimal(n);
    reveal_with_fuel(spec_parse_digits, 4);
    if n < 10 {
        assert(s.drop_last() =~= Seq::<char>::empty());
    } else if n < 100 {
        assert(s.drop_last().drop_last() =~= Seq::<char>::empty());
    } else {
        assert(s.drop_last().drop_last().drop_last() =~= Seq::<char>::empty());
    }
}

/// Parsing the two hexadecimal digits of a byte gives the byte back.
pub proof fn lemma_hex2_roundtrip(n: u8)
    ensures
        spec_parse_u8_radix(spec_hex2(n), 16) == Ok::<u8, IntErrorKind>(n),
{
    let s = spec_hex2(n);
    reveal_with_fuel(spec_parse_digits, 3);
    assert(s.drop_last().drop_last() =~= Seq::<char>::empty());
}

} // verus!
