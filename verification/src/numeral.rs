//! Numbers as text: reading decimal and binary numerals, and writing numbers
//! in binary, decimal and hexadecimal.

use crate::text::{is_digit, lemma_skip, skip, CharSet};
use vstd::prelude::*;

verus! {

/// Why a text is not a number of the wanted range.
#[derive(Clone, Copy, Debug, PartialEq, Eq, Structural)]
pub enum NumberError {
    /// The text is empty.
    Empty,
    /// The text holds a character that is no digit, or a sign alone.
    InvalidDigit,
    /// The number is above the range.
    PosOverflow,
    /// The number is below the range.
    NegOverflow,
}

impl NumberError {
    /// The message for this error.
    pub open spec fn text(self) -> Seq<char> {
        match self {
            NumberError::Empty => "ParseIntError { kind: Empty }"@,
            NumberError::InvalidDigit => "ParseIntError { kind: InvalidDigit }"@,
            NumberError::PosOverflow => "ParseIntError { kind: PosOverflow }"@,
            NumberError::NegOverflow => "ParseIntError { kind: NegOverflow }"@,
        }
    }

    /// A sentence that says what was wrong with the text.
    pub open spec fn sentence(self) -> Seq<char> {
        match self {
            NumberError::Empty => "cannot parse integer from empty string"@,
            NumberError::InvalidDigit => "invalid digit found in string"@,
            NumberError::PosOverflow => "number too large to fit in target type"@,
            NumberError::NegOverflow => "number too small to fit in target type"@,
        }
    }

    /// Writes the message for this error.
    pub fn message(self) -> (out: &'static str)
        ensures
            out@ == self.text(),
    {
        match self {
            NumberError::Empty => "ParseIntError { kind: Empty }",
            NumberError::InvalidDigit => "ParseIntError { kind: InvalidDigit }",
            NumberError::PosOverflow => "ParseIntError { kind: PosOverflow }",
            NumberError::NegOverflow => "ParseIntError { kind: NegOverflow }",
        }
    }

    /// Writes a sentence that says what was wrong with the text.
    pub fn describe(self) -> (out: &'static str)
        ensures
            out@ == self.sentence(),
    {
        match self {
            NumberError::Empty => "cannot parse integer from empty string",
            NumberError::InvalidDigit => "invalid digit found in string",
            NumberError::PosOverflow => "number too large to fit in target type",
            NumberError::NegOverflow => "number too small to fit in target type",
        }
    }
}

/// The number that a decimal digit stands for.
pub open spec fn digit_value(c: char) -> nat {
    (c as u32 - '0' as u32) as nat
}

/// The number that a sequence of decimal digits stands for; 0 for the empty
/// sequence.
pub open spec fn decimal(s: Seq<char>) -> nat
    decreases s.len(),
{
    if s.len() == 0 {
        0
    } else {
        decimal(s.drop_last()) * 10 + digit_value(s.last())
    }
}

/// What reading `s` as an unsigned decimal number of at most `max` gives: the
/// number if `s` is one or more digits that stand for a number up to `max`,
/// else the first fault met from the left.
pub open spec fn parse_unsigned(s: Seq<char>, max: nat) -> Result<nat, NumberError> {
    let k = skip(s, CharSet::Digit, 0);
    if s.len() == 0 {
        Err(NumberError::Empty)
    } else if decimal(s.take(k)) > max {
        Err(NumberError::PosOverflow)
    } else if k < s.len() {
        Err(NumberError::InvalidDigit)
    } else {
        Ok(decimal(s))
    }
}

/// What reading `s` as a signed decimal number from `-(max + 1)` to `max`
/// gives. One sign, `+` or `-`, may stand before the digits.
pub open spec fn parse_signed(s: Seq<char>, max: nat) -> Result<int, NumberError> {
    if s.len() == 0 {
        Err(NumberError::Empty)
    } else if s[0] == '-' {
        if s.len() == 1 {
            Err(NumberError::InvalidDigit)
        } else {
            match parse_unsigned(s.skip(1), max + 1) {
                Ok(n) => Ok(-(n as int)),
                Err(NumberError::PosOverflow) => Err(NumberError::NegOverflow),
                Err(e) => Err(e),
            }
        }
    } else if s[0] == '+' {
        if s.len() == 1 {
            Err(NumberError::InvalidDigit)
        } else {
            match parse_unsigned(s.skip(1), max) {
                Ok(n) => Ok(n as int),
                Err(e) => Err(e),
            }
        }
    } else {
        match parse_unsigned(s, max) {
            Ok(n) => Ok(n as int),
            Err(e) => Err(e),
        }
    }
}

/// A longer run of digits stands for a number that is no smaller.
pub proof fn lemma_decimal_grows(s: Seq<char>, i: int, j: int)
    requires
        0 <= i <= j <= s.len(),
    ensures
        decimal(s.take(i)) <= decimal(s.take(j)),
    decreases j - i,
{
    if i < j {
        lemma_decimal_grows(s, i, j - 1);
        assert(s.take(j).drop_last() =~= s.take(j - 1));
    }
}

/// Reads `s` as an unsigned decimal number of at most `max`.
pub fn read_unsigned(s: &[char], max: u32) -> (r: Result<u32, NumberError>)
    ensures
        match r {
            Ok(n) => parse_unsigned(s@, max as nat) == Ok::<nat, NumberError>(n as nat),
            Err(e) => parse_unsigned(s@, max as nat) == Err::<nat, NumberError>(e),
        },
        r matches Ok(n) ==> n <= max,
{
    if s.len() == 0 {
        return Err(NumberError::Empty);
    }
    let ghost k = skip(s@, CharSet::Digit, 0);
    proof {
        lemma_skip(s@, CharSet::Digit, 0);
    }
    let mut acc: u64 = 0;
    let mut i: usize = 0;
    while i < s.len()
        invariant
            i <= s.len(),
            i <= k <= s.len(),
            k == skip(s@, CharSet::Digit, 0),
            skip(s@, CharSet::Digit, i as int) == k,
            acc == decimal(s@.take(i as int)),
            acc <= max,
        decreases s.len() - i,
    {
        let c = s[i];
        if !CharSet::Digit.contains(c) {
            proof {
                assert(s@.take(k) == s@.take(i as int));
            }
            return Err(NumberError::InvalidDigit);
        }
        let d: u64 = (c as u32 - '0' as u32) as u64;
        acc = acc * 10 + d;
        proof {
            assert(s@.take(i + 1).drop_last() =~= s@.take(i as int));
            assert(s@.take(i + 1).last() == c);
        }
        proof {
            lemma_skip(s@, CharSet::Digit, i + 1);
        }
        if acc > max as u64 {
            proof {
                lemma_decimal_grows(s@, i + 1, k);
            }
            return Err(NumberError::PosOverflow);
        }
        i += 1;
    }
    proof {
        assert(s@.take(s.len() as int) =~= s@);
    }
    Ok(acc as u32)
}

/// Reads `s` as a signed decimal number of 16 bits.
pub fn read_i16(s: &[char]) -> (r: Result<i16, NumberError>)
    ensures
        match r {
            Ok(n) => parse_signed(s@, 32767) == Ok::<int, NumberError>(n as int),
            Err(e) => parse_signed(s@, 32767) == Err::<int, NumberError>(e),
        },
{
    if s.len() == 0 {
        return Err(NumberError::Empty);
    }
    let first = s[0];
    if first == '-' || first == '+' {
        if s.len() == 1 {
            return Err(NumberError::InvalidDigit);
        }
        let rest = crate::text::cut(s, 1, s.len());
        proof {
            assert(rest@ == s@.skip(1));
        }
        if first == '-' {
            match read_unsigned(rest.as_slice(), 32768) {
                Ok(n) => {
                    if n == 32768 {
                        Ok(i16::MIN)
                    } else {
                        Ok(-(n as i16))
                    }
                },
                Err(NumberError::PosOverflow) => Err(NumberError::NegOverflow),
                Err(e) => Err(e),
            }
        } else {
            match read_unsigned(rest.as_slice(), 32767) {
                Ok(n) => Ok(n as i16),
                Err(e) => Err(e),
            }
        }
    } else {
        match read_unsigned(s, 32767) {
            Ok(n) => Ok(n as i16),
            Err(e) => Err(e),
        }
    }
}

/// The digit for a number below 16, in upper case.
pub open spec fn digit_char(d: nat) -> char {
    if d == 0 {
        '0'
    } else if d == 1 {
        '1'
    } else if d == 2 {
        '2'
    } else if d == 3 {
        '3'
    } else if d == 4 {
        '4'
    } else if d == 5 {
        '5'
    } else if d == 6 {
        '6'
    } else if d == 7 {
        '7'
    } else if d == 8 {
        '8'
    } else if d == 9 {
        '9'
    } else if d == 10 {
        'A'
    } else if d == 11 {
        'B'
    } else if d == 12 {
        'C'
    } else if d == 13 {
        'D'
    } else if d == 14 {
        'E'
    } else {
        'F'
    }
}

/// The numeral for `n` in the given base, from 2 to 16, without leading
/// zeros.
pub open spec fn numeral(n: nat, base: nat) -> Seq<char>
    decreases n,
    when base >= 2
    via numeral_decreases
{
    if n < base {
        seq![digit_char(n)]
    } else {
        numeral(n / base, base).push(digit_char(n % base))
    }
}

#[via_fn]
proof fn numeral_decreases(n: nat, base: nat) {
    if n >= base {
        assert(n / base < n) by (nonlinear_arith)
            requires
                base >= 2,
                n >= base,
        ;
    }
}

/// The decimal numeral for `v`, with `-` before it when `v` is negative.
pub open spec fn signed_decimal(v: int) -> Seq<char> {
    if v < 0 {
        seq!['-'] + numeral((-v) as nat, 10)
    } else {
        numeral(v as nat, 10)
    }
}

/// The last `width` binary digits of `n`, most significant first.
pub open spec fn bits(n: nat, width: nat) -> Seq<char>
    decreases width,
{
    if width == 0 {
        Seq::empty()
    } else {
        bits(n / 2, (width - 1) as nat).push(if n % 2 == 1 { '1' } else { '0' })
    }
}

/// Whether `s` holds binary digits only.
pub open spec fn is_binary(s: Seq<char>) -> bool {
    forall|i: int| 0 <= i < s.len() ==> s[i] == '0' || s[i] == '1'
}

/// The number that a sequence of binary digits stands for, most significant
/// digit first.
pub open spec fn binary(s: Seq<char>) -> nat
    decreases s.len(),
{
    if s.len() == 0 {
        0
    } else {
        2 * binary(s.drop_last()) + if s.last() == '1' { 1nat } else { 0nat }
    }
}

/// Two to the power of `e`.
pub open spec fn pow2(e: nat) -> nat
    decreases e,
{
    if e == 0 {
        1
    } else {
        2 * pow2((e - 1) as nat)
    }
}

/// `bits` gives `width` binary digits, and read back they stand for `n`
/// modulo two to the `width`.
pub proof fn lemma_bits(n: nat, width: nat)
    ensures
        bits(n, width).len() == width,
        is_binary(bits(n, width)),
        binary(bits(n, width)) == n % pow2(width),
    decreases width,
{
    if width > 0 {
        let w = (width - 1) as nat;
        lemma_bits(n / 2, w);
        let b = bits(n, width);
        assert(b.drop_last() =~= bits(n / 2, w));
        let p = pow2(w) as int;
        lemma_pow2_positive(w);
        let q = (n / 2) as int;
        let low = 2 * (q % p) + (n % 2) as int;
        vstd::arithmetic::div_mod::lemma_fundamental_div_mod(q, p);
        vstd::arithmetic::div_mod::lemma_mod_bound(q, p);
        assert((q / p) * (2 * p) == 2 * (p * (q / p))) by (nonlinear_arith);
        vstd::arithmetic::div_mod::lemma_fundamental_div_mod_converse_mod(
            n as int,
            2 * p,
            q / p,
            low,
        );
    }
}

/// Two to any power is at least 1.
pub proof fn lemma_pow2_positive(e: nat)
    ensures
        pow2(e) >= 1,
    decreases e,
{
    if e > 0 {
        lemma_pow2_positive((e - 1) as nat);
    }
}

/// A sequence of binary digits stands for a number below two to its length.
pub proof fn lemma_binary_bound(s: Seq<char>)
    ensures
        binary(s) < pow2(s.len()),
    decreases s.len(),
{
    if s.len() > 0 {
        lemma_binary_bound(s.drop_last());
    }
}

/// Writes the digit for a number below 16.
pub fn digit_of(d: u64) -> (c: char)
    requires
        d < 16,
    ensures
        c == digit_char(d as nat),
{
    if d == 0 {
        '0'
    } else if d == 1 {
        '1'
    } else if d == 2 {
        '2'
    } else if d == 3 {
        '3'
    } else if d == 4 {
        '4'
    } else if d == 5 {
        '5'
    } else if d == 6 {
        '6'
    } else if d == 7 {
        '7'
    } else if d == 8 {
        '8'
    } else if d == 9 {
        '9'
    } else if d == 10 {
        'A'
    } else if d == 11 {
        'B'
    } else if d == 12 {
        'C'
    } else if d == 13 {
        'D'
    } else if d == 14 {
        'E'
    } else {
        'F'
    }
}

/// Writes `n` in the given base without leading zeros.
pub fn write_numeral(n: u64, base: u64) -> (out: Vec<char>)
    requires
        2 <= base <= 16,
    ensures
        out@ == numeral(n as nat, base as nat),
    decreases n,
{
    if n < base {
        let mut out: Vec<char> = Vec::new();
        out.push(digit_of(n));
        assert(out@ =~= seq![digit_char(n as nat)]);
        out
    } else {
        assert(n / base < n) by (nonlinear_arith)
            requires
                base >= 2,
                n >= base,
        ;
        let mut out = write_numeral(n / base, base);
        out.push(digit_of(n % base));
        out
    }
}

/// Writes `v` in decimal, with `-` before it when it is negative.
pub fn write_signed(v: i16) -> (out: Vec<char>)
    ensures
        out@ == signed_decimal(v as int),
{
    if v < 0 {
        let mut out: Vec<char> = Vec::new();
        out.push('-');
        let m: u64 = (-(v as i64)) as u64;
        let mut digits = write_numeral(m, 10);
        out.append(&mut digits);
        assert(out@ =~= seq!['-'] + numeral((-v) as nat, 10));
        out
    } else {
        write_numeral(v as u64, 10)
    }
}

/// Writes the last `width` binary digits of `n`, most significant first.
pub fn write_bits(n: u16, width: usize) -> (out: Vec<char>)
    ensures
        out@ == bits(n as nat, width as nat),
    decreases width,
{
    if width == 0 {
        Vec::new()
    } else {
        let mut out = write_bits(n / 2, width - 1);
        out.push(if n % 2 == 1 { '1' } else { '0' });
        out
    }
}

/// Tests whether `s` holds binary digits only.
pub fn all_binary(s: &[char]) -> (r: bool)
    ensures
        r == is_binary(s@),
{
    let mut i: usize = 0;
    while i < s.len()
        invariant
            i <= s.len(),
            forall|j: int| 0 <= j < i ==> s@[j] == '0' || s@[j] == '1',
        decreases s.len() - i,
    {
        if s[i] != '0' && s[i] != '1' {
            return false;
        }
        i += 1;
    }
    true
}

/// Reads up to 16 binary digits as a number.
pub fn read_bits(s: &[char]) -> (n: u16)
    requires
        s.len() <= 16,
    ensures
        n == binary(s@),
{
    let mut acc: u32 = 0;
    let mut i: usize = 0;
    while i < s.len()
        invariant
            i <= s.len() <= 16,
            acc == binary(s@.take(i as int)),
            acc < pow2(i as nat),
        decreases s.len() - i,
    {
        proof {
            assert(s@.take(i + 1).drop_last() =~= s@.take(i as int));
            assert(pow2(16) == 65536) by {
                reveal_with_fuel(pow2, 17);
            }
            lemma_pow2_grows(i as nat, 16);
        }
        acc = 2 * acc + if s[i] == '1' { 1 } else { 0 };
        i += 1;
    }
    proof {
        assert(s@.take(s.len() as int) =~= s@);
        assert(pow2(16) == 65536) by {
            reveal_with_fuel(pow2, 17);
        }
        lemma_pow2_grows(i as nat, 16);
    }
    acc as u16
}

/// Powers of two grow with the exponent.
pub proof fn lemma_pow2_grows(a: nat, b: nat)
    requires
        a <= b,
    ensures
        pow2(a) <= pow2(b),
    decreases b - a,
{
    if a < b {
        lemma_pow2_grows(a, (b - 1) as nat);
    }
}

/// Binary digits read together stand for the number of the first run,
/// shifted by the length of the second, plus the number of the second.
pub proof fn lemma_binary_concat(a: Seq<char>, b: Seq<char>)
    ensures
        binary(a + b) == binary(a) * pow2(b.len()) + binary(b),
    decreases b.len(),
{
    if b.len() == 0 {
        assert(a + b =~= a);
        let one = pow2(0);
        assert(binary(a) * one == binary(a)) by (nonlinear_arith)
            requires
                one == 1,
        ;
    } else {
        lemma_binary_concat(a, b.drop_last());
        assert((a + b).drop_last() =~= a + b.drop_last());
        assert((a + b).last() == b.last());
        let p = pow2((b.len() - 1) as nat);
        assert(2 * (binary(a) * p) == binary(a) * (2 * p)) by (nonlinear_arith);
    }
}

/// The numeral for a number holds digits only.
pub proof fn lemma_numeral_digits(n: nat, base: nat)
    requires
        2 <= base <= 10,
    ensures
        numeral(n, base).len() >= 1,
        forall|i: int| 0 <= i < numeral(n, base).len() ==> is_digit(#[trigger] numeral(n, base)[i]),
    decreases n,
{
    if n >= base {
        assert(n / base < n) by (nonlinear_arith)
            requires
                base >= 2,
                n >= base,
        ;
        lemma_numeral_digits(n / base, base);
        assert(n % base < 10) by (nonlinear_arith)
            requires
                2 <= base <= 10,
        ;
    }
}

/// A decimal numeral stands for the number that it was written for.
pub proof fn lemma_decimal_of_numeral(n: nat)
    ensures
        decimal(numeral(n, 10)) == n,
    decreases n,
{
    let s = numeral(n, 10);
    if n >= 10 {
        lemma_decimal_of_numeral(n / 10);
        assert(s.drop_last() =~= numeral(n / 10, 10));
        assert(digit_value(s.last()) == n % 10);
    } else {
        assert(s.drop_last() =~= Seq::<char>::empty());
        assert(decimal(s.drop_last()) == 0);
        assert(digit_value(s.last()) == n);
    }
}

/// A text that is read as a number holds digits only, stands for that
/// number, and the number is within the range.
pub proof fn lemma_parse_unsigned(s: Seq<char>, max: nat)
    ensures
        parse_unsigned(s, max) matches Ok(n) ==> n <= max && n == decimal(s) && s.len() > 0 && skip(
            s,
            CharSet::Digit,
            0,
        ) == s.len(),
{
    lemma_skip(s, CharSet::Digit, 0);
    if parse_unsigned(s, max) is Ok {
        assert(s.take(s.len() as int) =~= s);
    }
}

} // verus!
