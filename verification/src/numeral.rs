//! Numbers as text, and the one number read back from text: a process id.
use vstd::prelude::*;

use crate::text::chars_of;

verus! {

/// The character for one digit, in bases up to sixteen.
pub open spec fn digit_char(d: int) -> char {
    if d < 10 {
        ('0' as int + d) as char
    } else {
        ('a' as int + (d - 10)) as char
    }
}

/// `n` written in `base`, with no leading zeros.
pub open spec fn numeral(n: nat, base: nat) -> Seq<char>
    decreases n,
{
    if n < base || base < 2 {
        seq![digit_char(n as int)]
    } else {
        proof {
            assert(n / base < n) by (nonlinear_arith)
                requires
                    2 <= base <= n,
            ;
        }
        numeral(n / base, base).push(digit_char((n % base) as int))
    }
}

/// Zeros in front, up to `width` characters.
pub open spec fn padded(s: Seq<char>, width: nat) -> Seq<char> {
    if s.len() >= width {
        s
    } else {
        Seq::new((width - s.len()) as nat, |i: int| '0') + s
    }
}

/// `n` in lower-case hexadecimal, at least `width` digits wide.
pub open spec fn hex_text(n: nat, width: nat) -> Seq<char> {
    padded(numeral(n, 16), width)
}

pub open spec fn decimal_text(n: int) -> Seq<char> {
    if n < 0 {
        seq!['-'] + numeral((-n) as nat, 10)
    } else {
        numeral(n as nat, 10)
    }
}

fn digit(d: u64) -> (c: char)
    requires
        d < 16,
    ensures
        c == digit_char(d as int),
{
    if d < 10 {
        (48u8 + d as u8) as char
    } else {
        (97u8 + (d as u8 - 10)) as char
    }
}

fn push_numeral(out: &mut String, n: u64, base: u64)
    requires
        2 <= base <= 16,
    ensures
        final(out)@ == old(out)@ + numeral(n as nat, base as nat),
    decreases n,
{
    if n < base {
        out.push(digit(n));
        assert(out@ =~= old(out)@ + numeral(n as nat, base as nat));
    } else {
        proof {
            assert(n / base < n) by (nonlinear_arith)
                requires
                    2 <= base <= n,
            ;
            assert(n % base < base) by (nonlinear_arith)
                requires
                    2 <= base,
            ;
        }
        push_numeral(out, n / base, base);
        out.push(digit(n % base));
        assert(out@ =~= old(out)@ + numeral(n as nat, base as nat));
    }
}

/// `n` in hexadecimal, padded to `width` digits.
pub fn hex(n: u64, width: usize) -> (r: String)
    ensures
        r@ == hex_text(n as nat, width as nat),
{
    let mut digits = String::new();
    push_numeral(&mut digits, n, 16);
    assert(digits@ =~= numeral(n as nat, 16));
    let count = digits.as_str().unicode_len();
    if count >= width {
        return digits;
    }
    let zeros: usize = width - count;
    let mut out = String::new();
    for i in 0..zeros
        invariant
            out@ == Seq::new(i as nat, |k: int| '0'),
    {
        out.push('0');
        assert(out@ =~= Seq::new((i + 1) as nat, |k: int| '0'));
    }
    out.append(digits.as_str());
    out
}

/// `n` in decimal.
pub fn decimal(n: u64) -> (r: String)
    ensures
        r@ == decimal_text(n as int),
{
    let mut out = String::new();
    push_numeral(&mut out, n, 10);
    assert(out@ =~= numeral(n as nat, 10));
    out
}

/// `n` in decimal, with a minus sign where it is negative.
pub fn signed_decimal(n: i64) -> (r: String)
    ensures
        r@ == decimal_text(n as int),
{
    if n >= 0 {
        return decimal(n as u64);
    }
    let magnitude: u64 = (-(n + 1)) as u64 + 1;
    let mut out = String::new();
    out.push('-');
    push_numeral(&mut out, magnitude, 10);
    assert(out@ =~= seq!['-'] + numeral(magnitude as nat, 10));
    out
}

pub open spec fn is_digit(c: char) -> bool {
    '0' <= c <= '9'
}

/// The value that decimal digits stand for.
pub open spec fn digits_value(s: Seq<char>) -> nat
    decreases s.len(),
{
    if s.len() == 0 {
        0
    } else {
        digits_value(s.drop_last()) * 10 + (s.last() as int - '0' as int) as nat
    }
}

/// The digits of a process id: what follows an optional plus sign.
pub open spec fn pid_digits(s: Seq<char>) -> Seq<char> {
    if s.len() > 0 && s[0] == '+' {
        s.skip(1)
    } else {
        s
    }
}

/// The process id that `s` names: an optional plus sign and then decimal
/// digits only, at least one, of a value that fits.
pub open spec fn pid_named(s: Seq<char>) -> Option<u32> {
    let digits = pid_digits(s);
    if digits.len() > 0 && (forall|i: int| 0 <= i < digits.len() ==> is_digit(#[trigger] digits[i]))
        && digits_value(digits) <= u32::MAX {
        Some(digits_value(digits) as u32)
    } else {
        None
    }
}

proof fn lemma_digits_value_grows(s: Seq<char>, k: int)
    requires
        0 <= k <= s.len(),
        forall|i: int| 0 <= i < s.len() ==> is_digit(#[trigger] s[i]),
    ensures
        digits_value(s.take(k)) <= digits_value(s),
    decreases s.len() - k,
{
    if k < s.len() {
        lemma_digits_value_grows(s, k + 1);
        assert(s.take(k + 1).drop_last() == s.take(k));
    } else {
        assert(s.take(k) == s);
    }
}

/// Read a process id, as `/proc` names its directories.
pub fn parse_pid(name: &str) -> (r: Option<u32>)
    ensures
        r == pid_named(name@),
{
    let chars = chars_of(name);
    let start: usize = if chars.len() > 0 && chars[0] == '+' {
        1
    } else {
        0
    };
    let ghost digits = pid_digits(name@);
    assert(digits =~= name@.skip(start as int));
    if chars.len() == start {
        return None;
    }
    let mut value: u64 = 0;
    for i in start..chars.len()
        invariant
            start <= i <= chars.len(),
            chars@ == name@,
            digits == pid_digits(name@),
            digits == name@.skip(start as int),
            digits.len() == chars.len() - start,
            value == digits_value(digits.take(i - start)),
            value <= u32::MAX,
            forall|k: int| 0 <= k < i - start ==> is_digit(#[trigger] digits[k]),
    {
        let c = chars[i];
        assert(digits[i - start] == c);
        if !('0' <= c && c <= '9') {
            assert(!is_digit(digits[i - start]));
            return None;
        }
        assert(digits.take(i - start + 1).drop_last() == digits.take(i - start));
        assert(digits.take(i - start + 1).last() == c);
        let d: u32 = c as u32 - '0' as u32;
        value = value * 10 + d as u64;
        assert(value == digits_value(digits.take(i - start + 1)));
        if value > 0xffff_ffff {
            proof {
                if pid_named(name@) is Some {
                    lemma_digits_value_grows(digits, i - start + 1);
                }
            }
            return None;
        }
    }
    assert(digits.take(digits.len() as int) == digits);
    Some(value as u32)
}

proof fn lemma_digit_char(d: int)
    requires
        0 <= d < 16,
    ensures
        digit_char(d) == "0123456789abcdef"@[d],
{
    reveal_strlit("0123456789abcdef");
}

proof fn lemma_numeral_grows(n: nat, d: nat, base: nat)
    requires
        2 <= base,
        0 < n,
        d < base,
    ensures
        numeral(base * n + d, base) == numeral(n, base).push(digit_char(d as int)),
{
    assert(base * n + d >= base && (base * n + d) / base == n && (base * n + d) % base == d)
        by (nonlinear_arith)
        requires
            2 <= base,
            0 < n,
            d < base,
    ;
}

/// A decimal numeral has a digit for each power of ten, the highest first, no
/// zero in front, and a minus sign where the number is negative.
pub proof fn law_decimal_is_written_digit_by_digit(n: nat, d: nat)
    requires
        d < 10,
    ensures
        decimal_text(d as int) == seq!["0123456789abcdef"@[d as int]],
        n > 0 ==> decimal_text((10 * n + d) as int) == decimal_text(n as int).push(
            "0123456789abcdef"@[d as int],
        ),
        n > 0 ==> decimal_text(-n) == seq!['-'] + decimal_text(n as int),
{
    lemma_digit_char(d as int);
    if n > 0 {
        lemma_numeral_grows(n, d, 10);
    }
}

/// A hexadecimal numeral has a digit for each power of sixteen, the highest
/// first, and zeros in front up to its width.
pub proof fn law_hexadecimal_is_written_digit_by_digit(n: nat, d: nat, width: nat)
    requires
        d < 16,
        width > 0,
    ensures
        hex_text(d, 1) == seq!["0123456789abcdef"@[d as int]],
        hex_text(16 * n + d, width + 1) == hex_text(n, width).push("0123456789abcdef"@[d as int]),
{
    lemma_digit_char(d as int);
    if n > 0 {
        lemma_numeral_grows(n, d, 16);
    } else {
        lemma_digit_char(0);
        assert(digit_char(0) == '0');
    }
    assert(hex_text(d, 1) =~= seq![digit_char(d as int)]);
    assert(hex_text(16 * n + d, width + 1) =~= hex_text(n, width).push(digit_char(d as int)));
}

/// What one character is worth where it is a digit.
proof fn lemma_one_digit(c: char)
    ensures
        digits_value(seq![c]) == (c as int - '0' as int) as nat,
{
    reveal_with_fuel(digits_value, 2);
    assert(seq![c].drop_last() =~= Seq::<char>::empty());
}

/// A process id is named digit by digit: nothing names none, a digit names its
/// value, and one digit more is ten times as much and the digit, as long as
/// that fits. Anything that is no digit names none. One plus sign in front
/// changes nothing.
pub proof fn law_a_pid_is_read_digit_by_digit(s: Seq<char>, c: char)
    ensures
        pid_named(Seq::empty()) is None,
        pid_named(seq!['+']) is None,
        '0' <= c <= '9' ==> pid_named(seq![c]) == Some((c as u32 - '0' as u32) as u32),
        !('0' <= c <= '9') ==> pid_named(s.push(c)) is None,
        '0' <= c <= '9' ==> (pid_named(s) matches Some(pid) ==> pid_named(s.push(c)) == (if 10 * pid
            + (c as int - '0' as int) <= u32::MAX {
            Some((10 * pid + (c as int - '0' as int)) as u32)
        } else {
            None
        })),
        s.len() > 0 && s != seq!['+'] && pid_named(s) is None ==> pid_named(s.push(c)) is None,
        s.len() > 0 && s[0] != '+' ==> pid_named(seq!['+'] + s) == pid_named(s),
        s.len() > 0 && s[0] == '+' ==> pid_named(seq!['+'] + s) is None,
{
    lemma_one_digit(c);
    assert(seq!['+'].skip(1) =~= Seq::<char>::empty());
    let digits = pid_digits(s);
    let more = pid_digits(s.push(c));
    if '0' <= c <= '9' {
        assert(is_digit(seq![c][0]));
        assert(pid_digits(seq![c]) == seq![c]);
    }
    if s.len() > 0 {
        assert(more =~= digits.push(c));
        assert(more.drop_last() =~= digits);
        assert(more.last() == c);
        assert forall|i: int| 0 <= i < digits.len() implies #[trigger] more[i] == digits[i] by {}
        if pid_named(s) is None && digits.len() > 0 {
            if forall|i: int| 0 <= i < more.len() ==> is_digit(#[trigger] more[i]) {
                assert forall|i: int| 0 <= i < digits.len() implies is_digit(
                    #[trigger] digits[i],
                ) by {
                    assert(is_digit(more[i]));
                }
            }
        }
        if s[0] == '+' {
            assert(s =~= seq!['+'] + digits);
        }
        assert((seq!['+'] + s).skip(1) =~= s);
        if s[0] == '+' {
            assert(!is_digit(s[0]));
        }
    }
    if !('0' <= c <= '9') {
        if s.len() > 0 {
            assert(!is_digit(more[more.len() - 1]));
        } else {
            assert(s.push(c) =~= seq![c]);
            if c == '+' {
                assert(seq![c].skip(1) =~= Seq::<char>::empty());
            } else {
                assert(!is_digit(pid_digits(seq![c])[0]));
            }
        }
    }
}

/// A process id is read back from what it is written as.
pub proof fn law_a_pid_reads_back(pid: u32)
    ensures
        pid_named(decimal_text(pid as int)) == Some(pid),
    decreases pid,
{
    let d = (pid % 10) as nat;
    let n = (pid / 10) as nat;
    lemma_digit_char(d as int);
    assert(digit_char(d as int) as int == '0' as int + d);
    let c = digit_char(d as int);
    if pid >= 10 {
        law_a_pid_reads_back((pid / 10) as u32);
        law_decimal_is_written_digit_by_digit(n, d);
        law_a_pid_is_read_digit_by_digit(decimal_text(n as int), c);
    } else {
        law_decimal_is_written_digit_by_digit(0, d);
        law_a_pid_is_read_digit_by_digit(Seq::empty(), c);
    }
}

} // verus!
