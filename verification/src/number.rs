//! Numbers as text: decimal and hexadecimal digits, and reading decimal text.

use vstd::prelude::*;

verus! {

/// The digit character of a value below sixteen.
pub open spec fn digit_char(d: int) -> char {
    if d < 10 {
        (48 + d) as char
    } else {
        (87 + d) as char
    }
}

/// The digits of `n` to the given base, most significant first, without leading zeros.
pub open spec fn digits(n: nat, base: nat) -> Seq<char>
    decreases n,
{
    if base < 2 || n < base {
        seq![digit_char(n as int)]
    } else {
        proof {
            assert(n / base < n) by (nonlinear_arith)
                requires
                    n >= base,
                    base >= 2,
            ;
        }
        digits(n / base, base).push(digit_char((n % base) as int))
    }
}

/// The decimal text of `n`.
pub open spec fn decimal(n: nat) -> Seq<char> {
    digits(n, 10)
}

/// The decimal text of `n`, with a minus sign where it is negative.
pub open spec fn signed_decimal(n: int) -> Seq<char> {
    if n < 0 {
        seq!['-'] + decimal((-n) as nat)
    } else {
        decimal(n as nat)
    }
}

/// The lower-case hexadecimal text of `n`, after `0x`.
pub open spec fn hex(n: nat) -> Seq<char> {
    seq!['0', 'x'] + digits(n, 16)
}

pub fn digit(d: u8) -> (c: char)
    requires
        d < 16,
    ensures
        c == digit_char(d as int),
{
    if d < 10 {
        (48 + d) as char
    } else {
        (87 + d) as char
    }
}

/// Appends the digits of `n` to the given base.
pub fn append_digits(s: &mut String, n: u64, base: u64)
    requires
        2 <= base <= 16,
    ensures
        final(s)@ == old(s)@ + digits(n as nat, base as nat),
    decreases n,
{
    if n >= base {
        assert(n / base < n) by (nonlinear_arith)
            requires
                n >= base,
                base >= 2,
        ;
        append_digits(s, n / base, base);
    }
    assert(n % base < base) by (nonlinear_arith)
        requires
            base >= 2,
    ;
    assert(n < base ==> n % base == n) by (nonlinear_arith)
        requires
            base >= 2,
    ;
    let d: u64 = n % base;
    s.push(digit(d as u8));
    assert(s@ =~= old(s)@ + digits(n as nat, base as nat));
}

pub fn decimal_text(n: u64) -> (s: String)
    ensures
        s@ == decimal(n as nat),
{
    let mut s: String = String::new();
    append_digits(&mut s, n, 10);
    assert(s@ =~= decimal(n as nat));
    s
}

pub fn hex_text(n: u64) -> (s: String)
    ensures
        s@ == hex(n as nat),
{
    let mut s: String = String::new();
    s.push('0');
    s.push('x');
    append_digits(&mut s, n, 16);
    assert(s@ =~= hex(n as nat));
    s
}

/// The number that a `bits`-wide two's complement pattern stands for.
pub open spec fn twos_complement(v: int, half: int) -> int {
    if v < half {
        v
    } else {
        v - 2 * half
    }
}

/// The decimal text of the signed number whose two's complement pattern is `v`,
/// where `half` is the weight of the sign bit.
pub fn signed_text(v: u64, half: u64) -> (s: String)
    requires
        0 < half <= 0x8000_0000_0000_0000,
        v < 2 * half,
    ensures
        s@ == signed_decimal(twos_complement(v as int, half as int)),
{
    let mut s: String = String::new();
    if v < half {
        append_digits(&mut s, v, 10);
        assert(s@ =~= decimal(v as nat));
    } else {
        s.push('-');
        let m: u64 = half - (v - half);
        append_digits(&mut s, m, 10);
        assert(s@ =~= seq!['-'] + decimal(m as nat));
    }
    s
}

/// The decimal text of a signed number.
pub fn signed_decimal_text(n: i64) -> (s: String)
    ensures
        s@ == signed_decimal(n as int),
{
    let mut s: String = String::new();
    if n >= 0 {
        append_digits(&mut s, n as u64, 10);
        assert(s@ =~= decimal(n as nat));
    } else {
        s.push('-');
        let m: u64 = (-(n + 1)) as u64 + 1;
        append_digits(&mut s, m, 10);
        assert(s@ =~= seq!['-'] + decimal(m as nat));
    }
    s
}

// ---------------------------------------------------------------------------
// Reading decimal text
// ---------------------------------------------------------------------------

pub open spec fn is_digit(c: char) -> bool {
    '0' <= c <= '9'
}

pub open spec fn all_digits(s: Seq<char>) -> bool {
    forall|i: int| 0 <= i < s.len() ==> is_digit(#[trigger] s[i])
}

/// The number that a sequence of decimal digits stands for.
pub open spec fn digits_value(s: Seq<char>) -> nat
    decreases s.len(),
{
    if s.len() == 0 {
        0
    } else {
        (digits_value(s.drop_last()) * 10 + (s.last() as int - 48)) as nat
    }
}

/// `s` without one plus sign in front.
pub open spec fn without_plus(s: Seq<char>) -> Seq<char> {
    if s.len() > 0 && s[0] == '+' {
        s.drop_first()
    } else {
        s
    }
}

/// The unsigned number that `s` is the decimal text of, where it is one that is at
/// most `max`: one digit or more, after at most one plus sign.
pub open spec fn parse_unsigned(s: Seq<char>, max: nat) -> Option<nat> {
    let d = without_plus(s);
    if d.len() > 0 && all_digits(d) && digits_value(d) <= max {
        Some(digits_value(d))
    } else {
        None
    }
}

/// A longer sequence of digits stands for no smaller number.
proof fn lemma_value_grows(s: Seq<char>, i: int)
    requires
        0 <= i <= s.len(),
        all_digits(s),
    ensures
        digits_value(s.take(i)) <= digits_value(s),
    decreases s.len(),
{
    if i == s.len() {
        assert(s.take(i) =~= s);
    } else {
        let t = s.drop_last();
        assert(t.take(i) =~= s.take(i));
        assert forall|j: int| 0 <= j < t.len() implies is_digit(#[trigger] t[j]) by {
            assert(t[j] == s[j]);
        }
        lemma_value_grows(t, i);
        assert(is_digit(s[s.len() - 1]));
    }
}

/// The decimal text of a number is digits that stand for it.
pub proof fn lemma_decimal_value(n: nat)
    ensures
        decimal(n).len() > 0,
        all_digits(decimal(n)),
        digits_value(decimal(n)) == n,
    decreases n,
{
    if n < 10 {
        assert(decimal(n).drop_last() =~= seq![]);
        assert(decimal(n).last() == digit_char(n as int));
        assert(digits_value(seq![]) == 0);
    } else {
        lemma_decimal_value(n / 10);
        let d = decimal(n / 10);
        let c = digit_char((n % 10) as int);
        assert(decimal(n) == d.push(c));
        assert(d.push(c).drop_last() =~= d);
        assert(d.push(c).last() == c);
        assert forall|i: int| 0 <= i < d.push(c).len() implies is_digit(
            #[trigger] d.push(c)[i],
        ) by {
            if i < d.len() {
                assert(d.push(c)[i] == d[i]);
            }
        }
    }
}

/// Reading the decimal text of a number gives the number back.
pub proof fn law_decimal_text_reads_back(n: nat, max: nat)
    requires
        n <= max,
    ensures
        parse_unsigned(decimal(n), max) == Some(n),
{
    lemma_decimal_value(n);
    assert(is_digit(decimal(n)[0]));
    assert(without_plus(decimal(n)) == decimal(n));
}

pub fn read_unsigned(s: &[char], max: u64) -> (r: Option<u64>)
    ensures
        match r {
            Some(n) => parse_unsigned(s@, max as nat) == Some(n as nat) && n <= max,
            None => parse_unsigned(s@, max as nat) is None,
        },
{
    let from: usize = if s.len() > 0 && s[0] == '+' {
        1
    } else {
        0
    };
    let ghost d = without_plus(s@);
    assert(d =~= s@.skip(from as int));
    if from == s.len() {
        return None;
    }
    let mut i: usize = from;
    let mut n: u64 = 0;
    assert(d.take(0) =~= seq![]);
    while i < s.len()
        invariant
            from <= i <= s@.len(),
            d == s@.skip(from as int),
            d == without_plus(s@),
            d.len() > 0,
            n <= max,
            n == digits_value(d.take(i - from)),
            all_digits(d.take(i - from)),
        decreases s@.len() - i,
    {
        let c: char = s[i];
        let ghost k = i - from;
        assert(d[k] == c);
        if c < '0' || '9' < c {
            assert(!is_digit(d[k]));
            return None;
        }
        let v: u64 = c as u64 - 48;
        assert(d.take(k + 1).drop_last() =~= d.take(k));
        assert(d.take(k + 1).last() == c);
        assert forall|j: int| 0 <= j < k + 1 implies is_digit(#[trigger] d.take(k + 1)[j]) by {
            if j < k {
                assert(d.take(k)[j] == d.take(k + 1)[j]);
            }
        }
        let next: u128 = n as u128 * 10 + v as u128;
        assert(next == digits_value(d.take(k + 1)));
        if next > max as u128 {
            proof {
                if all_digits(d) {
                    lemma_value_grows(d, k + 1);
                }
            }
            return None;
        }
        n = next as u64;
        i += 1;
    }
    assert(d.take(i - from) =~= d);
    Some(n)
}

// ---------------------------------------------------------------------------
// What holds of numbers
// ---------------------------------------------------------------------------

/// The number that a digit stands for.
pub open spec fn digit_value(c: char) -> int {
    if '0' <= c <= '9' {
        c as int - '0' as int
    } else {
        c as int - 'a' as int + 10
    }
}

/// The number that digits to the given base stand for.
pub open spec fn value_of_digits(s: Seq<char>, base: nat) -> int
    decreases s.len(),
{
    if s.len() == 0 {
        0
    } else {
        value_of_digits(s.drop_last(), base) * base + digit_value(s.last())
    }
}

/// The digits of a number stand for it, are all digits of the base, and do not start with a zero
/// that could be left out.
pub proof fn law_digits_stand_for_the_number(n: nat, base: nat)
    requires
        2 <= base <= 16,
    ensures
        value_of_digits(digits(n, base), base) == n,
        digits(n, base).len() > 0,
        digits(n, base).len() > 1 ==> digits(n, base)[0] != '0',
        n > 0 ==> digits(n, base)[0] != '0',
        forall|i: int|
            0 <= i < digits(n, base).len() ==> {
                let c = #[trigger] digits(n, base)[i];
                ('0' <= c <= '9' || 'a' <= c <= 'f') && digit_value(c) < base
            },
    decreases n,
{
    let d = digits(n, base);
    if n < base {
        reveal_with_fuel(value_of_digits, 2);
        assert(d =~= seq![digit_char(n as int)]);
        assert(d.drop_last() =~= seq![]);
    } else {
        assert(n / base < n && n / base > 0 && n % base < base && n == (n / base) * base + n % base)
            by (nonlinear_arith)
            requires
                n >= base,
                base >= 2,
        ;
        law_digits_stand_for_the_number(n / base, base);
        let head = digits(n / base, base);
        assert(d.drop_last() =~= head);
        assert(d.last() == digit_char((n % base) as int));
        assert forall|i: int| 0 <= i < d.len() implies {
            let c = #[trigger] d[i];
            ('0' <= c <= '9' || 'a' <= c <= 'f') && digit_value(c) < base
        } by {
            if i < head.len() {
                assert(d[i] == head[i]);
            }
        }
    }
}

/// Hexadecimal text is the digits after `0x`; a negative number's text is a minus sign and the
/// digits of what it is below zero.
pub proof fn law_number_texts(n: nat)
    ensures
        hex(n).len() == 2 + digits(n, 16).len(),
        hex(n)[0] == '0' && hex(n)[1] == 'x',
        hex(n).skip(2) == digits(n, 16),
        decimal(n) == digits(n, 10),
        signed_decimal(n as int) == digits(n, 10),
        n > 0 ==> signed_decimal(-n)[0] == '-' && signed_decimal(-n).skip(1) == digits(n, 10),
{
    assert(hex(n).skip(2) =~= digits(n, 16));
    assert((seq!['-'] + digits(n, 10)).skip(1) =~= digits(n, 10));
}

/// A two's complement pattern stands for the one number in range that it is like.
pub proof fn law_twos_complement(v: int, half: int)
    requires
        0 <= v < 2 * half,
    ensures
        -half <= twos_complement(v, half) < half,
        twos_complement(v, half) == v || twos_complement(v, half) == v - 2 * half,
{
}

/// A text reads as a number just where it is one decimal digit or more, behind at most one plus
/// sign, and the number that they stand for is not too large; and that is the number.
pub proof fn law_decimal_digits_read_as_their_number(s: Seq<char>, max: nat)
    requires
        s.len() > 0,
        forall|i: int| 0 <= i < s.len() ==> '0' <= #[trigger] s[i] <= '9',
    ensures
        0 <= value_of_digits(s, 10) <= max ==> parse_unsigned(s, max) == Some(
            value_of_digits(s, 10) as nat,
        ),
        value_of_digits(s, 10) > max ==> parse_unsigned(s, max) is None,
        parse_unsigned(seq!['+'] + s, max) == parse_unsigned(s, max),
        value_of_digits(s, 10) >= 0,
{
    lemma_same_value(s);
    assert(all_digits(s)) by {
        assert forall|i: int| 0 <= i < s.len() implies is_digit(#[trigger] s[i]) by {}
    }
    assert(s[0] != '+');
    let t = seq!['+'] + s;
    assert(t.drop_first() =~= s);
}

proof fn lemma_same_value(s: Seq<char>)
    requires
        forall|i: int| 0 <= i < s.len() ==> '0' <= #[trigger] s[i] <= '9',
    ensures
        digits_value(s) == value_of_digits(s, 10),
        value_of_digits(s, 10) >= 0,
    decreases s.len(),
{
    if s.len() > 0 {
        let t = s.drop_last();
        assert forall|i: int| 0 <= i < t.len() implies '0' <= #[trigger] t[i] <= '9' by {
            assert(t[i] == s[i]);
        }
        lemma_same_value(t);
        assert('0' <= s[s.len() - 1] <= '9');
    }
}

/// What holds anything but digits, behind at most one plus sign, is no number, and neither is a
/// text without digits.
pub proof fn law_other_texts_are_no_numbers(s: Seq<char>, max: nat, i: int)
    ensures
        parse_unsigned(Seq::empty(), max) is None,
        parse_unsigned(seq!['+'], max) is None,
        0 < i < s.len() && !('0' <= s[i] <= '9') ==> parse_unsigned(s, max) is None,
        s.len() > 0 && s[0] != '+' && !('0' <= s[0] <= '9') ==> parse_unsigned(s, max) is None,
{
    assert(seq!['+'].drop_first() =~= seq![]);
    if 0 < i < s.len() && !('0' <= s[i] <= '9') {
        if s[0] == '+' {
            assert(s.drop_first()[i - 1] == s[i]);
            assert(!is_digit(s.drop_first()[i - 1]));
        } else {
            assert(!is_digit(s[i]));
        }
    }
    if s.len() > 0 && s[0] != '+' && !('0' <= s[0] <= '9') {
        assert(!is_digit(s[0]));
    }
}

} // verus!
