//! Numbers in text: unsigned parsing in a radix, and decimal output.
use vstd::prelude::*;
use crate::text::chars_of;

verus! {

/// What `c` counts as a digit, or 255 where it is none.
pub open spec fn digit_value(c: char) -> int {
    if '0' <= c <= '9' {
        c as int - '0' as int
    } else if 'a' <= c <= 'f' {
        c as int - 'a' as int + 10
    } else if 'A' <= c <= 'F' {
        c as int - 'A' as int + 10
    } else {
        255
    }
}

/// `c` is a digit in `radix`.
pub open spec fn is_digit(c: char, radix: int) -> bool {
    digit_value(c) < radix
}

/// Every character of `s` is a digit in `radix`.
pub open spec fn all_digits(s: Seq<char>, radix: int) -> bool {
    forall|i: int| 0 <= i < s.len() ==> #[trigger] is_digit(s[i], radix)
}

/// The number that the digits of `s` write in `radix`, the most significant first.
pub open spec fn digits_value(s: Seq<char>, radix: int) -> int
    decreases s.len(),
{
    if s.len() == 0 {
        0
    } else {
        digits_value(s.drop_last(), radix) * radix + digit_value(s.last())
    }
}

/// `s` without a plus sign that stands before something else.
pub open spec fn unsigned_part(s: Seq<char>) -> Seq<char> {
    if s.len() > 1 && s[0] == '+' {
        s.skip(1)
    } else {
        s
    }
}

/// The unsigned number that `s` writes in `radix`: an optional plus sign and at least
/// one digit, nothing else, and a value of at most `max`.
pub open spec fn number_in(s: Seq<char>, radix: int, max: int) -> Option<int> {
    let digits = unsigned_part(s);
    if digits.len() > 0 && all_digits(digits, radix) && digits_value(digits, radix) <= max {
        Some(digits_value(digits, radix))
    } else {
        None
    }
}

/// The character that writes the decimal digit `d`.
pub open spec fn digit_char(d: int) -> char {
    ('0' as int + d) as char
}

/// `n` in decimal, without leading zeros.
pub open spec fn decimal(n: nat) -> Seq<char>
    decreases n,
{
    if n < 10 {
        seq![digit_char(n as int)]
    } else {
        decimal(n / 10).push(digit_char((n % 10) as int))
    }
}

/// `n` in decimal, with a minus sign where it is negative.
pub open spec fn decimal_signed(n: int) -> Seq<char> {
    if n < 0 {
        seq!['-'] + decimal((-n) as nat)
    } else {
        decimal(n as nat)
    }
}

proof fn lemma_digits_monotone(s: Seq<char>, radix: int, n: int)
    requires
        radix == 10 || radix == 16,
        all_digits(s, radix),
        0 <= n <= s.len(),
    ensures
        0 <= digits_value(s.take(n), radix) <= digits_value(s, radix),
    decreases s.len(),
{
    if n == s.len() {
        assert(s.take(n) =~= s);
        if s.len() > 0 {
            assert(is_digit(s[s.len() - 1], radix));
            assert(all_digits(s.drop_last(), radix)) by {
                assert forall|i: int| 0 <= i < s.drop_last().len() implies #[trigger] is_digit(
                    s.drop_last()[i],
                    radix,
                ) by {
                    assert(is_digit(s[i], radix));
                }
            }
            lemma_digits_monotone(s.drop_last(), radix, n - 1);
            assert(s.drop_last().take(n - 1) =~= s.drop_last());
            assert(digits_value(s.drop_last(), radix) * radix >= 0) by (nonlinear_arith)
                requires
                    digits_value(s.drop_last(), radix) >= 0,
                    radix > 0,
            ;
        }
    } else {
        assert(is_digit(s[s.len() - 1], radix));
        assert(all_digits(s.drop_last(), radix)) by {
            assert forall|i: int| 0 <= i < s.drop_last().len() implies #[trigger] is_digit(
                s.drop_last()[i],
                radix,
            ) by {
                assert(is_digit(s[i], radix));
            }
        }
        lemma_digits_monotone(s.drop_last(), radix, n);
        assert(s.drop_last().take(n) =~= s.take(n));
        assert(digits_value(s.drop_last(), radix) * radix >= digits_value(s.drop_last(), radix))
            by (nonlinear_arith)
            requires
                digits_value(s.drop_last(), radix) >= 0,
                radix >= 1,
        ;
    }
}

/// Every character of `decimal(n)` is a decimal digit, there is at least one, and together
/// they write `n`.
pub proof fn lemma_decimal(n: nat)
    ensures
        decimal(n).len() > 0,
        all_digits(decimal(n), 10),
        digits_value(decimal(n), 10) == n,
    decreases n,
{
    if n < 10 {
        assert(decimal(n).drop_last() =~= Seq::<char>::empty());
        assert(digits_value(decimal(n).drop_last(), 10) == 0);
    } else {
        lemma_decimal(n / 10);
        assert(decimal(n).drop_last() =~= decimal(n / 10));
        assert forall|i: int| 0 <= i < decimal(n).len() implies #[trigger] is_digit(
            decimal(n)[i],
            10,
        ) by {
            if i < decimal(n / 10).len() {
                assert(is_digit(decimal(n / 10)[i], 10));
            }
        }
    }
}

/// Ten to the power of `k`.
pub open spec fn pow10(k: nat) -> nat
    decreases k,
{
    if k == 0 {
        1
    } else {
        10 * pow10((k - 1) as nat)
    }
}

/// A number below a power of ten has at most as many digits.
pub proof fn lemma_decimal_digits(n: nat, k: nat)
    requires
        k >= 1,
        n < pow10(k),
    ensures
        decimal(n).len() <= k,
    decreases k,
{
    if n >= 10 {
        if k == 1 {
            assert(pow10(1) == 10 * pow10(0));
        } else {
            lemma_decimal_digits(n / 10, (k - 1) as nat);
        }
    }
}

/// A machine number has at most twenty digits.
pub proof fn lemma_decimal_len(n: nat)
    requires
        n <= u64::MAX,
    ensures
        decimal(n).len() <= 20,
{
    assert(pow10(20) == 100000000000000000000) by {
        reveal_with_fuel(pow10, 21);
    }
    lemma_decimal_digits(n, 20);
}

/// Decimal output has no leading zeros.
pub proof fn lemma_decimal_leading(n: nat)
    ensures
        decimal(n).len() > 1 ==> decimal(n)[0] != '0',
        n > 0 ==> decimal(n)[0] != '0',
    decreases n,
{
    if n >= 10 {
        lemma_decimal_leading(n / 10);
        lemma_decimal(n / 10);
        assert(decimal(n)[0] == decimal(n / 10)[0]);
    }
}

/// Digits without leading zeros are the decimal output of the number that they write.
pub proof fn lemma_decimal_is_unique(s: Seq<char>)
    requires
        s.len() > 0,
        all_digits(s, 10),
        s.len() > 1 ==> s[0] != '0',
    ensures
        digits_value(s, 10) >= 0,
        s.len() > 1 ==> digits_value(s, 10) >= 10,
        decimal(digits_value(s, 10) as nat) == s,
    decreases s.len(),
{
    let rest = s.drop_last();
    let d = digit_value(s.last());
    assert(is_digit(s[s.len() - 1], 10));
    assert(0 <= d < 10);
    assert(digit_char(d) == s.last());
    if s.len() == 1 {
        assert(rest =~= Seq::<char>::empty());
        assert(digits_value(rest, 10) == 0);
        assert(s =~= seq![digit_char(d)]);
    } else {
        assert(all_digits(rest, 10)) by {
            assert forall|i: int| 0 <= i < rest.len() implies #[trigger] is_digit(rest[i], 10) by {
                assert(is_digit(s[i], 10));
            }
        }
        lemma_decimal_is_unique(rest);
        let r = digits_value(rest, 10);
        if rest.len() == 1 {
            assert(is_digit(rest[0], 10));
            assert(rest.drop_last() =~= Seq::<char>::empty());
            assert(digits_value(rest.drop_last(), 10) == 0);
            assert(r == digit_value(s[0]));
        }
        assert(r >= 1);
        let n = digits_value(s, 10) as nat;
        assert(n == r * 10 + d);
        assert(n / 10 == r && n % 10 == d);
        assert(decimal(n) =~= decimal(r as nat).push(digit_char(d)));
        assert(s =~= rest.push(s.last()));
    }
}

/// Reading back a number that was written in decimal gives that number.
pub proof fn lemma_decimal_reads_back(n: nat, max: int)
    requires
        n <= max,
    ensures
        number_in(decimal(n), 10, max) == Some(n as int),
{
    lemma_decimal(n);
    assert(is_digit(decimal(n)[0], 10));
}

/// The unsigned number that `s` writes in `radix`, if it is at most `max`.
pub fn parse_number(s: &str, radix: u32, max: u32) -> (r: Option<u32>)
    requires
        radix == 10 || radix == 16,
    ensures
        match r {
            Some(n) => number_in(s@, radix as int, max as int) == Some(n as int),
            None => number_in(s@, radix as int, max as int) is None,
        },
{
    let v = chars_of(s);
    let ghost digits = unsigned_part(s@);
    let start: usize = if v.len() > 1 && v[0] == '+' { 1 } else { 0 };
    if v.len() == 0 {
        return None;
    }
    let mut value: u64 = 0;
    let mut i: usize = start;
    while i < v.len()
        invariant
            v@ == s@,
            radix == 10 || radix == 16,
            start <= i <= v@.len(),
            start <= 1,
            digits == s@.skip(start as int),
            digits == unsigned_part(s@),
            all_digits(digits.take(i - start), radix as int),
            value == digits_value(digits.take(i - start), radix as int),
            value <= max,
        decreases v@.len() - i,
    {
        let c = v[i];
        let d: u64 = if '0' <= c && c <= '9' {
            c as u64 - '0' as u64
        } else if 'a' <= c && c <= 'f' {
            c as u64 - 'a' as u64 + 10
        } else if 'A' <= c && c <= 'F' {
            c as u64 - 'A' as u64 + 10
        } else {
            255
        };
        proof {
            assert(digits[i - start] == c);
            assert(d == digit_value(c));
            assert(digits.take(i - start + 1).drop_last() =~= digits.take(i - start));
            assert(digits.take(i - start + 1).last() == c);
        }
        if d >= radix as u64 {
            assert(!is_digit(digits[i - start], radix as int));
            return None;
        }
        assert(value * radix <= 0xffff_ffff * 16) by (nonlinear_arith)
            requires
                value <= 0xffff_ffff,
                radix <= 16,
        ;
        let next: u64 = value * radix as u64 + d;
        proof {
            assert(value * radix as u64 == value * radix);
            assert forall|k: int| 0 <= k < digits.take(i - start + 1).len() implies #[trigger] is_digit(
                digits.take(i - start + 1)[k],
                radix as int,
            ) by {
                if k < i - start {
                    assert(is_digit(digits.take(i - start)[k], radix as int));
                }
            }
        }
        if next > max as u64 {
            proof {
                if all_digits(digits, radix as int) {
                    lemma_digits_monotone(digits, radix as int, i - start + 1);
                }
            }
            return None;
        }
        value = next;
        i = i + 1;
    }
    proof {
        assert(digits.take(v@.len() - start) =~= digits);
    }
    Some(value as u32)
}

/// `n` in decimal.
pub fn decimal_of(n: u64) -> (s: String)
    ensures
        s@ == decimal(n as nat),
    decreases n,
{
    let d: u64 = n % 10;
    let c = (48u8 + d as u8) as char;
    proof {
        assert(c == digit_char((n % 10) as int));
    }
    if n < 10 {
        let mut s = String::new();
        s.push(c);
        assert(s@ =~= decimal(n as nat));
        s
    } else {
        let mut s = decimal_of(n / 10);
        s.push(c);
        s
    }
}

/// `n` in decimal, with a minus sign where it is negative.
pub fn decimal_signed_of(n: i32) -> (s: String)
    ensures
        s@ == decimal_signed(n as int),
{
    if n < 0 {
        let mut s = String::new();
        s.push('-');
        let m: i64 = -(n as i64);
        s.append(decimal_of(m as u64).as_str());
        s
    } else {
        decimal_of(n as u64)
    }
}

} // verus!
