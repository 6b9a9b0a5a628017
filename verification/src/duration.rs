//! Relative durations such as `30m`, `6h`, `2d` or `1w`, and the decimal
//! integers they are made of.
use vstd::prelude::*;
use vstd::string::*;
use crate::text::{decimal, digit_char};

verus! {

broadcast use vstd::string::group_string_axioms;

/// Whether `c` is an ASCII decimal digit.
pub open spec fn is_digit(c: char) -> bool {
    '0' <= c && c <= '9'
}

/// Whether every character of `s` is an ASCII decimal digit.
pub open spec fn all_digits(s: Seq<char>) -> bool {
    forall|i: int| 0 <= i < s.len() ==> is_digit(#[trigger] s[i])
}

/// The value of the decimal digits `s` (0 for the empty sequence).
pub open spec fn digits_value(s: Seq<char>) -> int
    decreases s.len(),
{
    if s.len() == 0 {
        0
    } else {
        digits_value(s.drop_last()) * 10 + (s.last() as int - 48)
    }
}

/// What `str::parse::<i64>` returns for the text `s`: an optional `+` or `-`,
/// then one or more decimal digits, whose value must fit in an `i64`.
pub open spec fn parse_i64_spec(s: Seq<char>) -> Option<int> {
    let negative = s.len() > 0 && s[0] == '-';
    let signed = s.len() > 0 && (s[0] == '-' || s[0] == '+');
    let digits = if signed { s.drop_first() } else { s };
    if digits.len() == 0 || !all_digits(digits) {
        None
    } else {
        let v = if negative { -digits_value(digits) } else { digits_value(digits) };
        if i64::MIN <= v <= i64::MAX { Some(v) } else { None }
    }
}

/// Milliseconds in one unit of a duration suffix.
pub open spec fn unit_ms(unit: char) -> Option<int> {
    if unit == 'm' {
        Some(60_000)
    } else if unit == 'h' {
        Some(3_600_000)
    } else if unit == 'd' {
        Some(86_400_000)
    } else if unit == 'w' {
        Some(604_800_000)
    } else {
        None
    }
}

/// The duration in milliseconds that `s` denotes, or the message that
/// rejects it. Text whose last character is not ASCII has no unit to split
/// off and is an invalid duration.
pub open spec fn duration_ms(s: Seq<char>) -> Result<int, Seq<char>> {
    if s.len() < 2 || (s.last() as u32) >= 128 {
        Err("invalid duration"@)
    } else {
        match parse_i64_spec(s.drop_last()) {
            None => Err("invalid duration"@),
            Some(amount) => if amount <= 0 {
                Err("duration must be positive"@)
            } else {
                match unit_ms(s.last()) {
                    None => Err("duration unit must be m, h, d, or w"@),
                    Some(unit) => if amount * unit > i64::MAX {
                        Err("duration is too large"@)
                    } else {
                        Ok(amount * unit)
                    },
                }
            },
        }
    }
}

proof fn lemma_digits_value_nonneg(s: Seq<char>)
    requires
        all_digits(s),
    ensures
        digits_value(s) >= 0,
    decreases s.len(),
{
    if s.len() > 0 {
        lemma_digits_value_nonneg(s.drop_last());
    }
}

proof fn lemma_digits_value_prefix(s: Seq<char>, k: int)
    requires
        all_digits(s),
        0 <= k <= s.len(),
    ensures
        digits_value(s.subrange(0, k)) <= digits_value(s),
    decreases s.len(),
{
    if k < s.len() {
        assert(s.drop_last() =~= s.subrange(0, s.len() - 1));
        assert(s.subrange(0, k) =~= s.drop_last().subrange(0, k));
        lemma_digits_value_prefix(s.drop_last(), k);
        lemma_digits_value_nonneg(s.drop_last());
    } else {
        assert(s.subrange(0, k) =~= s);
    }
}

/// Parses a decimal `i64` as `str::parse::<i64>` does.
pub fn parse_i64_text(s: &str) -> (r: Option<i64>)
    ensures
        match r {
            Some(v) => parse_i64_spec(s@) == Some(v as int),
            None => parse_i64_spec(s@) is None,
        },
{
    let n = s.unicode_len();
    if n == 0 {
        return None;
    }
    let first = s.get_char(0);
    let negative = first == '-';
    let start: usize = if first == '-' || first == '+' { 1 } else { 0 };
    let ghost digits = if start == 1 { s@.drop_first() } else { s@ };
    assert(digits =~= s@.subrange(start as int, n as int));
    if start == n {
        return None;
    }
    let limit: u64 = if negative { 9_223_372_036_854_775_808 } else { 9_223_372_036_854_775_807 };
    let mut acc: u64 = 0;
    let mut i: usize = start;
    while i < n
        invariant
            n == s@.len(),
            n > 0,
            start <= i <= n,
            negative == (s@[0] == '-'),
            limit == (if negative { 9_223_372_036_854_775_808u64 } else { 9_223_372_036_854_775_807u64 }),
            (start == 1) == (s@[0] == '-' || s@[0] == '+'),
            digits == (if start == 1 { s@.drop_first() } else { s@ }),
            digits == s@.subrange(start as int, n as int),
            all_digits(digits.subrange(0, i - start)),
            acc as int == digits_value(digits.subrange(0, i - start)),
            acc <= limit,
        decreases n - i,
    {
        let c = s.get_char(i);
        if !('0' <= c && c <= '9') {
            assert(digits[i - start] == c);
            return None;
        }
        assert((c as u32) <= 57 && (c as u32) >= 48);
        let d = (c as u32 - 48) as u64;
        assert(d <= 9);
        let ghost next = digits.subrange(0, i - start + 1);
        assert(next.drop_last() =~= digits.subrange(0, i - start));
        assert(next.last() == c);
        assert(all_digits(next));
        assert(digits_value(next) == acc * 10 + d);
        if acc > (limit - d) / 10 {
            proof {
                assert(acc * 10 + d > limit) by (nonlinear_arith)
                    requires acc > (limit - d) / 10, d <= limit;
                if all_digits(digits) {
                    lemma_digits_value_prefix(digits, i - start + 1);
                }
            }
            return None;
        }
        assert(acc * 10 + d <= limit) by (nonlinear_arith)
            requires acc <= (limit - d) / 10, d <= limit;
        acc = acc * 10 + d;
        i = i + 1;
    }
    assert(digits.subrange(0, n - start) =~= digits);
    if negative {
        if acc == 9_223_372_036_854_775_808 {
            Some(i64::MIN)
        } else {
            Some(-(acc as i64))
        }
    } else {
        Some(acc as i64)
    }
}

/// Parses a relative duration made of a positive amount and a unit (`m`,
/// `h`, `d` or `w`) into milliseconds.
pub fn parse_duration(value: &str) -> (r: Result<i64, &'static str>)
    ensures
        match r {
            Ok(v) => duration_ms(value@) == Ok::<int, Seq<char>>(v as int),
            Err(message) => duration_ms(value@) == Err::<int, Seq<char>>(message@),
        },
{
    let n = value.unicode_len();
    if n < 2 {
        return Err("invalid duration");
    }
    let number = value.substring_char(0, n - 1);
    let unit = value.get_char(n - 1);
    if unit >= '\u{80}' {
        return Err("invalid duration");
    }
    assert(number@ =~= value@.drop_last());
    let amount = match parse_i64_text(number) {
        Some(amount) => amount,
        None => return Err("invalid duration"),
    };
    if amount <= 0 {
        return Err("duration must be positive");
    }
    let multiplier: i64 = if unit == 'm' {
        60_000
    } else if unit == 'h' {
        3_600_000
    } else if unit == 'd' {
        86_400_000
    } else if unit == 'w' {
        604_800_000
    } else {
        return Err("duration unit must be m, h, d, or w");
    };
    match amount.checked_mul(multiplier) {
        Some(v) => Ok(v),
        None => Err("duration is too large"),
    }
}


proof fn lemma_decimal_digits(n: nat)
    ensures
        decimal(n).len() >= 1,
        all_digits(decimal(n)),
        digits_value(decimal(n)) == n,
    decreases n,
{
    assert(digit_char(n % 10) as int == n % 10 + 48);
    if n < 10 {
        assert(digit_char(n) as int == n + 48);
        assert(decimal(n).drop_last() =~= Seq::<char>::empty());
        assert(decimal(n).last() == digit_char(n));
        assert(digits_value(Seq::<char>::empty()) == 0);
        assert(digits_value(decimal(n)) == n);
    } else {
        lemma_decimal_digits(n / 10);
        let s = decimal(n / 10).push(digit_char(n % 10));
        assert(s.drop_last() =~= decimal(n / 10));
        assert(forall|i: int| 0 <= i < decimal(n / 10).len() ==> s[i] == decimal(n / 10)[i]);
        assert(s.last() == digit_char(n % 10));
        assert(digits_value(s) == digits_value(decimal(n / 10)) * 10 + (n % 10));
        assert(n == (n / 10) * 10 + n % 10);
        assert(decimal(n) == s);
        assert(digits_value(decimal(n)) == n);
    }
}

/// Integer text reads as the integer it writes: the decimal digits of `n`,
/// alone or after `+`, read as `n`, and after `-` as `-n`, whenever the
/// value fits in an `i64`.
pub proof fn law_integer_text_round_trip(n: nat)
    ensures
        n <= i64::MAX ==> parse_i64_spec(decimal(n)) == Some(n as int),
        n <= i64::MAX ==> parse_i64_spec(seq!['+'] + decimal(n)) == Some(n as int),
        n <= i64::MAX + 1 ==> parse_i64_spec(seq!['-'] + decimal(n)) == Some(-(n as int)),
        n > i64::MAX ==> parse_i64_spec(decimal(n)) is None,
{
    lemma_decimal_digits(n);
    let d = decimal(n);
    assert(is_digit(d[0]));
    assert((seq!['+'] + d).drop_first() =~= d);
    assert((seq!['-'] + d).drop_first() =~= d);
    assert((seq!['+'] + d)[0] == '+');
    assert((seq!['-'] + d)[0] == '-');
}

/// A positive amount followed by a unit is that many minutes (`m`), hours
/// (`h`), days (`d`) or weeks (`w`) in milliseconds, accepted exactly when
/// it fits in an `i64`; a minute is 60,000 ms, an hour 60 minutes, a day 24
/// hours and a week 7 days. Any other ASCII unit is refused.
pub proof fn law_duration_units(amount: Seq<char>, unit: char)
    requires
        parse_i64_spec(amount) matches Some(n) && n > 0,
        (unit as u32) < 128,
    ensures
        ({
            let n = parse_i64_spec(amount)->0;
            let ms = if unit == 'm' { 60_000 } else if unit == 'h' { 60 * 60_000 } else if unit == 'd' {
                24 * 60 * 60_000
            } else {
                7 * 24 * 60 * 60_000
            };
            &&& (unit == 'm' || unit == 'h' || unit == 'd' || unit == 'w') ==> (
                (n * ms <= i64::MAX ==> duration_ms(amount.push(unit)) == Ok::<int, Seq<char>>(n * ms))
                && (n * ms > i64::MAX ==> duration_ms(amount.push(unit)) is Err))
            &&& !(unit == 'm' || unit == 'h' || unit == 'd' || unit == 'w') ==> duration_ms(amount.push(unit)) is Err
        }),
{
    assert(amount.push(unit).drop_last() =~= amount);
    assert(amount.len() >= 1);
}

/// Every accepted duration is a positive number of whole minutes.
pub proof fn law_duration_whole_minutes(s: Seq<char>)
    requires
        duration_ms(s) is Ok,
    ensures
        duration_ms(s)->Ok_0 > 0,
        duration_ms(s)->Ok_0 % 60_000 == 0,
{
    let amount = parse_i64_spec(s.drop_last())->0;
    let unit = unit_ms(s.last())->0;
    let k = unit / 60_000;
    assert(unit == 60_000 * k && k >= 1);
    assert(amount * unit == (amount * k) * 60_000 && amount * unit > 0) by (nonlinear_arith)
        requires unit == 60_000 * k, k >= 1, amount > 0;
    assert((amount * k) * 60_000 % 60_000 == 0) by (nonlinear_arith)
        requires amount * k > 0;
}

} // verus!
