//! Decimal and hexadecimal numbers read from, and written into, text.
use vstd::prelude::*;

verus! {

/// Value of `c` as a digit in `radix` (ASCII digits and letters), as
/// `char::to_digit` gives it.
pub open spec fn digit_value(c: char, radix: u32) -> Option<int> {
    let u = c as u32;
    let d: int = if 0x30 <= u <= 0x39 {
        u - 0x30
    } else if 0x61 <= u <= 0x7A {
        u - 0x61 + 10
    } else if 0x41 <= u <= 0x5A {
        u - 0x41 + 10
    } else {
        radix as int
    };
    if d < radix {
        Some(d)
    } else {
        None
    }
}

/// Every character of `d` is a digit in `radix`.
pub open spec fn all_digits(d: Seq<char>, radix: u32) -> bool {
    forall|i: int| 0 <= i < d.len() ==> (#[trigger] digit_value(d[i], radix)) is Some
}

/// The number that the digits `d` write in `radix`.
pub open spec fn digits_value(d: Seq<char>, radix: u32) -> int
    decreases d.len(),
{
    if d.len() == 0 {
        0
    } else {
        digits_value(d.drop_last(), radix) * radix + digit_value(d.last(), radix).unwrap()
    }
}

/// The digits after an optional `'+'`, as `u32::from_str_radix` reads them.
pub open spec fn unsigned_digits(s: Seq<char>) -> Seq<char> {
    if s.len() > 0 && s[0] == '+' {
        s.drop_first()
    } else {
        s
    }
}

/// `u32::from_str_radix(s, radix).ok()`.
pub open spec fn parse_u32_radix(s: Seq<char>, radix: u32) -> Option<u32> {
    let d = unsigned_digits(s);
    if s.len() == 0 || d.len() == 0 || !all_digits(d, radix) || digits_value(d, radix)
        > u32::MAX {
        None
    } else {
        Some(digits_value(d, radix) as u32)
    }
}

/// `s.parse::<i64>().ok()`.
pub open spec fn parse_i64(s: Seq<char>) -> Option<i64> {
    let neg = s.len() > 0 && s[0] == '-';
    let d = if s.len() > 0 && (s[0] == '+' || s[0] == '-') {
        s.drop_first()
    } else {
        s
    };
    let v = if neg {
        -digits_value(d, 10)
    } else {
        digits_value(d, 10)
    };
    if d.len() == 0 || !all_digits(d, 10) || v < i64::MIN || v > i64::MAX {
        None
    } else {
        Some(v as i64)
    }
}

pub proof fn lemma_digits_value_nonneg(d: Seq<char>, radix: u32)
    requires
        all_digits(d, radix),
    ensures
        digits_value(d, radix) >= 0,
    decreases d.len(),
{
    if d.len() > 0 {
        assert(all_digits(d.drop_last(), radix)) by {
            assert forall|i: int| 0 <= i < d.drop_last().len() implies (#[trigger] digit_value(
                d.drop_last()[i],
                radix,
            )) is Some by {
                assert(d.drop_last()[i] == d[i]);
            }
        }
        lemma_digits_value_nonneg(d.drop_last(), radix);
        assert(digit_value(d[d.len() - 1], radix) is Some);
        let p = digits_value(d.drop_last(), radix);
        assert(p * radix >= 0) by (nonlinear_arith)
            requires
                p >= 0,
        ;
    }
}

/// A longer run of digits never writes a smaller number.
pub proof fn lemma_digits_value_grows(d: Seq<char>, radix: u32, k: int)
    requires
        all_digits(d, radix),
        radix >= 1,
        0 <= k <= d.len(),
    ensures
        digits_value(d.take(k), radix) <= digits_value(d, radix),
    decreases d.len() - k,
{
    if k < d.len() {
        assert(all_digits(d.take(k + 1), radix)) by {
            assert forall|i: int| 0 <= i < d.take(k + 1).len() implies (#[trigger] digit_value(
                d.take(k + 1)[i],
                radix,
            )) is Some by {
                assert(d.take(k + 1)[i] == d[i]);
            }
        }
        lemma_digits_value_grows(d, radix, k + 1);
        assert(d.take(k + 1).drop_last() =~= d.take(k));
        assert(all_digits(d.take(k), radix)) by {
            assert forall|i: int| 0 <= i < d.take(k).len() implies (#[trigger] digit_value(
                d.take(k)[i],
                radix,
            )) is Some by {
                assert(d.take(k)[i] == d[i]);
            }
        }
        lemma_digits_value_nonneg(d.take(k), radix);
        assert(digit_value(d[k], radix) is Some);
        assert(d.take(k + 1).last() == d[k]);
        let p = digits_value(d.take(k), radix);
        assert(p * radix >= p) by (nonlinear_arith)
            requires
                p >= 0,
                radix >= 1,
        ;
    } else {
        assert(d.take(k) =~= d);
    }
}

/// Value of `c` as a digit in `radix`, or `radix` when it is none.
pub fn digit_of(c: char, radix: u32) -> (r: u32)
    requires
        2 <= radix <= 36,
    ensures
        digit_value(c, radix) is Some ==> r as int == digit_value(c, radix).unwrap(),
        digit_value(c, radix) is None ==> r == radix,
        r <= radix,
{
    let u = c as u32;
    let d: u32 = if 0x30 <= u && u <= 0x39 {
        u - 0x30
    } else if 0x61 <= u && u <= 0x7A {
        u - 0x61 + 10
    } else if 0x41 <= u && u <= 0x5A {
        u - 0x41 + 10
    } else {
        radix
    };
    if d < radix {
        d
    } else {
        radix
    }
}

/// Reads `v[lo..hi]` as digits in `radix`: `None` when a character is no
/// digit or the number exceeds `limit`.
fn digits_up_to(v: &[char], lo: usize, hi: usize, radix: u32, limit: u128) -> (r: Option<u128>)
    requires
        lo <= hi <= v.len(),
        2 <= radix <= 36,
        limit <= u64::MAX,
    ensures
        ({
            let d = v@.subrange(lo as int, hi as int);
            match r {
                Some(x) => all_digits(d, radix) && x as int == digits_value(d, radix) && x
                    <= limit,
                None => !all_digits(d, radix) || digits_value(d, radix) > limit,
            }
        }),
{
    let ghost d = v@.subrange(lo as int, hi as int);
    let mut acc: u128 = 0;
    let mut i = lo;
    while i < hi
        invariant
            lo <= i <= hi <= v.len(),
            2 <= radix <= 36,
            limit <= u64::MAX,
            d == v@.subrange(lo as int, hi as int),
            all_digits(d.take(i - lo), radix),
            acc as int == digits_value(d.take(i - lo), radix),
            acc <= limit,
        decreases hi - i,
    {
        let x = digit_of(v[i], radix);
        if x == radix {
            assert(d[i - lo] == v@[i as int]);
            assert(digit_value(d[i - lo], radix) is None);
            return None;
        }
        let ghost prev = d.take(i - lo);
        let ghost next = d.take(i - lo + 1);
        assert(next.drop_last() =~= prev);
        assert(next.last() == v@[i as int]);
        assert(all_digits(next, radix)) by {
            assert forall|j: int| 0 <= j < next.len() implies (#[trigger] digit_value(
                next[j],
                radix,
            )) is Some by {
                if j < prev.len() {
                    assert(next[j] == prev[j]);
                }
            }
        }
        assert(acc * (radix as u128) <= limit * 36) by (nonlinear_arith)
            requires
                acc <= limit,
                radix <= 36,
        ;
        let n = acc * (radix as u128) + (x as u128);
        assert(n as int == digits_value(next, radix));
        if n > limit {
            proof {
                lemma_digits_value_grows_or_invalid(d, radix, i - lo + 1);
            }
            return None;
        }
        acc = n;
        i = i + 1;
    }
    assert(d.take(hi - lo) =~= d);
    Some(acc)
}

proof fn lemma_digits_value_grows_or_invalid(d: Seq<char>, radix: u32, k: int)
    requires
        2 <= radix,
        0 <= k <= d.len(),
        all_digits(d.take(k), radix),
    ensures
        all_digits(d, radix) ==> digits_value(d.take(k), radix) <= digits_value(d, radix),
{
    if all_digits(d, radix) {
        lemma_digits_value_grows(d, radix, k);
    }
}

/// `u32::from_str_radix(v[lo..hi], radix).ok()`.
pub fn parse_u32_radix_range(v: &[char], lo: usize, hi: usize, radix: u32) -> (r: Option<u32>)
    requires
        lo <= hi <= v.len(),
        2 <= radix <= 36,
    ensures
        r == parse_u32_radix(v@.subrange(lo as int, hi as int), radix),
{
    let ghost s = v@.subrange(lo as int, hi as int);
    if lo == hi {
        return None;
    }
    let start = if v[lo] == '+' {
        lo + 1
    } else {
        lo
    };
    assert(unsigned_digits(s) =~= v@.subrange(start as int, hi as int));
    if start == hi {
        return None;
    }
    match digits_up_to(v, start, hi, radix, 0xFFFF_FFFF) {
        Some(x) => Some(x as u32),
        None => None,
    }
}

/// `s.parse::<i64>().ok()` for `v[lo..hi]`.
pub fn parse_i64_range(v: &[char], lo: usize, hi: usize) -> (r: Option<i64>)
    requires
        lo <= hi <= v.len(),
    ensures
        r == parse_i64(v@.subrange(lo as int, hi as int)),
{
    let ghost s = v@.subrange(lo as int, hi as int);
    let neg = lo < hi && v[lo] == '-';
    let start = if lo < hi && (v[lo] == '+' || v[lo] == '-') {
        lo + 1
    } else {
        lo
    };
    let ghost d = v@.subrange(start as int, hi as int);
    assert(d =~= (if s.len() > 0 && (s[0] == '+' || s[0] == '-') {
        s.drop_first()
    } else {
        s
    }));
    if start == hi {
        return None;
    }
    let limit: u128 = if neg {
        0x8000_0000_0000_0000
    } else {
        0x7FFF_FFFF_FFFF_FFFF
    };
    match digits_up_to(v, start, hi, 10, limit) {
        Some(x) => {
            if neg {
                if x == 0x8000_0000_0000_0000 {
                    Some(i64::MIN)
                } else {
                    let y = x as i64;
                    Some(-y)
                }
            } else {
                Some(x as i64)
            }
        },
        None => None,
    }
}

/// The two decimal digits of `n` (`format!("{:02}", n)` for `n < 100`).
pub open spec fn two_digits(n: int) -> Seq<char> {
    seq![((n / 10) + 0x30) as char, ((n % 10) + 0x30) as char]
}

pub fn push_two_digits(s: &mut String, n: u64)
    requires
        n < 100,
    ensures
        final(s)@ == old(s)@ + two_digits(n as int),
{
    let hi = (n / 10) as u8;
    let lo = (n % 10) as u8;
    crate::text::push_char(s, (hi + 0x30) as char);
    crate::text::push_char(s, (lo + 0x30) as char);
    assert(final(s)@ =~= old(s)@ + two_digits(n as int));
}

/// The decimal digits of `n`, without leading zeros (`n.to_string()`).
pub open spec fn decimal(n: nat) -> Seq<char>
    decreases n,
{
    if n < 10 {
        seq![(n + 0x30) as char]
    } else {
        decimal(n / 10).push(((n % 10) + 0x30) as char)
    }
}

/// Appends the decimal digits of `n`.
pub fn push_decimal(s: &mut String, n: u64)
    ensures
        final(s)@ == old(s)@ + decimal(n as nat),
    decreases n,
{
    if n >= 10 {
        push_decimal(s, n / 10);
    }
    let d = (n % 10) as u8;
    crate::text::push_char(s, (d + 0x30) as char);
    assert(final(s)@ =~= old(s)@ + decimal(n as nat));
}

} // verus!
