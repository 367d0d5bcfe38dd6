//! Decimal integers in text: reading them the way `str::parse` reads an
//! `i32` or an `i64`, and writing them the way `to_string` does.
use vstd::prelude::*;

use crate::text::chars_of;

verus! {

broadcast use vstd::seq_lib::group_seq_properties;

/// An ASCII decimal digit.
pub open spec fn is_digit(c: char) -> bool {
    '0' <= c && c <= '9'
}

/// The value of a digit character.
pub open spec fn digit_value(c: char) -> int {
    (c as int) - ('0' as int)
}

/// Every character of `s` is an ASCII decimal digit.
pub open spec fn all_digits(s: Seq<char>) -> bool {
    forall|i: int| 0 <= i < s.len() ==> is_digit(#[trigger] s[i])
}

/// The number that the digits `s` write in base ten (0 for no digits).
pub open spec fn digits_value(s: Seq<char>) -> int
    decreases s.len(),
{
    if s.len() == 0 {
        0
    } else {
        digits_value(s.drop_last()) * 10 + digit_value(s.last())
    }
}

/// The integer that `s` writes: an optional `+` or `-` followed by at least
/// one ASCII digit, and nothing else. `None` for any other text.
pub open spec fn parse_int(s: Seq<char>) -> Option<int> {
    if s.len() > 0 && (s[0] == '+' || s[0] == '-') {
        let d = s.skip(1);
        if d.len() > 0 && all_digits(d) {
            if s[0] == '-' {
                Some(-digits_value(d))
            } else {
                Some(digits_value(d))
            }
        } else {
            None
        }
    } else if s.len() > 0 && all_digits(s) {
        Some(digits_value(s))
    } else {
        None
    }
}

/// What `str::parse::<i32>` gives back for `s`: the integer it writes, when
/// that fits in an `i32`.
pub open spec fn parse_i32_spec(s: Seq<char>) -> Option<i32> {
    match parse_int(s) {
        Some(v) => if i32::MIN <= v <= i32::MAX {
            Some(v as i32)
        } else {
            None
        },
        None => None,
    }
}

/// What `str::parse::<i64>` gives back for `s`: the integer it writes, when
/// that fits in an `i64`.
pub open spec fn parse_i64_spec(s: Seq<char>) -> Option<i64> {
    match parse_int(s) {
        Some(v) => if i64::MIN <= v <= i64::MAX {
            Some(v as i64)
        } else {
            None
        },
        None => None,
    }
}

proof fn lemma_digits_value_nonneg(s: Seq<char>)
    requires
        all_digits(s),
    ensures
        digits_value(s) >= 0,
    decreases s.len(),
{
    if s.len() > 0 {
        lemma_digits_value_nonneg(s.drop_last());
    }
}

/// Appending digits never makes the value smaller.
proof fn lemma_digits_value_monotone(s: Seq<char>, k: int)
    requires
        all_digits(s),
        0 <= k <= s.len(),
    ensures
        digits_value(s.take(k)) <= digits_value(s),
    decreases s.len(),
{
    if k < s.len() {
        assert(s.drop_last().take(k) =~= s.take(k));
        lemma_digits_value_monotone(s.drop_last(), k);
        lemma_digits_value_nonneg(s.drop_last());
    } else {
        assert(s.take(k) =~= s);
    }
}

/// The value of the digits `s[start..]`, when they are all digits and the
/// value is at most `limit`.
fn digits_bounded(s: &Vec<char>, start: usize, limit: u64) -> (r: Option<u64>)
    requires
        start <= s.len(),
    ensures
        r matches Some(v) ==> all_digits(s@.skip(start as int)) && v == digits_value(
            s@.skip(start as int),
        ) && v <= limit,
        r is None ==> !all_digits(s@.skip(start as int)) || digits_value(s@.skip(start as int))
            > limit,
{
    let ghost d = s@.skip(start as int);
    let mut acc: u128 = 0;
    let mut i: usize = start;
    assert(d.take(0) =~= Seq::<char>::empty());
    while i < s.len()
        invariant
            start <= i <= s.len(),
            d == s@.skip(start as int),
            all_digits(d.take(i - start)),
            acc == digits_value(d.take(i - start)),
            acc <= limit,
        decreases s.len() - i,
    {
        let c = s[i];
        let ghost pre = d.take(i - start);
        let ghost next = d.take(i - start + 1);
        assert(next.drop_last() =~= pre);
        assert(next.last() == c);
        if c < '0' || c > '9' {
            assert(d[i - start] == c);
            return None;
        }
        let dv = ((c as u32) - ('0' as u32)) as u128;
        acc = acc * 10 + dv;
        assert(all_digits(next)) by {
            assert forall|j: int| 0 <= j < next.len() implies is_digit(#[trigger] next[j]) by {
                if j < pre.len() {
                    assert(next[j] == pre[j]);
                }
            }
        }
        if acc > limit as u128 {
            proof {
                if all_digits(d) {
                    lemma_digits_value_monotone(d, i - start + 1);
                }
            }
            return None;
        }
        i = i + 1;
    }
    assert(d.take(i - start) =~= d);
    Some(acc as u64)
}

/// Reads `s` as an integer between `lo` and `hi` (`-2^63 <= lo <= 0 <= hi < 2^63`).
fn parse_between(s: &Vec<char>, lo: i64, hi: i64) -> (r: Option<i64>)
    requires
        lo <= 0 <= hi,
    ensures
        r matches Some(v) ==> parse_int(s@) == Some(v as int),
        r is None <==> !(parse_int(s@) matches Some(v) && lo <= v <= hi),
{
    if s.len() == 0 {
        return None;
    }
    let first = s[0];
    if first == '+' || first == '-' {
        if s.len() == 1 {
            return None;
        }
        if first == '-' {
            let limit: u64 = (0i128 - lo as i128) as u64;
            match digits_bounded(s, 1, limit) {
                Some(m) => {
                    Some((0i128 - m as i128) as i64)
                },
                None => None,
            }
        } else {
            match digits_bounded(s, 1, hi as u64) {
                Some(m) => Some(m as i64),
                None => None,
            }
        }
    } else {
        assert(s@.skip(0) =~= s@);
        match digits_bounded(s, 0, hi as u64) {
            Some(m) => Some(m as i64),
            None => {
                assert(!is_digit('+') && !is_digit('-'));
                None
            },
        }
    }
}

/// `s` read as an `i32`, as `str::parse::<i32>` reads it.
pub fn parse_i32(s: &str) -> (r: Option<i32>)
    ensures
        r == parse_i32_spec(s@),
{
    parse_i32_chars(&chars_of(s))
}

/// The characters `v` read as an `i32`, as `str::parse::<i32>` reads them.
pub fn parse_i32_chars(v: &Vec<char>) -> (r: Option<i32>)
    ensures
        r == parse_i32_spec(v@),
{
    match parse_between(v, i32::MIN as i64, i32::MAX as i64) {
        Some(x) => Some(x as i32),
        None => None,
    }
}

/// `s` read as an `i64`, as `str::parse::<i64>` reads it.
pub fn parse_i64(s: &str) -> (r: Option<i64>)
    ensures
        r == parse_i64_spec(s@),
{
    parse_i64_chars(&chars_of(s))
}

/// The characters `v` read as an `i64`, as `str::parse::<i64>` reads them.
pub fn parse_i64_chars(v: &Vec<char>) -> (r: Option<i64>)
    ensures
        r == parse_i64_spec(v@),
{
    parse_between(v, i64::MIN, i64::MAX)
}

// ----------------------------------------------------------------------------
// Writing integers
// ----------------------------------------------------------------------------

/// The character of a digit `0 <= d < 10`.
pub open spec fn digit_char(d: int) -> char {
    (d + ('0' as int)) as char
}

/// The decimal digits of `n`, without leading zeros (`"0"` for zero).
pub open spec fn nat_digits(n: nat) -> Seq<char>
    decreases n,
{
    if n < 10 {
        seq![digit_char(n as int)]
    } else {
        nat_digits(n / 10).push(digit_char((n % 10) as int))
    }
}

/// The decimal text of `n`: its digits, after a `-` when it is negative.
pub open spec fn decimal(n: int) -> Seq<char> {
    if n < 0 {
        seq!['-'] + nat_digits((-n) as nat)
    } else {
        nat_digits(n as nat)
    }
}

proof fn lemma_nat_digits(n: nat)
    ensures
        nat_digits(n).len() > 0,
        all_digits(nat_digits(n)),
        digits_value(nat_digits(n)) == n,
    decreases n,
{
    let s = nat_digits(n);
    if n >= 10 {
        lemma_nat_digits(n / 10);
        assert(s.drop_last() =~= nat_digits(n / 10));
        assert(digit_value(digit_char((n % 10) as int)) == n % 10);
        assert((n / 10) * 10 + n % 10 == n);
        assert(s.last() == digit_char((n % 10) as int));
        assert(digits_value(s) == n);
        assert forall|i: int| 0 <= i < s.len() implies is_digit(#[trigger] s[i]) by {
            if i < s.len() - 1 {
                assert(s[i] == nat_digits(n / 10)[i]);
            }
        }
    } else {
        assert(s.drop_last() =~= Seq::<char>::empty());
        assert(digits_value(Seq::<char>::empty()) == 0);
        assert(s.last() == digit_char(n as int));
        assert(digit_value(digit_char(n as int)) == n);
        assert(digits_value(s) == n);
    }
}

/// The decimal text of an integer is made of digits and, first, perhaps a
/// `-`; it is never empty.
pub proof fn lemma_decimal_chars(n: int)
    ensures
        decimal(n).len() > 0,
        forall|i: int| 0 <= i < decimal(n).len() ==> is_digit(#[trigger] decimal(n)[i]) || (i == 0
            && decimal(n)[i] == '-'),
{
    if n < 0 {
        lemma_nat_digits((-n) as nat);
        assert forall|i: int| 0 < i < decimal(n).len() implies is_digit(#[trigger] decimal(n)[i]) by {
            assert(decimal(n)[i] == nat_digits((-n) as nat)[i - 1]);
        }
    } else {
        lemma_nat_digits(n as nat);
    }
}

/// Reading the decimal text of any integer gives that integer back.
pub proof fn lemma_decimal_roundtrip(n: int)
    ensures
        parse_int(decimal(n)) == Some(n),
{
    if n < 0 {
        lemma_nat_digits((-n) as nat);
        assert(decimal(n).skip(1) =~= nat_digits((-n) as nat));
    } else {
        lemma_nat_digits(n as nat);
        assert(is_digit(decimal(n)[0]));
    }
}

/// Reading the decimal text of an `i32` as an `i32` gives it back.
pub proof fn lemma_decimal_roundtrip_i32(n: i32)
    ensures
        parse_i32_spec(decimal(n as int)) == Some(n),
{
    lemma_decimal_roundtrip(n as int);
}

fn push_digits(m: u64, out: &mut Vec<char>)
    ensures
        final(out)@ == old(out)@ + nat_digits(m as nat),
    decreases m,
{
    if m >= 10 {
        push_digits(m / 10, out);
    }
    let d = (m % 10) as u8;
    let c = (d + 48u8) as char;
    out.push(c);
}

/// The decimal text of `n`, as `n.to_string()` writes it.
pub fn decimal_i64(n: i64) -> (r: Vec<char>)
    ensures
        r@ == decimal(n as int),
{
    let mut out: Vec<char> = Vec::new();
    if n < 0 {
        out.push('-');
        let m: u64 = (0i128 - n as i128) as u64;
        push_digits(m, &mut out);
    } else {
        push_digits(n as u64, &mut out);
    }
    out
}

} // verus!
