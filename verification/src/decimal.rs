//! Decimal notation of integers: reading it, writing it, and the law that
//! reading what was written gives the number back.

use vstd::prelude::*;
use vstd::string::StringExecFns;

use crate::text::to_chars;

verus! {

/// Whether `c` is one of the ten decimal digits.
pub open spec fn is_digit(c: char) -> bool {
    '0' <= c <= '9'
}

/// The number that the digit `c` stands for.
pub open spec fn digit_of(c: char) -> nat {
    (c as int - '0' as int) as nat
}

/// The digit that stands for `d`, a number below ten.
pub open spec fn digit_char(d: nat) -> char {
    (('0' as u8 + d) as u8) as char
}

/// Whether every character of `s` is a decimal digit.
pub open spec fn all_digits(s: Seq<char>) -> bool {
    forall|i: int| 0 <= i < s.len() ==> is_digit(#[trigger] s[i])
}

/// The number that a row of digits denotes; the empty row denotes zero.
pub open spec fn digits_value(s: Seq<char>) -> nat
    decreases s.len(),
{
    if s.len() == 0 {
        0
    } else {
        digits_value(s.drop_last()) * 10 + digit_of(s.last())
    }
}

/// The digits of `n`, without leading zeros.
pub open spec fn nat_digits(n: nat) -> Seq<char>
    decreases n,
{
    if n < 10 {
        seq![digit_char(n)]
    } else {
        nat_digits(n / 10).push(digit_char(n % 10))
    }
}

/// The decimal notation of `i`: a minus sign where it is negative, then its digits.
pub open spec fn int_text(i: int) -> Seq<char> {
    if i < 0 {
        seq!['-'] + nat_digits((-i) as nat)
    } else {
        nat_digits(i as nat)
    }
}

/// The number that `s` denotes where it is a non-empty row of digits that
/// denotes at most `limit`.
pub open spec fn parse_digits(s: Seq<char>, limit: nat) -> Option<nat> {
    if s.len() > 0 && all_digits(s) && digits_value(s) <= limit {
        Some(digits_value(s))
    } else {
        None
    }
}

/// The non-negative number below 2^32 that `s` denotes: digits, after an
/// optional plus sign.
pub open spec fn parse_index(s: Seq<char>) -> Option<nat> {
    if s.len() > 0 && s[0] == '+' {
        parse_digits(s.drop_first(), 0xffff_ffff)
    } else {
        parse_digits(s, 0xffff_ffff)
    }
}

/// The 64-bit signed number that `s` denotes: digits, after an optional sign.
pub open spec fn parse_int(s: Seq<char>) -> Option<int> {
    if s.len() > 0 && s[0] == '-' {
        match parse_digits(s.drop_first(), 0x8000_0000_0000_0000) {
            Some(n) => Some(-(n as int)),
            None => None,
        }
    } else if s.len() > 0 && s[0] == '+' {
        match parse_digits(s.drop_first(), 0x7fff_ffff_ffff_ffff) {
            Some(n) => Some(n as int),
            None => None,
        }
    } else {
        match parse_digits(s, 0x7fff_ffff_ffff_ffff) {
            Some(n) => Some(n as int),
            None => None,
        }
    }
}

/// A row of digits denotes at least what any of its beginnings denotes.
pub proof fn lemma_prefix_value(s: Seq<char>, k: int)
    requires
        0 <= k <= s.len(),
    ensures
        digits_value(s.take(k)) <= digits_value(s),
    decreases s.len(),
{
    if k == s.len() {
        assert(s.take(k) =~= s);
    } else {
        lemma_prefix_value(s.drop_last(), k);
        assert(s.drop_last().take(k) =~= s.take(k));
    }
}

/// The digits of a number are digits, at least one, and denote that number.
pub proof fn lemma_nat_digits(n: nat)
    ensures
        nat_digits(n).len() > 0,
        all_digits(nat_digits(n)),
        digits_value(nat_digits(n)) == n,
    decreases n,
{
    if n < 10 {
        let s = nat_digits(n);
        assert(s.drop_last() =~= Seq::<char>::empty());
        assert(digits_value(s.drop_last()) == 0);
        assert(digit_of(s.last()) == n);
    } else {
        lemma_nat_digits(n / 10);
        let s = nat_digits(n);
        assert(s.drop_last() =~= nat_digits(n / 10));
        assert(digit_of(s.last()) == n % 10);
    }
}

/// Reading the decimal notation of a 64-bit signed number gives that number.
pub proof fn lemma_int_round_trip(i: int)
    requires
        i64::MIN <= i <= i64::MAX,
    ensures
        parse_int(int_text(i)) == Some(i),
{
    if i < 0 {
        let n = (-i) as nat;
        lemma_nat_digits(n);
        assert(int_text(i).drop_first() =~= nat_digits(n));
    } else {
        lemma_nat_digits(i as nat);
        assert(is_digit(nat_digits(i as nat)[0]));
    }
}

/// Reads the digits of `chars` from `start` to its end.
fn read_digits(chars: &Vec<char>, start: usize, limit: u64) -> (r: Option<u64>)
    requires
        start <= chars@.len(),
    ensures
        r matches Some(n) ==> parse_digits(chars@.skip(start as int), limit as nat) == Some(
            n as nat,
        ),
        r is None ==> parse_digits(chars@.skip(start as int), limit as nat) is None,
{
    let ghost s = chars@.skip(start as int);
    if start == chars.len() {
        return None;
    }
    let mut acc: u64 = 0;
    let mut i: usize = start;
    while i < chars.len()
        invariant
            start <= i <= chars@.len(),
            s == chars@.skip(start as int),
            all_digits(s.take(i - start)),
            acc as nat == digits_value(s.take(i - start)),
            acc <= limit,
        decreases chars@.len() - i,
    {
        let c = chars[i];
        assert(s[i - start] == c);
        if c < '0' || c > '9' {
            return None;
        }
        let d: u64 = (c as u64) - ('0' as u64);
        let wide: u128 = (acc as u128) * 10 + (d as u128);
        proof {
            let next = s.take(i - start + 1);
            assert(next.drop_last() =~= s.take(i - start));
            assert(next.last() == c);
            assert(digits_value(next) == wide);
            assert forall|j: int| 0 <= j < next.len() implies is_digit(#[trigger] next[j]) by {
                if j < i - start {
                    assert(s.take(i - start)[j] == next[j]);
                }
            }
            lemma_prefix_value(s, i - start + 1);
        }
        if wide > limit as u128 {
            return None;
        }
        acc = wide as u64;
        i = i + 1;
    }
    assert(s.take(i - start) =~= s);
    Some(acc)
}

/// Reads a non-negative number below 2^32.
pub fn parse_u32(text: &str) -> (r: Option<u32>)
    ensures
        r matches Some(n) ==> parse_index(text@) == Some(n as nat),
        r is None ==> parse_index(text@) is None,
{
    let chars = to_chars(text);
    let start: usize = if chars.len() > 0 && chars[0] == '+' {
        1
    } else {
        0
    };
    assert(chars@.skip(0) =~= chars@);
    match read_digits(&chars, start, 0xffff_ffff) {
        Some(n) => Some(n as u32),
        None => None,
    }
}

/// Reads a 64-bit signed number.
pub fn parse_i64(text: &str) -> (r: Option<i64>)
    ensures
        r matches Some(n) ==> parse_int(text@) == Some(n as int),
        r is None ==> parse_int(text@) is None,
{
    let chars = to_chars(text);
    assert(chars@.skip(0) =~= chars@);
    if chars.len() > 0 && chars[0] == '-' {
        match read_digits(&chars, 1, 0x8000_0000_0000_0000) {
            Some(n) => {
                if n == 0x8000_0000_0000_0000 {
                    Some(i64::MIN)
                } else {
                    Some(-(n as i64))
                }
            },
            None => None,
        }
    } else if chars.len() > 0 && chars[0] == '+' {
        match read_digits(&chars, 1, 0x7fff_ffff_ffff_ffff) {
            Some(n) => Some(n as i64),
            None => None,
        }
    } else {
        match read_digits(&chars, 0, 0x7fff_ffff_ffff_ffff) {
            Some(n) => Some(n as i64),
            None => None,
        }
    }
}

/// The text of one digit.
fn digit_str(d: u64) -> (r: &'static str)
    requires
        d < 10,
    ensures
        r@ == seq![digit_char(d as nat)],
{
    proof {
        reveal_strlit("0");
        reveal_strlit("1");
        reveal_strlit("2");
        reveal_strlit("3");
        reveal_strlit("4");
        reveal_strlit("5");
        reveal_strlit("6");
        reveal_strlit("7");
        reveal_strlit("8");
        reveal_strlit("9");
    }
    let r = if d == 0 {
        "0"
    } else if d == 1 {
        "1"
    } else if d == 2 {
        "2"
    } else if d == 3 {
        "3"
    } else if d == 4 {
        "4"
    } else if d == 5 {
        "5"
    } else if d == 6 {
        "6"
    } else if d == 7 {
        "7"
    } else if d == 8 {
        "8"
    } else {
        "9"
    };
    assert(r@ =~= seq![digit_char(d as nat)]);
    r
}

/// Writes the digits of `n` at the end of `out`.
pub fn push_u64(out: &mut String, n: u64)
    ensures
        final(out)@ == old(out)@ + nat_digits(n as nat),
    decreases n,
{
    if n >= 10 {
        push_u64(out, n / 10);
    }
    out.append(digit_str(n % 10));
    assert(final(out)@ =~= old(out)@ + nat_digits(n as nat));
}

/// Writes the decimal notation of `i` at the end of `out`.
pub fn push_i64(out: &mut String, i: i64)
    ensures
        final(out)@ == old(out)@ + int_text(i as int),
{
    if i < 0 {
        proof {
            reveal_strlit("-");
        }
        out.append("-");
        let mag: u64 = if i == i64::MIN {
            0x8000_0000_0000_0000
        } else {
            (-i) as u64
        };
        push_u64(out, mag);
        assert(final(out)@ =~= old(out)@ + int_text(i as int));
    } else {
        push_u64(out, i as u64);
    }
}

/// The decimal notation of `i`.
pub fn i64_to_string(i: i64) -> (r: String)
    ensures
        r@ == int_text(i as int),
{
    let mut out = String::new();
    push_i64(&mut out, i);
    assert(out@ =~= int_text(i as int));
    out
}

} // verus!
