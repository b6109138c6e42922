//! Conversions between `str`, `String` and character sequences.
use vstd::prelude::*;

verus! {

broadcast use vstd::string::group_string_axioms;

/// The characters of `s`, in order.
pub fn chars_of(s: &str) -> (out: Vec<char>)
    ensures
        out@ == s@,
{
    let mut out: Vec<char> = Vec::new();
    for c in it: s.chars()
        invariant
            out@ == it.seq().take(it.index() as int),
            it.seq() == s@,
    {
        out.push(c);
    }
    out
}

/// Builds a `String` holding exactly the characters of `cs`.
///
/// Trusted: calls std's `FromIterator<&char> for String` (`collect`), which
/// appends the characters in order.
#[verifier::external_body]
pub(crate) fn string_from_chars(cs: &[char]) -> (s: String)
    ensures
        s@ == cs@,
{
    cs.iter().collect()
}

// ---------------------------------------------------------------------------
// Decimal numbers.
// ---------------------------------------------------------------------------

pub open spec fn is_decimal_digit(c: char) -> bool {
    '0' <= c && c <= '9'
}

pub open spec fn all_decimal_digits(s: Seq<char>) -> bool {
    forall|i: int| 0 <= i < s.len() ==> is_decimal_digit(#[trigger] s[i])
}

pub open spec fn digit_value(c: char) -> int {
    c as int - '0' as int
}

/// The number that the decimal digits `s` spell.
pub open spec fn digits_value(s: Seq<char>) -> int
    decreases s.len(),
{
    if s.len() == 0 {
        0
    } else {
        digits_value(s.drop_last()) * 10 + digit_value(s.last())
    }
}

/// What `i64::from_str` gives for the text `s`: an optional `+` or `-`, then
/// one or more decimal digits, with a value in range.
pub open spec fn spec_parse_i64(s: Seq<char>) -> Option<i64> {
    let negative = s.len() > 0 && s[0] == '-';
    let digits = if s.len() > 0 && (s[0] == '-' || s[0] == '+') {
        s.drop_first()
    } else {
        s
    };
    let value = if negative {
        -digits_value(digits)
    } else {
        digits_value(digits)
    };
    if digits.len() == 0 || !all_decimal_digits(digits) {
        None
    } else if i64::MIN <= value <= i64::MAX {
        Some(value as i64)
    } else {
        None
    }
}

proof fn lemma_digits_value_nonneg(s: Seq<char>)
    requires
        all_decimal_digits(s),
    ensures
        digits_value(s) >= 0,
    decreases s.len(),
{
    if s.len() > 0 {
        assert(all_decimal_digits(s.drop_last()));
        lemma_digits_value_nonneg(s.drop_last());
    }
}

/// Appending digits never makes the value smaller.
proof fn lemma_digits_value_grows(s: Seq<char>, i: int)
    requires
        all_decimal_digits(s),
        0 <= i <= s.len(),
    ensures
        digits_value(s.take(i)) <= digits_value(s),
    decreases s.len() - i,
{
    if i < s.len() {
        lemma_digits_value_grows(s, i + 1);
        assert(s.take(i + 1).drop_last() =~= s.take(i));
        assert(s.take(i + 1).last() == s[i]);
        assert(all_decimal_digits(s.take(i)));
        lemma_digits_value_nonneg(s.take(i));
        assert(is_decimal_digit(s[i]));
        assert(digits_value(s.take(i + 1)) == digits_value(s.take(i)) * 10 + digit_value(s[i]));
    } else {
        assert(s.take(i) =~= s);
    }
}

/// Reads a decimal integer as `i64::from_str` does.
pub fn parse_i64(text: &String) -> (r: Option<i64>)
    ensures
        r == spec_parse_i64(text@),
{
    let s = chars_of(text.as_str());
    let negative = s.len() > 0 && s[0] == '-';
    let start: usize = if s.len() > 0 && (s[0] == '-' || s[0] == '+') {
        1
    } else {
        0
    };
    let ghost digits = s@.subrange(start as int, s@.len() as int);
    proof {
        if start == 1 {
            assert(digits =~= s@.drop_first());
        } else {
            assert(digits =~= s@);
        }
    }
    if start == s.len() {
        return None;
    }
    let mut acc: i128 = 0;
    let mut i = start;
    while i < s.len()
        invariant
            start <= i <= s@.len(),
            start <= 1,
            s@ == text@,
            start == 1 ==> digits == s@.drop_first() && (s@[0] == '-' || s@[0] == '+'),
            start == 0 ==> digits == s@ && !(s@.len() > 0 && (s@[0] == '-' || s@[0] == '+')),
            negative == (s@.len() > 0 && s@[0] == '-'),
            digits == s@.subrange(start as int, s@.len() as int),
            all_decimal_digits(digits.take(i - start)),
            acc == digits_value(digits.take(i - start)),
            0 <= acc <= 9223372036854775808,
        decreases s@.len() - i,
    {
        let c = s[i];
        if !('0' <= c && c <= '9') {
            proof {
                assert(digits[i - start] == c);
                assert(!is_decimal_digit(digits[i - start]));
                assert(!all_decimal_digits(digits));
            }
            return None;
        }
        let d = (c as u32 - '0' as u32) as i128;
        proof {
            assert(digits.take(i - start + 1).drop_last() =~= digits.take(i - start));
            assert(digits.take(i - start + 1).last() == c);
            assert(all_decimal_digits(digits.take(i - start + 1)));
        }
        acc = acc * 10 + d;
        i = i + 1;
        if acc > 9223372036854775808 {
            proof {
                if all_decimal_digits(digits) {
                    lemma_digits_value_grows(digits, i - start);
                    assert(digits_value(digits) > 9223372036854775808);
                }
            }
            return None;
        }
    }
    proof {
        assert(digits.take(i - start) =~= digits);
    }
    if negative {
        Some((0 - acc) as i64)
    } else if acc <= 9223372036854775807 {
        Some(acc as i64)
    } else {
        None
    }
}

pub open spec fn digit_char(d: nat) -> char {
    (('0' as nat) + d) as char
}

/// The decimal digits of `n`, without leading zeros.
pub open spec fn unsigned_decimal(n: nat) -> Seq<char>
    decreases n,
{
    if n < 10 {
        seq![digit_char(n)]
    } else {
        unsigned_decimal(n / 10) + seq![digit_char(n % 10)]
    }
}

/// How `n` is written in decimal, as `i64`'s `Display` writes it.
pub open spec fn decimal(n: i64) -> Seq<char> {
    if n < 0 {
        seq!['-'] + unsigned_decimal((-(n as int)) as nat)
    } else {
        unsigned_decimal(n as nat)
    }
}

pub fn push_unsigned_decimal(n: u64, out: &mut Vec<char>)
    ensures
        final(out)@ == old(out)@ + unsigned_decimal(n as nat),
    decreases n,
{
    let digits = ['0', '1', '2', '3', '4', '5', '6', '7', '8', '9'];
    if n >= 10 {
        push_unsigned_decimal(n / 10, out);
    }
    let d = (n % 10) as usize;
    let c = digits[d];
    proof {
        assert(c == digit_char(d as nat)) by {
            assert(digits@[d as int] == c);
        }
    }
    out.push(c);
    proof {
        if n >= 10 {
            assert(old(out)@ + unsigned_decimal(n as nat) =~= old(out)@ + unsigned_decimal((n / 10) as nat) + seq![c]);
        } else {
            assert(old(out)@ + unsigned_decimal(n as nat) =~= old(out)@ + seq![c]);
        }
    }
}

/// Appends the decimal text of `n` to `out`.
pub fn push_decimal(n: i64, out: &mut Vec<char>)
    ensures
        final(out)@ == old(out)@ + decimal(n),
{
    if n < 0 {
        out.push('-');
        let magnitude: u64 = if n == i64::MIN {
            9223372036854775808u64
        } else {
            (0 - n) as u64
        };
        push_unsigned_decimal(magnitude, out);
        assert(old(out)@ + decimal(n) =~= old(out)@.push('-') + unsigned_decimal(magnitude as nat));
    } else {
        push_unsigned_decimal(n as u64, out);
    }
}

} // verus!
