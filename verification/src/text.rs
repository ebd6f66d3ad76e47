//! Character-level text utilities: string equality, decimal parsing and
//! decimal formatting, each specified against `Seq<char>` views.
//!
//! The wire form of a timestamp is a decimal integer (seconds of epoch
//! offset), an optional leading `-` followed by one or more ASCII digits,
//! whose value fits in `i64`.

use vstd::prelude::*;

verus! {

/// Character-by-character string equality, proved against the views.
pub fn str_eq(a: &str, b: &str) -> (r: bool)
    ensures
        r == (a@ == b@),
{
    let a_len = a.unicode_len();
    let b_len = b.unicode_len();
    if a_len != b_len {
        proof {
            assert(a@ != b@);
        }
        return false;
    }
    let mut i: usize = 0;
    while i < a_len
        invariant
            a_len == a@.len(),
            b_len == b@.len(),
            a_len == b_len,
            i <= a_len,
            forall|j: int| 0 <= j < i ==> a@[j] == b@[j],
        decreases a_len - i,
    {
        if a.get_char(i) != b.get_char(i) {
            return false;
        }
        i = i + 1;
    }
    proof {
        assert(a@ =~= b@);
    }
    true
}

/// An ASCII decimal digit.
pub open spec fn is_digit(c: char) -> bool {
    48 <= c as int && c as int <= 57
}

/// The numeric value of an ASCII digit.
pub open spec fn digit_val(c: char) -> int {
    c as int - 48
}

/// Every character of `s` is an ASCII digit.
pub open spec fn all_digits(s: Seq<char>) -> bool {
    forall|i: int| 0 <= i < s.len() ==> is_digit(#[trigger] s[i])
}

/// The value of a digit string read most-significant first.
pub open spec fn digits_val(s: Seq<char>) -> int
    decreases s.len(),
{
    if s.len() == 0 {
        0
    } else {
        10 * digits_val(s.drop_last()) + digit_val(s.last())
    }
}

/// The digit part of a timestamp text: everything after a leading `-`,
/// or the whole text when there is none.
pub open spec fn digits_part(s: Seq<char>) -> Seq<char> {
    if s.len() > 0 && s[0] == '-' {
        s.subrange(1, s.len() as int)
    } else {
        s
    }
}

/// The signed value a timestamp text denotes.
pub open spec fn timestamp_val(s: Seq<char>) -> int {
    if s.len() > 0 && s[0] == '-' {
        -digits_val(digits_part(s))
    } else {
        digits_val(s)
    }
}

/// A well-formed timestamp text: an optional `-`, then one or more ASCII
/// digits, denoting a value that fits in `i64`.
pub open spec fn is_timestamp_text(s: Seq<char>) -> bool {
    &&& digits_part(s).len() > 0
    &&& all_digits(digits_part(s))
    &&& i64::MIN <= timestamp_val(s) <= i64::MAX
}

/// A digit string denotes a non-negative value.
proof fn lemma_digits_val_nonneg(s: Seq<char>)
    requires
        all_digits(s),
    ensures
        digits_val(s) >= 0,
    decreases s.len(),
{
    if s.len() > 0 {
        assert(all_digits(s.drop_last())) by {
            assert(forall|i: int|
                0 <= i < s.drop_last().len() ==> s.drop_last()[i] == #[trigger] s[i]);
        }
        lemma_digits_val_nonneg(s.drop_last());
    }
}

/// A digit string is worth at least any of its prefixes.
proof fn lemma_digits_val_prefix(s: Seq<char>, n: int)
    requires
        all_digits(s),
        0 <= n <= s.len(),
    ensures
        digits_val(s.subrange(0, n)) <= digits_val(s),
    decreases s.len(),
{
    lemma_digits_val_nonneg(s);
    if n == s.len() {
        assert(s.subrange(0, n) =~= s);
    } else {
        assert(all_digits(s.drop_last())) by {
            assert(forall|i: int|
                0 <= i < s.drop_last().len() ==> s.drop_last()[i] == #[trigger] s[i]);
        }
        lemma_digits_val_nonneg(s.drop_last());
        lemma_digits_val_prefix(s.drop_last(), n);
        assert(s.drop_last().subrange(0, n) =~= s.subrange(0, n));
    }
}

/// Parse a timestamp text to its value; `None` exactly when the text is not
/// a well-formed timestamp.
pub fn parse_timestamp(s: &str) -> (r: Option<i64>)
    ensures
        match r {
            Some(v) => is_timestamp_text(s@) && v == timestamp_val(s@),
            None => !is_timestamp_text(s@),
        },
{
    let len = s.unicode_len();
    if len == 0 {
        return None;
    }
    let neg = s.get_char(0) == '-';
    let start: usize = if neg { 1 } else { 0 };
    if start == len {
        return None;
    }
    let ghost digits = digits_part(s@);
    proof {
        assert(digits =~= s@.subrange(start as int, len as int));
    }
    let limit: u64 = if neg {
        9223372036854775808
    } else {
        9223372036854775807
    };
    let mut mag: u64 = 0;
    let mut i: usize = start;
    while i < len
        invariant
            len == s@.len(),
            start <= i <= len,
            start < len,
            start == 0 || start == 1,
            neg <==> (s@.len() > 0 && s@[0] == '-'),
            start == 1 <==> neg,
            digits == s@.subrange(start as int, len as int),
            limit == if neg { 9223372036854775808u64 } else { 9223372036854775807u64 },
            mag <= limit,
            all_digits(digits.subrange(0, i - start)),
            mag == digits_val(digits.subrange(0, i - start)),
        decreases len - i,
    {
        let c = s.get_char(i);
        let d: u32 = c as u32;
        let ghost done = digits.subrange(0, i - start);
        if d < 48 || d > 57 {
            proof {
                assert(digits[i - start] == s@[i as int]);
                assert(!is_digit(digits[i - start]));
            }
            return None;
        }
        let dv: u64 = (d - 48) as u64;
        proof {
            assert(digits.subrange(0, i + 1 - start).drop_last() =~= done);
            assert(digits.subrange(0, i + 1 - start).last() == s@[i as int]);
        }
        if mag > (limit - dv) / 10 {
            proof {
                if !neg {
                    assert(s@.subrange(start as int, len as int) =~= s@);
                }
                let next = digits.subrange(0, i + 1 - start);
                assert(digits_val(next) == 10 * mag + dv);
                assert(10 * mag + dv > limit) by (nonlinear_arith)
                    requires
                        mag > (limit - dv) / 10,
                        dv <= limit,
                {}
                if all_digits(digits) {
                    lemma_digits_val_prefix(digits, i + 1 - start);
                    assert(digits_val(digits) > limit);
                }
            }
            return None;
        }
        proof {
            assert(10 * mag + dv <= limit) by (nonlinear_arith)
                requires
                    mag <= (limit - dv) / 10,
                    dv <= limit,
            {}
        }
        mag = mag * 10 + dv;
        i = i + 1;
    }
    proof {
        assert(digits.subrange(0, len - start) =~= digits);
    }
    if neg {
        if mag == 9223372036854775808 {
            Some(i64::MIN)
        } else {
            Some(-(mag as i64))
        }
    } else {
        Some(mag as i64)
    }
}

/// The character of one decimal digit value.
pub open spec fn digit_char(d: int) -> char {
    if d == 0 {
        '0'
    } else if d == 1 {
        '1'
    } else if d == 2 {
        '2'
    } else if d == 3 {
        '3'
    } else if d == 4 {
        '4'
    } else if d == 5 {
        '5'
    } else if d == 6 {
        '6'
    } else if d == 7 {
        '7'
    } else if d == 8 {
        '8'
    } else {
        '9'
    }
}

/// The decimal digit string of a non-negative value, no leading zeros
/// except for the value zero itself.
pub open spec fn dec_digits(n: int) -> Seq<char>
    decreases n,
{
    if n < 10 {
        seq![digit_char(n)]
    } else {
        dec_digits(n / 10).push(digit_char(n % 10))
    }
}

/// The decimal text of a signed value.
pub open spec fn dec_int(v: int) -> Seq<char> {
    if v < 0 {
        seq!['-'] + dec_digits(-v)
    } else {
        dec_digits(v)
    }
}

/// The one-character string of a decimal digit.
fn digit_str(d: u64) -> (r: &'static str)
    requires
        d < 10,
    ensures
        r@ == seq![digit_char(d as int)],
{
    proof {
        reveal_strlit("0");
        reveal_strlit("1");
        reveal_strlit("2");
        reveal_strlit("3");
        reveal_strlit("4");
        reveal_strlit("5");
        reveal_strlit("6");
        reveal_strlit("7");
        reveal_strlit("8");
        reveal_strlit("9");
    }
    let r = match d {
        0 => "0",
        1 => "1",
        2 => "2",
        3 => "3",
        4 => "4",
        5 => "5",
        6 => "6",
        7 => "7",
        8 => "8",
        _ => "9",
    };
    proof {
        assert(r@ =~= seq![digit_char(d as int)]);
    }
    r
}

/// Format a non-negative value in decimal.
pub fn format_u64(n: u64) -> (r: String)
    ensures
        r@ == dec_digits(n as int),
    decreases n,
{
    if n < 10 {
        digit_str(n).to_owned()
    } else {
        let mut s = format_u64(n / 10);
        let d = digit_str(n % 10);
        s.append(d);
        proof {
            assert(s@ =~= dec_digits(n as int));
        }
        s
    }
}

/// Format a signed value in decimal.
pub fn format_i64(v: i64) -> (r: String)
    ensures
        r@ == dec_int(v as int),
{
    if v >= 0 {
        format_u64(v as u64)
    } else {
        let mag: u64 = if v == i64::MIN {
            9223372036854775808
        } else {
            (-v) as u64
        };
        proof {
            reveal_strlit("-");
        }
        let mut s = "-".to_owned();
        let rest = format_u64(mag);
        s.append(rest.as_str());
        proof {
            assert(s@ =~= dec_int(v as int));
        }
        s
    }
}

} // verus!

