//! Decimal numbers in file names: how a sequence number is read from a name
//! and how the next one is written.

use vstd::prelude::*;
use crate::text::{char_code, to_chars};

verus! {

/// The ten decimal digits, in order.
pub open spec fn digits() -> Seq<char> {
    "0123456789"@
}

/// The decimal writing of a natural number, without leading zeros.
pub open spec fn decimal(n: nat) -> Seq<char>
    decreases n,
{
    if n < 10 {
        seq![digits()[n as int]]
    } else {
        decimal(n / 10).push(digits()[(n % 10) as int])
    }
}

/// `k` zeros; none where `k` is not positive.
pub open spec fn zeros(k: int) -> Seq<char> {
    Seq::new(
        if k > 0 {
            k as nat
        } else {
            0
        },
        |i: int| '0',
    )
}

/// The decimal writing of an integer, filled with zeros behind its sign to
/// five characters at least.
pub open spec fn padded(n: int) -> Seq<char> {
    if n < 0 {
        seq!['-'] + zeros(4 - decimal((-n) as nat).len()) + decimal((-n) as nat)
    } else {
        zeros(5 - decimal(n as nat).len()) + decimal(n as nat)
    }
}

/// Whether a character is a decimal digit.
pub open spec fn is_digit(c: char) -> bool {
    '0' <= c && c <= '9'
}

/// The number that a sequence of decimal digits writes.
pub open spec fn digits_value(s: Seq<char>) -> nat
    decreases s.len(),
{
    if s.len() == 0 {
        0
    } else {
        (digits_value(s.drop_last()) * 10 + (s.last() as int - '0' as int)) as nat
    }
}

/// Whether every character is a decimal digit.
pub open spec fn all_digits(s: Seq<char>) -> bool {
    forall|i: int| 0 <= i < s.len() ==> is_digit(#[trigger] s[i])
}

/// The 32-bit integer that a text writes: an optional sign, then one decimal
/// digit or more, leading zeros allowed. Any other text, and a number that
/// does not fit, is no integer.
pub open spec fn parsed(s: Seq<char>) -> Option<int> {
    let signed = s.len() > 0 && (s[0] == '-' || s[0] == '+');
    let body = if signed {
        s.skip(1)
    } else {
        s
    };
    if body.len() == 0 || !all_digits(body) {
        None
    } else if s[0] == '-' {
        if digits_value(body) <= 0x8000_0000 {
            Some(-(digits_value(body) as int))
        } else {
            None
        }
    } else if digits_value(body) <= 0x7fff_ffff {
        Some(digits_value(body) as int)
    } else {
        None
    }
}

/// Appends the decimal writing of `n`.
pub fn push_decimal(out: &mut Vec<char>, n: u64)
    ensures
        final(out)@ == old(out)@ + decimal(n as nat),
    decreases n,
{
    let table = to_chars("0123456789");
    proof {
        reveal_strlit("0123456789");
    }
    if n >= 10 {
        push_decimal(out, n / 10);
    }
    out.push(table[(n % 10) as usize]);
    proof {
        if n >= 10 {
            assert(out@ =~= old(out)@ + decimal((n / 10) as nat).push(digits()[(n % 10) as int]));
        } else {
            assert(out@ =~= old(out)@ + seq![digits()[n as int]]);
        }
    }
}

/// The decimal writing of `n`.
pub fn decimal_text(n: u64) -> (s: String)
    ensures
        s@ == decimal(n as nat),
{
    let mut v: Vec<char> = Vec::new();
    push_decimal(&mut v, n);
    assert(v@ =~= decimal(n as nat));
    crate::text::string_of(&v)
}

/// Writes `n` filled with zeros to five characters at least.
pub fn padded_text(n: i32) -> (s: String)
    ensures
        s@ == padded(n as int),
{
    let negative: bool = n < 0;
    let magnitude: u64 = if negative {
        (-(n as i64)) as u64
    } else {
        n as u64
    };
    let mut body: Vec<char> = Vec::new();
    push_decimal(&mut body, magnitude);
    assert(body@ =~= decimal(magnitude as nat));
    let width: usize = if negative {
        4
    } else {
        5
    };
    let mut out: Vec<char> = Vec::new();
    if negative {
        out.push('-');
    }
    let ghost sign = out@;
    let mut k: usize = body.len();
    assert(out@ =~= sign + zeros(0));
    while k < width
        invariant
            k == body.len() || k <= width,
            body.len() <= k,
            out@ == sign + zeros(k - body.len()),
        decreases width - k,
    {
        out.push('0');
        k += 1;
        assert(out@ =~= sign + zeros(k - body.len()));
    }
    proof {
        assert(out@ =~= sign + zeros(width - body.len()));
    }
    let mut i: usize = 0;
    let ghost filled = out@;
    while i < body.len()
        invariant
            i <= body.len(),
            out@ == filled + body@.take(i as int),
        decreases body.len() - i,
    {
        out.push(body[i]);
        i += 1;
        assert(out@ =~= filled + body@.take(i as int));
    }
    assert(body@.take(body.len() as int) =~= body@);
    crate::text::string_of(&out)
}

/// One more digit behind a run of digits: ten times the run's number, plus
/// the digit.
proof fn lemma_one_more_digit(s: Seq<char>, k: int)
    requires
        0 <= k < s.len(),
        all_digits(s.take(k)),
        is_digit(s[k]),
    ensures
        all_digits(s.take(k + 1)),
        digits_value(s.take(k + 1)) == digits_value(s.take(k)) * 10 + (s[k] as int - '0' as int),
{
    let next = s.take(k + 1);
    assert(next.drop_last() =~= s.take(k));
    assert(next.last() == s[k]);
    assert forall|j: int| 0 <= j < next.len() implies is_digit(#[trigger] next[j]) by {
        if j < k {
            assert(next[j] == s.take(k)[j]);
        }
    }
}

/// Whether the characters from `from` on are all decimal digits.
fn digits_from(s: &Vec<char>, from: usize) -> (r: bool)
    requires
        from <= s.len(),
    ensures
        r == all_digits(s@.skip(from as int)),
{
    let ghost body = s@.skip(from as int);
    let mut i: usize = from;
    while i < s.len()
        invariant
            from <= i <= s.len(),
            body == s@.skip(from as int),
            forall|j: int| 0 <= j < i - from ==> is_digit(#[trigger] body[j]),
        decreases s.len() - i,
    {
        let code: u32 = char_code(s[i]);
        if code < 48 || code > 57 {
            assert(!is_digit(body[i - from]));
            return false;
        }
        i += 1;
    }
    true
}

/// The number that the digits from `from` on write, if it is at most
/// `0x8000_0000`.
fn value_from(s: &Vec<char>, from: usize) -> (r: Option<u64>)
    requires
        from <= s.len(),
        all_digits(s@.skip(from as int)),
    ensures
        match r {
            Some(n) => n == digits_value(s@.skip(from as int)) && n <= 0x8000_0000,
            None => digits_value(s@.skip(from as int)) > 0x8000_0000,
        },
{
    let ghost body = s@.skip(from as int);
    let mut acc: u64 = 0;
    let mut i: usize = from;
    assert(body.take(0) =~= Seq::empty());
    while i < s.len()
        invariant
            from <= i <= s.len(),
            body == s@.skip(from as int),
            all_digits(body),
            acc == digits_value(body.take(i - from)),
            acc <= 0x8000_0000,
        decreases s.len() - i,
    {
        let code: u32 = char_code(s[i]);
        proof {
            assert(is_digit(body[i - from]));
            assert(all_digits(body.take(i - from))) by {
                assert forall|j: int| 0 <= j < i - from implies is_digit(
                    #[trigger] body.take(i - from)[j],
                ) by {
                    assert(is_digit(body[j]));
                }
            }
            lemma_one_more_digit(body, i - from);
        }
        acc = acc * 10 + (code - 48) as u64;
        i += 1;
        if acc > 0x8000_0000 {
            proof {
                lemma_value_grows(body, i - from);
            }
            return None;
        }
    }
    assert(body.take(s.len() - from) =~= body);
    Some(acc)
}

/// A longer run of digits writes a number that is no smaller.
proof fn lemma_value_grows(s: Seq<char>, k: int)
    requires
        all_digits(s),
        0 <= k <= s.len(),
    ensures
        digits_value(s.take(k)) <= digits_value(s),
    decreases s.len() - k,
{
    if k < s.len() {
        assert(all_digits(s.take(k))) by {
            assert forall|j: int| 0 <= j < k implies is_digit(#[trigger] s.take(k)[j]) by {
                assert(is_digit(s[j]));
            }
        }
        assert(is_digit(s[k]));
        lemma_one_more_digit(s, k);
        lemma_value_grows(s, k + 1);
    } else {
        assert(s.take(k) =~= s);
    }
}

/// Reads the 32-bit integer that a text writes.
pub fn parse_number(text: &str) -> (r: Option<i32>)
    ensures
        match r {
            Some(n) => parsed(text@) == Some(n as int),
            None => parsed(text@) is None,
        },
{
    let s = to_chars(text);
    let first: usize = if s.len() > 0 && (s[0] == '-' || s[0] == '+') {
        1
    } else {
        0
    };
    assert(s@.skip(0) =~= s@);
    if s.len() == first || !digits_from(&s, first) {
        return None;
    }
    match value_from(&s, first) {
        None => None,
        Some(n) => {
            if s[0] == '-' {
                Some((-(n as i64)) as i32)
            } else if n <= 0x7fff_ffff {
                Some(n as i32)
            } else {
                None
            }
        },
    }
}

/// The decimal writing of an integer, with a minus sign where it is
/// negative.
pub open spec fn signed(n: int) -> Seq<char> {
    if n < 0 {
        seq!['-'] + decimal((-n) as nat)
    } else {
        decimal(n as nat)
    }
}

/// Writes an integer in decimal.
pub fn signed_text(n: i32) -> (s: String)
    ensures
        s@ == signed(n as int),
{
    let mut out: Vec<char> = Vec::new();
    if n < 0 {
        out.push('-');
        push_decimal(&mut out, (-(n as i64)) as u64);
    } else {
        push_decimal(&mut out, n as u64);
        assert(out@ =~= decimal(n as nat));
    }
    crate::text::string_of(&out)
}

} // verus!
