//! Decimal numerals: parsing a non-negative integer from a string (as the
//! `Content-Length` response header needs) and rendering one (as status
//! codes in error messages need).

use vstd::prelude::*;
use vstd::string::StrSliceExecFns;

use crate::chars::push_char;

verus! {

pub open spec fn is_digit(c: char) -> bool {
    '0' <= c && c <= '9'
}

pub open spec fn digit_val(c: char) -> int {
    c as int - '0' as int
}

pub open spec fn all_digits(s: Seq<char>) -> bool {
    forall|i: int| 0 <= i < s.len() ==> is_digit(#[trigger] s[i])
}

/// The value of a string of decimal digits, most significant first.
pub open spec fn dec_value(s: Seq<char>) -> int
    decreases s.len(),
{
    if s.len() == 0 {
        0
    } else {
        dec_value(s.drop_last()) * 10 + digit_val(s.last())
    }
}

pub proof fn lemma_dec_value_nonneg(s: Seq<char>)
    requires
        all_digits(s),
    ensures
        dec_value(s) >= 0,
    decreases s.len(),
{
    if s.len() > 0 {
        assert(all_digits(s.drop_last()));
        lemma_dec_value_nonneg(s.drop_last());
    }
}

pub proof fn lemma_dec_value_prefix_le(s: Seq<char>, k: int)
    requires
        all_digits(s),
        0 <= k <= s.len(),
    ensures
        dec_value(s.take(k)) <= dec_value(s),
    decreases s.len() - k,
{
    if k < s.len() {
        let t = s.take(k + 1);
        assert(t.drop_last() =~= s.take(k));
        assert(all_digits(t)) by {
            assert(forall|i: int| 0 <= i < t.len() ==> t[i] == s[i]);
        }
        lemma_dec_value_nonneg(s.take(k));
        assert(dec_value(t) == dec_value(s.take(k)) * 10 + digit_val(t.last()));
        assert(dec_value(s.take(k)) * 10 >= dec_value(s.take(k)));
        lemma_dec_value_prefix_le(s, k + 1);
    } else {
        assert(s.take(k) =~= s);
    }
}

/// What `str::parse::<usize>` accepts: an optional leading `+`, then at
/// least one digit, with a value that fits in `usize`.
pub open spec fn parse_usize_spec(s: Seq<char>) -> Option<int> {
    let digits = if s.len() > 0 && s[0] == '+' {
        s.drop_first()
    } else {
        s
    };
    if digits.len() == 0 || !all_digits(digits) {
        None
    } else if dec_value(digits) > usize::MAX as int {
        None
    } else {
        Some(dec_value(digits))
    }
}

/// Parses a non-negative decimal integer, accepting exactly the strings
/// that `str::parse::<usize>` accepts.
pub fn parse_usize(s: &str) -> (r: Option<usize>)
    ensures
        match r {
            Some(v) => parse_usize_spec(s@) == Some(v as int),
            None => parse_usize_spec(s@) is None,
        },
{
    let n = s.unicode_len();
    let start: usize = if n > 0 && s.get_char(0) == '+' {
        1
    } else {
        0
    };
    let ghost digits = if s@.len() > 0 && s@[0] == '+' {
        s@.drop_first()
    } else {
        s@
    };
    proof {
        assert(digits =~= s@.subrange(start as int, n as int));
    }
    if start == n {
        return None;
    }
    let mut i: usize = start;
    let mut val: usize = 0;
    while i < n
        invariant
            n == s@.len(),
            start <= i <= n,
            start < n,
            digits == (if s@.len() > 0 && s@[0] == '+' {
                s@.drop_first()
            } else {
                s@
            }),
            digits =~= s@.subrange(start as int, n as int),
            all_digits(s@.subrange(start as int, i as int)),
            val == dec_value(s@.subrange(start as int, i as int)),
        decreases n - i,
    {
        let c = s.get_char(i);
        if !('0' <= c && c <= '9') {
            proof {
                assert(digits[i - start] == c);
                assert(!all_digits(digits));
            }
            return None;
        }
        let d = ((c as u8) - 48) as usize;
        proof {
            assert(d == digit_val(c));
        }
        if val > (usize::MAX - d) / 10 {
            proof {
                let prefix = s@.subrange(start as int, (i + 1) as int);
                assert(prefix.drop_last() =~= s@.subrange(start as int, i as int));
                assert(prefix.last() == c);
                assert(dec_value(prefix) == val * 10 + d);
                assert(val * 10 + d > usize::MAX as int) by {
                    assert(val >= (usize::MAX - d) / 10 + 1);
                    assert(((usize::MAX - d) / 10) * 10 >= usize::MAX - d - 9);
                };
                if all_digits(digits) {
                    assert(digits.take(i + 1 - start) =~= prefix);
                    lemma_dec_value_prefix_le(digits, i + 1 - start);
                }
            }
            return None;
        }
        val = val * 10 + d;
        proof {
            let prefix = s@.subrange(start as int, (i + 1) as int);
            assert(prefix.drop_last() =~= s@.subrange(start as int, i as int));
            assert(prefix.last() == c);
            assert(all_digits(prefix)) by {
                assert(forall|k: int|
                    0 <= k < prefix.len() - 1 ==> prefix[k] == s@.subrange(
                        start as int,
                        i as int,
                    )[k]);
            }
        }
        i += 1;
    }
    proof {
        assert(s@.subrange(start as int, i as int) =~= digits);
    }
    Some(val)
}

/// The decimal digit character for a value between 0 and 9.
pub open spec fn dec_digit(d: int) -> char {
    if d == 0 {
        '0'
    } else if d == 1 {
        '1'
    } else if d == 2 {
        '2'
    } else if d == 3 {
        '3'
    } else if d == 4 {
        '4'
    } else if d == 5 {
        '5'
    } else if d == 6 {
        '6'
    } else if d == 7 {
        '7'
    } else if d == 8 {
        '8'
    } else {
        '9'
    }
}

/// The decimal numeral of a non-negative integer, without leading zeros
/// (a single `0` for zero).
pub open spec fn dec_repr(n: int) -> Seq<char>
    decreases n,
{
    if n < 0 {
        Seq::empty()
    } else if n < 10 {
        seq![dec_digit(n)]
    } else {
        dec_repr(n / 10).push(dec_digit(n % 10))
    }
}

fn digit_char(d: u16) -> (r: char)
    requires
        d < 10,
    ensures
        r == dec_digit(d as int),
{
    if d == 0 {
        '0'
    } else if d == 1 {
        '1'
    } else if d == 2 {
        '2'
    } else if d == 3 {
        '3'
    } else if d == 4 {
        '4'
    } else if d == 5 {
        '5'
    } else if d == 6 {
        '6'
    } else if d == 7 {
        '7'
    } else if d == 8 {
        '8'
    } else {
        '9'
    }
}

/// Renders a status code as its decimal numeral.
pub fn u16_to_dec(n: u16) -> (r: String)
    ensures
        r@ == dec_repr(n as int),
{
    let mut rev: Vec<char> = Vec::new();
    let mut m = n;
    let first = digit_char(m % 10);
    rev.push(first);
    proof {
        assert(rev@.reverse() =~= seq![dec_digit(n as int % 10)]);
    }
    m = m / 10;
    while m > 0
        invariant
            dec_repr(n as int) =~= (if m > 0 {
                dec_repr(m as int)
            } else {
                Seq::<char>::empty()
            }) + rev@.reverse(),
        decreases m,
    {
        let d = digit_char(m % 10);
        let ghost old_rev = rev@;
        rev.push(d);
        proof {
            assert(rev@.reverse() =~= seq![dec_digit(m as int % 10)] + old_rev.reverse());
            if m >= 10 {
                assert(dec_repr(m as int) == dec_repr(m as int / 10).push(
                    dec_digit(m as int % 10),
                ));
                assert(dec_repr(m as int / 10).push(dec_digit(m as int % 10)) =~= dec_repr(
                    m as int / 10,
                ) + seq![dec_digit(m as int % 10)]);
                assert(dec_repr(n as int) =~= dec_repr(m as int / 10) + (seq![
                    dec_digit(m as int % 10),
                ] + old_rev.reverse()));
            } else {
                assert(dec_repr(m as int) =~= seq![dec_digit(m as int % 10)]);
                assert(dec_repr(n as int) =~= Seq::<char>::empty() + (seq![
                    dec_digit(m as int % 10),
                ] + old_rev.reverse()));
            }
        }
        m = m / 10;
    }
    let mut out = String::new();
    let mut j = rev.len();
    while j > 0
        invariant
            j <= rev.len(),
            out@ =~= rev@.reverse().take(rev@.len() - j),
        decreases j,
    {
        j -= 1;
        let c = rev[j];
        push_char(&mut out, c);
        proof {
            assert(rev@.reverse()[rev@.len() - j - 1] == rev@[j as int]);
            assert(rev@.reverse().take(rev@.len() - j) =~= rev@.reverse().take(
                rev@.len() - j - 1,
            ).push(rev@[j as int]));
        }
    }
    proof {
        assert(rev@.reverse().take(rev@.len() as int) =~= rev@.reverse());
        assert(out@ =~= dec_repr(n as int));
    }
    out
}

} // verus!
