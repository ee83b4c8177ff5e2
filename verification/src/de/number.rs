//! The textual grammar of integers.

use vstd::prelude::*;
use crate::value::IntKind;

verus! {

/// Whether `b` is an ASCII decimal digit.
pub open spec fn is_digit(b: u8) -> bool {
    '0' as u8 <= b && b <= '9' as u8
}

/// Whether `s` holds decimal digits only.
pub open spec fn all_digits(s: Seq<u8>) -> bool {
    forall|i: int| 0 <= i < s.len() ==> is_digit(#[trigger] s[i])
}

/// The number that the digits `s` write in base ten.
pub open spec fn digits_value(s: Seq<u8>) -> nat
    decreases s.len(),
{
    if s.len() == 0 {
        0
    } else {
        digits_value(s.drop_last()) * 10 + (s.last() - '0' as u8) as nat
    }
}

/// The number that one or more digits write, `None` for anything else.
pub open spec fn unsigned_value(s: Seq<u8>) -> Option<int> {
    if s.len() > 0 && all_digits(s) {
        Some(digits_value(s) as int)
    } else {
        None
    }
}

/// The number that the literal `s` writes: an optional sign and then one or
/// more decimal digits, with nothing before, between or after them. The sign
/// is `+` or, where `signed`, `-`. `None` where `s` is no such literal.
pub open spec fn integer_value(s: Seq<u8>, signed: bool) -> Option<int> {
    if s.len() == 0 {
        None
    } else if s[0] == '+' as u8 {
        unsigned_value(s.drop_first())
    } else if signed && s[0] == '-' as u8 {
        match unsigned_value(s.drop_first()) {
            Some(v) => Some(-v),
            None => None,
        }
    } else {
        unsigned_value(s)
    }
}

/// The number that the literal `s` writes for a type of the range `min` to
/// `max`: the type is signed where `min` is negative, and a number out of the
/// range is no value of it.
pub open spec fn integer_in(s: Seq<u8>, min: int, max: int) -> Option<int> {
    match integer_value(s, min < 0) {
        Some(v) => if min <= v <= max {
            Some(v)
        } else {
            None
        },
        None => None,
    }
}

/// The number `u`, negated where `negative`, if it lies in the range `min` to
/// `max`.
pub open spec fn signed_in(u: Option<int>, negative: bool, min: int, max: int) -> Option<int> {
    match u {
        Some(v) => {
            let w = if negative {
                -v
            } else {
                v
            };
            if min <= w <= max {
                Some(w)
            } else {
                None
            }
        },
        None => None,
    }
}

/// Digits written after a number do not make it smaller.
proof fn lemma_digits_prefix(s: Seq<u8>, k: int)
    requires
        all_digits(s),
        0 <= k <= s.len(),
    ensures
        digits_value(s.subrange(0, k)) <= digits_value(s),
    decreases s.len() - k,
{
    if k == s.len() {
        assert(s.subrange(0, k) =~= s);
    } else {
        let t = s.drop_last();
        assert(t.subrange(0, k) =~= s.subrange(0, k));
        lemma_digits_prefix(t, k);
        assert(is_digit(s.last()));
    }
}

/// Reads `s` as a decimal literal of the integer type `kind`.
pub fn parse_integer(s: &[u8], kind: IntKind) -> (r: Option<i128>)
    ensures
        match integer_in(s@, kind.min(), kind.max()) {
            Some(v) => r == Some(v as i128),
            None => r is None,
        },
{
    let min = kind.min_value();
    let max = kind.max_value();
    let n = s.len();
    if n == 0 {
        return None;
    }
    let mut negative = false;
    let mut i: usize = 0;
    if s[0] == '+' as u8 {
        i = 1;
    } else if s[0] == '-' as u8 && min < 0 {
        negative = true;
        i = 1;
    }
    if i == n {
        assert(s@.drop_first().len() == 0);
        return None;
    }
    let start = i;
    let ghost body = s@.subrange(start as int, n as int);
    assert(body =~= if start == 1 {
        s@.drop_first()
    } else {
        s@
    });
    assert(integer_in(s@, min as int, max as int) == signed_in(
        unsigned_value(body),
        negative,
        min as int,
        max as int,
    ));
    let mut acc: u64 = 0;
    while i < n
        invariant
            start <= i <= n,
            start < n,
            min == kind.min(),
            max == kind.max(),
            -(u64::MAX as int) <= min <= 0,
            0 <= max <= u64::MAX,
            integer_in(s@, min as int, max as int) == signed_in(
                unsigned_value(body),
                negative,
                min as int,
                max as int,
            ),
            n == s@.len(),
            body == s@.subrange(start as int, n as int),
            all_digits(body.subrange(0, i - start)),
            acc == digits_value(body.subrange(0, i - start)),
        decreases n - i,
    {
        let b = s[i];
        if b < '0' as u8 || b > '9' as u8 {
            assert(!is_digit(body[i - start]));
            return None;
        }
        let d = (b - '0' as u8) as u64;
        let ghost next = body.subrange(0, i - start + 1);
        proof {
            assert(next.drop_last() =~= body.subrange(0, i - start));
            assert(next.last() == b);
            assert forall|j: int| 0 <= j < next.len() implies is_digit(#[trigger] next[j]) by {
                if j < i - start {
                    assert(body.subrange(0, i - start)[j] == next[j]);
                }
            }
        }
        if acc > (u64::MAX - d) / 10 {
            proof {
                assert(digits_value(next) > u64::MAX);
                if all_digits(body) {
                    lemma_digits_prefix(body, i - start + 1);
                }
            }
            return None;
        }
        acc = acc * 10 + d;
        i += 1;
    }
    assert(body.subrange(0, i - start) =~= body);
    let v: i128 = if negative {
        -(acc as i128)
    } else {
        acc as i128
    };
    if v < min || v > max {
        None
    } else {
        Some(v)
    }
}

} // verus!
