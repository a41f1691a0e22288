//! Decimal integers as `str::parse` reads them: an optional sign and at
//! least one ASCII digit, nothing else, within the range of the type.
use vstd::prelude::*;

verus! {

pub open spec fn is_digit(c: char) -> bool {
    '0' <= c && c <= '9'
}

pub open spec fn all_digits(s: Seq<char>) -> bool {
    forall|i: int| 0 <= i < s.len() ==> is_digit(#[trigger] s[i])
}

/// The value of a run of decimal digits.
pub open spec fn digits_value(s: Seq<char>) -> int
    decreases s.len(),
{
    if s.len() == 0 {
        0
    } else {
        digits_value(s.drop_last()) * 10 + (s.last() as int - '0' as int)
    }
}

/// The sign and digits of `s`: whether it is negative, and the digits after
/// an optional `+` (or `-`, where `signed`).
pub open spec fn sign_and_body(s: Seq<char>, signed: bool) -> (bool, Seq<char>) {
    if s.len() > 0 && (s[0] == '+' || (signed && s[0] == '-')) {
        (s[0] == '-', s.drop_first())
    } else {
        (false, s)
    }
}

/// What `s.parse::<u32>()` gives.
pub open spec fn u32_of(s: Seq<char>) -> Option<u32> {
    let body = sign_and_body(s, false).1;
    if body.len() > 0 && all_digits(body) && digits_value(body) <= u32::MAX {
        Some(digits_value(body) as u32)
    } else {
        None
    }
}

/// What `s.parse::<i64>()` gives.
pub open spec fn i64_of(s: Seq<char>) -> Option<i64> {
    let (neg, body) = sign_and_body(s, true);
    let v = if neg {
        -digits_value(body)
    } else {
        digits_value(body)
    };
    if body.len() > 0 && all_digits(body) && i64::MIN <= v <= i64::MAX {
        Some(v as i64)
    } else {
        None
    }
}

proof fn lemma_digits_value_prefix(s: Seq<char>, k: int)
    requires
        0 <= k <= s.len(),
        all_digits(s),
    ensures
        digits_value(s.subrange(0, k)) <= digits_value(s),
        0 <= digits_value(s.subrange(0, k)),
    decreases s.len(),
{
    if s.len() > 0 {
        if k == s.len() {
            assert(s.subrange(0, k) =~= s);
        } else {
            assert(s.drop_last().subrange(0, k) =~= s.subrange(0, k));
            lemma_digits_value_prefix(s.drop_last(), k);
        }
        lemma_digits_value_prefix(s.drop_last(), s.len() - 1);
        assert(s.drop_last().subrange(0, s.len() - 1) =~= s.drop_last());
        assert(is_digit(s[s.len() - 1]));
    }
}

/// The value of the digits `v[from..]`, when there is at least one, all are
/// digits and the value is at most `limit`.
fn digits_upto(v: &Vec<char>, from: usize, limit: u64) -> (r: Option<u64>)
    requires
        from <= v@.len(),
        limit >= 9,
    ensures
        ({
            let body = v@.subrange(from as int, v@.len() as int);
            match r {
                Some(x) => body.len() > 0 && all_digits(body) && x == digits_value(body) && x
                    <= limit,
                None => !(body.len() > 0 && all_digits(body) && digits_value(body) <= limit),
            }
        }),
{
    let ghost body = v@.subrange(from as int, v@.len() as int);
    if from == v.len() {
        return None;
    }
    let mut acc: u64 = 0;
    let mut i: usize = from;
    while i < v.len()
        invariant
            from <= i <= v@.len(),
            body == v@.subrange(from as int, v@.len() as int),
            all_digits(v@.subrange(from as int, i as int)),
            acc == digits_value(v@.subrange(from as int, i as int)),
            acc <= limit,
            limit >= 9,
        decreases v@.len() - i,
    {
        let c = v[i];
        if !('0' <= c && c <= '9') {
            assert(body[i - from] == c);
            return None;
        }
        let d = (c as u64) - ('0' as u64);
        assert(v@.subrange(from as int, i + 1).drop_last() =~= v@.subrange(from as int, i as int));
        if acc > (limit - d) / 10 {
            proof {
                assert(acc * 10 + d > limit) by (nonlinear_arith)
                    requires
                        acc > (limit - d) / 10,
                        d <= 9,
                        d <= limit,
                ;
                if all_digits(body) {
                    assert(body.subrange(0, i + 1 - from) =~= v@.subrange(from as int, i + 1));
                    lemma_digits_value_prefix(body, i + 1 - from);
                }
            }
            return None;
        }
        acc = acc * 10 + d;
        i = i + 1;
    }
    assert(v@.subrange(from as int, i as int) =~= body);
    Some(acc)
}

/// `v` read as a `u32`, as `str::parse` does.
pub fn parse_u32_chars(v: &Vec<char>) -> (r: Option<u32>)
    ensures
        r == u32_of(v@),
{
    let from: usize = if v.len() > 0 && v[0] == '+' {
        1
    } else {
        0
    };
    assert(sign_and_body(v@, false).1 =~= v@.subrange(from as int, v@.len() as int));
    match digits_upto(v, from, 4294967295) {
        Some(x) => Some(x as u32),
        None => None,
    }
}

/// `v` read as an `i64`, as `str::parse` does.
pub fn parse_i64_chars(v: &Vec<char>) -> (r: Option<i64>)
    ensures
        r == i64_of(v@),
{
    let neg = v.len() > 0 && v[0] == '-';
    let from: usize = if v.len() > 0 && (v[0] == '+' || v[0] == '-') {
        1
    } else {
        0
    };
    assert(sign_and_body(v@, true).1 =~= v@.subrange(from as int, v@.len() as int));
    if neg {
        match digits_upto(v, from, 9223372036854775808) {
            Some(x) => {
                if x == 9223372036854775808 {
                    Some(i64::MIN)
                } else {
                    Some(-(x as i64))
                }
            },
            None => None,
        }
    } else {
        match digits_upto(v, from, 9223372036854775807) {
            Some(x) => Some(x as i64),
            None => None,
        }
    }
}

} // verus!
