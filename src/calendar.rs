//! Unix time to proleptic Gregorian `YYYY-MM-DD`, by integer arithmetic alone.
use vstd::prelude::*;
use vstd::arithmetic::div_mod::{
    lemma_div_is_ordered, lemma_fundamental_div_mod, lemma_fundamental_div_mod_converse,
};
use crate::text::string_of;

verus! {

/// Year, month and day of the day `days` after 1970-01-01: the day count is
/// shifted to start on 0000-03-01, split into 400-year eras, and the month is
/// read from the day of a March-based year, so that February comes last.
pub open spec fn civil_from_days(days: int) -> (int, int, int) {
    let z = days + 719468;
    let era = z / 146097;
    let doe = z - era * 146097;
    let yoe = (doe - doe / 1460 + doe / 36524 - doe / 146096) / 365;
    let y = yoe + era * 400;
    let doy = doe - (365 * yoe + yoe / 4 - yoe / 100);
    let mp = (5 * doy + 2) / 153;
    let d = doy - (153 * mp + 2) / 5 + 1;
    let m = if mp < 10 {
        mp + 3
    } else {
        mp - 9
    };
    (if m <= 2 {
        y + 1
    } else {
        y
    }, m, d)
}

pub open spec fn digit(n: int) -> char {
    (('0' as u8) + (n as u8)) as char
}

/// Decimal digits of `n`.
pub open spec fn dec(n: nat) -> Seq<char>
    decreases n,
{
    if n < 10 {
        seq![digit(n as int)]
    } else {
        dec(n / 10).push(digit(n as int % 10))
    }
}

pub open spec fn zeros(k: int) -> Seq<char> {
    Seq::new(if k > 0 {
        k as nat
    } else {
        0
    }, |_i: int| '0')
}

/// `n` in decimal, zero-padded to width `w`, the sign counted in the width.
pub open spec fn padded(n: int, w: int) -> Seq<char> {
    if n < 0 {
        seq!['-'] + zeros(w - 1 - dec((-n) as nat).len()) + dec((-n) as nat)
    } else {
        zeros(w - dec(n as nat).len()) + dec(n as nat)
    }
}

/// The `YYYY-MM-DD` text of the day that holds the instant `epoch`
/// (seconds since 1970-01-01T00:00:00Z).
pub open spec fn date_of(epoch: int) -> Seq<char> {
    let (y, m, d) = civil_from_days(epoch / 86400);
    padded(y, 4) + seq!['-'] + padded(m, 2) + seq!['-'] + padded(d, 2)
}

/// `a / b` rounded towards negative infinity.
fn floor_div(a: i64, b: i64) -> (q: i64)
    requires
        b > 0,
    ensures
        q == a as int / b as int,
{
    if a >= 0 {
        ((a as u64) / (b as u64)) as i64
    } else {
        let m: u64 = (-(a + 1)) as u64;
        let q0: u64 = m / (b as u64);
        proof {
            lemma_fundamental_div_mod(m as int, b as int);
            let r = m as int % b as int;
            assert(a as int == (-(q0 as int) - 1) * b as int + (b as int - r - 1)) by (nonlinear_arith)
                requires
                    m as int == b as int * q0 as int + r,
                    m as int == -(a as int + 1),
            ;
            lemma_fundamental_div_mod_converse(a as int, b as int, -(q0 as int) - 1, b as int - r - 1);
        }
        -(q0 as i64) - 1
    }
}

/// Decimal digits of `n`.
pub(crate) fn dec_vec(n: u64) -> (r: Vec<char>)
    ensures
        r@ == dec(n as nat),
{
    let mut tail: Vec<char> = Vec::new();
    let mut q: u64 = n;
    while q >= 10
        invariant
            dec(n as nat) == dec(q as nat) + tail@,
        decreases q,
    {
        let ghost prev = tail@;
        let c = ((('0' as u8) + ((q % 10) as u8)) as char);
        tail.insert(0, c);
        assert(dec(q as nat) == dec((q / 10) as nat).push(digit(q as int % 10)));
        assert(dec(q as nat) + prev =~= dec((q / 10) as nat) + tail@);
        q = q / 10;
    }
    let c = ((('0' as u8) + (q as u8)) as char);
    tail.insert(0, c);
    tail
}

fn push_zeros(v: &mut Vec<char>, k: usize)
    ensures
        final(v)@ == old(v)@ + zeros(k as int),
{
    let mut i: usize = 0;
    while i < k
        invariant
            0 <= i <= k,
            v@ == old(v)@ + zeros(i as int),
        decreases k - i,
    {
        v.push('0');
        i = i + 1;
        assert(v@ =~= old(v)@ + zeros(i as int));
    }
    assert(zeros(i as int) =~= zeros(k as int));
}

/// Appends `n` zero-padded to width `w`.
pub(crate) fn push_padded(v: &mut Vec<char>, n: i64, w: i64)
    requires
        1 <= w <= 4,
    ensures
        final(v)@ == old(v)@ + padded(n as int, w as int),
{
    if n < 0 {
        let mag: u64 = if n == i64::MIN {
            (i64::MAX as u64) + 1
        } else {
            (-n) as u64
        };
        let digits = dec_vec(mag);
        v.push('-');
        let wu = (w - 1) as usize;
        push_zeros(v, if digits.len() < wu { wu - digits.len() } else { 0 });
        assert(zeros(wu - digits@.len()) =~= zeros(if digits@.len() < wu { wu - digits@.len() } else { 0 }));
        let mut i: usize = 0;
        let ghost base = v@;
        while i < digits.len()
            invariant
                i <= digits@.len(),
                v@ == base + digits@.subrange(0, i as int),
            decreases digits@.len() - i,
        {
            v.push(digits[i]);
            i = i + 1;
            assert(v@ =~= base + digits@.subrange(0, i as int));
        }
        assert(digits@.subrange(0, i as int) =~= digits@);
        assert(v@ =~= old(v)@ + padded(n as int, w as int));
    } else {
        let digits = dec_vec(n as u64);
        let wu = w as usize;
        push_zeros(v, if digits.len() < wu { wu - digits.len() } else { 0 });
        assert(zeros(wu - digits@.len()) =~= zeros(if digits@.len() < wu { wu - digits@.len() } else { 0 }));
        let mut i: usize = 0;
        let ghost base = v@;
        while i < digits.len()
            invariant
                i <= digits@.len(),
                v@ == base + digits@.subrange(0, i as int),
            decreases digits@.len() - i,
        {
            v.push(digits[i]);
            i = i + 1;
            assert(v@ =~= base + digits@.subrange(0, i as int));
        }
        assert(digits@.subrange(0, i as int) =~= digits@);
        assert(v@ =~= old(v)@ + padded(n as int, w as int));
    }
}


/// Year, month and day of the day `days` after 1970-01-01.
fn civil_exec(days: i64) -> (r: (i64, i64, i64))
    requires
        -200_000_000_000_000 <= days <= 200_000_000_000_000,
    ensures
        (r.0 as int, r.1 as int, r.2 as int) == civil_from_days(days as int),
{
    let z = days + 719468;
    let era = floor_div(z, 146097);
    proof {
        lemma_fundamental_div_mod(z as int, 146097);
    }
    let doe = z - era * 146097;
    let yoe = floor_div(doe - floor_div(doe, 1460) + floor_div(doe, 36524) - floor_div(doe, 146096), 365);
    let y = yoe + era * 400;
    let doy = doe - (365 * yoe + floor_div(yoe, 4) - floor_div(yoe, 100));
    let mp = floor_div(5 * doy + 2, 153);
    let d = doy - floor_div(153 * mp + 2, 5) + 1;
    let m = if mp < 10 {
        mp + 3
    } else {
        mp - 9
    };
    (if m <= 2 {
        y + 1
    } else {
        y
    }, m, d)
}

/// The `YYYY-MM-DD` date, in UTC, of the instant `epoch` seconds after
/// 1970-01-01T00:00:00Z. Days are counted by floor division, so instants
/// before 1970 fall on the day they belong to.
pub fn epoch_to_date(epoch: i64) -> (r: String)
    ensures
        r@ == date_of(epoch as int),
        ({
            let (y, m, d) = civil_from_days(epoch as int / 86400);
            &&& 1 <= m <= 12
            &&& 1 <= d <= days_in_month(y, m)
            &&& days_from_civil(y, m, d) == epoch as int / 86400
        }),
{
    proof {
        civil_from_days_is_inverse(epoch as int / 86400);
    }
    let days = floor_div(epoch, 86400);
    let (y, m, d) = civil_exec(days);
    let mut v: Vec<char> = Vec::new();
    push_padded(&mut v, y, 4);
    v.push('-');
    push_padded(&mut v, m, 2);
    v.push('-');
    push_padded(&mut v, d, 2);
    string_of(&v)
}


/// Year (counted from the start of its era), month and day of day `doe` of a
/// 400-year era that starts on a 1 March.
pub open spec fn civil_of_era_day(doe: int) -> (int, int, int) {
    let yoe = (doe - doe / 1460 + doe / 36524 - doe / 146096) / 365;
    let doy = doe - (365 * yoe + yoe / 4 - yoe / 100);
    let mp = (5 * doy + 2) / 153;
    let d = doy - (153 * mp + 2) / 5 + 1;
    let m = if mp < 10 {
        mp + 3
    } else {
        mp - 9
    };
    (if m <= 2 {
        yoe + 1
    } else {
        yoe
    }, m, d)
}

/// Whether the date `a` comes strictly before the date `b`.
pub open spec fn date_before(a: (int, int, int), b: (int, int, int)) -> bool {
    a.0 < b.0 || (a.0 == b.0 && (a.1 < b.1 || (a.1 == b.1 && a.2 < b.2)))
}

proof fn lemma_era_day_bounds(doe: int)
    requires
        0 <= doe <= 146096,
    ensures
        ({
            let yoe = (doe - doe / 1460 + doe / 36524 - doe / 146096) / 365;
            let doy = doe - (365 * yoe + yoe / 4 - yoe / 100);
            0 <= doy <= 365 && 0 <= yoe <= 399
        }),
{
}


proof fn lemma_era_step(doe: int)
    requires
        0 <= doe < 146096,
    ensures
        date_before(civil_of_era_day(doe), civil_of_era_day(doe + 1)),
{
    lemma_era_day_bounds(doe);
    lemma_era_day_bounds(doe + 1);
}


proof fn lemma_day_step(n: int)
    ensures
        date_before(civil_from_days(n), civil_from_days(n + 1)),
{
    let z = n + 719468;
    let era = z / 146097;
    lemma_fundamental_div_mod(z, 146097);
    let doe = z - era * 146097;
    assert(0 <= doe < 146097);
    if doe < 146096 {
        lemma_fundamental_div_mod_converse(z + 1, 146097, era, doe + 1);
        lemma_era_step(doe);
        assert(civil_from_days(n) == {
            let c = civil_of_era_day(doe);
            (c.0 + era * 400, c.1, c.2)
        });
        assert(civil_from_days(n + 1) == {
            let c = civil_of_era_day(doe + 1);
            (c.0 + era * 400, c.1, c.2)
        });
    } else {
        lemma_fundamental_div_mod_converse(z + 1, 146097, era + 1, 0);
        assert(civil_from_days(n) == (era * 400 + 400, 2int, 29int));
        assert(civil_from_days(n + 1) == ((era + 1) * 400, 3int, 1int));
    }
}

proof fn lemma_days_ordered(a: int, b: int)
    requires
        a <= b,
    ensures
        !date_before(civil_from_days(b), civil_from_days(a)),
    decreases b - a,
{
    if a < b {
        lemma_days_ordered(a, b - 1);
        lemma_day_step(b - 1);
    }
}

/// The date of a later instant is never before the date of an earlier one:
/// `date_of` writes out `civil_from_days(epoch / 86400)`, and that date does
/// not go backwards as `epoch` grows.
pub proof fn date_is_monotonic(e1: int, e2: int)
    requires
        e1 <= e2,
    ensures
        !date_before(civil_from_days(e2 / 86400), civil_from_days(e1 / 86400)),
{
    lemma_div_is_ordered(e1, e2, 86400);
    lemma_days_ordered(e1 / 86400, e2 / 86400);
}


/// Whether `y` is a leap year of the Gregorian calendar.
pub open spec fn is_leap(y: int) -> bool {
    (y % 4 == 0 && y % 100 != 0) || y % 400 == 0
}

/// The number of days of month `m` of year `y`.
pub open spec fn days_in_month(y: int, m: int) -> int {
    if m == 2 {
        if is_leap(y) {
            29
        } else {
            28
        }
    } else if m == 4 || m == 6 || m == 9 || m == 11 {
        30
    } else {
        31
    }
}

/// The days of year `y` before the first of month `m`.
pub open spec fn days_before_month(y: int, m: int) -> int
    decreases m,
{
    if m <= 1 {
        0
    } else {
        days_before_month(y, m - 1) + days_in_month(y, m - 1)
    }
}

/// The leap years from year 0 up to year `y`, `y` excluded (negative for a
/// year before 0).
pub open spec fn leaps_before(y: int) -> int {
    (y + 3) / 4 - (y + 99) / 100 + (y + 399) / 400
}

/// The day count, from 1970-01-01, of the date `y`-`m`-`d`: 365 days a year,
/// one more in each leap year, then the months before `m` and the days
/// before `d`.
pub open spec fn days_from_civil(y: int, m: int, d: int) -> int {
    365 * (y - 1970) + leaps_before(y) - leaps_before(1970) + days_before_month(y, m) + d - 1
}

/// `leaps_before` counts exactly the leap years.
pub proof fn leaps_before_counts(y: int)
    ensures
        leaps_before(y + 1) == leaps_before(y) + if is_leap(y) {
            1int
        } else {
            0int
        },
{
    lemma_div_step(y + 3, 4);
    lemma_div_step(y + 99, 100);
    lemma_div_step(y + 399, 400);
    lemma_fundamental_div_mod(y, 4);
    lemma_fundamental_div_mod(y, 100);
    lemma_fundamental_div_mod(y, 400);
    lemma_fundamental_div_mod(y + 4, 4);
    lemma_fundamental_div_mod(y + 100, 100);
    lemma_fundamental_div_mod(y + 400, 400);
    lemma_fundamental_div_mod_converse(y + 4, 4, y / 4 + 1, y % 4);
    lemma_fundamental_div_mod_converse(y + 100, 100, y / 100 + 1, y % 100);
    lemma_fundamental_div_mod_converse(y + 400, 400, y / 400 + 1, y % 400);
}

/// Floor division by `k` grows by one exactly when `x + 1` is a multiple of `k`.
proof fn lemma_div_step(x: int, k: int)
    requires
        k > 0,
    ensures
        (x + 1) / k == x / k + if (x + 1) % k == 0 {
            1int
        } else {
            0int
        },
{
    lemma_fundamental_div_mod(x, k);
    let q = x / k;
    let r = x % k;
    assert(0 <= r < k);
    assert(x + 1 == (q + 1) * k + (r + 1 - k)) by (nonlinear_arith)
        requires
            x == k * q + r,
    ;
    assert(x + 1 == q * k + (r + 1)) by (nonlinear_arith)
        requires
            x == k * q + r,
    ;
    if r == k - 1 {
        lemma_fundamental_div_mod_converse(x + 1, k, q + 1, 0);
    } else {
        lemma_fundamental_div_mod_converse(x + 1, k, q, r + 1);
    }
}

proof fn lemma_days_before_month(y: int, m: int)
    requires
        1 <= m <= 12,
    ensures
        days_before_month(y, m) == (if m == 1 {
            0int
        } else if m == 2 {
            31int
        } else if m == 3 {
            59int
        } else if m == 4 {
            90int
        } else if m == 5 {
            120int
        } else if m == 6 {
            151int
        } else if m == 7 {
            181int
        } else if m == 8 {
            212int
        } else if m == 9 {
            243int
        } else if m == 10 {
            273int
        } else if m == 11 {
            304int
        } else {
            334int
        }) + if m > 2 && is_leap(y) {
            1int
        } else {
            0int
        },
{
    reveal_with_fuel(days_before_month, 12);
}

/// Month (counted from March) and day of day `doy` of a March-based year.
proof fn lemma_month_of_year_day(doy: int)
    requires
        0 <= doy <= 365,
    ensures
        ({
            let mp = (5 * doy + 2) / 153;
            let d = doy - (153 * mp + 2) / 5 + 1;
            &&& 0 <= mp <= 11
            &&& 1 <= d
            &&& mp == 11 ==> d <= 29 && (doy <= 364 ==> d <= 28)
            &&& (mp == 1 || mp == 3 || mp == 6 || mp == 8) ==> d <= 30
            &&& d <= 31
        }),
{
    let mp = (5 * doy + 2) / 153;
    assert(0 <= mp <= 11);
    if mp == 0 {
    } else if mp == 1 {
    } else if mp == 2 {
    } else if mp == 3 {
    } else if mp == 4 {
    } else if mp == 5 {
    } else if mp == 6 {
    } else if mp == 7 {
    } else if mp == 8 {
    } else if mp == 9 {
    } else if mp == 10 {
    } else {
    }
}

/// Day 365 of a March-based year (its 29 February) only comes in a leap year.
proof fn lemma_last_day_leap(doe: int)
    requires
        0 <= doe <= 146096,
    ensures
        ({
            let yoe = (doe - doe / 1460 + doe / 36524 - doe / 146096) / 365;
            let doy = doe - (365 * yoe + yoe / 4 - yoe / 100);
            doy == 365 ==> is_leap(yoe + 1)
        }),
{
    lemma_era_day_bounds(doe);
}

/// The date of day `doy` of the March-based year `yoe` of an era.
pub open spec fn civil_of_year_day(yoe: int, doy: int) -> (int, int, int) {
    let mp = (5 * doy + 2) / 153;
    let d = doy - (153 * mp + 2) / 5 + 1;
    let m = if mp < 10 {
        mp + 3
    } else {
        mp - 9
    };
    (if m <= 2 {
        yoe + 1
    } else {
        yoe
    }, m, d)
}

proof fn lemma_year_day_civil(yoe: int, doy: int)
    requires
        0 <= yoe <= 399,
        0 <= doy <= 365,
        doy == 365 ==> is_leap(yoe + 1),
    ensures
        ({
            let (y, m, d) = civil_of_year_day(yoe, doy);
            &&& 0 <= y <= 400
            &&& 1 <= m <= 12
            &&& 1 <= d <= days_in_month(y, m)
            &&& 365 * y + leaps_before(y) + days_before_month(y, m) + d - 1 == 365 * yoe + yoe
                / 4 - yoe / 100 + doy + 60
        }),
{
    lemma_month_of_year_day(doy);
    let mp = (5 * doy + 2) / 153;
    let d = doy - (153 * mp + 2) / 5 + 1;
    let (y, m, dd) = civil_of_year_day(yoe, doy);
    assert(dd == d);
    lemma_days_before_month(y, m);
    leaps_before_counts(yoe);
    assert(leaps_before(yoe) == (yoe + 3) / 4 - (yoe + 99) / 100 + (yoe + 399) / 400);
    assert(leaps_before(yoe + 1) == yoe / 4 - yoe / 100 + 1);
    if mp == 0 {
    } else if mp == 1 {
    } else if mp == 2 {
    } else if mp == 3 {
    } else if mp == 4 {
    } else if mp == 5 {
    } else if mp == 6 {
    } else if mp == 7 {
    } else if mp == 8 {
    } else if mp == 9 {
    } else if mp == 10 {
    } else {
    }
}

proof fn lemma_era_day_civil(doe: int)
    requires
        0 <= doe <= 146096,
    ensures
        ({
            let (y, m, d) = civil_of_era_day(doe);
            &&& 0 <= y <= 400
            &&& 1 <= m <= 12
            &&& 1 <= d <= days_in_month(y, m)
            &&& 365 * y + leaps_before(y) + days_before_month(y, m) + d - 1 == doe + 60
        }),
{
    lemma_era_day_bounds(doe);
    lemma_last_day_leap(doe);
    let yoe = (doe - doe / 1460 + doe / 36524 - doe / 146096) / 365;
    let doy = doe - (365 * yoe + yoe / 4 - yoe / 100);
    lemma_year_day_civil(yoe, doy);
    assert(civil_of_era_day(doe) == civil_of_year_day(yoe, doy));
}


proof fn lemma_div_shift(x: int, k: int, c: int)
    requires
        k > 0,
    ensures
        (x + k * c) / k == x / k + c,
        (x + k * c) % k == x % k,
{
    lemma_fundamental_div_mod(x, k);
    let q = x / k;
    let r = x % k;
    assert(x + k * c == (q + c) * k + r) by (nonlinear_arith)
        requires
            x == k * q + r,
    ;
    lemma_fundamental_div_mod_converse(x + k * c, k, q + c, r);
}

/// `civil_from_days` reads the calendar correctly: its month and day are a
/// real month and a day of that month, and counting the days from
/// 1970-01-01 to that date by the leap-year rule gives back `n`.
#[verifier::rlimit(40)]
pub proof fn civil_from_days_is_inverse(n: int)
    ensures
        ({
            let (y, m, d) = civil_from_days(n);
            &&& 1 <= m <= 12
            &&& 1 <= d <= days_in_month(y, m)
            &&& days_from_civil(y, m, d) == n
        }),
{
    let z = n + 719468;
    let era = z / 146097;
    lemma_fundamental_div_mod(z, 146097);
    let doe = z - era * 146097;
    assert(0 <= doe < 146097);
    lemma_era_day_civil(doe);
    let (yy, m, d) = civil_of_era_day(doe);
    let y = yy + era * 400;
    assert(civil_from_days(n) == (y, m, d));
    lemma_div_shift(yy + 3, 4, era * 100);
    lemma_div_shift(yy + 99, 100, era * 4);
    lemma_div_shift(yy + 399, 400, era);
    lemma_div_shift(yy, 4, era * 100);
    lemma_div_shift(yy, 100, era * 4);
    lemma_div_shift(yy, 400, era);
    assert(yy + 3 + 4 * (era * 100) == y + 3);
    assert(yy + 99 + 100 * (era * 4) == y + 99);
    assert(yy + 399 + 400 * era == y + 399);
    assert(leaps_before(y) == leaps_before(yy) + 97 * era);
    assert(is_leap(y) == is_leap(yy));
    lemma_days_before_month(y, m);
    lemma_days_before_month(yy, m);
}


/// Whether text `a` comes before text `b` or equals it, character by
/// character.
pub open spec fn text_le(a: Seq<char>, b: Seq<char>) -> bool
    decreases a.len(),
{
    if a.len() == 0 {
        true
    } else if b.len() == 0 {
        false
    } else {
        a[0] < b[0] || (a[0] == b[0] && text_le(a.drop_first(), b.drop_first()))
    }
}

proof fn lemma_digit_order(a: int, b: int)
    requires
        0 <= a <= 9,
        0 <= b <= 9,
    ensures
        (digit(a) < digit(b)) == (a < b),
        (digit(a) == digit(b)) == (a == b),
        '0' <= digit(a) <= '9',
{
}

/// The ten characters of a date in years 1000 to 9999.
pub open spec fn date_chars(y: int, m: int, d: int) -> Seq<char> {
    seq![
        digit(y / 1000),
        digit(y / 100 % 10),
        digit(y / 10 % 10),
        digit(y % 10),
        '-',
        digit(m / 10),
        digit(m % 10),
        '-',
        digit(d / 10),
        digit(d % 10),
    ]
}

proof fn lemma_date_chars(y: int, m: int, d: int)
    requires
        1000 <= y <= 9999,
        1 <= m <= 12,
        1 <= d <= 31,
    ensures
        padded(y, 4) + seq!['-'] + padded(m, 2) + seq!['-'] + padded(d, 2) == date_chars(y, m, d),
{
    reveal_with_fuel(dec, 4);
    assert(dec(y as nat) =~= seq![digit(y / 1000), digit(y / 100 % 10), digit(y / 10 % 10), digit(y % 10)]);
    assert(zeros(0) =~= Seq::<char>::empty());
    assert(padded(m, 2) =~= seq![digit(m / 10), digit(m % 10)]) by {
        if m < 10 {
            assert(zeros(1) =~= seq!['0']);
        }
    }
    assert(padded(d, 2) =~= seq![digit(d / 10), digit(d % 10)]) by {
        if d < 10 {
            assert(zeros(1) =~= seq!['0']);
        }
    }
    assert(padded(y, 4) + seq!['-'] + padded(m, 2) + seq!['-'] + padded(d, 2) =~= date_chars(y, m, d));
}


proof fn lemma_text_le_prefix(a: Seq<char>, b: Seq<char>, k: int)
    requires
        a.len() == b.len(),
        0 <= k <= a.len(),
        forall|j: int| 0 <= j < k ==> a[j] == b[j],
        k == a.len() || a[k] < b[k],
    ensures
        text_le(a, b),
    decreases a.len(),
{
    if a.len() > 0 && k > 0 {
        lemma_text_le_prefix(a.drop_first(), b.drop_first(), k - 1);
    }
}

/// Digits of two numbers below 10^4, compared from the left.
proof fn lemma_digits_cmp(a: int, b: int)
    requires
        0 <= a <= 9999,
        0 <= b <= 9999,
        a < b,
    ensures
        a / 1000 < b / 1000 || (a / 1000 == b / 1000 && (a / 100 % 10 < b / 100 % 10 || (a / 100
            % 10 == b / 100 % 10 && (a / 10 % 10 < b / 10 % 10 || (a / 10 % 10 == b / 10 % 10 && a
            % 10 < b % 10))))),
{
    lemma_four_digits(a);
    lemma_four_digits(b);
}

proof fn lemma_four_digits(a: int)
    requires
        0 <= a <= 9999,
    ensures
        a == 1000 * (a / 1000) + 100 * (a / 100 % 10) + 10 * (a / 10 % 10) + a % 10,
        0 <= a / 1000 <= 9,
        0 <= a / 100 % 10 <= 9,
        0 <= a / 10 % 10 <= 9,
        0 <= a % 10 <= 9,
{
    assert(a == 10 * (a / 10) + a % 10);
    assert(a / 10 == 10 * (a / 100) + a / 10 % 10);
    assert(a / 100 == 10 * (a / 1000) + a / 100 % 10);
}

#[verifier::rlimit(60)]
proof fn lemma_date_chars_ordered(y1: int, m1: int, d1: int, y2: int, m2: int, d2: int)
    requires
        1000 <= y1 <= 9999,
        1000 <= y2 <= 9999,
        1 <= m1 <= 12,
        1 <= m2 <= 12,
        1 <= d1 <= 31,
        1 <= d2 <= 31,
        !date_before((y2, m2, d2), (y1, m1, d1)),
    ensures
        text_le(date_chars(y1, m1, d1), date_chars(y2, m2, d2)),
{
    let a = date_chars(y1, m1, d1);
    let b = date_chars(y2, m2, d2);
    let ghost ds1 = seq![y1 / 1000, y1 / 100 % 10, y1 / 10 % 10, y1 % 10, -1, m1 / 10, m1 % 10, -1, d1 / 10, d1 % 10];
    let ghost ds2 = seq![y2 / 1000, y2 / 100 % 10, y2 / 10 % 10, y2 % 10, -1, m2 / 10, m2 % 10, -1, d2 / 10, d2 % 10];
    assert forall|k: int| 0 <= k < 10 && k != 4 && k != 7 implies (a[k] < b[k]) == (ds1[k] < ds2[k])
        && (a[k] == b[k]) == (ds1[k] == ds2[k]) by {
        lemma_digit_order(ds1[k], ds2[k]);
    }
    // the first position where the digit sequences differ
    let ghost k: int = if y1 != y2 {
        if y1 / 1000 != y2 / 1000 { 0 } else if y1 / 100 % 10 != y2 / 100 % 10 { 1 } else if y1 / 10 % 10 != y2 / 10 % 10 { 2 } else { 3 }
    } else if m1 != m2 {
        if m1 / 10 != m2 / 10 { 5 } else { 6 }
    } else if d1 / 10 != d2 / 10 { 8 } else if d1 != d2 { 9 } else { 10 };
    if y1 < y2 {
        lemma_digits_cmp(y1, y2);
    } else if y1 == y2 && m1 < m2 {
        lemma_digits_cmp(m1, m2);
    } else if y1 == y2 && m1 == m2 && d1 < d2 {
        lemma_digits_cmp(d1, d2);
    }
    assert(forall|j: int| 0 <= j < k ==> a[j] == b[j]);
    assert(k == 10 || a[k] < b[k]);
    lemma_text_le_prefix(a, b, k);
}


proof fn lemma_civil_first_day()
    ensures
        civil_from_days(0int / 86400) == (1970int, 1int, 1int),
{
    assert(0int / 86400 == 0);
    assert(719468int / 146097 == 4);
}

proof fn lemma_civil_last_day()
    ensures
        civil_from_days(253402300799int / 86400) == (9999int, 12int, 31int),
{
    assert(253402300799int / 86400 == 2932896);
    assert((2932896int + 719468) / 146097 == 24);
}

/// For instants from 1970 through the year 9999, the date text of a later
/// instant never sorts before that of an earlier one.
pub proof fn date_text_is_monotonic(e1: int, e2: int)
    requires
        0 <= e1 <= e2 <= 253402300799,
    ensures
        text_le(date_of(e1), date_of(e2)),
{
    date_is_monotonic(e1, e2);
    date_is_monotonic(0, e1);
    date_is_monotonic(e2, 253402300799);
    lemma_civil_first_day();
    lemma_civil_last_day();
    let n1 = e1 / 86400;
    let n2 = e2 / 86400;
    civil_from_days_is_inverse(n1);
    civil_from_days_is_inverse(n2);
    let (y1, m1, d1) = civil_from_days(n1);
    let (y2, m2, d2) = civil_from_days(n2);
    lemma_date_chars(y1, m1, d1);
    lemma_date_chars(y2, m2, d2);
    lemma_date_chars_ordered(y1, m1, d1, y2, m2, d2);
}

} // verus!
