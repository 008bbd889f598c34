//! The civil calendar in UTC.

use vstd::prelude::*;
use vstd::string::*;

use crate::text;

verus! {

/// Whether `y` is a leap year of the Gregorian calendar.
pub open spec fn leap(y: int) -> bool {
    y % 4 == 0 && (y % 100 != 0 || y % 400 == 0)
}

pub open spec fn year_length(y: int) -> int {
    if leap(y) {
        366
    } else {
        365
    }
}

pub open spec fn month_length(y: int, m: int) -> int {
    if m == 2 {
        if leap(y) {
            29
        } else {
            28
        }
    } else if m == 4 || m == 6 || m == 9 || m == 11 {
        30
    } else {
        31
    }
}

/// The days from 1970-01-01 to the first of January of the year `y`.
pub open spec fn days_before_year(y: int) -> int
    decreases y - 1970,
{
    if y <= 1970 {
        0
    } else {
        days_before_year(y - 1) + year_length(y - 1)
    }
}

/// The days from the first of January to the first of the month `m`.
pub open spec fn days_before_month(y: int, m: int) -> int
    decreases m,
{
    if m <= 1 {
        0
    } else {
        days_before_month(y, m - 1) + month_length(y, m - 1)
    }
}

pub open spec fn valid_date(y: int, m: int, d: int) -> bool {
    y >= 1970 && 1 <= m <= 12 && 1 <= d <= month_length(y, m)
}

/// The days from 1970-01-01 to a date.
pub open spec fn day_number(y: int, m: int, d: int) -> int {
    days_before_year(y) + days_before_month(y, m) + d - 1
}

/// A number below 100 in two digits.
pub open spec fn two_digits(n: int) -> Seq<char> {
    seq![text::digit((n / 10) as nat), text::digit((n % 10) as nat)]
}

/// `YYYY-MM-DD`.
pub open spec fn date_text(y: int, m: int, d: int) -> Seq<char> {
    text::decimal(y as nat) + "-"@ + two_digits(m) + "-"@ + two_digits(d)
}

/// Whether `s` is the date of the day with the given number.
pub open spec fn is_date_of(s: Seq<char>, day: int) -> bool {
    exists|y: int, m: int, d: int| #[trigger]
        valid_date(y, m, d) && day_number(y, m, d) == day && s == date_text(y, m, d)
}

/// The leap years before the year `y` of the era.
spec fn leaps_before(y: int) -> int {
    (y - 1) / 4 - (y - 1) / 100 + (y - 1) / 400
}

proof fn lemma_leaps(y: int)
    requires
        y >= 1,
    ensures
        leaps_before(y + 1) == leaps_before(y) + (if leap(y) {
            1int
        } else {
            0
        }),
{
    lemma_step(y, 4);
    lemma_step(y, 100);
    lemma_step(y, 400);
    assert(y % 100 == 0 ==> y % 4 == 0);
    assert(y % 400 == 0 ==> y % 100 == 0);
}

proof fn lemma_step(y: int, n: int)
    requires
        y >= 1,
        n == 4 || n == 100 || n == 400,
    ensures
        y / n == (y - 1) / n + (if y % n == 0 {
            1int
        } else {
            0
        }),
{
}

proof fn lemma_days_before_year(y: int)
    requires
        y >= 1970,
    ensures
        days_before_year(y) == 365 * (y - 1970) + leaps_before(y) - 477,
    decreases y - 1970,
{
    if y > 1970 {
        lemma_days_before_year(y - 1);
        lemma_leaps(y - 1);
    }
}

proof fn lemma_days_before_month(y: int)
    ensures
        days_before_month(y, 1) == 0,
        days_before_month(y, 2) == 31,
        ({
            let f = month_length(y, 2);
            &&& days_before_month(y, 3) == 31 + f
            &&& days_before_month(y, 4) == 62 + f
            &&& days_before_month(y, 5) == 92 + f
            &&& days_before_month(y, 6) == 123 + f
            &&& days_before_month(y, 7) == 153 + f
            &&& days_before_month(y, 8) == 184 + f
            &&& days_before_month(y, 9) == 215 + f
            &&& days_before_month(y, 10) == 245 + f
            &&& days_before_month(y, 11) == 276 + f
            &&& days_before_month(y, 12) == 306 + f
        }),
{
    assert(days_before_month(y, 1) == 0);
    assert(days_before_month(y, 2) == 31);
    assert(days_before_month(y, 3) == 31 + month_length(y, 2));
    assert(days_before_month(y, 4) == days_before_month(y, 3) + 31);
    assert(days_before_month(y, 5) == days_before_month(y, 4) + 30);
    assert(days_before_month(y, 6) == days_before_month(y, 5) + 31);
    assert(days_before_month(y, 7) == days_before_month(y, 6) + 30);
    assert(days_before_month(y, 8) == days_before_month(y, 7) + 31);
    assert(days_before_month(y, 9) == days_before_month(y, 8) + 31);
    assert(days_before_month(y, 10) == days_before_month(y, 9) + 30);
    assert(days_before_month(y, 11) == days_before_month(y, 10) + 31);
    assert(days_before_month(y, 12) == days_before_month(y, 11) + 30);
}

/// The first day of each month, counted from the first of March.
spec fn march_month_start(mp: int) -> int {
    if mp == 0 {
        0
    } else if mp == 1 {
        31
    } else if mp == 2 {
        61
    } else if mp == 3 {
        92
    } else if mp == 4 {
        122
    } else if mp == 5 {
        153
    } else if mp == 6 {
        184
    } else if mp == 7 {
        214
    } else if mp == 8 {
        245
    } else if mp == 9 {
        275
    } else if mp == 10 {
        306
    } else {
        337
    }
}

/// A date out of the year that begins in March (`cycle` 400-year cycles,
/// `yoe` years in the cycle) and the day in it.
proof fn lemma_date(cycle: int, yoe: int, doy: int, mp: int, day: int)
    requires
        0 <= cycle,
        0 <= yoe < 400,
        0 <= mp <= 11,
        march_month_start(mp) <= doy,
        mp < 11 ==> doy < march_month_start(mp + 1),
        doy <= (if leap(400 * cycle + yoe + 1) {
            365int
        } else {
            364
        }),
        day >= 0,
        day + 719468 == 146097 * cycle + 365 * yoe + yoe / 4 - yoe / 100 + doy,
    ensures
        ({
            let m = if mp < 10 {
                mp + 3
            } else {
                mp - 9
            };
            let y = if m <= 2 {
                400 * cycle + yoe + 1
            } else {
                400 * cycle + yoe
            };
            let d = doy - march_month_start(mp) + 1;
            valid_date(y, m, d) && day_number(y, m, d) == day
        }),
{
    let year = 400 * cycle + yoe;
    assert(year / 4 == 100 * cycle + yoe / 4);
    assert(year / 100 == 4 * cycle + yoe / 100);
    assert(year / 400 == cycle);
    let m = if mp < 10 {
        mp + 3
    } else {
        mp - 9
    };
    let y = if m <= 2 {
        year + 1
    } else {
        year
    };
    assert(year >= 1969) by {
        if year < 1969 {
            assert(year / 4 <= 492);
        }
    }
    assert(y >= 1970) by {
        if m > 2 && year == 1969 {
            assert(doy < 306);
        }
    }
    lemma_days_before_year(y);
    lemma_days_before_month(y);
    if m > 2 {
        lemma_leaps(y);
    }
}

/// The parts of a 400-year cycle that begins in March: centuries, blocks of
/// four years, years and days.
proof fn lemma_cycle(doe: int, c: int, q: int, a: int, doy: int)
    requires
        0 <= doe < 146097,
        0 <= c <= 3,
        0 <= q <= 24,
        0 <= a <= 3,
        0 <= doy,
        doe == 36524 * c + 1461 * q + 365 * a + doy,
        a < 3 ==> doy < 365,
        a == 3 ==> doy <= 365,
        c < 3 ==> 1461 * q + 365 * a + doy < 36524,
    ensures
        ({
            let yoe = 100 * c + 4 * q + a;
            &&& yoe < 400
            &&& doe == 365 * yoe + yoe / 4 - yoe / 100 + doy
            &&& forall|cycle: int|
                0 <= cycle ==> doy <= (if #[trigger] leap(400 * cycle + yoe + 1) {
                    365int
                } else {
                    364
                })
        }),
{
    let yoe = 100 * c + 4 * q + a;
    assert(yoe / 4 == 25 * c + q);
    assert(yoe / 100 == c);
    assert forall|cycle: int| 0 <= cycle implies doy <= (if #[trigger] leap(
        400 * cycle + yoe + 1,
    ) {
        365int
    } else {
        364
    }) by {
        let y = 400 * cycle + yoe + 1;
        if doy == 365 {
            assert(a == 3);
            assert(y == 4 * (100 * cycle + 25 * c + q + 1));
            assert(y % 4 == 0);
            if q == 24 {
                assert(c == 3);
                assert(y == 400 * (cycle + 1));
                assert(y % 400 == 0);
            } else {
                assert(y % 100 == 4 * q + 4) by {
                    assert(y == 100 * (4 * cycle + c) + (4 * q + 4));
                }
            }
        }
    }
}

fn push_two_digits(s: &mut String, n: u64)
    requires
        n < 100,
    ensures
        final(s)@ == old(s)@ + two_digits(n as int),
{
    let tens = text::decimal_text((n / 10) as u128);
    let ones = text::decimal_text((n % 10) as u128);
    s.append(tens.as_str());
    s.append(ones.as_str());
    assert(old(s)@ + two_digits(n as int) =~= s@);
}

/// Convert unix seconds to YYYY-MM-DD UTC.
pub fn day_from_secs(secs: u64) -> (r: String)
    ensures
        is_date_of(r@, secs as int / 86400),
{
    let day: u64 = secs / 86400;
    // Years are counted from March, so that a leap day comes last.
    let z: u64 = day + 719468;
    let cycle: u64 = z / 146097;
    let doe: u64 = z % 146097;
    let c: u64 = if doe / 36524 < 3 {
        doe / 36524
    } else {
        3
    };
    let in_century: u64 = doe - 36524 * c;
    let q: u64 = in_century / 1461;
    let in_block: u64 = in_century % 1461;
    let a: u64 = if in_block / 365 < 3 {
        in_block / 365
    } else {
        3
    };
    let doy: u64 = in_block - 365 * a;
    let yoe: u64 = 100 * c + 4 * q + a;
    let mp: u64 = (5 * doy + 2) / 153;
    proof {
        lemma_cycle(doe as int, c as int, q as int, a as int, doy as int);
        assert(0 <= mp <= 11);
        assert((153 * mp + 2) / 5 == march_month_start(mp as int));
        assert(march_month_start(mp as int) <= doy);
        assert(mp < 11 ==> doy < march_month_start(mp + 1));
        assert(leap(400 * cycle + yoe + 1) || !leap(400 * cycle + yoe + 1));
        lemma_date(cycle as int, yoe as int, doy as int, mp as int, day as int);
    }
    let d: u64 = doy - (153 * mp + 2) / 5 + 1;
    let m: u64 = if mp < 10 {
        mp + 3
    } else {
        mp - 9
    };
    let y: u64 = if m <= 2 {
        400 * cycle + yoe + 1
    } else {
        400 * cycle + yoe
    };
    assert(valid_date(y as int, m as int, d as int));
    let mut out = text::decimal_text(y as u128);
    out.append("-");
    push_two_digits(&mut out, m);
    out.append("-");
    push_two_digits(&mut out, d);
    out
}

/// Later days have later numbers: no two dates share one.
pub proof fn law_day_numbers_distinct(y: int, m: int, d: int, y2: int, m2: int, d2: int)
    requires
        valid_date(y, m, d),
        valid_date(y2, m2, d2),
        day_number(y, m, d) == day_number(y2, m2, d2),
    ensures
        y == y2 && m == m2 && d == d2,
{
    lemma_days_before_month(y);
    lemma_days_before_month(y2);
    lemma_year_gap(y, y2);
    lemma_year_gap(y2, y);
    lemma_in_year(y, m, d);
    lemma_in_year(y2, m2, d2);
    assert(y == y2);
}

proof fn lemma_in_year(y: int, m: int, d: int)
    requires
        valid_date(y, m, d),
    ensures
        0 <= days_before_month(y, m) + d - 1 < year_length(y),
{
    lemma_days_before_month(y);
}

proof fn lemma_year_gap(y: int, y2: int)
    requires
        1970 <= y,
    ensures
        y < y2 ==> days_before_year(y) + year_length(y) <= days_before_year(y2),
    decreases y2 - y,
{
    if y < y2 && y + 1 < y2 {
        lemma_year_gap(y, y2 - 1);
    }
}

/// A day has one date.
pub proof fn law_date_unique(s: Seq<char>, t: Seq<char>, day: int)
    requires
        is_date_of(s, day),
        is_date_of(t, day),
    ensures
        s == t,
{
    let (y, m, d) = choose|y: int, m: int, d: int| #[trigger]
        valid_date(y, m, d) && day_number(y, m, d) == day && s == date_text(y, m, d);
    let (y2, m2, d2) = choose|y: int, m: int, d: int| #[trigger]
        valid_date(y, m, d) && day_number(y, m, d) == day && t == date_text(y, m, d);
    law_day_numbers_distinct(y, m, d, y2, m2, d2);
}

/// The number of days up to the end of the year 9999.
pub const FOUR_DIGIT_DAYS: u64 = 2932897;

/// The digits of a year of four digits.
proof fn lemma_year_digits(y: int)
    requires
        1000 <= y < 10000,
    ensures
        text::decimal(y as nat) == seq![
            text::digit((y / 1000) as nat),
            text::digit((y / 100 % 10) as nat),
            text::digit((y / 10 % 10) as nat),
            text::digit((y % 10) as nat),
        ],
{
    let n = y as nat;
    assert(text::decimal(n / 1000) =~= seq![text::digit(n / 1000)]);
    assert(n / 100 / 10 == n / 1000);
    assert(text::decimal(n / 100) == text::decimal(n / 1000).push(text::digit(n / 100 % 10)));
    assert(n / 10 / 10 == n / 100);
    assert(text::decimal(n / 10) == text::decimal(n / 100).push(text::digit(n / 10 % 10)));
    assert(text::decimal(n) == text::decimal(n / 10).push(text::digit(n % 10)));
    assert(text::decimal(n) =~= seq![
        text::digit((y / 1000) as nat),
        text::digit((y / 100 % 10) as nat),
        text::digit((y / 10 % 10) as nat),
        text::digit((y % 10) as nat),
    ]);
}

/// The characters of a date in a year of four digits.
proof fn lemma_date_characters(y: int, m: int, d: int)
    requires
        valid_date(y, m, d),
        y < 10000,
    ensures
        date_text(y, m, d) == seq![
            text::digit((y / 1000) as nat),
            text::digit((y / 100 % 10) as nat),
            text::digit((y / 10 % 10) as nat),
            text::digit((y % 10) as nat),
            '-',
            text::digit((m / 10) as nat),
            text::digit((m % 10) as nat),
            '-',
            text::digit((d / 10) as nat),
            text::digit((d % 10) as nat),
        ],
{
    lemma_year_digits(y);
    reveal_strlit("-");
    assert("-"@ =~= seq!['-']);
    assert(date_text(y, m, d) =~= seq![
        text::digit((y / 1000) as nat),
        text::digit((y / 100 % 10) as nat),
        text::digit((y / 10 % 10) as nat),
        text::digit((y % 10) as nat),
        '-',
        text::digit((m / 10) as nat),
        text::digit((m % 10) as nat),
        '-',
        text::digit((d / 10) as nat),
        text::digit((d % 10) as nat),
    ]);
}

/// The first days have years of four digits.
proof fn lemma_four_digit_year(y: int, m: int, d: int)
    requires
        valid_date(y, m, d),
        day_number(y, m, d) < FOUR_DIGIT_DAYS,
    ensures
        y < 10000,
{
    if y >= 10000 {
        lemma_days_before_year(y);
        lemma_days_before_month(y);
    }
}

/// Up to the end of the year 9999 a date has ten characters, each of them a
/// digit or a hyphen.
pub proof fn law_date_has_ten_characters(s: Seq<char>, day: int)
    requires
        is_date_of(s, day),
        day < FOUR_DIGIT_DAYS,
    ensures
        s.len() == 10,
        forall|i: int| 0 <= i < 10 ==> (#[trigger] s[i]) == '-' || text::ascii_digit(s[i]),
        text::utf8_len(s) == 10,
{
    let (y, m, d) = choose|y: int, m: int, d: int| #[trigger]
        valid_date(y, m, d) && day_number(y, m, d) == day && s == date_text(y, m, d);
    lemma_four_digit_year(y, m, d);
    lemma_date_characters(y, m, d);
    reveal_with_fuel(text::utf8_len, 11);
}

/// A date comes before another by its year, its month, or its day.
spec fn earlier(y: int, m: int, d: int, y2: int, m2: int, d2: int) -> bool {
    y < y2 || y == y2 && (m < m2 || m == m2 && d < d2)
}

proof fn lemma_earlier(y: int, m: int, d: int, y2: int, m2: int, d2: int)
    requires
        valid_date(y, m, d),
        valid_date(y2, m2, d2),
        day_number(y, m, d) < day_number(y2, m2, d2),
    ensures
        earlier(y, m, d, y2, m2, d2),
{
    lemma_year_gap(y2, y);
    lemma_in_year(y, m, d);
    lemma_in_year(y2, m2, d2);
    if y == y2 && m > m2 {
        lemma_days_before_month(y);
    }
}

/// The first digit in which two years differ decides.
proof fn lemma_year_order(y: int, y2: int)
    requires
        1000 <= y < y2 < 10000,
    ensures
        ({
            let (a, b, c, d) = (y / 1000, y / 100 % 10, y / 10 % 10, y % 10);
            let (a2, b2, c2, d2) = (y2 / 1000, y2 / 100 % 10, y2 / 10 % 10, y2 % 10);
            a < a2 || a == a2 && (b < b2 || b == b2 && (c < c2 || c == c2 && d < d2))
        }),
{
    lemma_digit_order(y, y2);
    assert(y / 10 / 10 == y / 100 && y2 / 10 / 10 == y2 / 100);
    assert(y / 100 / 10 == y / 1000 && y2 / 100 / 10 == y2 / 1000);
    if y / 10 < y2 / 10 {
        lemma_digit_order(y / 10, y2 / 10);
        if y / 100 < y2 / 100 {
            lemma_digit_order(y / 100, y2 / 100);
        }
    }
}

proof fn lemma_digit_order(n: int, k: int)
    requires
        0 <= n < k,
    ensures
        n / 10 < k / 10 || n / 10 == k / 10 && n % 10 < k % 10,
{
}

#[verifier::spinoff_prover]
proof fn lemma_earlier_year_text(y: int, m: int, d: int, y2: int, m2: int, d2: int)
    requires
        valid_date(y, m, d),
        valid_date(y2, m2, d2),
        y < y2 < 10000,
    ensures
        text::before(date_text(y, m, d), date_text(y2, m2, d2)),
{
    let s = date_text(y, m, d);
    let t = date_text(y2, m2, d2);
    lemma_date_characters(y, m, d);
    lemma_date_characters(y2, m2, d2);
    lemma_year_order(y, y2);
    if y / 1000 != y2 / 1000 {
        text::lemma_before_at(s, t, 0);
    } else if y / 100 % 10 != y2 / 100 % 10 {
        text::lemma_before_at(s, t, 1);
    } else if y / 10 % 10 != y2 / 10 % 10 {
        text::lemma_before_at(s, t, 2);
    } else {
        text::lemma_before_at(s, t, 3);
    }
}

#[verifier::spinoff_prover]
proof fn lemma_earlier_day_text(y: int, m: int, d: int, m2: int, d2: int)
    requires
        valid_date(y, m, d),
        valid_date(y, m2, d2),
        y < 10000,
        m < m2 || m == m2 && d < d2,
    ensures
        text::before(date_text(y, m, d), date_text(y, m2, d2)),
{
    let s = date_text(y, m, d);
    let t = date_text(y, m2, d2);
    lemma_date_characters(y, m, d);
    lemma_date_characters(y, m2, d2);
    if m / 10 != m2 / 10 {
        text::lemma_before_at(s, t, 5);
    } else if m % 10 != m2 % 10 {
        text::lemma_before_at(s, t, 6);
    } else if d / 10 != d2 / 10 {
        text::lemma_before_at(s, t, 8);
    } else {
        text::lemma_before_at(s, t, 9);
    }
}

/// Up to the end of the year 9999 a later day has a greater text.
pub proof fn law_later_day_has_greater_text(s: Seq<char>, t: Seq<char>, day: int, later: int)
    requires
        is_date_of(s, day),
        is_date_of(t, later),
        day < later < FOUR_DIGIT_DAYS,
    ensures
        text::before(s, t),
{
    let (y, m, d) = choose|y: int, m: int, d: int| #[trigger]
        valid_date(y, m, d) && day_number(y, m, d) == day && s == date_text(y, m, d);
    let (y2, m2, d2) = choose|y: int, m: int, d: int| #[trigger]
        valid_date(y, m, d) && day_number(y, m, d) == later && t == date_text(y, m, d);
    lemma_four_digit_year(y, m, d);
    lemma_four_digit_year(y2, m2, d2);
    lemma_earlier(y, m, d, y2, m2, d2);
    if y < y2 {
        lemma_earlier_year_text(y, m, d, y2, m2, d2);
    } else {
        lemma_earlier_day_text(y, m, d, m2, d2);
    }
}

/// The days of a month of the Gregorian calendar.
pub open spec fn days_in(y: int, m: int) -> int {
    if m == 1 || m == 3 || m == 5 || m == 7 || m == 8 || m == 10 || m == 12 {
        31
    } else if m == 4 || m == 6 || m == 9 || m == 11 {
        30
    } else if y % 400 == 0 || (y % 4 == 0 && y % 100 != 0) {
        29
    } else {
        28
    }
}

/// The days are counted from the first of January 1970, one after the other:
/// through the days of a month, the months of a year, and the years.
pub proof fn law_days_follow_each_other(y: int, m: int, d: int)
    requires
        y >= 1970,
        1 <= m <= 12,
        1 <= d <= days_in(y, m),
    ensures
        valid_date(y, m, d),
        day_number(1970, 1, 1) == 0,
        d < days_in(y, m) ==> day_number(y, m, d + 1) == day_number(y, m, d) + 1,
        d == days_in(y, m) && m < 12 ==> day_number(y, m + 1, 1) == day_number(y, m, d) + 1,
        d == days_in(y, m) && m == 12 ==> day_number(y + 1, 1, 1) == day_number(y, m, d) + 1,
{
    assert(month_length(y, m) == days_in(y, m));
    lemma_days_before_month(y);
    reveal_with_fuel(days_before_month, 14);
}

/// A day is written as its year, month and day of the month in digits, the
/// last two of two digits each.
pub proof fn law_dates_are_written(y: int, m: int, d: int)
    requires
        valid_date(y, m, d),
        y < 10000,
    ensures
        ({
            let s = date_text(y, m, d);
            &&& s.len() == 10
            &&& s[0] as int == '0' as int + y / 1000
            &&& s[1] as int == '0' as int + y / 100 % 10
            &&& s[2] as int == '0' as int + y / 10 % 10
            &&& s[3] as int == '0' as int + y % 10
            &&& s[4] == '-'
            &&& s[5] as int == '0' as int + m / 10
            &&& s[6] as int == '0' as int + m % 10
            &&& s[7] == '-'
            &&& s[8] as int == '0' as int + d / 10
            &&& s[9] as int == '0' as int + d % 10
        }),
{
    lemma_date_characters(y, m, d);
}

/// The dates are the days of the months of the years from 1970 on.
pub proof fn law_valid_dates(y: int, m: int, d: int)
    ensures
        valid_date(y, m, d) <==> y >= 1970 && 1 <= m <= 12 && 1 <= d <= days_in(y, m),
{
}

} // verus!
