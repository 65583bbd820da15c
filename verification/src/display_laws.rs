//! What times, ages, sizes, paths and hashes look like.

use vstd::prelude::*;
use vstd::string::*;

use crate::display::{
    age_text, as_double, civil, day_text, grain, hash_text, moment_text, nearest, short_path,
    shows_time, size_text, two_digits, year_text,
};
use crate::number::decimal;
use crate::text::{byte_len, clip};
use crate::text_laws::law_decimal;

verus! {

/// A number below a hundred takes two digits, the tens before the ones.
pub proof fn law_two_digits(tens: int, ones: int)
    requires
        0 <= tens < 10,
        0 <= ones < 10,
    ensures
        two_digits(10 * tens + ones) == decimal(tens) + decimal(ones),
        two_digits(10 * tens + ones).len() == 2,
{
    law_decimal(1, tens);
    law_decimal(1, ones);
    if tens == 0 {
        reveal_strlit("0");
        assert("0"@ =~= decimal(0));
    } else {
        law_decimal(tens, ones);
    }
}

/// An age is told in its two largest units, the second of them with two digits.
pub proof fn law_age(d: int, h: int, m: int, s: int)
    requires
        0 <= d,
        0 <= h < 24,
        0 <= m < 60,
        0 <= s < 60,
    ensures
        ({
            let t = age_text(86400 * d + 3600 * h + 60 * m + s);
            &&& d > 0 ==> t == decimal(d) + "d "@ + two_digits(h) + "h"@
            &&& d == 0 && h > 0 ==> t == decimal(h) + "h "@ + two_digits(m) + "m"@
            &&& d == 0 && h == 0 && m > 0 ==> t == decimal(m) + "m "@ + two_digits(s) + "s"@
            &&& d == 0 && h == 0 && m == 0 ==> t == decimal(s) + "s"@
        }),
        s > 0 ==> age_text(-s) == "0s"@,
{
    let t = 86400 * d + 3600 * h + 60 * m + s;
    assert(t % 60 == s);
    assert(t / 60 == 1440 * d + 60 * h + m);
    assert((t / 60) % 60 == m);
    assert(t / 3600 == 24 * d + h);
    assert((t / 3600) % 24 == h);
    assert(t / 86400 == d);
}

/// A moment is shown as its day and then its hour, minute and second, two digits each.
pub proof fn law_moment(z: int, h: int, m: int, s: int)
    requires
        0 <= h < 24,
        0 <= m < 60,
        0 <= s < 60,
    ensures
        moment_text(86400 * z + 3600 * h + 60 * m + s) == day_text(z) + " "@ + two_digits(h)
            + ":"@ + two_digits(m) + ":"@ + two_digits(s),
{
    let t = 86400 * z + 3600 * h + 60 * m + s;
    assert(t / 86400 == z);
    assert(t % 86400 == 3600 * h + 60 * m + s);
    assert((t % 86400) / 3600 == h);
    assert(t % 3600 == 60 * m + s);
    assert((t % 3600) / 60 == m);
    assert(t % 60 == s);
}

/// A day is shown as its year, its month and its day of the month.
pub proof fn law_day(z: int, y: int, m: int, d: int)
    requires
        civil(z) == (y, m, d),
    ensures
        day_text(z) == year_text(y) + "-"@ + two_digits(m) + "-"@ + two_digits(d),
        0 <= y <= 9999 ==> year_text(y).len() == 4,
        1000 <= y <= 9999 ==> year_text(y) == decimal(y),
{
    if 0 <= y <= 9999 {
        crate::display::lemma_numeral_widths(y as nat);
    }
}

/// How many days a month has.
pub open spec fn month_days(y: int, m: int) -> int {
    if m == 2 {
        if y % 4 == 0 && (y % 100 != 0 || y % 400 == 0) {
            29
        } else {
            28
        }
    } else if m == 4 || m == 6 || m == 9 || m == 11 {
        30
    } else {
        31
    }
}

/// The day behind a day of the calendar.
pub open spec fn next_day(c: (int, int, int)) -> (int, int, int) {
    let (y, m, d) = c;
    if d < month_days(y, m) {
        (y, m, d + 1)
    } else if m < 12 {
        (y, m + 1, 1)
    } else {
        (y + 1, 1, 1)
    }
}

/// The days are counted from the first of January 1970, and each is followed by the one
/// that the calendar has behind it.
pub proof fn law_calendar(z: int)
    ensures
        civil(0) == (1970int, 1int, 1int),
        civil(z + 1) == next_day(civil(z)),
{
    lemma_first_day();
    lemma_next_day(z);
}

proof fn lemma_first_day()
    ensures
        civil(0) == (1970int, 1int, 1int),
{
}

/// The year of a day in a cycle of four hundred years. Both are counted from March, so
/// that the day that a year may have more is its last.
spec fn year_of_cycle(doe: int) -> int {
    (doe - doe / 1460 + doe / 36524 - doe / 146096) / 365
}

spec fn days_before(yoe: int) -> int {
    365 * yoe + yoe / 4 - yoe / 100
}

spec fn year_days(yoe: int) -> int {
    days_before(yoe + 1) - days_before(yoe) + (if yoe == 399 {
        1int
    } else {
        0
    })
}

spec fn in_year(doe: int, y: int) -> bool {
    0 <= y < 400 && days_before(y) <= doe < days_before(y) + year_days(y)
}

/// The month, counted from March, and the day in it.
spec fn month_of(doy: int) -> int {
    (5 * doy + 2) / 153
}

spec fn day_of(doy: int) -> int {
    doy - (153 * month_of(doy) + 2) / 5 + 1
}

spec fn dated(era: int, yoe: int, doy: int) -> (int, int, int) {
    let mp = month_of(doy);
    let m = if mp < 10 {
        mp + 3
    } else {
        mp - 9
    };
    (yoe + era * 400 + (if m <= 2 {
        1int
    } else {
        0
    }), m, day_of(doy))
}

#[verifier::spinoff_prover]
#[verifier::rlimit(60)]
proof fn lemma_year_of_cycle(doe: int)
    requires
        0 <= doe < 146097,
    ensures
        in_year(doe, year_of_cycle(doe)),
{
    let c = if doe / 36524 >= 4 {
        3int
    } else {
        doe / 36524
    };
    let r = doe - 36524 * c;
    assert(0 <= c <= 3);
    assert(0 <= r);
    assert(r < 36524 + (if c == 3 {
        1int
    } else {
        0
    }));
}

proof fn lemma_one_year(doe: int, y: int)
    requires
        0 <= doe < 146097,
        in_year(doe, y),
    ensures
        year_of_cycle(doe) == y,
{
    lemma_year_of_cycle(doe);
    let x = year_of_cycle(doe);
    if x < y {
        assert(days_before(x + 1) <= days_before(y));
    } else if y < x {
        assert(days_before(y + 1) <= days_before(x));
    }
}

proof fn lemma_dated(z: int, era: int, y: int, doy: int)
    requires
        0 <= y < 400,
        0 <= doy < year_days(y),
        z + 719468 == 146097 * era + days_before(y) + doy,
    ensures
        civil(z) == dated(era, y, doy),
{
    let s = z + 719468;
    let doe = days_before(y) + doy;
    assert(0 <= days_before(y) && days_before(y) + year_days(y) <= 146097);
    assert(s / 146097 == era && s % 146097 == doe);
    lemma_one_year(doe, y);
}

proof fn lemma_year_days(era: int, y: int)
    requires
        0 <= y < 400,
    ensures
        year_days(y) == 337 + month_days(y + era * 400 + 1, 2),
{
    lemma_cycle(era, y + 1);
    lemma_quotient(y, 4);
    lemma_quotient(y, 100);
    assert((y + 1) % 400 == 0 <==> y == 399);
    assert((y + 1) % 400 == 0 ==> (y + 1) % 100 == 0);
}

proof fn lemma_cycle(era: int, y: int)
    ensures
        (y + era * 400) % 4 == y % 4,
        (y + era * 400) % 100 == y % 100,
        (y + era * 400) % 400 == y % 400,
{
    vstd::arithmetic::div_mod::lemma_mod_multiples_vanish(100 * era, y, 4);
    vstd::arithmetic::div_mod::lemma_mod_multiples_vanish(4 * era, y, 100);
    vstd::arithmetic::div_mod::lemma_mod_multiples_vanish(era, y, 400);
}

proof fn lemma_quotient(y: int, n: int)
    requires
        n == 4 || n == 100,
    ensures
        (y + 1) / n - y / n == (if (y + 1) % n == 0 {
            1int
        } else {
            0
        }),
{
    if n == 4 {
        assert((y + 1) / 4 - y / 4 == (if (y + 1) % 4 == 0 {
            1int
        } else {
            0
        }));
    } else {
        assert((y + 1) / 100 - y / 100 == (if (y + 1) % 100 == 0 {
            1int
        } else {
            0
        }));
    }
}

proof fn lemma_month_step(era: int, y: int, doy: int)
    requires
        0 <= y < 400,
        0 <= doy,
        doy + 1 < year_days(y),
    ensures
        dated(era, y, doy + 1) == next_day(dated(era, y, doy)),
{
    lemma_year_days(era, y);
    lemma_month(doy);
    lemma_month(doy + 1);
}

/// The month and the day of the month, written out.
proof fn lemma_month(doy: int)
    requires
        0 <= doy <= 365,
    ensures
        doy < 31 ==> month_of(doy) == 0 && day_of(doy) == doy + 1,
        31 <= doy < 61 ==> month_of(doy) == 1 && day_of(doy) == doy - 30,
        61 <= doy < 92 ==> month_of(doy) == 2 && day_of(doy) == doy - 60,
        92 <= doy < 122 ==> month_of(doy) == 3 && day_of(doy) == doy - 91,
        122 <= doy < 153 ==> month_of(doy) == 4 && day_of(doy) == doy - 121,
        153 <= doy < 184 ==> month_of(doy) == 5 && day_of(doy) == doy - 152,
        184 <= doy < 214 ==> month_of(doy) == 6 && day_of(doy) == doy - 183,
        214 <= doy < 245 ==> month_of(doy) == 7 && day_of(doy) == doy - 213,
        245 <= doy < 275 ==> month_of(doy) == 8 && day_of(doy) == doy - 244,
        275 <= doy < 306 ==> month_of(doy) == 9 && day_of(doy) == doy - 274,
        306 <= doy < 337 ==> month_of(doy) == 10 && day_of(doy) == doy - 305,
        337 <= doy ==> month_of(doy) == 11 && day_of(doy) == doy - 336,
{
}

proof fn lemma_next_day(z: int)
    ensures
        civil(z + 1) == next_day(civil(z)),
{
    let s = z + 719468;
    let era = s / 146097;
    let doe = s % 146097;
    lemma_year_of_cycle(doe);
    let y = year_of_cycle(doe);
    let doy = doe - days_before(y);
    lemma_dated(z, era, y, doy);
    lemma_year_days(era, y);
    if doy + 1 < year_days(y) {
        lemma_dated(z + 1, era, y, doy + 1);
        lemma_month_step(era, y, doy);
    } else {
        lemma_month(doy);
        lemma_month(0);
        if y < 399 {
            assert(days_before(y + 1) == days_before(y) + year_days(y));
            lemma_year_days(era, y + 1);
            lemma_dated(z + 1, era, y + 1, 0);
        } else {
            assert(days_before(399) + year_days(399) == 146097);
            assert(days_before(0) == 0);
            lemma_year_days(era + 1, 0);
            lemma_dated(z + 1, era + 1, 0, 0);
        }
    }
}

/// A number of units is rounded to the nearest whole one, and to the even one where two
/// are as near.
pub proof fn law_nearest(n: int, unit: int)
    requires
        unit > 0,
    ensures
        -unit <= 2 * (n - unit * nearest(n, unit)) <= unit,
        2 * (n - unit * nearest(n, unit)) == unit || 2 * (n - unit * nearest(n, unit)) == -unit
            ==> nearest(n, unit) % 2 == 0,
{
    let q = n / unit;
    let r = n % unit;
    assert(n == unit * q + r && 0 <= r < unit) by (nonlinear_arith)
        requires
            unit > 0,
            q == n / unit,
            r == n % unit,
    ;
    assert(unit * (q + 1) == unit * q + unit) by (nonlinear_arith);
}

/// A number of bytes is held exactly below 2^53, and above to within one part in 2^53.
pub proof fn law_as_double(n: nat)
    ensures
        n < 0x20000000000000 ==> as_double(n) == n,
        grain(n) > 0,
        n >= 0x20000000000000 ==> 0x10000000000000 * grain(n) <= n,
        -grain(n) <= 2 * (n - as_double(n)) <= grain(n),
    decreases n,
{
    lemma_grain(n);
    let g = grain(n) as int;
    law_nearest(n as int, g);
    assert(as_double(n) == g * nearest(n as int, g)) by (nonlinear_arith)
        requires
            as_double(n) == nearest(n as int, g) * g,
    ;
    if n < 0x20000000000000 {
        assert(g == 1);
        assert(n as int / 1 == n && n as int % 1 == 0);
    }
}

proof fn lemma_grain(n: nat)
    ensures
        grain(n) > 0,
        n >= 0x20000000000000 ==> 0x10000000000000 * grain(n) <= n,
    decreases n,
{
    if n >= 0x20000000000000 {
        lemma_grain(n / 2);
        if n / 2 < 0x20000000000000 {
            assert(grain(n / 2) == 1);
        }
    }
}

/// A size is told in bytes below a thousand and twenty-four of them, and else in the
/// largest unit of which it has one, to the nearest tenth.
pub proof fn law_size(b: int)
    requires
        0 <= b < 0x20000000000000,
    ensures
        b < 1024 ==> size_text(b) == decimal(b) + " B"@,
        1024 <= b < 0x100000 ==> is_tenths(size_text(b), b, 1024, " KB"@),
        0x100000 <= b < 0x40000000 ==> is_tenths(size_text(b), b, 0x100000, " MB"@),
        0x40000000 <= b ==> is_tenths(size_text(b), b, 0x40000000, " GB"@),
        b > 0 ==> size_text(-b) == decimal(-b) + " B"@,
{
    law_as_double(b as nat);
    let unit: int = if b < 0x100000 {
        1024
    } else if b < 0x40000000 {
        0x100000
    } else {
        0x40000000
    };
    let name = if b < 0x100000 {
        " KB"@
    } else if b < 0x40000000 {
        " MB"@
    } else {
        " GB"@
    };
    let t = nearest(b * 10, unit);
    law_nearest(b * 10, unit);
    if b >= 1024 {
        assert(in_tenths(size_text(b), b, unit, name, t / 10, t % 10));
    }
}

/// Whether a text tells `b` as `q` units and `r` tenths, and that is as near as tenths
/// come.
pub open spec fn in_tenths(
    s: Seq<char>,
    b: int,
    unit: int,
    name: Seq<char>,
    q: int,
    r: int,
) -> bool {
    &&& 0 <= r < 10
    &&& -unit <= 2 * (10 * b - unit * (10 * q + r)) <= unit
    &&& s == decimal(q) + "."@ + decimal(r) + name
}

/// Whether a text tells `b` in units and tenths of them.
pub open spec fn is_tenths(s: Seq<char>, b: int, unit: int, name: Seq<char>) -> bool {
    exists|q: int, r: int| #[trigger] in_tenths(s, b, unit, name, q, r)
}

/// A path that fits is shown as it is. Of any other both ends are, with a sign between
/// them where there is room for one.
pub proof fn law_short_path(path: Seq<char>, max: int)
    requires
        0 <= max,
    ensures
        path.len() <= max ==> short_path(path, max) == path,
        path.len() > max && max < 7 ==> short_path(path, max) == path.take(max),
        path.len() > max && max >= 7 ==> {
            let s = short_path(path, max);
            let back = max / 2;
            let front = s.len() - back - 1;
            &&& s.len() == max - 2
            &&& s.take(front) == path.take(front)
            &&& s[front] == '…'
            &&& s.skip(front + 1) == path.skip(path.len() - back)
        },
{
    if path.len() > max && max >= 7 {
        reveal_strlit("…");
        let s = short_path(path, max);
        let back = max / 2;
        let front = s.len() - back - 1;
        assert(s.take(front) =~= path.take(front));
        assert(s.skip(front + 1) =~= path.skip(path.len() - back));
    }
}

/// Of a hash the name of its method and twelve bytes are shown. What is short enough is
/// shown whole.
pub proof fn law_hash(hex: Seq<char>)
    ensures
        byte_len(hex) > 12 ==> hash_text("sha256:"@ + hex) == "sha256:"@ + clip(hex, 12) + "…"@,
        byte_len(hex) <= 12 ==> hash_text("sha256:"@ + hex) == "sha256:"@ + hex,
        !crate::text::starts_with(hex, "sha256:"@) && byte_len(hex) > 20 ==> hash_text(hex)
            == clip(hex, 17) + "…"@,
        !crate::text::starts_with(hex, "sha256:"@) && byte_len(hex) <= 20 ==> hash_text(hex)
            == hex,
{
    let p = "sha256:"@;
    crate::text_laws::law_parts_are_found(Seq::empty(), p, hex);
    assert((p + hex).skip(p.len() as int) =~= hex);
}

/// A time that no calendar holds is shown as its number of seconds.
pub proof fn law_shows_time(t: Seq<char>, unix_secs: i64)
    ensures
        !crate::display::held_time(unix_secs) ==> (shows_time(t, unix_secs) <==> t == decimal(
            unix_secs as int,
        )),
{
}

} // verus!
