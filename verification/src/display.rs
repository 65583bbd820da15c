//! How times, sizes and paths are shown.

use vstd::prelude::*;
use vstd::string::*;

use crate::number;
use crate::number::{integer_text, unsigned_text};
use crate::text;
use crate::text::{byte_len, clip, clipped, strip_front, width_of};

verus! {

// ---------------------------------------------------------------- times

/// Whether a time, in any zone, lies in the years one to 9999.
pub open spec fn common_time(unix_secs: i64) -> bool {
    -62135510400 <= unix_secs <= 253402214399
}

/// Whether a time, in the zone of Greenwich, lies in the years that chrono holds: from
/// 262143 before year zero to 262142.
pub open spec fn held_time(unix_secs: i64) -> bool {
    -8334601228800 <= unix_secs <= 8210266876799
}

/// A number below one hundred, in two digits.
pub open spec fn two_digits(n: int) -> Seq<char> {
    if n < 10 {
        "0"@ + number::decimal(n)
    } else {
        number::decimal(n)
    }
}

/// The year, the month and the day that lie `z` days after the first of January 1970, in
/// the Gregorian calendar. It is counted in spans of 400 years, each of which begins with
/// a first of March, so that the day of a leap year is the last of its year.
pub open spec fn civil(z: int) -> (int, int, int) {
    let s = z + 719468;
    let doe = s % 146097;
    let yoe = (doe - doe / 1460 + doe / 36524 - doe / 146096) / 365;
    let doy = doe - (365 * yoe + yoe / 4 - yoe / 100);
    let mp = (5 * doy + 2) / 153;
    let m = if mp < 10 { mp + 3 } else { mp - 9 };
    let y = yoe + (s / 146097) * 400 + if m <= 2 { 1int } else { 0int };
    (y, m, doy - (153 * mp + 2) / 5 + 1)
}

/// A number of at least four digits.
pub open spec fn four_digits(n: nat) -> Seq<char> {
    let d = number::numeral(n);
    if d.len() >= 4 {
        d
    } else {
        text::repeat('0', 4 - d.len()) + d
    }
}

/// A year: in four digits, or with a sign and at least four digits before year zero and
/// after 9999.
pub open spec fn year_text(y: int) -> Seq<char> {
    if y < 0 {
        "-"@ + four_digits((-y) as nat)
    } else if y > 9999 {
        "+"@ + four_digits(y as nat)
    } else {
        four_digits(y as nat)
    }
}

/// The day that lies `z` days after the first of January 1970.
pub open spec fn day_text(z: int) -> Seq<char> {
    let (y, m, d) = civil(z);
    year_text(y) + "-"@ + two_digits(m) + "-"@ + two_digits(d)
}

/// The day and the time of day that lie `t` seconds after the start of 1970.
pub open spec fn moment_text(t: int) -> Seq<char> {
    day_text(t / 86400) + " "@ + two_digits((t % 86400) / 3600) + ":"@
        + two_digits((t % 3600) / 60) + ":"@ + two_digits(t % 60)
}

/// Whether `s` shows a time as a clock does that is `o` seconds ahead of Greenwich.
pub open spec fn shown_at(s: Seq<char>, unix_secs: i64, o: int) -> bool {
    -86400 < o < 86400 && s == moment_text(unix_secs + o)
}

/// Whether `s` shows a time as the clock of some zone does: one that is less than a day
/// ahead of Greenwich or behind it.
pub open spec fn local_form(s: Seq<char>, unix_secs: i64) -> bool {
    exists|o: int| #[trigger] shown_at(s, unix_secs, o)
}

/// `chrono::Local.timestamp_opt` and `DateTime::format` with `%Y-%m-%d %H:%M:%S`.
/// A time is shown just where chrono holds it, and as a clock shows it that differs from
/// Greenwich by less than a day. By how much it differs depends on the zone of the
/// machine, so nothing more is said of that.
#[verifier::external_body]
pub(crate) fn local_time(unix_secs: i64) -> (r: Option<String>)
    ensures
        match r {
            Some(t) => held_time(unix_secs) && local_form(t@, unix_secs),
            None => !held_time(unix_secs),
        },
{
    match chrono::TimeZone::timestamp_opt(&chrono::Local, unix_secs, 0) {
        chrono::LocalResult::Single(t) => Some(t.format("%Y-%m-%d %H:%M:%S").to_string()),
        _ => None,
    }
}

/// A time as it is shown, given its local form where there is one.
pub open spec fn time_text(local: Option<Seq<char>>, unix_secs: i64) -> Seq<char> {
    match local {
        Some(t) => t,
        None => number::decimal(unix_secs as int),
    }
}

/// Whether a text shows a time: in the local form, or as seconds where it has none.
pub open spec fn shows_time(t: Seq<char>, unix_secs: i64) -> bool {
    if held_time(unix_secs) {
        local_form(t, unix_secs)
    } else {
        t == number::decimal(unix_secs as int)
    }
}

pub(crate) proof fn lemma_numeral_widths(n: nat)
    ensures
        n < 10 ==> number::numeral(n).len() == 1,
        10 <= n < 100 ==> number::numeral(n).len() == 2,
        100 <= n < 1000 ==> number::numeral(n).len() == 3,
        1000 <= n < 10000 ==> number::numeral(n).len() == 4,
{
    reveal_with_fuel(number::numeral, 5);
}

proof fn lemma_two_digits(n: int)
    requires
        0 <= n < 100,
    ensures
        two_digits(n).len() == 2,
{
    reveal_strlit("0");
    lemma_numeral_widths(n as nat);
}

proof fn lemma_civil(z: int)
    ensures
        1 <= civil(z).1 <= 12,
        1 <= civil(z).2 <= 31,
        -719467 <= z <= 2932896 ==> 0 <= civil(z).0 <= 9999,
{
    let s = z + 719468;
    let doe = s % 146097;
    let yoe = (doe - doe / 1460 + doe / 36524 - doe / 146096) / 365;
    let doy = doe - (365 * yoe + yoe / 4 - yoe / 100);
    let mp = (5 * doy + 2) / 153;
    assert(0 <= doe < 146097);
    assert(0 <= yoe < 400);
    assert(0 <= doy <= 365);
    assert(0 <= mp <= 11);
}

/// A time that lies in the years one to 9999, whatever the zone, takes nineteen
/// characters.
pub proof fn law_common_times_are_nineteen_wide(t: Seq<char>, unix_secs: i64)
    requires
        common_time(unix_secs),
        shows_time(t, unix_secs),
    ensures
        t.len() == 19,
{
    let o = choose|o: int| shown_at(t, unix_secs, o);
    let c = unix_secs + o;
    let z = c / 86400;
    lemma_civil(z);
    lemma_numeral_widths(civil(z).0 as nat);
    lemma_two_digits(civil(z).1);
    lemma_two_digits(civil(z).2);
    lemma_two_digits((c % 86400) / 3600);
    lemma_two_digits((c % 3600) / 60);
    lemma_two_digits(c % 60);
    reveal_strlit("-");
    reveal_strlit(" ");
    reveal_strlit(":");
}

/// A time as it is shown, given its local form where there is one.
pub fn time_shown(local: Option<String>, unix_secs: i64) -> (r: String)
    ensures
        r@ == time_text(crate::json::text_view(local), unix_secs),
{
    match local {
        Some(t) => t,
        None => integer_text(unix_secs),
    }
}

/// A time in the zone of the machine, or the seconds where it has no local form.
pub fn fmt_ts(unix_secs: i64) -> (r: String)
    ensures
        shows_time(r@, unix_secs),
{
    time_shown(local_time(unix_secs), unix_secs)
}

/// A time in the zone of the machine, or a dash where there is none.
pub fn fmt_ts_opt(unix_secs: Option<i64>) -> (r: String)
    ensures
        match unix_secs {
            Some(t) => shows_time(r@, t),
            None => r@ == "—"@,
        },
{
    match unix_secs {
        Some(t) => fmt_ts(t),
        None => String::from_str("—"),
    }
}

fn two_digits_text(n: i64) -> (r: String)
    ensures
        r@ == two_digits(n as int),
{
    if n < 10 {
        let mut s = String::from_str("0");
        s.append(integer_text(n).as_str());
        s
    } else {
        integer_text(n)
    }
}

/// A length of time, by its two largest units.
pub open spec fn age_text(secs: int) -> Seq<char> {
    let s = secs % 60;
    let m = (secs / 60) % 60;
    let h = (secs / 3600) % 24;
    let d = secs / 86400;
    if secs < 0 {
        "0s"@
    } else if d > 0 {
        number::decimal(d) + "d "@ + two_digits(h) + "h"@
    } else if h > 0 {
        number::decimal(h) + "h "@ + two_digits(m) + "m"@
    } else if m > 0 {
        number::decimal(m) + "m "@ + two_digits(s) + "s"@
    } else {
        number::decimal(s) + "s"@
    }
}

/// A length of time, by its two largest units.
pub fn fmt_age(secs: i64) -> (r: String)
    ensures
        r@ == age_text(secs as int),
{
    if secs < 0 {
        return String::from_str("0s");
    }
    let s: i64 = secs % 60;
    let m: i64 = (secs / 60) % 60;
    let h: i64 = (secs / 3600) % 24;
    let d: i64 = secs / 86400;
    if d > 0 {
        let mut t = integer_text(d);
        t.append("d ");
        t.append(two_digits_text(h).as_str());
        t.append("h");
        t
    } else if h > 0 {
        let mut t = integer_text(h);
        t.append("h ");
        t.append(two_digits_text(m).as_str());
        t.append("m");
        t
    } else if m > 0 {
        let mut t = integer_text(m);
        t.append("m ");
        t.append(two_digits_text(s).as_str());
        t.append("s");
        t
    } else {
        let mut t = integer_text(s);
        t.append("s");
        t
    }
}

// ---------------------------------------------------------------- sizes

/// `n / unit`, to the nearest integer, halves to the even one.
pub open spec fn nearest(n: int, unit: int) -> int {
    let q = n / unit;
    let r = n % unit;
    if 2 * r > unit || (2 * r == unit && q % 2 == 1) {
        q + 1
    } else {
        q
    }
}

/// The distance of neighbouring double-precision numbers at `n`, where it is at
/// least one.
pub open spec fn grain(n: nat) -> nat
    decreases n,
{
    if n < 0x20000000000000 {
        1
    } else {
        2 * grain(n / 2)
    }
}

/// The double-precision number nearest to `n`.
pub open spec fn as_double(n: nat) -> int {
    nearest(n as int, grain(n) as int) * grain(n)
}

/// A size in a unit, to one decimal place.
pub open spec fn tenths_text(b: int, unit: int) -> Seq<char> {
    let t = nearest(b * 10, unit);
    number::decimal(t / 10) + "."@ + number::decimal(t % 10)
}

/// A size in bytes, by the largest unit that it reaches.
pub open spec fn size_text(bytes: int) -> Seq<char> {
    let b = as_double(bytes as nat);
    if bytes < 0 {
        number::decimal(bytes) + " B"@
    } else if b >= 0x40000000 {
        tenths_text(b, 0x40000000) + " GB"@
    } else if b >= 0x100000 {
        tenths_text(b, 0x100000) + " MB"@
    } else if b >= 0x400 {
        tenths_text(b, 0x400) + " KB"@
    } else {
        number::decimal(bytes) + " B"@
    }
}

fn nearest_of(n: u128, unit: u128) -> (r: u128)
    requires
        0 < unit <= 0x7fff_ffff_ffff_ffff,
        n <= 0xffff_ffff_ffff_ffff_ffff,
    ensures
        r == nearest(n as int, unit as int),
{
    let q: u128 = n / unit;
    let rest: u128 = n % unit;
    assert(q <= n) by (nonlinear_arith)
        requires
            q == n / unit,
            unit > 0,
            n >= 0,
    ;
    assert(rest < unit) by (nonlinear_arith)
        requires
            rest == n % unit,
            unit > 0,
            n >= 0,
    ;
    if 2 * rest > unit || (2 * rest == unit && q % 2 == 1) {
        q + 1
    } else {
        q
    }
}

fn grain_of(n: u64) -> (g: u64)
    requires
        n <= 0x7fff_ffff_ffff_ffff,
    ensures
        g == grain(n as nat),
        1 <= g,
        g <= n || g == 1,
{
    let mut g: u64 = 1;
    let mut m: u64 = n;
    while m >= 0x20000000000000
        invariant
            n <= 0x7fff_ffff_ffff_ffff,
            1 <= g,
            m * g <= n,
            g <= n || g == 1,
            g * grain(m as nat) == grain(n as nat),
        decreases m,
    {
        let ghost x = grain((m / 2) as nat) as int;
        assert(grain(m as nat) == 2 * x);
        assert(g * (2 * x) == (2 * g) * x) by (nonlinear_arith);
        assert((m / 2) * (2 * g) <= m * g) by (nonlinear_arith)
            requires
                m >= 0,
                g >= 0,
        ;
        assert(2 * g <= m * g) by (nonlinear_arith)
            requires
                m >= 2,
                g >= 0,
        ;
        g = 2 * g;
        m = m / 2;
    }
    assert(g * 1 == g);
    g
}

fn tenths_of(b: u128, unit: u128) -> (r: String)
    requires
        0 < unit <= 0x4000_0000,
        b <= 0x1_0000_0000_0000_0000,
    ensures
        r@ == tenths_text(b as int, unit as int),
{
    let t: u128 = nearest_of(b * 10, unit);
    assert(t <= b * 10 + 1) by {
        assert((b * 10) / (unit as int) <= b * 10) by (nonlinear_arith)
            requires
                unit > 0,
                b >= 0,
        ;
    }
    let whole: u128 = t / 10;
    assert(whole <= b + 1);
    let mut s = if whole <= 0xffff_ffff_ffff_ffff {
        unsigned_text(whole as u64)
    } else {
        big_text(whole)
    };
    s.append(".");
    s.append(unsigned_text((t % 10) as u64).as_str());
    s
}

fn big_text(n: u128) -> (r: String)
    requires
        0xffff_ffff_ffff_ffff < n <= 0x1_0000_0000_0000_0001,
    ensures
        r@ == number::decimal(n as int),
{
    let mut s = unsigned_text((n / 10) as u64);
    s.append(unsigned_text((n % 10) as u64).as_str());
    assert(s@ =~= number::decimal(n as int));
    s
}

/// A size in bytes, by the largest unit that it reaches.
pub fn fmt_bytes(bytes: i64) -> (r: String)
    ensures
        r@ == size_text(bytes as int),
{
    if bytes < 0 {
        let mut s = integer_text(bytes);
        s.append(" B");
        return s;
    }
    let n: u64 = bytes as u64;
    let g: u64 = grain_of(n);
    let near: u128 = nearest_of(n as u128, g as u128);
    proof {
        let q = (n as int) / (g as int);
        assert(q * g <= n && (q + 1) * g <= n + g) by (nonlinear_arith)
            requires
                q == (n as int) / (g as int),
                g >= 1,
                n >= 0,
        ;
        assert(near == q || near == q + 1);
        assert(near * g <= n + g) by (nonlinear_arith)
            requires
                near == q || near == q + 1,
                q * g <= n,
                (q + 1) * g <= n + g,
                g >= 1,
        ;
        assert(near * g >= 0) by (nonlinear_arith)
            requires
                near >= 0,
                g >= 0,
        ;
    }
    let b: u128 = near * (g as u128);
    if b >= 0x40000000 {
        let mut s = tenths_of(b, 0x40000000);
        s.append(" GB");
        s
    } else if b >= 0x100000 {
        let mut s = tenths_of(b, 0x100000);
        s.append(" MB");
        s
    } else if b >= 0x400 {
        let mut s = tenths_of(b, 0x400);
        s.append(" KB");
        s
    } else {
        let mut s = integer_text(bytes);
        s.append(" B");
        s
    }
}

// ---------------------------------------------------------------- shortening

/// Whether a text may be cut after `n` bytes: no character is cut through.
pub open spec fn cuts(s: Seq<char>, n: int) -> bool {
    0 <= n <= byte_len(s) && byte_len(clip(s, n)) == n
}

/// A path in at most `max` characters, its middle left out where it is longer.
pub open spec fn short_path(path: Seq<char>, max: int) -> Seq<char> {
    if path.len() <= max {
        path
    } else if max < 7 {
        path.take(max)
    } else {
        path.take(max - max / 2 - 3) + "…"@ + path.skip(path.len() - max / 2)
    }
}

proof fn lemma_byte_len_take(s: Seq<char>, i: int)
    requires
        0 <= i <= s.len(),
    ensures
        byte_len(s.take(i)) <= byte_len(s),
    decreases s.len() - i,
{
    if i < s.len() {
        lemma_byte_len_take(s, i + 1);
        assert(s.take(i + 1).drop_last() =~= s.take(i));
    } else {
        assert(s.take(i) =~= s);
    }
}

/// How many bytes a text takes.
pub fn byte_count(s: &str) -> (n: usize)
    requires
        byte_len(s@) <= usize::MAX,
    ensures
        n == byte_len(s@),
{
    let v = text::chars_of(s);
    let mut n: usize = 0;
    let mut i: usize = 0;
    assert(s@.take(0) =~= Seq::<char>::empty());
    while i < v.len()
        invariant
            v@ == s@,
            i <= v@.len(),
            n == byte_len(s@.take(i as int)),
            byte_len(s@) <= usize::MAX,
        decreases v@.len() - i,
    {
        proof {
            let next = s@.take(i + 1);
            assert(next.drop_last() =~= s@.take(i as int));
            assert(next.last() == v@[i as int]);
            lemma_byte_len_take(s@, i + 1);
        }
        n = n + width_of(v[i]);
        i = i + 1;
    }
    assert(s@.take(i as int) =~= s@);
    n
}

/// A path in at most `max_chars` characters, its middle left out where it is longer.
pub fn truncate_path(path: &str, max_chars: usize) -> (r: String)
    ensures
        r@ == short_path(path@, max_chars as int),
        r@.len() <= max_chars,
{
    proof {
        reveal_strlit("…");
    }
    let len: usize = path.unicode_len();
    if len <= max_chars {
        return String::from_str(path);
    }
    if max_chars < 7 {
        let r = String::from_str(path.substring_char(0, max_chars));
        assert(r@ =~= path@.take(max_chars as int));
        return r;
    }
    let tail: usize = max_chars / 2;
    let head: usize = max_chars - tail - 3;
    let mut s = String::from_str(path.substring_char(0, head));
    s.append("…");
    s.append(path.substring_char(len - tail, len));
    assert(s@ =~= short_path(path@, max_chars as int));
    s
}

/// A content hash, shortened.
pub open spec fn hash_text(hash: Seq<char>) -> Seq<char> {
    if text::starts_with(hash, "sha256:"@) {
        let hex = hash.skip("sha256:"@.len() as int);
        if byte_len(hex) > 12 {
            "sha256:"@ + clip(hex, 12) + "…"@
        } else {
            hash
        }
    } else if byte_len(hash) > 20 {
        clip(hash, 17) + "…"@
    } else {
        hash
    }
}

/// Whether a hash can be shortened without cutting a character through.
pub open spec fn can_shorten_hash(hash: Seq<char>) -> bool {
    if text::starts_with(hash, "sha256:"@) {
        let hex = hash.skip("sha256:"@.len() as int);
        byte_len(hex) <= 12 || cuts(hex, 12)
    } else {
        byte_len(hash) <= 20 || cuts(hash, 17)
    }
}

proof fn lemma_byte_len_skip(s: Seq<char>, i: int)
    requires
        0 <= i <= s.len(),
    ensures
        byte_len(s.skip(i)) <= byte_len(s),
    decreases s.len(),
{
    if s.len() > 0 {
        if i < s.len() {
            lemma_byte_len_skip(s.drop_last(), i);
            assert(s.skip(i).drop_last() =~= s.drop_last().skip(i));
            assert(s.skip(i).last() == s.last());
        } else {
            assert(s.skip(i).len() == 0);
        }
    }
}

/// A content hash, shortened.
pub fn short_hash(hash: &str) -> (r: String)
    requires
        byte_len(hash@) <= usize::MAX,
        can_shorten_hash(hash@),
    ensures
        r@ == hash_text(hash@),
{
    if let Some(hex) = strip_front(hash, "sha256:") {
        proof {
            lemma_byte_len_skip(hash@, "sha256:"@.len() as int);
        }
        if byte_count(hex) > 12 {
            let mut s = String::from_str("sha256:");
            s.append(clipped(hex, 12).as_str());
            s.append("…");
            return s;
        }
        return String::from_str(hash);
    }
    if byte_count(hash) > 20 {
        let mut s = clipped(hash, 17);
        s.append("…");
        return s;
    }
    String::from_str(hash)
}

} // verus!
