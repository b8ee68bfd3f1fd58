//! What holds of the log as a whole: days are counted without gaps, the name of
//! a log gives its day back, and the newest crash reports stay.

use vstd::prelude::*;
use vstd::relations::injective_on;
use vstd::set_lib::{
    lemma_int_range, lemma_len_subset, lemma_map_size, lemma_subset_equality, set_int_range,
};
use vstd::string::*;
use crate::logging::{
    access_text, ascii_start, by_age, bytes_of, crash_file_names, day_in, day_number, day_stamp,
    exception_text, fate, filesafe_stamp, fitted, format_line, from_frontend, full_stamp, heartbeat,
    is_alarming, is_too_big, is_written, keep_after, last_lines, last_part, level, log_dir,
    log_file_name, log_name, log_tail, maybe_crash_for_test, module_text, named_day, newer_count,
    old_log_file_name, old_log_name, padded, quotient, report_exception, report_head, stamp_day,
    stamp_filesafe, stamp_full, tail_text, uptime, wanted_level, wrapped, Crash, CrashTest,
    Exception, Level, LocalTime, Log, LogPlace, LogText, CRASH_TAIL_LINES, KEEP_CRASHES,
    REPORT_BYTES,
};
use crate::text::{
    ascii_lowercase, decimal, digit_char, digits, digits_value, lines_of, signed_value, trimmed,
    upper_hex, without_prefix, without_suffix,
};

verus! {

// ---------------------------------------------------------------- days

/// Whether a year has a twenty-ninth of February.
pub open spec fn leap(y: int) -> bool {
    y % 4 == 0 && (y % 100 != 0 || y % 400 == 0)
}

/// How many days a month has.
pub open spec fn month_days(y: int, m: int) -> int {
    if m == 2 {
        if leap(y) {
            29
        } else {
            28
        }
    } else if m == 4 || m == 6 || m == 9 || m == 11 {
        30
    } else {
        31
    }
}

/// Days are counted one by one: the count starts at the first of January 1970,
/// the next day of a month has the next number, and so has the first day of the
/// next month after the last day of a month.
pub proof fn law_days_are_counted(y: int, m: int, d: int)
    requires
        0 <= y,
        1 <= m <= 12,
    ensures
        day_number(1970, 1, 1) == 0,
        day_number(y, m, d + 1) == day_number(y, m, d) + 1,
        day_number(if m == 12 {
            y + 1
        } else {
            y
        }, if m == 12 {
            1
        } else {
            m + 1
        }, 1) == day_number(y, m, month_days(y, m)) + 1,
{
    assert(quotient(14 - m, 12) == if m <= 2 {
        1int
    } else {
        0int
    });
    if m == 2 {
        lemma_year_steps(y);
    }
    assert(quotient(13, 12) == 1);
}

/// A day of the calendar: its year, its month and its day.
pub open spec fn is_date(t: (int, int, int)) -> bool {
    0 <= t.0 && 1 <= t.1 <= 12 && 1 <= t.2 <= month_days(t.0, t.1)
}

/// The day after a day.
pub open spec fn next_date(t: (int, int, int)) -> (int, int, int) {
    if t.2 < month_days(t.0, t.1) {
        (t.0, t.1, t.2 + 1)
    } else if t.1 < 12 {
        (t.0, t.1 + 1, 1)
    } else {
        (t.0 + 1, 1, 1)
    }
}

/// The day that comes so many days after a day.
pub open spec fn later_date(t: (int, int, int), k: nat) -> (int, int, int)
    decreases k,
{
    if k == 0 {
        t
    } else {
        next_date(later_date(t, (k - 1) as nat))
    }
}

/// So many days later the number is larger by so many.
pub proof fn law_later_days_count_up(t: (int, int, int), k: nat)
    requires
        is_date(t),
    ensures
        ({
            let u = later_date(t, k);
            &&& is_date(u)
            &&& u.0 >= t.0
            &&& day_number(u.0, u.1, u.2) == day_number(t.0, t.1, t.2) + k
        }),
    decreases k,
{
    if k > 0 {
        law_later_days_count_up(t, (k - 1) as nat);
        let u = later_date(t, (k - 1) as nat);
        law_days_are_counted(u.0, u.1, u.2);
    }
}

/// A day comes before another in the calendar.
pub open spec fn date_before(a: (int, int, int), b: (int, int, int)) -> bool {
    a.0 < b.0 || (a.0 == b.0 && (a.1 < b.1 || (a.1 == b.1 && a.2 < b.2)))
}

proof fn lemma_months_count_up(y: int, m: int, y2: int, m2: int)
    requires
        0 <= y,
        1 <= m <= 12,
        1 <= m2 <= 12,
        y < y2 || (y == y2 && m < m2),
    ensures
        day_number(y, m, month_days(y, m)) < day_number(y2, m2, 1),
    decreases 12 * (y2 - y) + m2 - m,
{
    law_days_are_counted(y, m, 1);
    let (ny, nm) = if m == 12 {
        (y + 1, 1int)
    } else {
        (y, m + 1)
    };
    if (ny, nm) != (y2, m2) {
        lemma_months_count_up(ny, nm, y2, m2);
        assert(day_number(ny, nm, 1) <= day_number(ny, nm, month_days(ny, nm)));
    }
}

proof fn lemma_dates_count_up(a: (int, int, int), b: (int, int, int))
    requires
        is_date(a),
        is_date(b),
        date_before(a, b),
    ensures
        day_number(a.0, a.1, a.2) < day_number(b.0, b.1, b.2),
{
    if (a.0, a.1) != (b.0, b.1) {
        lemma_months_count_up(a.0, a.1, b.0, b.1);
    }
}

/// A year that has a leap day has one more step in the count of years.
proof fn lemma_year_steps(y: int)
    requires
        0 <= y,
    ensures
        ({
            let a = y + 4799;
            let b = y + 4800;
            (b / 4 - b / 100 + b / 400) - (a / 4 - a / 100 + a / 400) == if leap(y) {
                1int
            } else {
                0int
            }
        }),
{
    let b = y + 4800;
    assert(b % 4 == y % 4);
    assert(b % 100 == y % 100);
    assert(b % 400 == y % 400);
    assert(b / 4 - (b - 1) / 4 == if b % 4 == 0 {
        1int
    } else {
        0int
    });
    assert(b / 100 - (b - 1) / 100 == if b % 100 == 0 {
        1int
    } else {
        0int
    });
    assert(b / 400 - (b - 1) / 400 == if b % 400 == 0 {
        1int
    } else {
        0int
    });
    assert(y % 100 == 0 ==> y % 4 == 0);
    assert(y % 400 == 0 ==> y % 100 == 0);
}

// ---------------------------------------------------------------- names

proof fn lemma_decimal(n: nat)
    ensures
        digits_value(decimal(n)) == Some(n),
        decimal(n).len() >= 1,
        n < 10 ==> decimal(n).len() == 1,
        10 <= n < 100 ==> decimal(n).len() == 2,
        100 <= n < 1000 ==> decimal(n).len() == 3,
        1000 <= n < 10000 ==> decimal(n).len() == 4,
        forall|i: int| 0 <= i < decimal(n).len() ==> '0' <= #[trigger] decimal(n)[i] <= '9',
    decreases n,
{
    if n >= 10 {
        lemma_decimal(n / 10);
        let s = decimal(n);
        let last = digit_char((n % 10) as int);
        assert(s == decimal(n / 10).push(last));
        assert(s.drop_last() =~= decimal(n / 10));
        assert(s.last() == last);
        assert('0' <= last <= '9');
    } else {
        let s = decimal(n);
        assert(s =~= seq![digit_char(n as int)]);
        assert(s.last() == digit_char(n as int));
    }
}

proof fn lemma_zeros(s: Seq<char>, k: nat)
    requires
        digits_value(s) is Some,
    ensures
        digits_value(Seq::new(k, |i: int| '0') + s) == digits_value(s),
    decreases s.len(),
{
    let z = Seq::new(k, |i: int| '0');
    let t = z + s;
    assert(t.last() == s.last());
    if s.len() == 1 {
        assert(t.drop_last() =~= z);
        lemma_only_zeros(k);
    } else {
        assert(t.drop_last() =~= z + s.drop_last());
        lemma_zeros(s.drop_last(), k);
    }
    if k == 0 {
        assert(t =~= s);
    }
}

proof fn lemma_only_zeros(k: nat)
    ensures
        k > 0 ==> digits_value(Seq::new(k, |i: int| '0')) == Some(0nat),
    decreases k,
{
    if k > 1 {
        lemma_only_zeros((k - 1) as nat);
        let z = Seq::new(k, |i: int| '0');
        assert(z.drop_last() =~= Seq::new((k - 1) as nat, |i: int| '0'));
    }
}

proof fn lemma_padded(n: u16, width: nat)
    requires
        width == 2 && n < 100 || width == 4 && n < 10000,
    ensures
        padded(n, width).len() == width,
        signed_value(padded(n, width)) == Some(n as int),
        forall|i: int| 0 <= i < width ==> '0' <= #[trigger] padded(n, width)[i] <= '9',
{
    lemma_decimal(n as nat);
    let s = decimal(n as nat);
    if s.len() < width {
        lemma_zeros(s, (width - s.len()) as nat);
    }
    let p = padded(n, width);
    assert(digits_value(p) == Some(n as nat));
    assert('0' <= p[0] <= '9');
}

proof fn lemma_day_stamp(t: LocalTime)
    requires
        t.year < 10000,
        t.month < 100,
        t.day < 100,
    ensures
        day_stamp(t).len() == 10,
        day_in(day_stamp(t)) == Some(day_number(t.year as int, t.month as int, t.day as int)),
        '0' <= day_stamp(t)[0] <= '9',
        '0' <= day_stamp(t)[9] <= '9',
        '0' <= day_stamp(t)[8] <= '9',
{
    lemma_padded(t.year, 4);
    lemma_padded(t.month, 2);
    lemma_padded(t.day, 2);
    reveal_strlit("-");
    let s = day_stamp(t);
    assert(s.subrange(0, 4) =~= padded(t.year, 4));
    assert(s.subrange(5, 7) =~= padded(t.month, 2));
    assert(s.subrange(8, 10) =~= padded(t.day, 2));
    assert forall|i: int| 0 <= i < 10 implies (#[trigger] s[i] as u32) < 128 by {
        if i < 4 {
            assert(s[i] == padded(t.year, 4)[i]);
        } else if i == 4 {
            assert(s[i] == '-');
        } else if i < 7 {
            assert(s[i] == padded(t.month, 2)[i - 5]);
        } else if i == 7 {
            assert(s[i] == '-');
        } else {
            assert(s[i] == padded(t.day, 2)[i - 8]);
        }
    }
    assert(s[0] == padded(t.year, 4)[0]);
    assert(s[8] == padded(t.day, 2)[0]);
    assert(s[9] == padded(t.day, 2)[1]);
    assert(ascii_start(s));
}

/// A text comes before another in the order of their characters.
pub open spec fn text_before(a: Seq<char>, b: Seq<char>) -> bool {
    exists|i: int| #[trigger] parts_at(a, b, i)
}

/// The texts are the same up to a place at which the first has ended, or has the
/// smaller character.
pub open spec fn parts_at(a: Seq<char>, b: Seq<char>, i: int) -> bool {
    0 <= i < b.len() && i <= a.len() && (forall|j: int| 0 <= j < i ==> a[j] == b[j]) && (i
        == a.len() || a[i] < b[i])
}

proof fn lemma_padded_digits(n: u16, width: nat)
    requires
        width == 2 && n < 100 || width == 4 && n < 10000,
    ensures
        width == 2 ==> padded(n, width) == seq![digit_char(n as int / 10), digit_char(n as int % 10)],
        width == 4 ==> padded(n, width) == seq![
            digit_char(n as int / 1000),
            digit_char(n as int / 100 % 10),
            digit_char(n as int / 10 % 10),
            digit_char(n as int % 10),
        ],
{
    reveal_with_fuel(digits, 4);
    let k = n as nat;
    assert(k / 10 / 10 == k / 100 && k / 10 / 10 / 10 == k / 1000);
}

/// Of two numbers with the same number of digits the smaller comes first.
proof fn lemma_padded_order(a: u16, b: u16, width: nat) -> (i: int)
    requires
        width == 2 && b < 100 || width == 4 && b < 10000,
        a < b,
    ensures
        0 <= i < width,
        parts_at(padded(a, width), padded(b, width), i),
        padded(a, width)[i] < padded(b, width)[i],
{
    lemma_padded_digits(a, width);
    lemma_padded_digits(b, width);
    let (m, n) = (a as int, b as int);
    if width == 2 {
        if m / 10 < n / 10 {
            0
        } else {
            1
        }
    } else {
        if m / 1000 < n / 1000 {
            0
        } else if m / 100 < n / 100 {
            assert(m / 100 == 10 * (m / 1000) + m / 100 % 10);
            assert(n / 100 == 10 * (n / 1000) + n / 100 % 10);
            1
        } else if m / 10 < n / 10 {
            assert(m / 10 == 10 * (m / 100) + m / 10 % 10);
            assert(n / 10 == 10 * (n / 100) + n / 10 % 10);
            2
        } else {
            3
        }
    }
}

/// The day of a time.
pub open spec fn date_of(t: LocalTime) -> (int, int, int) {
    (t.year as int, t.month as int, t.day as int)
}

proof fn lemma_stamp_order(a: LocalTime, b: LocalTime)
    requires
        a.year < 10000 && a.month < 100 && a.day < 100,
        b.year < 10000 && b.month < 100 && b.day < 100,
        date_before(date_of(a), date_of(b)),
    ensures
        text_before(day_stamp(a), day_stamp(b)),
{
    lemma_padded(a.year, 4);
    lemma_padded(b.year, 4);
    lemma_padded(a.month, 2);
    lemma_padded(b.month, 2);
    lemma_padded(a.day, 2);
    lemma_padded(b.day, 2);
    reveal_strlit("-");
    let (p, q) = (day_stamp(a), day_stamp(b));
    let (at, i) = if a.year < b.year {
        (0int, lemma_padded_order(a.year, b.year, 4))
    } else if a.month < b.month {
        (5int, lemma_padded_order(a.month, b.month, 2))
    } else {
        (8int, lemma_padded_order(a.day, b.day, 2))
    };
    assert(p.subrange(0, 4) =~= padded(a.year, 4) && q.subrange(0, 4) =~= padded(b.year, 4));
    assert(p.subrange(5, 7) =~= padded(a.month, 2) && q.subrange(5, 7) =~= padded(b.month, 2));
    assert(p.subrange(8, 10) =~= padded(a.day, 2) && q.subrange(8, 10) =~= padded(b.day, 2));
    assert(p[4] == '-' && q[4] == '-' && p[7] == '-' && q[7] == '-');
    assert forall|j: int| 0 <= j < at + i implies p[j] == q[j] by {
        if j < 4 {
            assert(p[j] == padded(a.year, 4)[j] && q[j] == padded(b.year, 4)[j]);
        } else if 5 <= j < 7 {
            assert(p[j] == padded(a.month, 2)[j - 5] && q[j] == padded(b.month, 2)[j - 5]);
        } else if 8 <= j {
            assert(p[j] == padded(a.day, 2)[j - 8] && q[j] == padded(b.day, 2)[j - 8]);
        }
    }
    assert(parts_at(p, q, at + i));
}

proof fn lemma_text_order(a: Seq<char>, b: Seq<char>)
    requires
        a.len() == b.len(),
        text_before(a, b),
    ensures
        a != b,
        !text_before(b, a),
{
    let i = choose|i: int| parts_at(a, b, i);
    if text_before(b, a) {
        let j = choose|j: int| parts_at(b, a, j);
        assert(i < j || j < i || i == j);
    }
}

/// The texts of two days from 1970 on give the seconds at which these begin, a
/// whole number of days, and stand in the order of the days: the earlier text is
/// that of the earlier day. Those of days that lie so many days apart give
/// seconds that are so many times 86400 apart.
pub proof fn law_day_texts_in_order(a: LocalTime, b: LocalTime)
    requires
        is_date(date_of(a)) && 1970 <= a.year < 10000,
        is_date(date_of(b)) && 1970 <= b.year < 10000,
    ensures
        ({
            let m = day_number(a.year as int, a.month as int, a.day as int);
            let n = day_number(b.year as int, b.month as int, b.day as int);
            &&& day_in(day_stamp(a)) == Some(m)
            &&& day_in(day_stamp(b)) == Some(n)
            &&& 0 <= m * 86400 <= u64::MAX
            &&& wrapped(m * 86400) == m * 86400
            &&& wrapped(n * 86400) == n * 86400
            &&& wrapped(m * 86400) < wrapped(n * 86400) <==> text_before(
                day_stamp(a),
                day_stamp(b),
            )
            &&& forall|k: nat| #[trigger]
                later_date(date_of(a), k) == date_of(b) ==> wrapped(n * 86400) == wrapped(m * 86400)
                    + k * 86400
        }),
{
    assert forall|k: nat| #[trigger] later_date(date_of(a), k) == date_of(b) implies day_number(
        b.year as int,
        b.month as int,
        b.day as int,
    ) == day_number(a.year as int, a.month as int, a.day as int) + k by {
        law_later_days_count_up(date_of(a), k);
    }
    lemma_day_stamp(a);
    lemma_day_stamp(b);
    let (s, t) = (date_of(a), date_of(b));
    law_days_are_counted(1970, 1, 1);
    if date_before((1970, 1, 1), s) {
        lemma_dates_count_up((1970, 1, 1), s);
    }
    if date_before((1970, 1, 1), t) {
        lemma_dates_count_up((1970, 1, 1), t);
    }
    if date_before(s, t) {
        lemma_dates_count_up(s, t);
        lemma_stamp_order(a, b);
    } else {
        if date_before(t, s) {
            lemma_dates_count_up(t, s);
            lemma_stamp_order(b, a);
            lemma_text_order(day_stamp(b), day_stamp(a));
        } else {
            assert(s == t);
            if text_before(day_stamp(a), day_stamp(b)) {
                lemma_text_order(day_stamp(a), day_stamp(b));
            }
        }
    }
    assert(day_number(a.year as int, a.month as int, a.day as int) <= 4_000_000);
}

/// A text that stands before a day, or a digit, is taken off.
proof fn lemma_front(rest: Seq<char>)
    requires
        rest.len() > 0,
        '0' <= rest[0] <= '9',
    ensures
        without_prefix("dock-"@ + rest, "dock-"@) == rest,
        "dock-"@.is_prefix_of("dock-"@ + rest),
        !"crash-"@.is_prefix_of("dock-"@ + rest),
{
    reveal_strlit("dock-");
    reveal_strlit("crash-");
    let a = "dock-"@ + rest;
    assert(a.subrange(0, 5) =~= "dock-"@);
    assert(a.skip(5) =~= rest);
    if "dock-"@.is_prefix_of(rest) {
        assert("dock-"@[0] == rest.subrange(0, 5)[0]);
    }
    if "crash-"@.is_prefix_of(a) {
        assert("crash-"@[0] == a.subrange(0, 6)[0]);
        assert(a[0] == "dock-"@[0]);
    }
    assert(without_prefix(rest, "dock-"@) == rest);
}

/// An ending that stands behind a text is taken off once where the text does
/// not have that ending itself.
proof fn lemma_end(s: Seq<char>, p: Seq<char>)
    requires
        p.len() > 0,
        !p.is_suffix_of(s),
    ensures
        without_suffix(s + p, p) == s,
        p.is_suffix_of(s + p),
{
    let a = s + p;
    assert(a.subrange(a.len() - p.len(), a.len() as int) =~= p);
    assert(a.take(a.len() - p.len()) =~= s);
    assert(without_suffix(s, p) == s);
}

proof fn lemma_plain_name(d: Seq<char>)
    requires
        d.len() == 10,
        '0' <= d[0] <= '9',
        '0' <= d[8] <= '9',
        '0' <= d[9] <= '9',
    ensures
        named_day("dock-"@ + d + ".log"@) == d,
        "dock-"@.is_prefix_of("dock-"@ + d + ".log"@),
        ".log"@.is_suffix_of("dock-"@ + d + ".log"@),
        !"crash-"@.is_prefix_of("dock-"@ + d + ".log"@),
{
    reveal_strlit(".log");
    reveal_strlit(".1");
    let rest = d + ".log"@;
    assert("dock-"@ + d + ".log"@ =~= "dock-"@ + rest);
    assert(rest[0] == d[0]);
    lemma_front(rest);
    assert(".log"@[3] != d[d.len() - 1]);
    lemma_no_suffix(d, ".log"@, 1);
    lemma_no_suffix(d, ".1"@, 2);
    lemma_end(d, ".log"@);
    assert(without_suffix(d, ".1"@) == d);
    let a = "dock-"@ + rest;
    assert(a.subrange(a.len() - 4, a.len() as int) =~= ".log"@);
}

proof fn lemma_old_name(d: Seq<char>)
    requires
        d.len() == 10,
        '0' <= d[0] <= '9',
        '0' <= d[8] <= '9',
        '0' <= d[9] <= '9',
    ensures
        named_day("dock-"@ + d + ".1.log"@) == d,
        "dock-"@.is_prefix_of("dock-"@ + d + ".1.log"@),
        ".log"@.is_suffix_of("dock-"@ + d + ".1.log"@),
        !"crash-"@.is_prefix_of("dock-"@ + d + ".1.log"@),
{
    reveal_strlit(".log");
    reveal_strlit(".1");
    reveal_strlit(".1.log");
    let dated = d + ".1"@;
    let rest = dated + ".log"@;
    assert("dock-"@ + d + ".1.log"@ =~= "dock-"@ + rest);
    assert(rest[0] == d[0]);
    lemma_front(rest);
    lemma_no_suffix(dated, ".log"@, 1);
    lemma_no_suffix(d, ".1"@, 2);
    lemma_end(dated, ".log"@);
    lemma_end(d, ".1"@);
    let a = "dock-"@ + rest;
    assert(a.subrange(a.len() - 4, a.len() as int) =~= ".log"@);
}

/// The name of a log, also once it has been put aside as too large, gives back
/// the day that it was written on, so that logs of the last days stay and older
/// ones go.
pub proof fn law_log_name_has_its_day(t: LocalTime, modified: Option<u64>, keep_after: u64)
    requires
        t.year < 10000,
        t.month < 100,
        t.day < 100,
    ensures
        named_day(log_name(t)) == day_stamp(t),
        named_day(old_log_name(t)) == day_stamp(t),
        ({
            let written = wrapped(
                day_number(t.year as int, t.month as int, t.day as int) * 86400,
            ) as u64;
            &&& fate(log_name(t), false, modified, keep_after) == by_age(Some(written), keep_after)
            &&& fate(old_log_name(t), false, modified, keep_after) == by_age(
                Some(written),
                keep_after,
            )
        }),
{
    lemma_day_stamp(t);
    lemma_plain_name(day_stamp(t));
    lemma_old_name(day_stamp(t));
}

/// A text does not end as another does that has another character at the same
/// place before its end.
proof fn lemma_no_suffix(s: Seq<char>, p: Seq<char>, k: int)
    requires
        1 <= k <= p.len() <= s.len(),
        p[p.len() - k] != s[s.len() - k],
    ensures
        !p.is_suffix_of(s),
{
    if p.is_suffix_of(s) {
        assert(p[p.len() - k] == s.subrange(s.len() - p.len(), s.len() as int)[p.len() - k]);
    }
}

// ---------------------------------------------------------------- crash reports

/// File `i` comes before file `j`: it is newer, or of the same age and listed
/// first.
pub open spec fn comes_before(times: Seq<u64>, i: int, j: int) -> bool {
    times[i] > times[j] || (times[i] == times[j] && i < j)
}

proof fn lemma_counts(times: Seq<u64>, i: int, j: int, n: nat)
    requires
        0 <= i < times.len(),
        0 <= j < times.len(),
        n <= times.len(),
        comes_before(times, i, j),
    ensures
        newer_count(times, i, n) + (if i < n {
            1int
        } else {
            0int
        }) <= newer_count(times, j, n),
        newer_count(times, j, n) <= n,
        j < n ==> newer_count(times, j, n) < n,
        newer_count(times, i, n) <= n,
    decreases n,
{
    if n > 0 {
        lemma_counts(times, i, j, (n - 1) as nat);
    }
}

proof fn lemma_count_small(times: Seq<u64>, i: int, n: nat)
    requires
        0 <= i < times.len(),
        n <= times.len(),
    ensures
        newer_count(times, i, n) <= n,
        i < n ==> newer_count(times, i, n) < n,
    decreases n,
{
    if n > 0 {
        lemma_count_small(times, i, (n - 1) as nat);
    }
}

/// The files of crashes that stay, by their position.
pub open spec fn staying(times: Seq<u64>) -> Set<int> {
    Set::new(
        |i: int| 0 <= i < times.len() && newer_count(times, i, times.len()) < KEEP_CRASHES,
    )
}

/// Of the files of crashes the newest stay: a file that stays is never older
/// than one that goes, and as many stay as may, or all where there are not more.
pub proof fn law_newest_crashes_stay(times: Seq<u64>)
    ensures
        forall|i: int, j: int|
            #![trigger times[i], times[j]]
            staying(times).contains(i) && 0 <= j < times.len() && !staying(times).contains(j)
                ==> times[i] >= times[j],
        staying(times).finite(),
        staying(times).len() == if times.len() < KEEP_CRASHES {
            times.len() as int
        } else {
            KEEP_CRASHES as int
        },
{
    let n = times.len();
    let rank = |i: int| newer_count(times, i, n) as int;
    let all = set_int_range(0, n as int);
    let kept = staying(times);
    assert forall|i: int, j: int|
        #![trigger times[i], times[j]]
        kept.contains(i) && 0 <= j < n && !kept.contains(j) implies times[i] >= times[j] by {
        if times[j] > times[i] {
            lemma_counts(times, j, i, n);
        }
    }
    assert(injective_on(rank, all)) by {
        assert forall|i: int, j: int|
            all.contains(i) && all.contains(j) && #[trigger] rank(i) == #[trigger] rank(j) implies i
            == j by {
            if i != j {
                if comes_before(times, i, j) {
                    lemma_counts(times, i, j, n);
                } else {
                    assert(comes_before(times, j, i));
                    lemma_counts(times, j, i, n);
                }
            }
        }
    }
    lemma_int_range(0, n as int);
    lemma_map_size(all, all.map(rank), rank);
    assert(all.map(rank).subset_of(all)) by {
        assert forall|k: int| all.map(rank).contains(k) implies all.contains(k) by {
            let i = choose|i: int| all.contains(i) && rank(i) == k;
            lemma_count_small(times, i, n);
        }
    }
    lemma_subset_equality(all.map(rank), all);
    let size: int = if n < KEEP_CRASHES {
        n as int
    } else {
        KEEP_CRASHES as int
    };
    let low = set_int_range(0, size);
    lemma_int_range(0, size);
    assert(kept.subset_of(all));
    lemma_len_subset(kept, all);
    assert(injective_on(rank, kept));
    assert(kept.map(rank) =~= low) by {
        assert forall|k: int| low.contains(k) implies kept.map(rank).contains(k) by {
            assert(all.contains(k));
            assert(all.map(rank).contains(k));
            let i = choose|i: int| all.contains(i) && rank(i) == k;
            assert(kept.contains(i));
        }
        assert forall|k: int| kept.map(rank).contains(k) implies low.contains(k) by {
            let i = choose|i: int| kept.contains(i) && rank(i) == k;
            lemma_count_small(times, i, n);
        }
    }
    lemma_map_size(kept, low, rank);
}

// ---------------------------------------------------------------- levels

/// The levels are numbered from the most important on, the number gives the level
/// back, and any other number stands for the usual level. In a line a level is
/// five characters wide.
pub proof fn law_levels(
    l: Level,
    n: u8,
    number: u8,
    given: Level,
    tag: &'static str,
    name: &'static str,
)
    requires
        call_ensures(Level::number, (l,), number),
        call_ensures(level, (n,), given),
        call_ensures(Level::tag, (l,), tag),
        call_ensures(Level::name, (l,), name),
    ensures
        l is Error ==> number == 1 && tag@ == "ERROR"@ && name@ == "ERROR"@,
        l is Warn ==> number == 2 && tag@ == "WARN "@ && name@ == "WARN"@,
        l is Info ==> number == 3 && tag@ == "INFO "@ && name@ == "INFO"@,
        l is Debug ==> number == 4 && tag@ == "DEBUG"@ && name@ == "DEBUG"@,
        l is Trace ==> number == 5 && tag@ == "TRACE"@ && name@ == "TRACE"@,
        n == number ==> given == l,
        n == 0 || n > 5 ==> given is Info,
{
}

/// A message is written where the log takes its level or a less important one:
/// errors always are, and what is written in one log is written in any that takes
/// more. Errors and warnings alone go to the error output as well.
pub proof fn law_what_is_written(message: Level, log: Level, r: bool, alarming: bool)
    requires
        call_ensures(is_written, (message, log), r),
        call_ensures(is_alarming, (message,), alarming),
    ensures
        message is Error ==> r,
        message is Warn ==> (r <==> !(log is Error)),
        message is Info ==> (r <==> log is Info || log is Debug || log is Trace),
        message is Debug ==> (r <==> log is Debug || log is Trace),
        message is Trace ==> (r <==> log is Trace),
        alarming <==> message is Error || message is Warn,
{
}

/// A level that is named is taken, whatever the case of its letters and whatever
/// blanks stand round it. Only where none is named, debugging switched on asks
/// for its level.
pub proof fn law_wanted_level(log: Option<Seq<char>>, debug: Option<Seq<char>>)
    ensures
        ({
            let l = wanted_level(log, debug);
            let given = match log {
                Some(s) => trimmed(ascii_lowercase(s)),
                None => ""@,
            };
            &&& given == "error"@ ==> l is Error
            &&& given == "warn"@ || given == "warning"@ ==> l is Warn
            &&& given == "info"@ ==> l is Info
            &&& given == "debug"@ ==> l is Debug
            &&& given == "trace"@ ==> l is Trace
            &&& l is Error ==> given == "error"@
            &&& l is Warn ==> given == "warn"@ || given == "warning"@
            &&& l is Trace ==> given == "trace"@
            &&& l is Debug ==> given == "debug"@ || debug == Some("1"@)
            &&& given == ""@ ==> (l is Debug <==> debug == Some("1"@)) && (l is Info || l is Debug)
        }),
{
    reveal_strlit("");
    reveal_strlit("error");
    reveal_strlit("warn");
    reveal_strlit("warning");
    reveal_strlit("info");
    reveal_strlit("debug");
    reveal_strlit("trace");
    assert(""@ =~= Seq::<char>::empty());
    assert(ascii_lowercase(Seq::empty()) =~= Seq::empty());
    assert("error"@[0] == 'e' && "warn"@[0] == 'w' && "info"@[0] == 'i' && "debug"@[0] == 'd'
        && "trace"@[0] == 't' && "warning"@[0] == 'w');
}

// ---------------------------------------------------------------- the log of a process

/// The time that a log has been running and the time of its start make the time
/// that it is now; a start that lies ahead, or none, gives no time at all.
pub proof fn law_running_time(log: Log, now: u64, r: u64, memory: Option<u64>, beat: String)
    requires
        call_ensures(uptime, (&log, now), r),
        call_ensures(heartbeat, (&log, now, memory), beat),
    ensures
        log.start is Some && log.start->0 <= now ==> r + log.start->0 == now,
        log.start is None || log.start->0 > now ==> r == 0,
        memory is None ==> beat@ == "[心跳] 已运行 "@ + decimal((r / 60000) as nat) + " 分钟"@,
        memory is Some ==> beat@ == "[心跳] 已运行 "@ + decimal((r / 60000) as nat)
            + " 分钟"@ + "，工作集 "@ + decimal(memory->0 as nat) + " MB"@,
{
}

/// The first place that is set is taken, as it is; one of blanks alone is not
/// set.
pub proof fn law_place_of_logs(
    given: Option<String>,
    config: Option<String>,
    local: Option<String>,
    r: LogPlace,
)
    requires
        call_ensures(log_dir, (given, config, local), r),
    ensures
        ({
            let first = given is Some && trimmed(given->0@).len() > 0;
            let second = config is Some && trimmed(config->0@).len() > 0;
            let third = local is Some && trimmed(local->0@).len() > 0;
            &&& first ==> r is Given && r->Given_0 == given->0
            &&& !first && second ==> r is BelowConfig && r->BelowConfig_0 == config->0
            &&& !first && !second && third ==> r is BelowLocalData && r->BelowLocalData_0
                == local->0
            &&& !first && !second && !third ==> r is BesideProgram
        }),
{
}

// ---------------------------------------------------------------- stamps and lines

proof fn lemma_three(n: u16)
    requires
        n < 1000,
    ensures
        padded(n, 3).len() == 3,
        digits_value(padded(n, 3)) == Some(n as nat),
{
    reveal_with_fuel(digits, 4);
    lemma_decimal(n as nat);
    let s = decimal(n as nat);
    assert(s.len() <= 3);
    if s.len() < 3 {
        lemma_zeros(s, (3 - s.len()) as nat);
    }
}

proof fn lemma_two(n: u16)
    requires
        n < 100,
    ensures
        padded(n, 2).len() == 2,
        digits_value(padded(n, 2)) == Some(n as nat),
{
    lemma_decimal(n as nat);
    let s = decimal(n as nat);
    if s.len() < 2 {
        lemma_zeros(s, (2 - s.len()) as nat);
    }
    lemma_padded(n, 2);
}

proof fn lemma_four(n: u16)
    requires
        n < 10000,
    ensures
        padded(n, 4).len() == 4,
        digits_value(padded(n, 4)) == Some(n as nat),
{
    lemma_decimal(n as nat);
    let s = decimal(n as nat);
    if s.len() < 4 {
        lemma_zeros(s, (4 - s.len()) as nat);
    }
    lemma_padded(n, 4);
}

/// Each part of a time can be read in its stamp, at its place: the year first,
/// then month, day, hour, minute, second and, in lines, the millisecond.
pub proof fn law_stamps_hold_the_time(t: LocalTime)
    requires
        t.year < 10000,
        t.month < 100,
        t.day < 100,
        t.hour < 100,
        t.minute < 100,
        t.second < 100,
        t.millisecond < 1000,
    ensures
        ({
            let s = full_stamp(t);
            &&& s.len() == 23
            &&& digits_value(s.subrange(0, 4)) == Some(t.year as nat)
            &&& digits_value(s.subrange(5, 7)) == Some(t.month as nat)
            &&& digits_value(s.subrange(8, 10)) == Some(t.day as nat)
            &&& digits_value(s.subrange(11, 13)) == Some(t.hour as nat)
            &&& digits_value(s.subrange(14, 16)) == Some(t.minute as nat)
            &&& digits_value(s.subrange(17, 19)) == Some(t.second as nat)
            &&& digits_value(s.subrange(20, 23)) == Some(t.millisecond as nat)
            &&& s[4] == '-' && s[7] == '-' && s[10] == ' ' && s[13] == ':' && s[16] == ':' && s[19]
                == '.'
        }),
        ({
            let s = filesafe_stamp(t);
            &&& s.len() == 15
            &&& digits_value(s.subrange(0, 4)) == Some(t.year as nat)
            &&& digits_value(s.subrange(4, 6)) == Some(t.month as nat)
            &&& digits_value(s.subrange(6, 8)) == Some(t.day as nat)
            &&& s[8] == '-'
            &&& digits_value(s.subrange(9, 11)) == Some(t.hour as nat)
            &&& digits_value(s.subrange(11, 13)) == Some(t.minute as nat)
            &&& digits_value(s.subrange(13, 15)) == Some(t.second as nat)
        }),
        day_stamp(t) == full_stamp(t).take(10),
{
    lemma_four(t.year);
    lemma_two(t.month);
    lemma_two(t.day);
    lemma_two(t.hour);
    lemma_two(t.minute);
    lemma_two(t.second);
    lemma_three(t.millisecond);
    reveal_strlit("-");
    reveal_strlit(" ");
    reveal_strlit(":");
    reveal_strlit(".");
    let s = full_stamp(t);
    assert(s.subrange(0, 4) =~= padded(t.year, 4));
    assert(s.subrange(5, 7) =~= padded(t.month, 2));
    assert(s.subrange(8, 10) =~= padded(t.day, 2));
    assert(s.subrange(11, 13) =~= padded(t.hour, 2));
    assert(s.subrange(14, 16) =~= padded(t.minute, 2));
    assert(s.subrange(17, 19) =~= padded(t.second, 2));
    assert(s.subrange(20, 23) =~= padded(t.millisecond, 3));
    assert(s.take(10) =~= day_stamp(t));
    let f = filesafe_stamp(t);
    assert(f.subrange(0, 4) =~= padded(t.year, 4));
    assert(f.subrange(4, 6) =~= padded(t.month, 2));
    assert(f.subrange(6, 8) =~= padded(t.day, 2));
    assert(f.subrange(9, 11) =~= padded(t.hour, 2));
    assert(f.subrange(11, 13) =~= padded(t.minute, 2));
    assert(f.subrange(13, 15) =~= padded(t.second, 2));
}

/// A line is the time, the level, what wrote it in brackets, and the message.
pub proof fn law_lines_of_the_log(
    t: LocalTime,
    l: Level,
    target: &str,
    msg: &str,
    stamp: String,
    tag: &'static str,
    r: String,
)
    requires
        call_ensures(stamp_full, (&t,), stamp),
        call_ensures(Level::tag, (l,), tag),
        call_ensures(format_line, (&t, l, target, msg), r),
    ensures
        r@ == stamp@ + " "@ + tag@ + " ["@ + target@ + "] "@ + msg@,
        stamp@.is_prefix_of(r@),
        msg@.is_suffix_of(r@),
{
    assert(r@.subrange(0, stamp@.len() as int) =~= stamp@);
    assert(r@.subrange(r@.len() - msg@.len(), r@.len() as int) =~= msg@);
}

// ---------------------------------------------------------------- files

/// Today's log stays. A file of a crash is looked at with the others. Of the
/// other files only logs ever go, and those only where they are older than what
/// is kept; a log without a day in its name goes by its time, and stays where
/// that is not known either.
pub proof fn law_only_old_logs_go(
    name: Seq<char>,
    today: bool,
    modified: Option<u64>,
    keep_after: u64,
)
    ensures
        ({
            let f = fate(name, today, modified, keep_after);
            let crash = "crash-"@.is_prefix_of(name);
            let log = "dock-"@.is_prefix_of(name) && ".log"@.is_suffix_of(name);
            &&& today ==> f is Keep
            &&& f is Crash <==> !today && crash
            &&& !crash && !log ==> f is Keep
            &&& !today && !crash && log && day_in(named_day(name)) is None ==> (f is Delete
                <==> modified is Some && modified->0 < keep_after)
            &&& f is Delete ==> !today && !crash && log
        }),
{
}

/// Logs are kept for a week and up to eight megabytes, twenty files of crashes
/// are kept, and a report has room for 8192 bytes and forty lines.
pub proof fn law_what_is_kept(now: u64, bytes: u64, r: u64, big: bool)
    requires
        call_ensures(keep_after, (now,), r),
        call_ensures(is_too_big, (bytes,), big),
    ensures
        now >= 7 * 24 * 60 * 60 ==> now - r == 7 * 24 * 60 * 60,
        now < 7 * 24 * 60 * 60 ==> r == 0,
        big <==> bytes > 8 * 1024 * 1024,
        KEEP_CRASHES == 20,
        CRASH_TAIL_LINES == 40,
        REPORT_BYTES == 8192,
{
}

/// A log keeps its day in its name also once it is put aside; the report and the
/// dump of a crash differ only in how their names end.
pub proof fn law_names_of_files(
    t: LocalTime,
    day: String,
    time: String,
    name: String,
    old_name: String,
    crash: (String, String),
)
    requires
        call_ensures(stamp_day, (&t,), day),
        call_ensures(stamp_filesafe, (&t,), time),
        call_ensures(log_file_name, (&t,), name),
        call_ensures(old_log_file_name, (&t,), old_name),
        call_ensures(crash_file_names, (&t,), crash),
    ensures
        name@ == "dock-"@ + day@ + ".log"@,
        old_name@ == "dock-"@ + day@ + ".1.log"@,
        crash.0@ == "crash-"@ + time@ + ".txt"@,
        crash.1@ == "crash-"@ + time@ + ".dmp"@,
{
}

// ---------------------------------------------------------------- messages of pages

/// A page's message keeps its level, the usual one where it names none that is
/// known, and each of its lines becomes one message with the page's name.
pub proof fn law_messages_of_pages(
    name: &str,
    page: &str,
    msg: &str,
    r: (Level, Vec<String>),
    i: int,
)
    requires
        call_ensures(from_frontend, (name, page, msg), r),
    ensures
        name@ == "error"@ <==> r.0 is Error,
        name@ == "warn"@ <==> r.0 is Warn,
        name@ == "debug"@ <==> r.0 is Debug,
        !(r.0 is Trace),
        r.1@.len() == lines_of(msg@).len(),
        0 <= i < r.1@.len() ==> r.1@[i]@ == "[前端 "@ + page@ + "] "@ + lines_of(msg@)[i],
{
    reveal_strlit("error");
    reveal_strlit("warn");
    reveal_strlit("debug");
    assert("error"@[0] == 'e' && "warn"@[0] == 'w' && "debug"@[0] == 'd');
    if 0 <= i < r.1@.len() {
        assert(r.1@[i]@ == "[前端 "@ + page@ + "] "@ + lines_of(msg@)[i]);
    }
}

// ---------------------------------------------------------------- reports of crashes

/// What each exception is called.
pub proof fn law_names_of_exceptions(code: u32, how: u64)
    ensures
        exception_text(0xc000_0005) == "ACCESS_VIOLATION 访问违例"@,
        exception_text(0xc000_001d) == "ILLEGAL_INSTRUCTION 非法指令"@,
        exception_text(0xc000_008c) == "ARRAY_BOUNDS_EXCEEDED 数组越界"@,
        exception_text(0xc000_0094) == "INTEGER_DIVIDE_BY_ZERO 除零"@,
        exception_text(0xc000_00fd) == "STACK_OVERFLOW 栈溢出"@,
        exception_text(0xc000_0409) == "STACK_BUFFER_OVERRUN 栈缓冲溢出"@,
        exception_text(0xc000_0374) == "HEAP_CORRUPTION 堆损坏"@,
        exception_text(0xc000_0135) == "UNHANDLED_EXCEPTION"@,
        exception_text(0x8000_0003) == "BREAKPOINT 断点"@,
        exception_text(0xe06d_736c) == "MSVC C++ 异常（多半是 Rust 的 abort）"@,
        code < 0x8000_0003 || 0x8000_0003 < code < 0xc000_0005 || code > 0xe06d_736c
            ==> exception_text(code) == "未知"@,
        access_text(0) == "读取"@,
        access_text(1) == "写入"@,
        access_text(8) == "执行"@,
        1 < how < 8 || how > 8 ==> access_text(how) == "未知"@,
{
}

/// A module is told by what stands behind the last slash of its path, of either
/// kind, and how far the address is from where it begins.
pub proof fn law_modules(a: Seq<char>, slash: char, b: Seq<char>)
    requires
        slash == '\\' || slash == '/',
        !b.contains('\\'),
        !b.contains('/'),
    ensures
        last_part(b) == b,
        last_part(a.push(slash) + b) == b,
    decreases b.len(),
{
    if b.len() == 0 {
        assert(a.push(slash) + b =~= a.push(slash));
        assert(last_part(a.push(slash)) =~= b);
        assert(last_part(b) =~= b);
    } else {
        let c = b.drop_last();
        assert(b.contains(b.last()));
        assert forall|x: char| c.contains(x) implies b.contains(x) by {
            let i = choose|i: int| 0 <= i < c.len() && c[i] == x;
            assert(b[i] == x);
        }
        law_modules(a, slash, c);
        assert((a.push(slash) + b).drop_last() =~= a.push(slash) + c);
        assert((a.push(slash) + b).last() == b.last());
        assert(c.push(b.last()) =~= b);
    }
}

/// An address is told by its distance from the beginning of its module.
pub proof fn law_addresses(addr: u64, path: String, base: u64)
    requires
        base <= addr,
    ensures
        module_text(addr, Some((path, base))) == last_part(path@) + "+0x"@ + upper_hex(
            (addr - base) as nat,
            1,
        ),
        module_text(addr, None) == "未知模块"@,
{
}

/// The last lines are the end of the lines: all of them, or as many as wanted.
pub proof fn law_last_lines(lines: Seq<Seq<char>>, n: nat)
    ensures
        last_lines(lines, n).is_suffix_of(lines),
        last_lines(lines, n).len() <= n,
        last_lines(lines, n).len() == n || last_lines(lines, n) == lines,
{
}

/// Each line of the log stands in a report in turn, with its end.
pub proof fn law_lines_in_a_report(a: Seq<Seq<char>>, b: Seq<Seq<char>>, line: Seq<char>)
    ensures
        tail_text(Seq::empty()) == Seq::<u8>::empty(),
        tail_text(seq![line]) == bytes_of(line) + bytes_of("\r\n"@),
        tail_text(a + b) == tail_text(a) + tail_text(b),
    decreases b.len(),
{
    assert(seq![line].drop_last() =~= Seq::empty());
    assert(tail_text(Seq::empty()) =~= Seq::<u8>::empty());
    assert(tail_text(seq![line]) =~= bytes_of(line) + bytes_of("\r\n"@));
    if b.len() == 0 {
        assert(a + b =~= a);
        assert(tail_text(a) + tail_text(b) =~= tail_text(a));
    } else {
        law_lines_in_a_report(a, b.drop_last(), line);
        assert((a + b).drop_last() =~= a + b.drop_last());
        assert((a + b).last() == b.last());
        assert(tail_text(a + b) =~= tail_text(a) + tail_text(b));
    }
}

/// What a report says of the log: its last lines, or why there are none.
pub proof fn law_log_in_a_report(t: String, lines: nat)
    ensures
        log_tail(LogText::NoPath, lines) == bytes_of("（没有日志文件路径）\r\n"@),
        log_tail(LogText::Unreadable, lines) == bytes_of("（日志文件读不出来）\r\n"@),
        lines_of(t@).len() <= lines ==> log_tail(LogText::Text(t), lines) == tail_text(lines_of(t@)),
        lines_of(t@).len() > lines ==> log_tail(LogText::Text(t), lines) == tail_text(
            lines_of(t@).subrange(lines_of(t@).len() - lines, lines_of(t@).len() as int),
        ),
{
    let all = lines_of(t@);
    if all.len() > lines {
        assert(all.subrange(all.len() - lines, all.len() as int) =~= all.skip(all.len() - lines));
    }
}

/// A report is the beginning of all that there is to say, and is cut only where
/// that is longer than 8192 bytes.
pub proof fn law_report_is_cut_at_its_end(s: Seq<u8>)
    ensures
        fitted(s).is_prefix_of(s),
        s.len() <= 8192 ==> fitted(s) == s,
        s.len() > 8192 ==> fitted(s).len() == 8192,
{
}

/// What a report says of the process and of the exception: its code, its name,
/// its address and the module of that; of an access that was not allowed also
/// what was done at which address.
pub proof fn law_report_says(before: Seq<u8>, c: Crash, e: Exception, how: u64, at: u64)
    ensures
        report_head(c) == bytes_of("Dock 崩溃报告\r\n时间     "@) + bytes_of(full_stamp(c.time))
            + bytes_of("\r\n进程     pid="@) + bytes_of(decimal(c.pid as nat)) + bytes_of(
            "\r\n线程     tid="@,
        ) + bytes_of(decimal(c.tid as nat)) + bytes_of("\r\n正在写日志的线程数 "@) + bytes_of(
            decimal(c.writing as nat),
        ) + bytes_of("\r\n"@),
        report_exception(before, None) == before + bytes_of("（没有异常记录指针）\r\n"@),
        ({
            let told = before + bytes_of("异常码   0x"@) + bytes_of(upper_hex(e.code as nat, 8))
                + bytes_of("（"@) + bytes_of(exception_text(e.code)) + bytes_of(
                "）\r\n异常地址 0x"@,
            ) + bytes_of(upper_hex(e.address as nat, 16)) + bytes_of(" ← "@) + bytes_of(
                module_text(e.address, e.module),
            ) + bytes_of("\r\n"@);
            &&& e.parameters is None || e.code != 0xc000_0005 ==> report_exception(before, Some(e))
                == told
            &&& e.code == 0xc000_0005 && e.parameters == Some((how, at)) ==> report_exception(
                before,
                Some(e),
            ) == told + bytes_of("访问违例 "@) + bytes_of(access_text(how)) + bytes_of(
                " 地址 0x"@,
            ) + bytes_of(upper_hex(at as nat, 16)) + bytes_of("\r\n"@)
        }),
{
}

/// A crash is brought about only in a build for debugging, and only as asked for.
pub proof fn law_crashes_on_purpose(setting: &str, debug_build: bool, r: CrashTest)
    requires
        call_ensures(maybe_crash_for_test, (setting, debug_build), r),
    ensures
        r is Panic <==> debug_build && setting@ == "panic"@,
        r is AccessViolation <==> debug_build && setting@ == "av"@,
{
    reveal_strlit("panic");
    reveal_strlit("av");
    assert("panic"@.len() != "av"@.len());
}

} // verus!
