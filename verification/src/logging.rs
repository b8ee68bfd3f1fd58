//! The log: levels, file names and their age, lines, and the report of a crash.

use vstd::prelude::*;
use vstd::string::*;
use vstd::slice::*;
use crate::text;
use crate::text::{
    ascii_lowercase, decimal, lines_of, opt_view, signed_value, text_views, trimmed, upper_hex,
    without_prefix, without_suffix, zero_padded,
};

verus! {

/// For how many days logs are kept.
pub const KEEP_DAYS: u64 = 7;

/// How large a log may grow.
pub const MAX_LOG_BYTES: u64 = 8_388_608;

/// How many files of crash reports are kept.
pub const KEEP_CRASHES: usize = 20;

/// How many lines of the log stand in a crash report.
pub const CRASH_TAIL_LINES: usize = 40;

/// How much text a crash report holds.
pub const REPORT_BYTES: usize = 8192;

// ---------------------------------------------------------------- levels

/// How important a message is.
#[derive(Debug, Clone, Copy, PartialEq, Eq, Structural)]
pub enum Level {
    Error,
    Warn,
    Info,
    Debug,
    Trace,
}

/// The number of a level: the more important, the smaller.
pub open spec fn rank(l: Level) -> int {
    match l {
        Level::Error => 1,
        Level::Warn => 2,
        Level::Info => 3,
        Level::Debug => 4,
        Level::Trace => 5,
    }
}

/// A level as it stands in a line.
pub open spec fn level_tag(l: Level) -> Seq<char> {
    match l {
        Level::Error => "ERROR"@,
        Level::Warn => "WARN "@,
        Level::Info => "INFO "@,
        Level::Debug => "DEBUG"@,
        Level::Trace => "TRACE"@,
    }
}

impl Level {
    /// The level as it stands in a line, five characters wide.
    pub fn tag(self) -> (r: &'static str)
        ensures
            r@ == level_tag(self),
            r@.len() == 5,
    {
        proof {
            reveal_strlit("ERROR");
            reveal_strlit("WARN ");
            reveal_strlit("INFO ");
            reveal_strlit("DEBUG");
            reveal_strlit("TRACE");
        }
        match self {
            Level::Error => "ERROR",
            Level::Warn => "WARN ",
            Level::Info => "INFO ",
            Level::Debug => "DEBUG",
            Level::Trace => "TRACE",
        }
    }

    /// The name of the level.
    pub fn name(self) -> (r: &'static str)
        ensures
            r@ == match self {
                Level::Error => "ERROR"@,
                Level::Warn => "WARN"@,
                Level::Info => "INFO"@,
                Level::Debug => "DEBUG"@,
                Level::Trace => "TRACE"@,
            },
    {
        match self {
            Level::Error => "ERROR",
            Level::Warn => "WARN",
            Level::Info => "INFO",
            Level::Debug => "DEBUG",
            Level::Trace => "TRACE",
        }
    }

    /// The number of the level.
    pub fn number(self) -> (r: u8)
        ensures
            r == rank(self),
    {
        match self {
            Level::Error => 1,
            Level::Warn => 2,
            Level::Info => 3,
            Level::Debug => 4,
            Level::Trace => 5,
        }
    }

    /// The level that the environment asks for: by name, else the debug level
    /// where debugging is switched on, else the usual one.
    pub fn from_env(log: &Option<String>, debug: &Option<String>) -> (r: Self)
        ensures
            r == wanted_level(opt_view(*log), opt_view(*debug)),
    {
        let given = match log {
            Some(s) => text::trim(text::lower_ascii(s.as_str()).as_str()),
            None => text::trim(text::lower_ascii("").as_str()),
        };
        proof {
            if *log is None {
                reveal_strlit("");
                assert(""@ =~= Seq::<char>::empty());
            }
        }
        let g = given.as_str();
        if text::same(g, "error") {
            Level::Error
        } else if text::same(g, "warn") || text::same(g, "warning") {
            Level::Warn
        } else if text::same(g, "debug") {
            Level::Debug
        } else if text::same(g, "trace") {
            Level::Trace
        } else if text::same(g, "info") {
            Level::Info
        } else {
            match debug {
                Some(d) => if text::same(d.as_str(), "1") {
                    Level::Debug
                } else {
                    Level::Info
                },
                None => Level::Info,
            }
        }
    }
}

/// The level that the environment asks for.
pub open spec fn wanted_level(log: Option<Seq<char>>, debug: Option<Seq<char>>) -> Level {
    let given = trimmed(
        ascii_lowercase(
            match log {
                Some(s) => s,
                None => Seq::empty(),
            },
        ),
    );
    if given == "error"@ {
        Level::Error
    } else if given == "warn"@ || given == "warning"@ {
        Level::Warn
    } else if given == "debug"@ {
        Level::Debug
    } else if given == "trace"@ {
        Level::Trace
    } else if given == "info"@ {
        Level::Info
    } else if debug == Some("1"@) {
        Level::Debug
    } else {
        Level::Info
    }
}

/// The level with a number; the usual one for any other number.
pub fn level(n: u8) -> (r: Level)
    ensures
        1 <= n <= 5 ==> rank(r) == n,
        !(1 <= n <= 5) ==> r == Level::Info,
{
    if n == 1 {
        Level::Error
    } else if n == 2 {
        Level::Warn
    } else if n == 4 {
        Level::Debug
    } else if n == 5 {
        Level::Trace
    } else {
        Level::Info
    }
}

/// Whether a message of a level is written where the log has a level.
pub fn is_written(message: Level, log: Level) -> (r: bool)
    ensures
        r == (rank(message) <= rank(log)),
{
    message.number() <= log.number()
}

/// Whether a message of a level goes to the error output as well.
pub fn is_alarming(message: Level) -> (r: bool)
    ensures
        r == (rank(message) <= rank(Level::Warn)),
{
    message.number() <= 2
}

// ---------------------------------------------------------------- the log of a process

/// The log of this process. Times are in milliseconds.
#[derive(Debug)]
pub struct Log {
    /// Its file, where it could be opened.
    pub path: Option<String>,
    /// When it was started.
    pub start: Option<u64>,
}

/// The file of the log.
pub fn log_path(log: &Log) -> (r: Option<&str>)
    ensures
        match log.path {
            Some(p) => r is Some && r->0@ == p@,
            None => r is None,
        },
{
    match &log.path {
        Some(p) => Some(p.as_str()),
        None => None,
    }
}

/// For how long the log has been running, in milliseconds.
pub fn uptime(log: &Log, now: u64) -> (r: u64)
    ensures
        r == match log.start {
            Some(t) => if now >= t {
                now - t
            } else {
                0
            },
            None => 0,
        },
{
    match log.start {
        Some(t) => now.saturating_sub(t),
        None => 0,
    }
}

/// A sign of life: how long the process has been running, and how much memory
/// it uses.
pub fn heartbeat(log: &Log, now: u64, memory_mb: Option<u64>) -> (r: String)
    ensures
        ({
            let up = match log.start {
                Some(t) => if now >= t {
                    now - t
                } else {
                    0
                },
                None => 0,
            };
            let head = "[心跳] 已运行 "@ + decimal((up / 60000) as nat) + " 分钟"@;
            r@ == match memory_mb {
                Some(m) => head + "，工作集 "@ + decimal(m as nat) + " MB"@,
                None => head,
            }
        }),
{
    let minutes: u64 = uptime(log, now) / 60000;
    let mut r = text::concat3(
        "[心跳] 已运行 ",
        text::decimal_string(minutes).as_str(),
        " 分钟",
    );
    match memory_mb {
        Some(m) => {
            r.append("，工作集 ");
            r.append(text::decimal_string(m).as_str());
            r.append(" MB");
        },
        None => {},
    }
    r
}

/// Where logs are written.
#[derive(Debug)]
pub enum LogPlace {
    /// Into this directory.
    Given(String),
    /// Into a directory `logs` below this one.
    BelowConfig(String),
    /// Into a directory of the application below this one.
    BelowLocalData(String),
    /// Beside the program.
    BesideProgram,
}

/// A setting that is there and not blank.
pub open spec fn is_set(o: Option<Seq<char>>) -> bool {
    o is Some && trimmed(o->0).len() > 0
}

fn has_text(o: &Option<String>) -> (r: bool)
    ensures
        r == is_set(opt_view(*o)),
{
    match o {
        Some(s) => !text::trim(s.as_str()).as_str().is_empty(),
        None => false,
    }
}

/// Where logs are written: where the environment says, else below the
/// configuration, else below the user's local data, else beside the program.
pub fn log_dir(given: Option<String>, config: Option<String>, local: Option<String>) -> (r:
    LogPlace)
    ensures
        if is_set(opt_view(given)) {
            r is Given && Some(r->Given_0) == given
        } else if is_set(opt_view(config)) {
            r is BelowConfig && Some(r->BelowConfig_0) == config
        } else if is_set(opt_view(local)) {
            r is BelowLocalData && Some(r->BelowLocalData_0) == local
        } else {
            r is BesideProgram
        },
{
    if has_text(&given) {
        match given {
            Some(d) => LogPlace::Given(d),
            None => LogPlace::BesideProgram,
        }
    } else if has_text(&config) {
        match config {
            Some(d) => LogPlace::BelowConfig(d),
            None => LogPlace::BesideProgram,
        }
    } else if has_text(&local) {
        match local {
            Some(d) => LogPlace::BelowLocalData(d),
            None => LogPlace::BesideProgram,
        }
    } else {
        LogPlace::BesideProgram
    }
}

// ---------------------------------------------------------------- times

/// A local time.
#[derive(Debug, Clone, Copy, PartialEq, Eq, Structural)]
pub struct LocalTime {
    pub year: u16,
    pub month: u16,
    pub day: u16,
    pub hour: u16,
    pub minute: u16,
    pub second: u16,
    pub millisecond: u16,
}

/// A number with at least so many digits.
pub open spec fn padded(n: u16, width: nat) -> Seq<char> {
    zero_padded(decimal(n as nat), width)
}

fn pad(n: u16, width: usize) -> (r: String)
    ensures
        r@ == padded(n, width as nat),
{
    text::zero_pad(text::decimal_string(n as u64).as_str(), width)
}

/// A time as it stands in a line of the log.
pub open spec fn full_stamp(t: LocalTime) -> Seq<char> {
    day_stamp(t) + " "@ + padded(t.hour, 2) + ":"@ + padded(t.minute, 2) + ":"@ + padded(
        t.second,
        2,
    ) + "."@ + padded(t.millisecond, 3)
}

/// A day as it stands in the name of a log.
pub open spec fn day_stamp(t: LocalTime) -> Seq<char> {
    padded(t.year, 4) + "-"@ + padded(t.month, 2) + "-"@ + padded(t.day, 2)
}

/// A time as it stands in the name of a crash report.
pub open spec fn filesafe_stamp(t: LocalTime) -> Seq<char> {
    padded(t.year, 4) + padded(t.month, 2) + padded(t.day, 2) + "-"@ + padded(t.hour, 2) + padded(
        t.minute,
        2,
    ) + padded(t.second, 2)
}

/// A day as it stands in the name of a log.
pub fn stamp_day(t: &LocalTime) -> (r: String)
    ensures
        r@ == day_stamp(*t),
{
    let mut r = pad(t.year, 4);
    r.append("-");
    r.append(pad(t.month, 2).as_str());
    r.append("-");
    r.append(pad(t.day, 2).as_str());
    r
}

/// A time as it stands in a line of the log.
pub fn stamp_full(t: &LocalTime) -> (r: String)
    ensures
        r@ == full_stamp(*t),
{
    let mut r = stamp_day(t);
    r.append(" ");
    r.append(pad(t.hour, 2).as_str());
    r.append(":");
    r.append(pad(t.minute, 2).as_str());
    r.append(":");
    r.append(pad(t.second, 2).as_str());
    r.append(".");
    r.append(pad(t.millisecond, 3).as_str());
    r
}

/// A time as it stands in the name of a crash report.
pub fn stamp_filesafe(t: &LocalTime) -> (r: String)
    ensures
        r@ == filesafe_stamp(*t),
{
    let mut r = pad(t.year, 4);
    r.append(pad(t.month, 2).as_str());
    r.append(pad(t.day, 2).as_str());
    r.append("-");
    r.append(pad(t.hour, 2).as_str());
    r.append(pad(t.minute, 2).as_str());
    r.append(pad(t.second, 2).as_str());
    r
}

/// A line of the log.
pub open spec fn log_line(stamp: Seq<char>, tag: Seq<char>, target: Seq<char>, msg: Seq<char>) -> Seq<
    char,
> {
    stamp + " "@ + tag + " ["@ + target + "] "@ + msg
}

/// A line of the log.
pub fn format_line(t: &LocalTime, message: Level, target: &str, msg: &str) -> (r: String)
    ensures
        r@ == log_line(full_stamp(*t), level_tag(message), target@, msg@),
{
    let mut r = stamp_full(t);
    r.append(" ");
    r.append(message.tag());
    r.append(" [");
    r.append(target);
    r.append("] ");
    r.append(msg);
    r
}

// ---------------------------------------------------------------- old files

/// A quotient rounded towards zero.
pub open spec fn quotient(a: int, b: int) -> int {
    if a >= 0 {
        a / b
    } else {
        -((-a) / b)
    }
}

/// The number of a day, counted from the first of January 1970.
pub open spec fn day_number(y: int, m: int, d: int) -> int {
    let a = quotient(14 - m, 12);
    let y2 = y + 4800 - a;
    let m2 = m + 12 * a - 3;
    d + (153 * m2 + 2) / 5 + 365 * y2 + y2 / 4 - y2 / 100 + y2 / 400 - 32045 - 2440588
}

/// The first ten characters are ASCII.
pub open spec fn ascii_start(s: Seq<char>) -> bool {
    s.len() >= 10 && forall|i: int| 0 <= i < 10 ==> (#[trigger] s[i] as u32) < 128
}

/// The number of the day that a text begins with, as in `2026-09-01`; `None`
/// where it begins with none. Any character may stand between the numbers.
pub open spec fn day_in(s: Seq<char>) -> Option<int> {
    if ascii_start(s) {
        match (
            signed_value(s.subrange(0, 4)),
            signed_value(s.subrange(5, 7)),
            signed_value(s.subrange(8, 10)),
        ) {
            (Some(y), Some(m), Some(d)) => Some(day_number(y, m, d)),
            _ => None,
        }
    } else {
        None
    }
}

/// A number of seconds as an unsigned one: what lies before 1970 is far ahead.
pub open spec fn wrapped(n: int) -> int {
    if n >= 0 {
        n
    } else {
        n + 0x1_0000_0000_0000_0000
    }
}

proof fn lemma_small(s: Seq<char>)
    requires
        s.len() <= 4,
    ensures
        digits_small(s),
        signed_value(s) is Some ==> -9999 <= signed_value(s)->0 <= 9999,
        s.len() <= 2 && signed_value(s) is Some ==> -9 <= signed_value(s)->0 <= 99,
        s.len() == 4 && signed_value(s) is Some ==> -999 <= signed_value(s)->0 <= 9999,
{
    lemma_digits_small(s);
    if s.len() > 0 {
        lemma_digits_small(s.skip(1));
    }
}

spec fn digits_small(s: Seq<char>) -> bool {
    match text::digits_value(s) {
        Some(n) => (s.len() == 1 ==> n <= 9) && (s.len() == 2 ==> n <= 99) && (s.len() == 3 ==> n
            <= 999) && (s.len() == 4 ==> n <= 9999),
        None => true,
    }
}

proof fn lemma_digits_small(s: Seq<char>)
    requires
        s.len() <= 4,
    ensures
        digits_small(s),
    decreases s.len(),
{
    if s.len() > 1 {
        lemma_digits_small(s.drop_last());
    }
}

fn day_seconds(y: i64, m: i64, d: i64) -> (r: u64)
    requires
        -999 <= y <= 9999,
        -9 <= m <= 99,
        -9 <= d <= 99,
    ensures
        r == wrapped(day_number(y as int, m as int, d as int) * 86400),
{
    let a: i64 = if 14 - m >= 0 {
        (14 - m) / 12
    } else {
        -((m - 14) / 12)
    };
    let y2: i64 = y + 4800 - a;
    let m2: i64 = m + 12 * a - 3;
    assert(0 <= m2 <= 22);
    assert(3800 <= y2 <= 14900);
    let days: i64 = d + (153 * m2 + 2) / 5 + 365 * y2 + y2 / 4 - y2 / 100 + y2 / 400 - 32045
        - 2440588;
    assert(days == day_number(y as int, m as int, d as int));
    let secs: i64 = days * 86400;
    if secs >= 0 {
        secs as u64
    } else {
        u64::MAX - ((-secs) as u64 - 1)
    }
}

/// The beginning of the day that a text begins with, in seconds since 1970.
pub fn day_to_secs(day: &str) -> (r: Option<u64>)
    ensures
        match day_in(day@) {
            Some(n) => r is Some && r->0 == wrapped(n * 86400),
            None => r is None,
        },
{
    let v = text::chars_of(day);
    if v.len() < 10 {
        return None;
    }
    let mut i: usize = 0;
    while i < 10
        invariant
            i <= 10 <= v@.len(),
            v@ == day@,
            forall|k: int| 0 <= k < i ==> (#[trigger] v@[k] as u32) < 128,
        decreases 10 - i,
    {
        if (v[i] as u32) >= 128 {
            return None;
        }
        i += 1;
    }
    assert(ascii_start(day@));
    proof {
        lemma_small(day@.subrange(0, 4));
        lemma_small(day@.subrange(5, 7));
        lemma_small(day@.subrange(8, 10));
    }
    match (
        text::parse_signed(&v, 0, 4),
        text::parse_signed(&v, 5, 7),
        text::parse_signed(&v, 8, 10),
    ) {
        (Some(y), Some(m), Some(d)) => Some(day_seconds(y, m, d)),
        _ => None,
    }
}

/// What becomes of a file in the directory of the logs.
#[derive(Debug, Clone, Copy, PartialEq, Eq, Structural)]
pub enum FileFate {
    Keep,
    Delete,
    /// It belongs to a crash; the newest of those are kept.
    Crash,
}

/// The day in the name of a log.
pub open spec fn named_day(name: Seq<char>) -> Seq<char> {
    without_suffix(without_suffix(without_prefix(name, "dock-"@), ".log"@), ".1"@)
}

/// What becomes of a file: today's log stays, files of crashes are looked at
/// together, logs of days before `keep_after` go, anything else stays. A log
/// whose name has no day goes by the time at which it was written last.
pub open spec fn fate(
    name: Seq<char>,
    today: bool,
    modified: Option<u64>,
    keep_after: u64,
) -> FileFate {
    if today {
        FileFate::Keep
    } else if "crash-"@.is_prefix_of(name) {
        FileFate::Crash
    } else if "dock-"@.is_prefix_of(name) && ".log"@.is_suffix_of(name) {
        match day_in(named_day(name)) {
            Some(n) => by_age(Some(wrapped(n * 86400) as u64), keep_after),
            None => by_age(modified, keep_after),
        }
    } else {
        FileFate::Keep
    }
}

/// What becomes of a log that was written at a time.
pub open spec fn by_age(written: Option<u64>, keep_after: u64) -> FileFate {
    match written {
        Some(s) => if s >= keep_after {
            FileFate::Keep
        } else {
            FileFate::Delete
        },
        None => FileFate::Keep,
    }
}

/// What becomes of a file in the directory of the logs.
pub fn file_fate(name: &str, today: bool, modified: Option<u64>, keep_after: u64) -> (r: FileFate)
    ensures
        r == fate(name@, today, modified, keep_after),
{
    if today {
        return FileFate::Keep;
    }
    if text::starts_with(name, "crash-") {
        return FileFate::Crash;
    }
    if text::starts_with(name, "dock-") && text::ends_with(name, ".log") {
        let a = text::trim_start_text(name, "dock-");
        let b = text::trim_end_text(a.as_str(), ".log");
        let c = text::trim_end_text(b.as_str(), ".1");
        let written: Option<u64> = match day_to_secs(c.as_str()) {
            Some(s) => Some(s),
            None => modified,
        };
        match written {
            Some(s) => if s >= keep_after {
                FileFate::Keep
            } else {
                FileFate::Delete
            },
            None => FileFate::Keep,
        }
    } else {
        FileFate::Keep
    }
}

/// The name of the log of a day.
pub open spec fn log_name(t: LocalTime) -> Seq<char> {
    "dock-"@ + day_stamp(t) + ".log"@
}

/// The name of the log of a day.
pub fn log_file_name(t: &LocalTime) -> (r: String)
    ensures
        r@ == log_name(*t),
{
    text::concat3("dock-", stamp_day(t).as_str(), ".log")
}

/// The name that a log of a day gets once it is too large.
pub open spec fn old_log_name(t: LocalTime) -> Seq<char> {
    "dock-"@ + day_stamp(t) + ".1.log"@
}

/// The name that a log of a day gets once it is too large.
pub fn old_log_file_name(t: &LocalTime) -> (r: String)
    ensures
        r@ == old_log_name(*t),
{
    text::concat3("dock-", stamp_day(t).as_str(), ".1.log")
}

/// The names of the report and of the dump of a crash.
pub fn crash_file_names(t: &LocalTime) -> (r: (String, String))
    ensures
        r.0@ == "crash-"@ + filesafe_stamp(*t) + ".txt"@,
        r.1@ == "crash-"@ + filesafe_stamp(*t) + ".dmp"@,
{
    let s = stamp_filesafe(t);
    (text::concat3("crash-", s.as_str(), ".txt"), text::concat3("crash-", s.as_str(), ".dmp"))
}

/// The time from which on logs are kept.
pub fn keep_after(now_secs: u64) -> (r: u64)
    ensures
        r == if now_secs >= KEEP_DAYS * 86400 {
            now_secs - KEEP_DAYS * 86400
        } else {
            0
        },
{
    now_secs.saturating_sub(KEEP_DAYS * 24 * 3600)
}

/// How many of the first `n` files come before file `i`: newer ones, and of the
/// same age those listed before it.
pub open spec fn newer_count(times: Seq<u64>, i: int, n: nat) -> nat
    decreases n,
{
    if n == 0 {
        0
    } else {
        let j = n - 1;
        newer_count(times, i, j as nat) + if times[j] > times[i] || (times[j] == times[i] && j
            < i) {
            1nat
        } else {
            0nat
        }
    }
}

/// The files of crashes that go, by their position: all but the newest. `times`
/// are the times at which they were written.
pub fn crashes_to_delete(times: &Vec<u64>) -> (r: Vec<bool>)
    ensures
        r@.len() == times@.len(),
        forall|i: int|
            0 <= i < times@.len() ==> #[trigger] r@[i] == (newer_count(
                times@,
                i,
                times@.len(),
            ) >= KEEP_CRASHES),
{
    let mut r: Vec<bool> = Vec::new();
    let mut i: usize = 0;
    while i < times.len()
        invariant
            i <= times@.len(),
            r@.len() == i,
            forall|k: int|
                0 <= k < i ==> #[trigger] r@[k] == (newer_count(times@, k, times@.len())
                    >= KEEP_CRASHES),
        decreases times@.len() - i,
    {
        let mut before: usize = 0;
        let mut j: usize = 0;
        while j < times.len()
            invariant
                i < times@.len(),
                j <= times@.len(),
                before <= j,
                before == newer_count(times@, i as int, j as nat),
            decreases times@.len() - j,
        {
            if times[j] > times[i] || (times[j] == times[i] && j < i) {
                before += 1;
            }
            j += 1;
        }
        r.push(before >= KEEP_CRASHES);
        i += 1;
    }
    r
}

/// Whether a log has grown too large.
pub fn is_too_big(bytes: u64) -> (r: bool)
    ensures
        r == (bytes > MAX_LOG_BYTES),
{
    bytes > MAX_LOG_BYTES
}

// ---------------------------------------------------------------- messages of pages

/// The level that a page asks for.
pub open spec fn page_level(name: Seq<char>) -> Level {
    if name == "error"@ {
        Level::Error
    } else if name == "warn"@ {
        Level::Warn
    } else if name == "debug"@ {
        Level::Debug
    } else {
        Level::Info
    }
}

/// The messages of a page: one for each line, with the page's name.
pub fn from_frontend(name: &str, page: &str, msg: &str) -> (r: (Level, Vec<String>))
    ensures
        r.0 == page_level(name@),
        r.1@.len() == lines_of(msg@).len(),
        forall|i: int|
            0 <= i < r.1@.len() ==> (#[trigger] r.1@[i])@ == "[前端 "@ + page@ + "] "@ + lines_of(
                msg@,
            )[i],
{
    let level = if text::same(name, "error") {
        Level::Error
    } else if text::same(name, "warn") {
        Level::Warn
    } else if text::same(name, "debug") {
        Level::Debug
    } else {
        Level::Info
    };
    let all = text::lines(msg);
    let mut out: Vec<String> = Vec::new();
    let mut i: usize = 0;
    while i < all.len()
        invariant
            i <= all@.len(),
            text_views(all@) == lines_of(msg@),
            out@.len() == i,
            forall|k: int|
                0 <= k < i ==> (#[trigger] out@[k])@ == "[前端 "@ + page@ + "] "@ + lines_of(msg@)[k],
        decreases all@.len() - i,
    {
        assert(text_views(all@)[i as int] == all@[i as int]@);
        let mut l = text::concat3("[前端 ", page, "] ");
        l.append(all[i].as_str());
        out.push(l);
        i += 1;
    }
    (level, out)
}

// ---------------------------------------------------------------- crashes

/// The text of a crash report: a buffer of fixed size. What does not fit is
/// left out.
pub struct StackBuf {
    b: [u8; 8192],
    n: usize,
}

/// What fits into a crash report.
pub open spec fn fitted(s: Seq<u8>) -> Seq<u8> {
    if s.len() <= REPORT_BYTES {
        s
    } else {
        s.take(REPORT_BYTES as int)
    }
}

impl StackBuf {
    /// The text so far fits.
    pub closed spec fn wf(self) -> bool {
        self.n <= 8192
    }

    /// The text so far.
    pub closed spec fn contents(self) -> Seq<u8> {
        self.b@.take(self.n as int)
    }

    /// Without text.
    pub fn new() -> (r: Self)
        ensures
            r.wf(),
            r.contents() == Seq::<u8>::empty(),
    {
        let r = StackBuf { b: [0u8; 8192], n: 0 };
        assert(r.contents() =~= Seq::empty());
        r
    }

    /// The text so far.
    pub fn as_bytes(&self) -> (r: &[u8])
        requires
            self.wf(),
        ensures
            r@ == self.contents(),
            r@.len() <= REPORT_BYTES,
    {
        let s: &[u8] = &self.b;
        let r = slice_subrange(s, 0, self.n);
        assert(r@ =~= self.contents());
        r
    }

    /// Adds a text, as far as it fits.
    pub fn push(&mut self, s: &str)
        requires
            old(self).wf(),
        ensures
            final(self).wf(),
            final(self).contents() == fitted(old(self).contents() + s.spec_bytes()),
    {
        let bytes = s.as_bytes();
        let ghost given = self.contents();
        let ghost all = s.spec_bytes();
        let mut i: usize = 0;
        assert(self.contents() =~= given + all.take(0));
        while i < bytes.len()
            invariant
                i <= bytes@.len(),
                bytes@ == all,
                all == s.spec_bytes(),
                given == old(self).contents(),
                self.wf(),
                given.len() <= 8192,
                self.contents() == given + all.take(i as int),
            decreases bytes@.len() - i,
        {
            if self.n >= 8192 {
                assert(self.contents() =~= fitted(given + all));
                return;
            }
            let ghost before = self.contents();
            self.b[self.n] = bytes[i];
            self.n = self.n + 1;
            assert(self.contents() =~= before.push(all[i as int]));
            assert(all.take(i + 1) =~= all.take(i as int).push(all[i as int]));
            i += 1;
            assert(self.contents() =~= given + all.take(i as int));
        }
        assert(all.take(i as int) =~= all);
        assert(self.contents() =~= fitted(given + all));
    }
}

/// The name of an exception.
pub open spec fn exception_text(code: u32) -> Seq<char> {
    if code == 0xc000_0005 {
        "ACCESS_VIOLATION 访问违例"@
    } else if code == 0xc000_001d {
        "ILLEGAL_INSTRUCTION 非法指令"@
    } else if code == 0xc000_008c {
        "ARRAY_BOUNDS_EXCEEDED 数组越界"@
    } else if code == 0xc000_0094 {
        "INTEGER_DIVIDE_BY_ZERO 除零"@
    } else if code == 0xc000_00fd {
        "STACK_OVERFLOW 栈溢出"@
    } else if code == 0xc000_0409 {
        "STACK_BUFFER_OVERRUN 栈缓冲溢出"@
    } else if code == 0xc000_0374 {
        "HEAP_CORRUPTION 堆损坏"@
    } else if code == 0xc000_0135 {
        "UNHANDLED_EXCEPTION"@
    } else if code == 0x8000_0003 {
        "BREAKPOINT 断点"@
    } else if code == 0xe06d_736c {
        "MSVC C++ 异常（多半是 Rust 的 abort）"@
    } else {
        "未知"@
    }
}

/// The name of an exception.
pub fn exception_name(code: u32) -> (r: &'static str)
    ensures
        r@ == exception_text(code),
{
    if code == 0xc000_0005 {
        "ACCESS_VIOLATION 访问违例"
    } else if code == 0xc000_001d {
        "ILLEGAL_INSTRUCTION 非法指令"
    } else if code == 0xc000_008c {
        "ARRAY_BOUNDS_EXCEEDED 数组越界"
    } else if code == 0xc000_0094 {
        "INTEGER_DIVIDE_BY_ZERO 除零"
    } else if code == 0xc000_00fd {
        "STACK_OVERFLOW 栈溢出"
    } else if code == 0xc000_0409 {
        "STACK_BUFFER_OVERRUN 栈缓冲溢出"
    } else if code == 0xc000_0374 {
        "HEAP_CORRUPTION 堆损坏"
    } else if code == 0xc000_0135 {
        "UNHANDLED_EXCEPTION"
    } else if code == 0x8000_0003 {
        "BREAKPOINT 断点"
    } else if code == 0xe06d_736c {
        "MSVC C++ 异常（多半是 Rust 的 abort）"
    } else {
        "未知"
    }
}

/// What a program did at an address that it may not use.
pub fn access_kind(n: u64) -> (r: &'static str)
    ensures
        r@ == access_text(n),
{
    if n == 0 {
        "读取"
    } else if n == 1 {
        "写入"
    } else if n == 8 {
        "执行"
    } else {
        "未知"
    }
}

/// The last part of a path.
pub open spec fn last_part(s: Seq<char>) -> Seq<char>
    decreases s.len(),
{
    if s.len() == 0 || s.last() == '\\' || s.last() == '/' {
        Seq::empty()
    } else {
        last_part(s.drop_last()).push(s.last())
    }
}

/// The module that an address lies in: its file and how far into it. `module`
/// is its path and where it begins.
pub fn module_of(addr: u64, module: &Option<(String, u64)>) -> (r: String)
    ensures
        r@ == module_text(addr, *module),
{
    match module {
        None => "未知模块".to_owned(),
        Some((path, base)) => {
            let v = text::chars_of(path.as_str());
            let n: usize = v.len();
            let mut from: usize = n;
            let ghost s = path@;
            assert(s.take(n as int) =~= s);
            assert(last_part(s) =~= last_part(s.take(n as int)) + s.skip(n as int));
            while from > 0 && v[from - 1] != '\\' && v[from - 1] != '/'
                invariant
                    from <= n == v@.len(),
                    v@ == s,
                    last_part(s) == last_part(s.take(from as int)) + s.skip(from as int),
                decreases from,
            {
                proof {
                    let t = s.take(from as int);
                    assert(t.last() == s[from - 1]);
                    assert(t.drop_last() =~= s.take(from - 1));
                    assert(last_part(t) + s.skip(from as int) =~= last_part(s.take(from - 1))
                        + s.skip(from - 1));
                }
                from -= 1;
            }
            proof {
                if from > 0 {
                    assert(s.take(from as int).last() == s[from - 1]);
                }
                assert(last_part(s.take(from as int)) =~= Seq::empty());
                assert(v@.subrange(from as int, n as int) =~= s.skip(from as int));
                assert(last_part(s) =~= s.skip(from as int));
            }
            let name = text::string_of(&v, from, n);
            let off: u64 = addr.wrapping_sub(*base);
            text::concat3(name.as_str(), "+0x", text::upper_hex_string(off, 1).as_str())
        },
    }
}

/// The last lines of a log, each with a line end.
pub open spec fn tail_text(lines: Seq<Seq<char>>) -> Seq<u8>
    decreases lines.len(),
{
    if lines.len() == 0 {
        Seq::empty()
    } else {
        tail_text(lines.drop_last()) + vstd::utf8::encode_utf8(lines.last())
            + vstd::utf8::encode_utf8("\r\n"@)
    }
}

/// The last `n` lines.
pub open spec fn last_lines(lines: Seq<Seq<char>>, n: nat) -> Seq<Seq<char>> {
    if lines.len() <= n {
        lines
    } else {
        lines.skip(lines.len() - n)
    }
}

/// The log as far as it is known when a report is written.
#[derive(Debug)]
pub enum LogText {
    /// There is no file.
    NoPath,
    /// The file cannot be read.
    Unreadable,
    Text(String),
}

proof fn lemma_fitted_twice(a: Seq<u8>, b: Seq<u8>, c: Seq<u8>)
    ensures
        fitted(fitted(a + b) + c) == fitted(a + b + c),
{
    assert(fitted(fitted(a + b) + c) =~= fitted(a + b + c));
}

/// Adds the last lines of the log to a report, as far as they fit.
pub fn append_log_tail(buf: &mut StackBuf, log: &LogText, lines: usize)
    requires
        old(buf).wf(),
    ensures
        final(buf).wf(),
        final(buf).contents() == fitted(
            old(buf).contents() + log_tail(*log, lines as nat),
        ),
{
    match log {
        LogText::NoPath => {
            buf.push("（没有日志文件路径）\r\n");
        },
        LogText::Unreadable => {
            buf.push("（日志文件读不出来）\r\n");
        },
        LogText::Text(t) => {
            let all = text::lines(t.as_str());
            let ghost whole = lines_of(t@);
            let ghost wanted = last_lines(whole, lines as nat);
            let n: usize = all.len();
            let start: usize = if n > lines {
                n - lines
            } else {
                0
            };
            assert(text_views(all@).len() == n);
            assert(wanted =~= whole.skip(start as int));
            let ghost given = buf.contents();
            let mut i: usize = start;
            assert(wanted.take(0) =~= Seq::empty());
            assert(given + tail_text(wanted.take(0)) =~= given);
            proof {
                lemma_contents_fit(buf);
            }
            while i < n
                invariant
                    start <= i <= n == all@.len(),
                    text_views(all@) == whole,
                    wanted == whole.skip(start as int),
                    buf.wf(),
                    buf.contents() == fitted(given + tail_text(wanted.take(i - start))),
                decreases n - i,
            {
                let ghost k = i - start;
                let ghost done = tail_text(wanted.take(k));
                let ghost line = all@[i as int]@;
                proof {
                    assert(whole[i as int] == line);
                    assert(wanted[k] == line);
                    assert(wanted.take(k + 1).drop_last() =~= wanted.take(k));
                    assert(wanted.take(k + 1).last() == line);
                }
                buf.push(all[i].as_str());
                proof {
                    lemma_fitted_twice(given, done, vstd::utf8::encode_utf8(line));
                    lemma_fitted_twice(
                        given + done,
                        vstd::utf8::encode_utf8(line),
                        vstd::utf8::encode_utf8("\r\n"@),
                    );
                    assert(given + done + vstd::utf8::encode_utf8(line) + vstd::utf8::encode_utf8(
                        "\r\n"@,
                    ) =~= given + tail_text(wanted.take(k + 1)));
                }
                buf.push("\r\n");
                i += 1;
            }
            assert(wanted.take(n - start) =~= wanted);
        },
    }
}

proof fn lemma_contents_fit(buf: &StackBuf)
    requires
        buf.wf(),
    ensures
        fitted(buf.contents()) == buf.contents(),
{
}

/// What is known of an exception that nothing handled.
#[derive(Debug)]
pub struct Exception {
    pub code: u32,
    pub address: u64,
    /// The module that the address lies in, and where it begins.
    pub module: Option<(String, u64)>,
    /// The first two of its parameters, where it has them.
    pub parameters: Option<(u64, u64)>,
}

/// What is known of a process that crashed.
#[derive(Debug)]
pub struct Crash {
    pub time: LocalTime,
    pub pid: u32,
    pub tid: u32,
    /// How many threads were writing to the log.
    pub writing: u8,
    pub exception: Option<Exception>,
}

/// What is said of the module of an address.
pub open spec fn module_text(addr: u64, module: Option<(String, u64)>) -> Seq<char> {
    match module {
        Some((path, base)) => last_part(path@) + "+0x"@ + upper_hex(
            addr.wrapping_sub(base) as nat,
            1,
        ),
        None => "未知模块"@,
    }
}

/// What is said of an access.
pub open spec fn access_text(n: u64) -> Seq<char> {
    if n == 0 {
        "读取"@
    } else if n == 1 {
        "写入"@
    } else if n == 8 {
        "执行"@
    } else {
        "未知"@
    }
}

/// The text in bytes.
pub open spec fn bytes_of(s: Seq<char>) -> Seq<u8> {
    vstd::utf8::encode_utf8(s)
}

/// What a report says of the process.
pub open spec fn report_head(c: Crash) -> Seq<u8> {
    bytes_of("Dock 崩溃报告\r\n时间     "@) + bytes_of(full_stamp(c.time)) + bytes_of(
        "\r\n进程     pid="@,
    ) + bytes_of(decimal(c.pid as nat)) + bytes_of("\r\n线程     tid="@) + bytes_of(
        decimal(c.tid as nat),
    ) + bytes_of("\r\n正在写日志的线程数 "@) + bytes_of(decimal(c.writing as nat)) + bytes_of(
        "\r\n"@,
    )
}

/// What a report says of the exception, after what it said before.
pub open spec fn report_exception(before: Seq<u8>, e: Option<Exception>) -> Seq<u8> {
    match e {
        Some(e) => {
            let all = before + bytes_of("异常码   0x"@) + bytes_of(upper_hex(e.code as nat, 8))
                + bytes_of("（"@) + bytes_of(exception_text(e.code)) + bytes_of(
                "）\r\n异常地址 0x"@,
            ) + bytes_of(upper_hex(e.address as nat, 16)) + bytes_of(" ← "@) + bytes_of(
                module_text(e.address, e.module),
            ) + bytes_of("\r\n"@);
            match e.parameters {
                Some((how, at)) => if e.code == 0xc000_0005 {
                    all + bytes_of("访问违例 "@) + bytes_of(access_text(how)) + bytes_of(
                        " 地址 0x"@,
                    ) + bytes_of(upper_hex(at as nat, 16)) + bytes_of("\r\n"@)
                } else {
                    all
                },
                None => all,
            }
        },
        None => before + bytes_of("（没有异常记录指针）\r\n"@),
    }
}

/// What a report says of the log.
pub open spec fn log_tail(log: LogText, lines: nat) -> Seq<u8> {
    match log {
        LogText::NoPath => bytes_of("（没有日志文件路径）\r\n"@),
        LogText::Unreadable => bytes_of("（日志文件读不出来）\r\n"@),
        LogText::Text(t) => tail_text(last_lines(lines_of(t@), lines)),
    }
}

/// Adds a text to a report of which `all` is the whole, fitting or not.
fn more(buf: &mut StackBuf, s: &str, all: Ghost<Seq<u8>>) -> (r: Ghost<Seq<u8>>)
    requires
        old(buf).wf(),
        old(buf).contents() == fitted(all@),
    ensures
        final(buf).wf(),
        r@ == all@ + bytes_of(s@),
        final(buf).contents() == fitted(r@),
{
    buf.push(s);
    assert(fitted(fitted(all@) + bytes_of(s@)) =~= fitted(all@ + bytes_of(s@)));
    Ghost(all@ + bytes_of(s@))
}

fn add_head(buf: &mut StackBuf, c: &Crash)
    requires
        old(buf).wf(),
        old(buf).contents() == Seq::<u8>::empty(),
    ensures
        final(buf).wf(),
        final(buf).contents() == fitted(report_head(*c)),
{
    assert(buf.contents() =~= fitted(Seq::empty()));
    let t = more(buf, "Dock 崩溃报告\r\n时间     ", Ghost(Seq::empty()));
    assert(t@ =~= bytes_of("Dock 崩溃报告\r\n时间     "@));
    let t = more(buf, stamp_full(&c.time).as_str(), t);
    let t = more(buf, "\r\n进程     pid=", t);
    let t = more(buf, text::decimal_string(c.pid as u64).as_str(), t);
    let t = more(buf, "\r\n线程     tid=", t);
    let t = more(buf, text::decimal_string(c.tid as u64).as_str(), t);
    let t = more(buf, "\r\n正在写日志的线程数 ", t);
    let t = more(buf, text::decimal_string(c.writing as u64).as_str(), t);
    let t = more(buf, "\r\n", t);
}

fn add_exception(buf: &mut StackBuf, exception: &Option<Exception>, before: Ghost<Seq<u8>>)
    requires
        old(buf).wf(),
        old(buf).contents() == fitted(before@),
    ensures
        final(buf).wf(),
        final(buf).contents() == fitted(report_exception(before@, *exception)),
{
    match exception {
        Some(e) => {
            let t = more(buf, "异常码   0x", before);
            let t = more(buf, text::upper_hex_string(e.code as u64, 8).as_str(), t);
            let t = more(buf, "（", t);
            let t = more(buf, exception_name(e.code), t);
            let t = more(buf, "）\r\n异常地址 0x", t);
            let t = more(buf, text::upper_hex_string(e.address, 16).as_str(), t);
            let t = more(buf, " ← ", t);
            let t = more(buf, module_of(e.address, &e.module).as_str(), t);
            let t = more(buf, "\r\n", t);
            match e.parameters {
                Some((how, at)) => {
                    if e.code == 0xc000_0005 {
                        let t = more(buf, "访问违例 ", t);
                        let t = more(buf, access_kind(how), t);
                        let t = more(buf, " 地址 0x", t);
                        let t = more(buf, text::upper_hex_string(at, 16).as_str(), t);
                        let t = more(buf, "\r\n", t);
                    }
                },
                None => {},
            }
        },
        None => {
            let t = more(buf, "（没有异常记录指针）\r\n", before);
        },
    }
}

/// The report of a crash: the process, the exception and the last lines of the
/// log, as far as they fit.
pub fn crash_report(c: &Crash, log: &LogText) -> (r: StackBuf)
    ensures
        r.wf(),
        r.contents() == fitted(
            report_exception(report_head(*c), c.exception) + bytes_of(
                "\r\n---- 崩溃前的最后 40 行日志 ----\r\n"@,
            ) + log_tail(*log, CRASH_TAIL_LINES as nat),
        ),
{
    let mut buf = StackBuf::new();
    add_head(&mut buf, c);
    add_exception(&mut buf, &c.exception, Ghost(report_head(*c)));
    let ghost so_far = report_exception(report_head(*c), c.exception);
    let t = more(&mut buf, "\r\n---- 崩溃前的最后 40 行日志 ----\r\n", Ghost(so_far));
    append_log_tail(&mut buf, log, CRASH_TAIL_LINES);
    proof {
        let tail = log_tail(*log, CRASH_TAIL_LINES as nat);
        assert(fitted(fitted(t@) + tail) =~= fitted(t@ + tail));
    }
    buf
}

/// A crash report never holds more than its buffer, and what was written first
/// stays: adding text only ever appends.
pub proof fn law_report_keeps_its_beginning(so_far: Seq<u8>, more: Seq<u8>)
    requires
        so_far.len() <= REPORT_BYTES,
    ensures
        fitted(so_far + more).len() <= REPORT_BYTES,
        so_far.is_prefix_of(fitted(so_far + more)),
{
    assert(so_far =~= fitted(so_far + more).subrange(0, so_far.len() as int));
}

/// How a crash is brought about on purpose.
#[derive(Debug, Clone, Copy, PartialEq, Eq, Structural)]
pub enum CrashTest {
    Nothing,
    Panic,
    AccessViolation,
}

/// How a crash is brought about on purpose, as the environment asks for it.
/// `debug_build` says that such a thing is possible at all.
pub fn maybe_crash_for_test(setting: &str, debug_build: bool) -> (r: CrashTest)
    ensures
        r == if debug_build && setting@ == "panic"@ {
            CrashTest::Panic
        } else if debug_build && setting@ == "av"@ {
            CrashTest::AccessViolation
        } else {
            CrashTest::Nothing
        },
{
    if debug_build && text::same(setting, "panic") {
        CrashTest::Panic
    } else if debug_build && text::same(setting, "av") {
        CrashTest::AccessViolation
    } else {
        CrashTest::Nothing
    }
}

} // verus!
