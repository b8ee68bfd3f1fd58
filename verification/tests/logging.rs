use dock_app::logging::{
    access_kind, append_log_tail, crash_file_names, crash_report, crashes_to_delete, day_to_secs,
    exception_name, file_fate, format_line, from_frontend, heartbeat, is_alarming, is_too_big,
    is_written, keep_after, level, log_dir, log_file_name, log_path, maybe_crash_for_test, module_of,
    old_log_file_name, stamp_day, stamp_filesafe, stamp_full, uptime, Crash, CrashTest, Exception,
    FileFate, Level, LocalTime, Log, LogPlace, LogText, StackBuf, CRASH_TAIL_LINES, MAX_LOG_BYTES,
    REPORT_BYTES,
};

fn time() -> LocalTime {
    LocalTime { year: 2026, month: 9, day: 5, hour: 9, minute: 51, second: 35, millisecond: 7 }
}

#[test]
fn levels_have_tags_names_and_numbers() {
    assert_eq!(Level::Warn.tag(), "WARN ");
    assert_eq!(Level::Warn.name(), "WARN");
    assert_eq!(Level::Trace.number(), 5);
    assert_eq!(level(1), Level::Error);
    assert_eq!(level(3), Level::Info);
    assert_eq!(level(9), Level::Info);
    for l in [Level::Error, Level::Warn, Level::Info, Level::Debug, Level::Trace] {
        assert_eq!(level(l.number()), l);
        assert_eq!(l.tag().trim(), l.name());
    }
}

#[test]
fn the_environment_chooses_the_level() {
    let some = |s: &str| Some(s.to_string());
    assert_eq!(Level::from_env(&some(" ERROR "), &None), Level::Error);
    assert_eq!(Level::from_env(&some("warning"), &None), Level::Warn);
    assert_eq!(Level::from_env(&some("info"), &some("1")), Level::Info);
    assert_eq!(Level::from_env(&None, &some("1")), Level::Debug);
    assert_eq!(Level::from_env(&some("loud"), &some("yes")), Level::Info);
}

#[test]
fn less_important_messages_are_left_out() {
    assert!(is_written(Level::Info, Level::Info));
    assert!(!is_written(Level::Debug, Level::Info));
    assert!(is_alarming(Level::Warn) && !is_alarming(Level::Info));
}

#[test]
fn times_are_written_with_leading_zeros() {
    assert_eq!(stamp_full(&time()), "2026-09-05 09:51:35.007");
    assert_eq!(stamp_day(&time()), "2026-09-05");
    assert_eq!(stamp_filesafe(&time()), "20260905-095135");
    assert_eq!(
        format_line(&time(), Level::Warn, "store", "hello"),
        "2026-09-05 09:51:35.007 WARN  [store] hello"
    );
}

#[test]
fn days_become_seconds() {
    assert_eq!(day_to_secs("1970-01-01"), Some(0));
    assert_eq!(day_to_secs("1970-01-02"), Some(86400));
    assert_eq!(day_to_secs("2000-03-01"), Some(951868800));
    assert_eq!(day_to_secs("2026-09-25x"), Some(1790294400));
    assert_eq!(day_to_secs("1969-12-31"), Some(0u64.wrapping_sub(86400)));
    assert_eq!(day_to_secs("2026-9-25"), None);
    assert_eq!(day_to_secs("abcd-09-25"), None);
    assert_eq!(day_to_secs("２026-09-25"), None);
    assert_eq!(day_to_secs(""), None);
}

#[test]
fn the_day_count_follows_the_calendar() {
    let day = |s: &str| day_to_secs(s).unwrap() / 86400;
    assert_eq!(day("2024-02-29") + 1, day("2024-03-01"));
    assert_eq!(day("2023-02-28") + 1, day("2023-03-01"));
    assert_eq!(day("2100-02-28") + 1, day("2100-03-01"));
    assert_eq!(day("2025-12-31") + 1, day("2026-01-01"));
}

#[test]
fn days_stand_in_the_order_of_their_texts() {
    let days = ["1970-01-01", "1999-12-31", "2000-01-01", "2024-02-29", "2024-03-01", "9999-12-31"];
    for a in days {
        let s = day_to_secs(a).unwrap();
        assert_eq!(s % 86400, 0);
        for b in days {
            assert_eq!(a < b, s < day_to_secs(b).unwrap());
        }
    }
    let apart = day_to_secs("2025-01-01").unwrap() - day_to_secs("2024-01-01").unwrap();
    assert_eq!(apart, 366 * 86400);
}

#[test]
fn old_logs_go_and_others_stay() {
    let after = day_to_secs("2026-09-01").unwrap();
    assert_eq!(file_fate("dock-2026-09-05.log", true, None, u64::MAX), FileFate::Keep);
    assert_eq!(file_fate("dock-2026-09-01.log", false, None, after), FileFate::Keep);
    assert_eq!(file_fate("dock-2026-08-31.log", false, None, after), FileFate::Delete);
    assert_eq!(file_fate("dock-2026-08-31.1.log", false, None, after), FileFate::Delete);
    assert_eq!(file_fate("crash-20260831-000000.dmp", false, None, after), FileFate::Crash);
    assert_eq!(file_fate("notes.txt", false, Some(0), after), FileFate::Keep);
    assert_eq!(file_fate("dock-old.log", false, Some(after - 1), after), FileFate::Delete);
    assert_eq!(file_fate("dock-old.log", false, Some(after), after), FileFate::Keep);
    assert_eq!(file_fate("dock-old.log", false, None, after), FileFate::Keep);
    assert_eq!(keep_after(8 * 86400), 86400);
    assert_eq!(keep_after(5), 0);
}

#[test]
fn names_of_logs_give_their_day_back() {
    let secs = day_to_secs("2026-09-05").unwrap();
    for name in [log_file_name(&time()), old_log_file_name(&time())] {
        assert_eq!(file_fate(&name, false, None, secs), FileFate::Keep);
        assert_eq!(file_fate(&name, false, None, secs + 1), FileFate::Delete);
    }
    assert_eq!(log_file_name(&time()), "dock-2026-09-05.log");
    assert_eq!(old_log_file_name(&time()), "dock-2026-09-05.1.log");
    let (txt, dmp) = crash_file_names(&time());
    assert_eq!(txt, "crash-20260905-095135.txt");
    assert_eq!(dmp, "crash-20260905-095135.dmp");
}

#[test]
fn the_newest_crashes_stay() {
    let times: Vec<u64> = (0..25u64).map(|i| (i * 7) % 25).collect();
    let gone = crashes_to_delete(&times);
    assert_eq!(gone.iter().filter(|g| !**g).count(), 20);
    for (i, g) in gone.iter().enumerate() {
        assert_eq!(*g, times[i] < 5);
    }
    let same = crashes_to_delete(&vec![3; 22]);
    assert_eq!(same.iter().position(|g| *g), Some(20));
    assert!(crashes_to_delete(&vec![1, 2, 3]).iter().all(|g| !*g));
}

#[test]
fn the_log_knows_its_file_and_its_age() {
    let log = Log { path: Some("x.log".into()), start: Some(1000) };
    assert_eq!(log_path(&log), Some("x.log"));
    assert_eq!(uptime(&log, 61_500), 60_500);
    assert_eq!(uptime(&log, 10), 0);
    assert_eq!(heartbeat(&log, 181_000, Some(55)), "[心跳] 已运行 3 分钟，工作集 55 MB");
    assert_eq!(heartbeat(&log, 1000, None), "[心跳] 已运行 0 分钟");
    let none = Log { path: None, start: None };
    assert_eq!(log_path(&none), None);
    assert_eq!(uptime(&none, 99), 0);
    assert!(is_too_big(MAX_LOG_BYTES + 1) && !is_too_big(MAX_LOG_BYTES));
}

#[test]
fn logs_go_where_the_environment_says() {
    let some = |s: &str| Some(s.to_string());
    assert!(matches!(log_dir(some("a"), some("b"), some("c")), LogPlace::Given(d) if d == "a"));
    assert!(matches!(log_dir(some("  "), some("b"), some("c")), LogPlace::BelowConfig(d) if d == "b"));
    assert!(matches!(log_dir(None, None, some("c")), LogPlace::BelowLocalData(d) if d == "c"));
    assert!(matches!(log_dir(None, some(""), None), LogPlace::BesideProgram));
}

#[test]
fn messages_of_pages_are_split_into_lines() {
    let (l, lines) = from_frontend("error", "dock", "one\r\ntwo\nthree");
    assert_eq!(l, Level::Error);
    assert_eq!(lines, vec!["[前端 dock] one", "[前端 dock] two", "[前端 dock] three"]);
    assert_eq!(from_frontend("odd", "p", "").1.len(), 0);
    assert_eq!(from_frontend("odd", "p", "x").0, Level::Info);
    assert_eq!(from_frontend("debug", "p", "x").0, Level::Debug);
}

#[test]
fn a_report_keeps_what_fits() {
    let mut b = StackBuf::new();
    assert!(b.as_bytes().is_empty());
    b.push("首");
    b.push(&"x".repeat(9000));
    assert_eq!(b.as_bytes().len(), REPORT_BYTES);
    assert!(b.as_bytes().starts_with("首x".as_bytes()));
    b.push("more");
    assert_eq!(b.as_bytes().len(), REPORT_BYTES);
}

#[test]
fn the_tail_of_the_log_is_added() {
    let mut b = StackBuf::new();
    let text: String = (0..50).map(|i| format!("line {i}\n")).collect();
    append_log_tail(&mut b, &LogText::Text(text), 2);
    assert_eq!(b.as_bytes(), "line 48\r\nline 49\r\n".as_bytes());
    let mut c = StackBuf::new();
    append_log_tail(&mut c, &LogText::NoPath, 2);
    assert_eq!(c.as_bytes(), "（没有日志文件路径）\r\n".as_bytes());
    let mut d = StackBuf::new();
    append_log_tail(&mut d, &LogText::Unreadable, 2);
    assert_eq!(d.as_bytes(), "（日志文件读不出来）\r\n".as_bytes());
}

#[test]
fn a_crash_is_reported_in_full() {
    let c = Crash {
        time: time(),
        pid: 12,
        tid: 34,
        writing: 1,
        exception: Some(Exception {
            code: 0xC000_0005,
            address: 0x7ff6_1000,
            module: Some((r"C:\Windows\System32\ntdll.dll".into(), 0x7ff6_0000)),
            parameters: Some((1, 0x10)),
        }),
    };
    let b = crash_report(&c, &LogText::NoPath);
    let text = String::from_utf8(b.as_bytes().to_vec()).unwrap();
    assert_eq!(
        text,
        "Dock 崩溃报告\r\n时间     2026-09-05 09:51:35.007\r\n进程     pid=12\r\n线程     tid=34\r\n\
         正在写日志的线程数 1\r\n异常码   0xC0000005（ACCESS_VIOLATION 访问违例）\r\n\
         异常地址 0x000000007FF61000 ← ntdll.dll+0x1000\r\n访问违例 写入 地址 0x0000000000000010\r\n\
         \r\n---- 崩溃前的最后 40 行日志 ----\r\n（没有日志文件路径）\r\n"
    );
    assert_eq!(CRASH_TAIL_LINES, 40);
    let bare = Crash { time: time(), pid: 1, tid: 1, writing: 0, exception: None };
    let text = String::from_utf8(crash_report(&bare, &LogText::NoPath).as_bytes().to_vec()).unwrap();
    assert!(text.contains("（没有异常记录指针）"));
}

#[test]
fn exceptions_and_modules_have_names() {
    assert_eq!(exception_name(0xC000_00FD), "STACK_OVERFLOW 栈溢出");
    assert_eq!(exception_name(1), "未知");
    assert_eq!(access_kind(8), "执行");
    assert_eq!(access_kind(2), "未知");
    assert_eq!(module_of(5, &None), "未知模块");
    assert_eq!(module_of(0x20, &Some(("a/b\\c.exe".into(), 0x10))), "c.exe+0x10");
}

#[test]
fn crashing_on_purpose_needs_a_debug_build() {
    assert_eq!(maybe_crash_for_test("panic", true), CrashTest::Panic);
    assert_eq!(maybe_crash_for_test("av", true), CrashTest::AccessViolation);
    assert_eq!(maybe_crash_for_test("", true), CrashTest::Nothing);
    assert_eq!(maybe_crash_for_test("panic", false), CrashTest::Nothing);
}
