use model_usage::logscan::{classify_line, parse_logs, resolve_digest, scan_line, scan_log, LineClass, LogFile};
use model_usage::manifest::DigestIndex;
use model_usage::timestamp::Timestamp;
use model_usage::usage::{UsageStat, UsageTable};

const D: &str = "0123456789abcdef0123456789abcdef0123456789abcdef0123456789abcdef";
const E: &str = "fedcba9876543210fedcba9876543210fedcba9876543210fedcba9876543210";
const T10: i64 = 1704103200;
const T12: i64 = 1704110400;

fn load_line(digest: &str) -> String {
    format!(
        "llama_model_loader: loaded meta data with 29 key-value pairs and 292 tensors from /m/blobs/sha256-{} (version GGUF V3 (latest))",
        digest
    )
}

fn ts(secs: i64) -> Timestamp {
    Timestamp { secs, nanos: 0 }
}

fn foo_index() -> DigestIndex {
    let mut index = DigestIndex::new();
    index.add_name(D.to_string(), "foo:latest".to_string(), 500);
    index
}

fn log(lines: Vec<String>, modified: i64) -> LogFile {
    LogFile { modified: ts(modified), lines }
}

#[test]
fn two_loads_of_one_digest() {
    let file = log(
        vec![
            "time=2024-01-01T10:00:00Z".to_string(),
            load_line(D),
            "some other line".to_string(),
            "time=2024-01-01T12:00:00Z".to_string(),
            load_line(D),
        ],
        T12 + 99,
    );
    let mut table = UsageTable::new();
    scan_log(&mut table, &file, &foo_index());
    assert_eq!(
        table.get(&"foo:latest".to_string()),
        Some(UsageStat { usage_count: 2, last_used: ts(T12), size: 500 })
    );
    let recs = table.into_records();
    assert_eq!(recs.len(), 1);
}

#[test]
fn unknown_digest_gets_placeholder() {
    let file = log(vec!["time=2024-01-01T10:00:00Z".to_string(), load_line(E)], T12);
    let mut table = UsageTable::new();
    scan_log(&mut table, &file, &foo_index());
    assert_eq!(
        table.get(&"fedcba98...-deleted".to_string()),
        Some(UsageStat { usage_count: 1, last_used: ts(T10), size: 0 })
    );
    assert_eq!(resolve_digest(&foo_index(), &E.to_string()), ("fedcba98...-deleted".to_string(), 0));
    assert_eq!(resolve_digest(&foo_index(), &D.to_string()), ("foo:latest".to_string(), 500));
}

#[test]
fn load_before_any_timestamp_uses_file_time() {
    let file = log(vec![load_line(D), "time=2024-01-01T10:00:00Z".to_string(), load_line(D)], T12);
    let mut table = UsageTable::new();
    scan_log(&mut table, &file, &foo_index());
    // the second load's cursor is earlier than the file time, which stays
    assert_eq!(
        table.get(&"foo:latest".to_string()),
        Some(UsageStat { usage_count: 2, last_used: ts(T12), size: 500 })
    );
}

#[test]
fn cursor_is_per_file_and_records_merge_across_files() {
    let first = log(vec!["time=2024-01-01T12:00:00Z".to_string(), load_line(D)], T12 + 5);
    let second = log(vec![load_line(D)], T10);
    let table = parse_logs(&foo_index(), &vec![first, second]);
    // the second file has no timestamp line, so its load counts at the file's
    // modification time, which is earlier than the record's last use
    assert_eq!(
        table.get(&"foo:latest".to_string()),
        Some(UsageStat { usage_count: 2, last_used: ts(T12), size: 500 })
    );
    let empty = parse_logs(&foo_index(), &vec![]);
    assert_eq!(empty.into_records().len(), 0);
}

#[test]
fn load_without_timestamp_rises_to_later_file_time() {
    let first = log(vec![load_line(D)], 100);
    let second = log(vec![load_line(D)], 200);
    let table = parse_logs(&foo_index(), &vec![first, second]);
    assert_eq!(
        table.get(&"foo:latest".to_string()),
        Some(UsageStat { usage_count: 2, last_used: ts(200), size: 500 })
    );
    let mut alone = UsageTable::new();
    scan_log(&mut alone, &log(vec![load_line(D)], 200), &foo_index());
    assert_eq!(alone.get(&"foo:latest".to_string()).map(|s| s.last_used), Some(ts(200)));
}

#[test]
fn malformed_lines_change_nothing() {
    let index = foo_index();
    let mut table = UsageTable::new();
    let mut cursor = Some(ts(T10));
    let lines = [
        "2024-01-01 10:00:00 not a timestamp form",
        "2024/13/45 99:99:99 bad date",
        "12345",
        "time=yesterday",
        "llama_model_loader: loaded meta data sha256-0123",
        "llama_model_loader: loaded meta data sha256-zz23456789abcdef0123456789abcdef0123456789abcdef0123456789abcdef",
        "sha256-0123456789abcdef0123456789abcdef0123456789abcdef0123456789abcdef without marker",
        "",
    ];
    for line in lines {
        let local = scan_line(&mut table, &mut cursor, line, &index, ts(T12));
        assert_eq!(local, None);
        assert_eq!(cursor, Some(ts(T10)));
    }
    assert_eq!(table.into_records().len(), 0);
}

#[test]
fn lines_are_classified() {
    match classify_line("time=2024-01-01T12:00:00+02:00") {
        LineClass::Instant(t) => assert_eq!(t, ts(T12 - 7200)),
        _ => panic!("expected an instant"),
    }
    match classify_line("time=2024-01-01T10:00:00.5Z") {
        LineClass::Instant(t) => assert_eq!(t, Timestamp { secs: T10, nanos: 500_000_000 }),
        _ => panic!("expected an instant"),
    }
    match classify_line("2024/01/01 10:00:00 routes.go:1008: INFO server config") {
        LineClass::WallClock(s, n) => assert_eq!((s, n), (T10, 0)),
        _ => panic!("expected a wall-clock time"),
    }
    match classify_line(&load_line(D)) {
        LineClass::Load(d) => assert_eq!(d, D),
        _ => panic!("expected a load"),
    }
    assert!(matches!(classify_line("time=2024-01-01T10:00:00Z level=INFO"), LineClass::Other));
    assert!(matches!(classify_line("2024/01/01 10:00:00"), LineClass::Other));
    assert!(matches!(classify_line("hello"), LineClass::Other));
}

#[test]
fn wall_clock_line_moves_cursor() {
    let index = foo_index();
    let mut table = UsageTable::new();
    let mut cursor = None;
    let local = scan_line(&mut table, &mut cursor, "2024/01/01 10:00:00 server started", &index, ts(0));
    let t = cursor.expect("the local clock gives one instant for this date");
    assert_eq!(local, Some((t.secs, t.nanos)));
    // whatever the time zone, the instant is within a day of the UTC reading
    assert!((t.secs - T10).abs() < 86_400);
    assert_eq!(t.nanos, 0);
    assert_eq!(table.into_records().len(), 0);
}

#[test]
fn later_timestamp_never_lowers_last_use() {
    let file = log(
        vec![
            "time=2024-01-01T12:00:00Z".to_string(),
            load_line(D),
            "time=2024-01-01T10:00:00Z".to_string(),
            load_line(D),
        ],
        0,
    );
    let mut table = UsageTable::new();
    scan_log(&mut table, &file, &foo_index());
    assert_eq!(
        table.get(&"foo:latest".to_string()),
        Some(UsageStat { usage_count: 2, last_used: ts(T12), size: 500 })
    );
}

#[test]
fn malformed_lines_inserted_into_a_file_change_no_record() {
    let clean = vec![
        "time=2024-01-01T10:00:00Z".to_string(),
        load_line(D),
        load_line(E),
        "time=2024-01-01T12:00:00Z".to_string(),
        load_line(D),
    ];
    let mut noisy = clean.clone();
    noisy.insert(0, "12345 junk".to_string());
    noisy.insert(2, "2024/13/45 99:99:99 x".to_string());
    noisy.insert(4, "time=not a time".to_string());
    noisy.push("2024-01-01 10:00:00 x".to_string());
    let a = parse_logs(&foo_index(), &vec![log(clean, T12 + 1)]);
    let b = parse_logs(&foo_index(), &vec![log(noisy, T12 + 1)]);
    for name in ["foo:latest", "fedcba98...-deleted"] {
        assert_eq!(a.get(&name.to_string()), b.get(&name.to_string()));
    }
    assert_eq!(a.into_records().len(), b.into_records().len());
}
