use std::time::{Duration, SystemTime, UNIX_EPOCH};

use session_reader::models::project::Session;
use session_reader::services::file_guard::{
    auto_backup_path, formatted_timestamp, temp_backup_entry, temp_backup_name, BackupConfig,
};
use session_reader::services::scanner::{
    days_to_date, is_session_file, iso8601_text, scan_all_projects, scan_project_sessions,
    scan_with_separator, session_id, system_time_to_iso8601, FileEntry, ProjectDir,
};

#[test]
fn dates_of_days() {
    assert_eq!(days_to_date(0), (1970, 1, 1));
    assert_eq!(days_to_date(30), (1970, 1, 31));
    assert_eq!(days_to_date(31), (1970, 2, 1));
    assert_eq!(days_to_date(58), (1970, 2, 28));
    assert_eq!(days_to_date(59), (1970, 3, 1));
    assert_eq!(days_to_date(364), (1970, 12, 31));
    assert_eq!(days_to_date(365), (1971, 1, 1));
    assert_eq!(days_to_date(789), (1972, 2, 29));
    assert_eq!(days_to_date(11016), (2000, 2, 29));
    assert_eq!(days_to_date(11017), (2000, 3, 1));
    assert_eq!(days_to_date(19782), (2024, 2, 29));
    assert_eq!(days_to_date(47540), (2100, 2, 28));
    assert_eq!(days_to_date(47541), (2100, 3, 1));
    assert_eq!(days_to_date(u64::MAX / 86400).1 <= 12, true);
    let (y, m, d) = days_to_date(u64::MAX);
    assert!(y > 1970 && (1..=12).contains(&m) && (1..=31).contains(&d));
}

#[test]
fn times_as_text() {
    assert_eq!(iso8601_text(0, 0), "1970-01-01T00:00:00.000Z");
    assert_eq!(iso8601_text(1_700_000_000, 7), "2023-11-14T22:13:20.007Z");
    assert_eq!(iso8601_text(951_782_399, 999), "2000-02-28T23:59:59.999Z");
    assert_eq!(iso8601_text(951_782_400, 10), "2000-02-29T00:00:00.010Z");
    assert_eq!(iso8601_text(253_402_300_800, 0), "10000-01-01T00:00:00.000Z");
    assert_eq!(iso8601_text(59, 1234), "1970-01-01T00:00:59.1234Z");
    let time = UNIX_EPOCH + Duration::new(1_700_000_000, 123_456_789);
    assert_eq!(system_time_to_iso8601(time), "2023-11-14T22:13:20.123Z");
    assert_eq!(system_time_to_iso8601(UNIX_EPOCH), "1970-01-01T00:00:00.000Z");
    let before = UNIX_EPOCH - Duration::from_secs(5);
    assert_eq!(system_time_to_iso8601(before), "1970-01-01T00:00:00.000Z");
}

#[test]
fn names_of_session_files() {
    assert!(is_session_file("abc.jsonl"));
    assert!(is_session_file(".jsonl"));
    assert!(!is_session_file("agent-abc.jsonl"));
    assert!(!is_session_file("abc.json"));
    assert!(!is_session_file("abc.jsonl.bak"));
    assert!(is_session_file("an-agent-.jsonl"));
    assert_eq!(session_id("abc.jsonl"), "abc");
    assert_eq!(session_id("abc.jsonl.jsonl"), "abc");
    assert_eq!(session_id("abc.json"), "abc.json");
    assert_eq!(session_id(".jsonl"), "");
    assert_eq!(session_id("a.jsonlx.jsonl"), "a.jsonlx");
}

fn at(secs: u64) -> Option<SystemTime> {
    Some(UNIX_EPOCH + Duration::from_secs(secs))
}

fn entry(name: &str, is_file: bool, modified: Option<SystemTime>) -> FileEntry {
    FileEntry {
        file_name: name.to_string(),
        file_path: format!("/p/{name}"),
        is_file,
        modified,
    }
}

fn session(id: &str, timestamp: &str) -> Session {
    Session {
        id: id.to_string(),
        name: None,
        timestamp: timestamp.to_string(),
        message_count: 0,
        file_path: format!("/p/{id}.jsonl"),
    }
}

#[test]
fn sessions_of_a_directory() {
    let entries = vec![
        entry("old.jsonl", true, at(86_400)),
        entry("agent-x.jsonl", true, at(500_000)),
        entry("new.jsonl", true, at(172_800)),
        entry("dir.jsonl", false, at(900_000)),
        entry("notes.txt", true, at(900_000)),
        entry("unread.jsonl", true, None),
        entry("mid.jsonl", true, at(100_000)),
        entry("same.jsonl", true, at(100_000)),
    ];
    let sessions = scan_project_sessions(entries);
    assert_eq!(
        sessions,
        vec![
            session("new", "1970-01-03T00:00:00.000Z"),
            session("mid", "1970-01-02T03:46:40.000Z"),
            session("same", "1970-01-02T03:46:40.000Z"),
            session("old", "1970-01-02T00:00:00.000Z"),
        ]
    );
    assert!(scan_project_sessions(vec![]).is_empty());
}

#[test]
fn projects_of_directories() {
    let dirs = vec![
        ProjectDir { dir_name: "-home-a".to_string(), entries: vec![entry("s.jsonl", true, at(10))] },
        ProjectDir { dir_name: "-home-empty".to_string(), entries: vec![] },
        ProjectDir {
            dir_name: "-home-b".to_string(),
            entries: vec![entry("t.jsonl", true, at(5)), entry("u.jsonl", true, at(99))],
        },
    ];
    let projects = scan_all_projects(dirs);
    let names: Vec<&str> = projects.iter().map(|p| p.name.as_str()).collect();
    assert_eq!(names, vec!["-home-b", "-home-a", "-home-empty"]);
    let sep = std::path::MAIN_SEPARATOR;
    assert_eq!(projects[0].path, format!("{sep}home{sep}b"));
    let ids: Vec<&str> = projects[0].sessions.iter().map(|s| s.id.as_str()).collect();
    assert_eq!(ids, vec!["u", "t"]);
    assert!(projects[2].sessions.is_empty());
}

#[test]
fn names_of_copies() {
    assert_eq!(temp_backup_name("a.jsonl", 1_740_000_000), "a.jsonl_1740000000.bak");
    assert_eq!(temp_backup_name("", 0), "_0.bak");
    assert_eq!(auto_backup_path("/p/a.jsonl", "1740000000"), "/p/a.jsonl.ccbak1740000000");
    let e = temp_backup_entry("/p/a.jsonl", "/tmp/x.bak", 42, "edit_message");
    assert_eq!(e.original_path, "/p/a.jsonl");
    assert_eq!(e.temp_path, "/tmp/x.bak");
    assert_eq!(e.created_at, "42");
    assert_eq!(e.operation, "edit_message");
    let stamp = formatted_timestamp();
    assert!(!stamp.is_empty() && stamp.chars().all(|c| c.is_ascii_digit()));
    assert!(stamp.parse::<u64>().unwrap() > 1_600_000_000);
    assert!(!BackupConfig::default().auto_backup_enabled);
}

#[test]
fn projects_with_a_given_separator() {
    let dir = |name: &str, times: &[u64]| ProjectDir {
        dir_name: name.to_string(),
        entries: times.iter().map(|t| entry(&format!("s{t}.jsonl"), true, at(*t))).collect(),
    };
    let dirs = vec![
        dir("C--work-a", &[50]),
        dir("-srv-first", &[70, 20]),
        dir("-srv-none", &[]),
        dir("-srv-second", &[70]),
        dir("-srv-other-none", &[]),
        dir("-srv-latest", &[71]),
    ];
    let projects = scan_with_separator(dirs, '|');
    let shown: Vec<(&str, &str)> =
        projects.iter().map(|p| (p.name.as_str(), p.path.as_str())).collect();
    assert_eq!(
        shown,
        vec![
            ("-srv-latest", "|srv|latest"),
            ("-srv-first", "|srv|first"),
            ("-srv-second", "|srv|second"),
            ("C--work-a", "C:\\work\\a"),
            ("-srv-none", "|srv|none"),
            ("-srv-other-none", "|srv|other|none"),
        ]
    );
    assert_eq!(projects[1].sessions.len(), 2);
    assert_eq!(projects[1].sessions[0].id, "s70");
    assert!(scan_with_separator(vec![], '/').is_empty());
}
