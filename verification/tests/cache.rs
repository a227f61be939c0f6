use session_reader::json::Json;
use session_reader::models::display::TransformedSession;
use session_reader::models::project::Project;
use session_reader::services::cache::{AppCache, Mtime, SessionCache, SESSION_CACHE_MAX_ENTRIES};
use session_reader::services::file_guard::TempBackupEntry;
use session_reader::services::transformer::transform_session;

fn s(text: &str) -> Json {
    Json::Str(text.to_string())
}

fn obj(fields: Vec<(&str, Json)>) -> Json {
    Json::Obj(fields.into_iter().map(|(k, v)| (k.to_string(), v)).collect())
}

fn session_of(texts: &[&str]) -> (TransformedSession, Vec<String>, Vec<String>) {
    let records: Vec<Json> = texts
        .iter()
        .enumerate()
        .map(|(i, t)| {
            obj(vec![
                ("type", s("user")),
                ("uuid", s(&format!("id-{i}"))),
                ("message", obj(vec![("content", s(t))])),
            ])
        })
        .collect();
    transform_session(&records)
}

fn mtime(secs: u64) -> Mtime {
    Mtime { before_epoch: false, secs, nanos: 0 }
}

fn put(cache: &mut AppCache, key: &str, texts: &[&str], m: Mtime, now: u64) {
    let (session, lower, original) = session_of(texts);
    cache.set_session(key, session, lower, original, m, now);
}

fn ids(session: &TransformedSession) -> Vec<String> {
    session.display_messages.iter().map(|u| u.display_id.clone()).collect()
}

#[test]
fn get_after_put_returns_the_session() {
    let mut cache = AppCache::new();
    put(&mut cache, "/a", &["one", "two"], mtime(10), 1);
    let hit = cache.get_session("/a", Some(mtime(10)), 2).expect("held");
    assert_eq!(ids(&hit), vec!["id-0", "id-1"]);
    assert_eq!(hit.display_messages, session_of(&["one", "two"]).0.display_messages);
    assert!(cache.get_session("/b", Some(mtime(10)), 3).is_none());
    assert!(cache.get_session("/a", Some(mtime(10)), 4).is_some());
}

#[test]
fn changed_file_drops_the_entry() {
    let mut cache = AppCache::new();
    put(&mut cache, "/a", &["one"], mtime(10), 1);
    assert!(cache.get_session("/a", Some(mtime(11)), 2).is_none());
    assert_eq!(cache.sessions.len(), 0);
    assert!(cache.get_session("/a", Some(mtime(10)), 3).is_none());
    put(&mut cache, "/a", &["one"], mtime(10), 4);
    let other = Mtime { before_epoch: true, secs: 10, nanos: 0 };
    assert!(cache.get_session("/a", Some(other), 5).is_none());
    assert_eq!(cache.sessions.len(), 0);
}

#[test]
fn unreadable_file_time_keeps_the_entry() {
    let mut cache = AppCache::new();
    put(&mut cache, "/a", &["one"], mtime(10), 1);
    assert!(cache.get_session("/a", None, 2).is_none());
    assert_eq!(cache.sessions.len(), 1);
    assert!(cache.get_session("/a", Some(mtime(10)), 3).is_some());
}

#[test]
fn put_replaces_the_entry_of_a_path() {
    let mut cache = AppCache::new();
    put(&mut cache, "/a", &["one"], mtime(10), 1);
    put(&mut cache, "/a", &["one", "two", "three"], mtime(12), 2);
    assert_eq!(cache.sessions.len(), 1);
    assert!(cache.get_session("/a", Some(mtime(10)), 3).is_none());
    put(&mut cache, "/a", &["x", "y"], mtime(12), 4);
    assert_eq!(cache.get_session("/a", Some(mtime(12)), 5).map(|s| s.display_messages.len()), Some(2));
}

#[test]
fn full_cache_drops_the_entry_read_longest_ago() {
    let mut cache = AppCache::new();
    for i in 0..SESSION_CACHE_MAX_ENTRIES {
        put(&mut cache, &format!("/f{i}"), &["x"], mtime(1), 100 + i as u64);
    }
    assert_eq!(cache.sessions.len(), SESSION_CACHE_MAX_ENTRIES);
    assert!(cache.get_session("/f0", Some(mtime(1)), 500).is_some());
    put(&mut cache, "/new", &["x"], mtime(1), 501);
    assert_eq!(cache.sessions.len(), SESSION_CACHE_MAX_ENTRIES);
    assert!(cache.sessions.contains("/f0"));
    assert!(!cache.sessions.contains("/f1"));
    assert!(cache.sessions.contains("/f2"));
    assert!(cache.sessions.contains("/new"));
    put(&mut cache, "/f2", &["y"], mtime(1), 502);
    assert_eq!(cache.sessions.len(), SESSION_CACHE_MAX_ENTRIES);
    assert!(cache.sessions.contains("/f3"));
    put(&mut cache, "/next", &["x"], mtime(1), 503);
    assert!(!cache.sessions.contains("/f3"));
    assert!(cache.sessions.contains("/f2"));
}

#[test]
fn equally_old_entries_leave_in_the_order_of_their_coming() {
    let mut cache = SessionCache::new();
    for i in 0..SESSION_CACHE_MAX_ENTRIES {
        let (session, lower, original) = session_of(&["x"]);
        cache.put(&format!("/f{i}"), session, lower, original, mtime(1), 7);
    }
    let (session, lower, original) = session_of(&["x"]);
    cache.put("/new", session, lower, original, mtime(1), 7);
    assert!(!cache.contains("/f0"));
    assert!(cache.contains("/f1"));
    let (session, lower, original) = session_of(&["x"]);
    cache.put("/newer", session, lower, original, mtime(1), 7);
    assert!(!cache.contains("/f1"));
    assert!(cache.contains("/new"));
}

#[test]
fn invalidate_removes_one_session() {
    let mut cache = AppCache::new();
    put(&mut cache, "/a", &["one"], mtime(10), 1);
    put(&mut cache, "/b", &["two"], mtime(10), 1);
    cache.invalidate_session("/a");
    cache.invalidate_session("/missing");
    assert!(cache.get_session("/a", Some(mtime(10)), 2).is_none());
    assert!(cache.get_session("/b", Some(mtime(10)), 2).is_some());
}

fn project(name: &str) -> Project {
    Project { name: name.to_string(), path: format!("/{name}"), sessions: vec![] }
}

#[test]
fn project_list_is_valid_for_thirty_seconds() {
    let mut cache = AppCache::default();
    assert!(cache.get_projects(0).is_none());
    cache.set_projects(vec![project("a"), project("b")], 5_000);
    assert_eq!(cache.get_projects(5_000), Some(vec![project("a"), project("b")]));
    assert_eq!(cache.get_projects(35_000).map(|p| p.len()), Some(2));
    assert!(cache.get_projects(35_001).is_none());
    assert!(cache.get_projects(35_999).is_none());
    assert!(cache.get_projects(36_000).is_none());
    assert_eq!(cache.get_projects(4_000).map(|p| p.len()), Some(2));
    cache.set_projects(vec![project("c")], 40_000);
    assert_eq!(cache.get_projects(41_000), Some(vec![project("c")]));
    cache.invalidate_projects();
    assert!(cache.get_projects(41_000).is_none());
}

#[test]
fn temp_backups_are_listed_in_order() {
    let mut cache = AppCache::new();
    let entry = |n: &str| TempBackupEntry {
        original_path: format!("/orig/{n}"),
        temp_path: format!("/tmp/{n}"),
        created_at: "1".to_string(),
        operation: "edit_message".to_string(),
    };
    assert!(cache.get_all_temp_backups().is_empty());
    cache.register_temp_backup(entry("a"));
    cache.register_temp_backup(entry("b"));
    assert_eq!(cache.get_all_temp_backups(), vec![entry("a"), entry("b")]);
}
