use session_reader::json::Json;
use session_reader::services::cache::{AppCache, Mtime};
use session_reader::services::search::{search_texts, Matcher, PARALLEL_THRESHOLD};
use session_reader::text::is_blank;
use session_reader::services::transformer::transform_session;

fn s(text: &str) -> Json {
    Json::Str(text.to_string())
}

fn obj(fields: Vec<(&str, Json)>) -> Json {
    Json::Obj(fields.into_iter().map(|(k, v)| (k.to_string(), v)).collect())
}

fn cache_with(key: &str, texts: &[&str]) -> AppCache {
    let records: Vec<Json> = texts
        .iter()
        .enumerate()
        .map(|(i, t)| {
            obj(vec![
                ("type", s("user")),
                ("uuid", s(&format!("id-{i}"))),
                ("message", obj(vec![("content", s(t))])),
            ])
        })
        .collect();
    let (session, lower, original) = transform_session(&records);
    let mut cache = AppCache::new();
    cache.set_session(key, session, lower, original, Mtime { before_epoch: false, secs: 1, nanos: 0 }, 1);
    cache
}

fn found(ids: &[&str]) -> Result<Option<Vec<String>>, String> {
    Ok(Some(ids.iter().map(|i| i.to_string()).collect()))
}

#[test]
fn literal_search_ignoring_case() {
    let cache = cache_with("/a", &["hello world", "other"]);
    assert_eq!(cache.search_in_cache("/a", "HELLO", false, false), found(&["id-0"]));
    assert_eq!(cache.search_in_cache("/a", "HELLO", true, false), found(&[]));
    assert_eq!(cache.search_in_cache("/a", "hello", true, false), found(&["id-0"]));
}

#[test]
fn invalid_pattern_is_an_error() {
    let cache = cache_with("/a", &["hello world"]);
    let r = cache.search_in_cache("/a", "(unclosed", true, true);
    let message = r.expect_err("a pattern that does not compile");
    assert!(message.starts_with("无效正则表达式: "));
    assert!(message.len() > "无效正则表达式: ".len());
    assert!(cache.search_in_cache("/a", "(unclosed", false, true).is_err());
    assert_eq!(cache.search_in_cache("/a", "(unclosed", true, false), found(&[]));
    assert_eq!(cache.search_in_cache("/a", "(unclosed", false, false), found(&[]));
}

#[test]
fn the_four_modes() {
    let cache = cache_with("/a", &["Alpha BETA", "alpha beta", "gamma", "a.c", "abc"]);
    assert_eq!(cache.search_in_cache("/a", "alpha", false, true), found(&["id-0", "id-1"]));
    assert_eq!(cache.search_in_cache("/a", "alpha", true, true), found(&["id-1"]));
    assert_eq!(cache.search_in_cache("/a", "^[A-Z]lpha", true, true), found(&["id-0"]));
    assert_eq!(cache.search_in_cache("/a", "BETA", true, false), found(&["id-0"]));
    assert_eq!(cache.search_in_cache("/a", "BeTa", false, false), found(&["id-0", "id-1"]));
    assert_eq!(cache.search_in_cache("/a", "a.c", true, true), found(&["id-3", "id-4"]));
    assert_eq!(cache.search_in_cache("/a", "a.c", true, false), found(&["id-3"]));
    assert_eq!(cache.search_in_cache("/a", "A.C", false, false), found(&["id-3"]));
    assert_eq!(cache.search_in_cache("/a", "A.C", false, true), found(&["id-3", "id-4"]));
}

#[test]
fn query_in_any_case_finds_the_same() {
    let cache = cache_with("/a", &["Straße", "STRASSE", "strasse", "ÄRGER", "ärger"]);
    for query in ["Ärger", "ÄRGER", "ärger", "StRaSsE"] {
        assert_eq!(
            cache.search_in_cache("/a", query, false, false),
            cache.search_in_cache("/a", &query.to_lowercase(), false, false),
        );
    }
    assert_eq!(cache.search_in_cache("/a", "ÄRGER", false, false), found(&["id-3", "id-4"]));
    assert_eq!(cache.search_in_cache("/a", "STRASSE", false, false), found(&["id-1", "id-2"]));
}

#[test]
fn session_that_is_not_held() {
    let cache = cache_with("/a", &["x"]);
    assert_eq!(cache.search_in_cache("/b", "x", false, false), Ok(None));
    assert_eq!(cache.search_in_cache("/b", "(unclosed", true, true), Ok(None));
}

#[test]
fn empty_query_finds_nothing() {
    let cache = cache_with("/a", &["a b", " "]);
    for (case_sensitive, use_regex) in [(false, false), (false, true), (true, false), (true, true)] {
        assert_eq!(cache.search_in_cache("/a", "", case_sensitive, use_regex), found(&[]));
        assert_eq!(cache.search_in_cache("/missing", "", case_sensitive, use_regex), found(&[]));
    }
}

#[test]
fn query_of_white_space_is_searched() {
    let cache = cache_with("/a", &["a b", " ", "ab", "a\tb"]);
    assert_eq!(cache.search_in_cache("/a", " ", false, false), found(&["id-0", "id-1"]));
    assert_eq!(cache.search_in_cache("/a", " ", true, false), found(&["id-0", "id-1"]));
    assert_eq!(cache.search_in_cache("/a", "\t", true, false), found(&["id-3"]));
    assert_eq!(cache.search_in_cache("/a", " ", true, true), found(&["id-0", "id-1"]));
    assert_eq!(cache.search_in_cache("/a", " b", true, false), found(&["id-0"]));
    assert_eq!(cache.search_in_cache("/missing", " ", false, false), Ok(None));
    assert_eq!(cache.search_in_cache("/missing", " \t\n", true, true), Ok(None));
    assert!(is_blank(""));
    assert!(is_blank(" \u{3000}\r\n"));
    assert!(!is_blank(" x "));
}

#[test]
fn worker_pool_finds_what_the_loop_finds() {
    let texts: Vec<String> = (0..3 * PARALLEL_THRESHOLD).map(|i| format!("Line {i} of it")).collect();
    let refs: Vec<&str> = texts.iter().map(|t| t.as_str()).collect();
    let cache = cache_with("/big", &refs);
    let small = cache_with("/small", &refs[..PARALLEL_THRESHOLD - 1]);
    let all = cache.search_in_cache("/big", "line 1", false, false).unwrap().unwrap();
    let expected: Vec<String> = (0..3 * PARALLEL_THRESHOLD)
        .filter(|i| i.to_string().starts_with('1'))
        .map(|i| format!("id-{i}"))
        .collect();
    assert_eq!(all, expected);
    let few = small.search_in_cache("/small", "line 1", false, false).unwrap().unwrap();
    let expected_few: Vec<String> = (0..PARALLEL_THRESHOLD - 1)
        .filter(|i| i.to_string().starts_with('1'))
        .map(|i| format!("id-{i}"))
        .collect();
    assert_eq!(few, expected_few);
    let by_pattern = cache.search_in_cache("/big", r"Line \d{3} ", true, true).unwrap().unwrap();
    assert_eq!(by_pattern.len(), 3 * PARALLEL_THRESHOLD - 100);
    assert_eq!(by_pattern[0], "id-100");
}

#[test]
fn matcher_on_given_texts() {
    let records = vec![obj(vec![
        ("type", s("user")),
        ("uuid", s("only")),
        ("message", obj(vec![("content", s("x"))])),
    ])];
    let (session, _, _) = transform_session(&records);
    let matcher = Matcher::new("né", true, false).unwrap();
    assert!(matcher.is_hit(&"café né".to_string()));
    assert!(!matcher.is_hit(&"cafe ne".to_string()));
    assert!(matcher.is_hit(&"né".to_string()));
    let texts = vec!["donné".to_string()];
    assert_eq!(search_texts(&session.display_messages, &texts, &matcher), vec!["only"]);
    let none: Vec<String> = Vec::new();
    assert!(search_texts(&session.display_messages, &none, &matcher).is_empty());
    assert!(Matcher::new("[", false, true).is_err());
    assert!(Matcher::new("[", false, false).is_ok());
}
