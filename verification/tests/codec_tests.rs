use apphub::app_info::AppInfo;
use apphub::cache::AppCache;
use apphub::cachefile::{parse_cache_file, render_cache_file};
use apphub::category::Category;

fn app(name: &str, path: &str, category: Category, icon: Option<&str>) -> AppInfo {
    AppInfo {
        name: name.to_string(),
        path: path.to_string(),
        category,
        icon: icon.map(|s| s.to_string()),
    }
}

fn assert_round_trip(cache: &AppCache) {
    let text = render_cache_file(cache);
    let back = parse_cache_file(&text).expect("own rendering must parse");
    assert_eq!(back.timestamp, cache.timestamp);
    assert_eq!(back.apps.len(), cache.apps.len());
    for i in 0..cache.apps.len() {
        assert!(back.apps[i] == cache.apps[i]);
    }
}

#[test]
fn render_matches_expected_text_exactly() {
    let cache = AppCache {
        apps: vec![app("A", "C:\\x", Category::Other, None)],
        timestamp: 42,
    };
    assert_eq!(
        render_cache_file(&cache),
        "{\"apps\":[{\"name\":\"A\",\"path\":\"C:\\\\x\",\"category\":\"Other\",\"icon\":null}],\"timestamp\":42}"
    );
}

#[test]
fn render_of_empty_snapshot() {
    let cache = AppCache { apps: vec![], timestamp: 0 };
    assert_eq!(render_cache_file(&cache), "{\"apps\":[],\"timestamp\":0}");
}

#[test]
fn round_trip_empty() {
    assert_round_trip(&AppCache { apps: vec![], timestamp: 123456789 });
}

#[test]
fn round_trip_several_records() {
    assert_round_trip(&AppCache {
        apps: vec![
            app("Counter-Strike", "C:\\Steam\\cs.exe", Category::Games, None),
            app("Example", "https://example.com/", Category::Web, Some("data:image/png;base64,AAAA")),
            app("CLion", "C:\\JetBrains\\clion.exe", Category::Development, None),
        ],
        timestamp: 1_700_000_000,
    });
}

#[test]
fn round_trip_escaped_characters() {
    assert_round_trip(&AppCache {
        apps: vec![app("Quote\" Back\\slash", "C:\\a\tb\u{1}", Category::Utilities, None)],
        timestamp: u64::MAX,
    });
}

#[test]
fn round_trip_all_categories() {
    let cats = [
        Category::Games,
        Category::Development,
        Category::Media,
        Category::Utilities,
        Category::Web,
        Category::Other,
    ];
    let apps: Vec<AppInfo> =
        cats.iter().map(|c| app("n", "p", *c, None)).collect();
    assert_round_trip(&AppCache { apps, timestamp: 7 });
}

#[test]
fn rendered_snapshot_is_real_json() {
    let cache = AppCache {
        apps: vec![app("Quote\" Back\\slash", "C:\\Steam\\cs.exe", Category::Games, Some("data:x"))],
        timestamp: 99,
    };
    let text = render_cache_file(&cache);
    let v: serde_json::Value = serde_json::from_str(&text).expect("writer must emit valid JSON");
    assert_eq!(v["timestamp"], serde_json::Value::from(99u64));
    assert_eq!(v["apps"][0]["name"], serde_json::Value::from("Quote\" Back\\slash"));
    assert_eq!(v["apps"][0]["category"], serde_json::Value::from("Games"));
}

#[test]
fn malformed_input_is_a_miss() {
    assert!(parse_cache_file("").is_none());
    assert!(parse_cache_file("{}").is_none());
    assert!(parse_cache_file("not json at all").is_none());
    assert!(parse_cache_file("{\"apps\":[],\"timestamp\":").is_none());
    assert!(parse_cache_file("{\"apps\":[],\"timestamp\":12}trailing").is_none());
}

#[test]
fn unknown_category_is_a_miss() {
    let text = "{\"apps\":[{\"name\":\"A\",\"path\":\"p\",\"category\":\"Arcade\",\"icon\":null}],\"timestamp\":1}";
    assert!(parse_cache_file(text).is_none());
}

#[test]
fn overlong_timestamp_is_a_miss() {
    // one more than u64::MAX
    let text = "{\"apps\":[],\"timestamp\":18446744073709551616}";
    assert!(parse_cache_file(text).is_none());
}

#[test]
fn max_timestamp_still_parses() {
    let text = "{\"apps\":[],\"timestamp\":18446744073709551615}";
    let c = parse_cache_file(text).expect("u64::MAX fits");
    assert_eq!(c.timestamp, u64::MAX);
}
