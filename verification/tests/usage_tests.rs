use opencode_info::state::{get, store};
use opencode_info::usage::{http_status_problem, percent_by_name, UsageData, Window};

fn window(p: u8) -> Window {
    Window { status: "ok".to_string(), percent: p, resets_at: Some("soon".to_string()) }
}

fn usage() -> UsageData {
    UsageData { rolling: Some(window(12)), weekly: None, monthly: Some(window(99)) }
}

#[test]
fn percent_by_name_picks_the_window() {
    let u = usage();
    assert_eq!(percent_by_name(&u, "5h"), Some(12));
    assert_eq!(percent_by_name(&u, "week"), None);
    assert_eq!(percent_by_name(&u, "month"), Some(99));
    assert_eq!(percent_by_name(&u, "year"), None);
    assert_eq!(percent_by_name(&u, "5H"), None);
}

#[test]
fn cache_reads_back_the_last_store() {
    let mut cache: Option<UsageData> = None;
    assert!(get(&cache).is_none());
    store(&mut cache, usage());
    let got = get(&cache).unwrap();
    assert_eq!(got.rolling.as_ref().map(|w| w.percent), Some(12));
    assert!(got.weekly.is_none());
    store(&mut cache, UsageData { rolling: None, weekly: Some(window(5)), monthly: None });
    let got = get(&cache).unwrap();
    assert!(got.rolling.is_none());
    assert_eq!(got.weekly.as_ref().map(|w| w.percent), Some(5));
    assert_eq!(got.weekly.as_ref().map(|w| w.status.clone()), Some("ok".to_string()));
}

#[test]
fn status_problems() {
    assert_eq!(http_status_problem(200), None);
    assert_eq!(http_status_problem(204), None);
    assert_eq!(http_status_problem(401), Some("invalid or missing API key"));
    assert_eq!(http_status_problem(403), Some("no Go subscription on this key"));
    assert_eq!(http_status_problem(429), Some("rate limited"));
    assert_eq!(http_status_problem(500), Some("unexpected response"));
    assert_eq!(http_status_problem(302), Some("unexpected response"));
}
