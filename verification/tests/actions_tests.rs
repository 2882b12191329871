use opencode_info::actions::{next_window_index, should_fetch, single_frame, summary_frame, window_at, Refresh};
use opencode_info::cli::{cli_mode, Mode};
use opencode_info::render::Layout;
use opencode_info::settings::Settings;
use opencode_info::usage::{UsageData, Window};

fn usage() -> UsageData {
    let w = |p| Window { status: "ok".to_string(), percent: p, resets_at: None };
    UsageData { rolling: Some(w(10)), weekly: Some(w(20)), monthly: None }
}

#[test]
fn rotation_goes_through_the_three_windows() {
    assert_eq!(window_at(0), "5h");
    assert_eq!(window_at(1), "week");
    assert_eq!(window_at(2), "month");
    assert_eq!(window_at(3), "5h");
    let mut i = 0;
    let mut seen = Vec::new();
    for _ in 0..4 {
        i = next_window_index(i);
        seen.push(window_at(i));
    }
    assert_eq!(seen, vec!["week", "month", "5h", "week"]);
}

#[test]
fn fetch_only_with_a_key() {
    let mut s = Settings::default();
    assert!(!should_fetch(&s));
    s.api_key = "k".to_string();
    assert!(should_fetch(&s));
}

#[test]
fn single_frame_after_each_refresh() {
    let mut s = Settings::default();
    s.font_color = "#010203".to_string();
    let f = single_frame(&s, "week", &Refresh::Fetched(usage()));
    assert!(matches!(&f.layout, Layout::Single { percent: 20, window } if window == "week"));
    assert_eq!(f.font, (1, 2, 3));
    assert_eq!((f.yellow, f.red), (50, 90));
    let f = single_frame(&s, "month", &Refresh::Fetched(usage()));
    assert!(matches!(&f.layout, Layout::Single { percent: 0, window } if window == "month"));
    let f = single_frame(&s, "5h", &Refresh::NoApiKey);
    assert!(matches!(&f.layout, Layout::Single { percent: 0, .. }));
    assert_eq!(f.font, (255, 255, 255));
    let f = single_frame(&s, "5h", &Refresh::Failed);
    assert!(matches!(&f.layout, Layout::Single { percent: 0, .. }));
    assert_eq!(f.font, (255, 60, 60));
}

#[test]
fn summary_frame_after_each_refresh() {
    let mut s = Settings::default();
    s.threshold_yellow = 30;
    let f = summary_frame(&s, &Refresh::Fetched(usage()));
    assert!(matches!(f.layout, Layout::Summary { rolling: Some(10), weekly: Some(20), monthly: None }));
    assert_eq!(f.font, (255, 255, 255));
    assert_eq!((f.yellow, f.red), (30, 90));
    let f = summary_frame(&s, &Refresh::Failed);
    assert!(matches!(f.layout, Layout::Summary { rolling: None, weekly: None, monthly: None }));
    assert_eq!(f.font, (255, 60, 60));
}

fn args(a: &[&str]) -> Vec<String> {
    a.iter().map(|s| s.to_string()).collect()
}

#[test]
fn cli_modes() {
    assert!(matches!(cli_mode(&args(&["prog", "--api-key", "abc"])), Mode::PrintUsage(k) if k == "abc"));
    assert!(matches!(cli_mode(&args(&["prog", "--api-key"])), Mode::MissingApiKey));
    assert!(matches!(cli_mode(&args(&["prog", "--api-key", ""])), Mode::MissingApiKey));
    assert!(matches!(cli_mode(&args(&["prog", "--debug-png", "out"])), Mode::DebugPng(d) if d == "out"));
    assert!(matches!(cli_mode(&args(&["prog", "--debug-png"])), Mode::DebugPng(d) if d == "."));
    assert!(matches!(cli_mode(&args(&["prog"])), Mode::Help));
    assert!(matches!(cli_mode(&args(&["prog", "-port", "1234"])), Mode::Plugin));
    assert!(matches!(
        cli_mode(&args(&["prog", "-port", "1", "--debug-png", "d", "--api-key", "k"])),
        Mode::PrintUsage(k) if k == "k"
    ));
}
