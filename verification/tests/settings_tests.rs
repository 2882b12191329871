use opencode_info::settings::{parse_hex, Settings};

#[test]
fn parse_hex_reads_six_digits() {
    assert_eq!(parse_hex("#FF8000"), Some((255, 128, 0)));
    assert_eq!(parse_hex("ff8000"), Some((255, 128, 0)));
    assert_eq!(parse_hex("#a0B1c2"), Some((0xa0, 0xb1, 0xc2)));
}

#[test]
fn parse_hex_skips_whitespace_and_hashes() {
    assert_eq!(parse_hex("  #00ff00\n"), Some((0, 255, 0)));
    assert_eq!(parse_hex("##0000ff"), Some((0, 0, 255)));
    assert_eq!(parse_hex("\u{3000}123456\t"), Some((0x12, 0x34, 0x56)));
}

#[test]
fn parse_hex_accepts_plus_signs_like_from_str_radix() {
    assert_eq!(parse_hex("#+f+f+f"), Some((15, 15, 15)));
}

#[test]
fn parse_hex_rejects_bad_input() {
    assert_eq!(parse_hex(""), None);
    assert_eq!(parse_hex("#"), None);
    assert_eq!(parse_hex("#12345"), None);
    assert_eq!(parse_hex("#1234567"), None);
    assert_eq!(parse_hex("#GG0000"), None);
    assert_eq!(parse_hex("# 123456"), None);
    assert_eq!(parse_hex("#-12345"), None);
    assert_eq!(parse_hex("#++0000"), None);
    assert_eq!(parse_hex("éé12"), None);
}

#[test]
fn settings_default_values() {
    let s = Settings::default();
    assert_eq!(s.api_key, "");
    assert_eq!(s.window, "5h");
    assert_eq!(s.refresh_seconds, 300);
    assert_eq!(s.font_color, "#FFFFFF");
    assert_eq!(s.threshold_yellow, 50);
    assert_eq!(s.threshold_red, 90);
}

#[test]
fn zero_settings_fall_back_to_defaults() {
    let mut s = Settings::default();
    s.refresh_seconds = 0;
    s.threshold_yellow = 0;
    s.threshold_red = 0;
    assert_eq!(s.refresh_seconds(), 300);
    assert_eq!(s.threshold_yellow(), 50);
    assert_eq!(s.threshold_red(), 90);
    s.refresh_seconds = 5;
    s.threshold_yellow = 10;
    s.threshold_red = 20;
    assert_eq!(s.refresh_seconds(), 5);
    assert_eq!(s.threshold_yellow(), 10);
    assert_eq!(s.threshold_red(), 20);
}

#[test]
fn font_rgb_parses_or_falls_back_to_white() {
    let mut s = Settings::default();
    assert_eq!(s.font_rgb(), (255, 255, 255));
    s.font_color = "#102030".to_string();
    assert_eq!(s.font_rgb(), (16, 32, 48));
    s.font_color = "red".to_string();
    assert_eq!(s.font_rgb(), (255, 255, 255));
}

#[test]
fn settings_clone_is_equal() {
    let mut s = Settings::default();
    s.api_key = "SECRET-REDACTED".to_string();
    let t = s.clone();
    assert_eq!(t.api_key, s.api_key);
    assert_eq!(t.window, s.window);
    assert_eq!(t.font_color, s.font_color);
}
