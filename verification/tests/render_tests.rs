use base64::Engine;
use opencode_info::render::{render, render_png_bytes, to_data_url, Canvas, Layout};

fn pixel(buf: &[u8], x: usize, y: usize) -> [u8; 4] {
    let i = (y * 72 + x) * 4;
    [buf[i], buf[i + 1], buf[i + 2], buf[i + 3]]
}

fn decode_png(bytes: &[u8]) -> Vec<u8> {
    let decoder = png::Decoder::new(std::io::Cursor::new(bytes));
    let mut reader = decoder.read_info().unwrap();
    let mut buf = vec![0u8; reader.output_buffer_size().unwrap()];
    let info = reader.next_frame(&mut buf).unwrap();
    assert_eq!(info.width, 72);
    assert_eq!(info.height, 72);
    assert_eq!(info.color_type, png::ColorType::Rgba);
    buf.truncate(info.buffer_size());
    buf
}

#[test]
fn new_canvas_is_dark_grey_and_opaque() {
    let c = Canvas::new();
    assert_eq!(c.buf.len(), 72 * 72 * 4);
    for k in 0..c.buf.len() {
        if k % 4 == 3 {
            assert_eq!(c.buf[k], 255);
        } else {
            assert_eq!(c.buf[k], 25);
        }
    }
}

#[test]
fn fill_rect_sets_only_the_rectangle() {
    let mut c = Canvas::new();
    c.fill_rect(10, 20, 2, 3, (1, 2, 3));
    assert_eq!(pixel(&c.buf, 10, 20), [1, 2, 3, 255]);
    assert_eq!(pixel(&c.buf, 11, 22), [1, 2, 3, 255]);
    assert_eq!(pixel(&c.buf, 12, 20), [25, 25, 25, 255]);
    assert_eq!(pixel(&c.buf, 10, 23), [25, 25, 25, 255]);
    assert_eq!(pixel(&c.buf, 9, 20), [25, 25, 25, 255]);
}

#[test]
fn fill_rect_clips_at_the_edges() {
    let mut c = Canvas::new();
    c.fill_rect(-2, -2, 4, 4, (9, 8, 7));
    c.fill_rect(70, 70, 5, 5, (4, 5, 6));
    assert_eq!(pixel(&c.buf, 0, 0), [9, 8, 7, 255]);
    assert_eq!(pixel(&c.buf, 1, 1), [9, 8, 7, 255]);
    assert_eq!(pixel(&c.buf, 2, 2), [25, 25, 25, 255]);
    assert_eq!(pixel(&c.buf, 71, 71), [4, 5, 6, 255]);
    assert_eq!(pixel(&c.buf, 69, 71), [25, 25, 25, 255]);
}

#[test]
fn fill_rect_with_empty_size_changes_nothing() {
    let mut c = Canvas::new();
    c.fill_rect(5, 5, 0, 10, (1, 1, 1));
    c.fill_rect(5, 5, 10, -3, (1, 1, 1));
    assert_eq!(c.buf, Canvas::new().buf);
}

#[test]
fn draw_text_draws_the_glyph_cells() {
    let mut c = Canvas::new();
    c.draw_text("1", 0, 0, 1, (200, 100, 50));
    // row 0 of '1' is 0x02: only column 3 is lit
    assert_eq!(pixel(&c.buf, 3, 0), [200, 100, 50, 255]);
    assert_eq!(pixel(&c.buf, 2, 0), [25, 25, 25, 255]);
    // row 6 is 0x07: columns 2, 3 and 4
    assert_eq!(pixel(&c.buf, 2, 6), [200, 100, 50, 255]);
    assert_eq!(pixel(&c.buf, 4, 6), [200, 100, 50, 255]);
    assert_eq!(pixel(&c.buf, 1, 6), [25, 25, 25, 255]);
    assert_eq!(pixel(&c.buf, 3, 7), [25, 25, 25, 255]);
}

#[test]
fn draw_text_scales_cells() {
    let mut c = Canvas::new();
    c.draw_text("1", 10, 10, 2, (1, 2, 3));
    // cell (row 0, col 3) covers x 16..18, y 10..12
    assert_eq!(pixel(&c.buf, 16, 10), [1, 2, 3, 255]);
    assert_eq!(pixel(&c.buf, 17, 11), [1, 2, 3, 255]);
    assert_eq!(pixel(&c.buf, 18, 10), [25, 25, 25, 255]);
}

#[test]
fn draw_text_advances_over_space_and_unknown() {
    let mut c = Canvas::new();
    c.draw_text(" x%", 0, 0, 1, (7, 7, 7));
    // '%' is the third character: starts at x = 12; its row 0 is 0x10 (column 0)
    assert_eq!(pixel(&c.buf, 12, 0), [7, 7, 7, 255]);
    for x in 0..12 {
        for y in 0..7 {
            assert_eq!(pixel(&c.buf, x, y), [25, 25, 25, 255]);
        }
    }
}

#[test]
fn text_width_is_six_cells_per_character() {
    assert_eq!(Canvas::text_width("12%", 3), 54);
    assert_eq!(Canvas::text_width("", 3), 0);
    assert_eq!(Canvas::text_width("WK", 2), 24);
    assert_eq!(Canvas::text_width("ab", -1), -12);
}

#[test]
fn layout_constructors_keep_their_values() {
    let l = Layout::single(42, "week");
    assert!(matches!(&l, Layout::Single { percent: 42, window } if window == "week"));
    let s = Layout::summary(Some(1), None, Some(3));
    assert!(matches!(s, Layout::Summary { rolling: Some(1), weekly: None, monthly: Some(3) }));
}

fn expected_single(percent: u8, label: &str, text: &str, tx: i32, bar: (u8, u8, u8), filled: i32) -> Vec<u8> {
    let font = (255, 255, 255);
    let mut c = Canvas::new();
    c.draw_text(label, 4, 4, 2, font);
    c.draw_text(text, tx, 25, 3, font);
    c.fill_rect(6, 62, 60, 8, (45, 45, 45));
    if filled > 0 {
        c.fill_rect(6, 62, filled, 8, bar);
    }
    let _ = percent;
    c.buf
}

#[test]
fn single_image_matches_its_parts() {
    let png = render_png_bytes(&Layout::single(53, "week"), (255, 255, 255), 50, 90);
    let pixels = decode_png(&png);
    // "53%" is 54 pixels wide at scale 3, so it starts at (72 - 54) / 2 = 9;
    // 53% of 60 pixels is 31.8, drawn as 32; 53 is between the thresholds: yellow
    let expected = expected_single(53, "WK", "53%", 9, (235, 195, 30), 32);
    assert_eq!(pixels, expected);
    assert_eq!(pixel(&pixels, 6 + 31, 65), [235, 195, 30, 255]);
    assert_eq!(pixel(&pixels, 6 + 32, 65), [45, 45, 45, 255]);
}

#[test]
fn single_image_empty_and_full_bars() {
    let empty = decode_png(&render_png_bytes(&Layout::single(0, "5h"), (255, 255, 255), 50, 90));
    assert_eq!(empty, expected_single(0, "5H", "0%", 18, (60, 200, 90), 0));
    assert_eq!(pixel(&empty, 6, 62), [45, 45, 45, 255]);
    let full = decode_png(&render_png_bytes(&Layout::single(100, "month"), (255, 255, 255), 50, 90));
    assert_eq!(full, expected_single(100, "MO", "100%", 0, (255, 60, 60), 60));
    assert_eq!(pixel(&full, 65, 69), [255, 60, 60, 255]);
}

#[test]
fn single_image_unknown_window_shows_5h() {
    let a = render_png_bytes(&Layout::single(7, "other"), (255, 255, 255), 50, 90);
    let b = render_png_bytes(&Layout::single(7, "5h"), (255, 255, 255), 50, 90);
    assert_eq!(a, b);
}

#[test]
fn summary_image_matches_its_parts() {
    let font = (10, 20, 30);
    let png = render_png_bytes(&Layout::summary(Some(12), None, Some(100)), font, 50, 90);
    let pixels = decode_png(&png);
    let mut c = Canvas::new();
    let rows: [(&str, u8, i32, (u8, u8, u8)); 3] = [
        ("5H", 12, 5, (60, 200, 90)),
        ("WK", 0, 0, (60, 200, 90)),
        ("MO", 100, 40, (255, 60, 60)),
    ];
    for (i, (label, _pct, filled, colour)) in rows.iter().enumerate() {
        let y = 4 + i as i32 * 22;
        c.draw_text(label, 4, y, 2, font);
        c.fill_rect(28, y + 4, 40, 6, (45, 45, 45));
        if *filled > 0 {
            c.fill_rect(28, y + 4, *filled, 6, *colour);
        }
    }
    assert_eq!(pixels, c.buf);
}

#[test]
fn data_url_is_base64_of_the_bytes() {
    assert_eq!(to_data_url(vec![104, 105]), "data:image/png;base64,aGk=");
    assert_eq!(to_data_url(vec![]), "data:image/png;base64,");
    assert_eq!(to_data_url(vec![0, 0, 0]), "data:image/png;base64,AAAA");
    assert_eq!(to_data_url(vec![255, 254, 253, 1]), "data:image/png;base64,//79AQ==");
}

#[test]
fn render_is_the_data_url_of_the_png() {
    let layout = Layout::single(77, "week");
    let url = render(&layout, (255, 120, 0), 50, 90);
    let prefix = "data:image/png;base64,";
    assert!(url.starts_with(prefix));
    let bytes = base64::engine::general_purpose::STANDARD
        .decode(&url[prefix.len()..])
        .unwrap();
    assert_eq!(bytes, render_png_bytes(&layout, (255, 120, 0), 50, 90));
}
