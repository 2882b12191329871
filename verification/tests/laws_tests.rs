use opencode_info::render::{
    bar_color, font_get, label_for_window, percent_text, render_png_bytes, Canvas, Layout,
};

fn pixel(buf: &[u8], x: usize, y: usize) -> [u8; 4] {
    let i = (y * 72 + x) * 4;
    [buf[i], buf[i + 1], buf[i + 2], buf[i + 3]]
}

#[test]
fn drawing_a_concatenation_is_drawing_the_parts_side_by_side() {
    for (a, b, x, scale) in [("1", "2%", 3, 2), ("5", "3%", 0, 3), ("W", "K", -4, 1), ("", "MO", 7, 2)] {
        let mut whole = Canvas::new();
        let text = format!("{}{}", a, b);
        whole.draw_text(&text, x, 5, scale, (9, 99, 199));
        let mut parts = Canvas::new();
        parts.draw_text(a, x, 5, scale, (9, 99, 199));
        parts.draw_text(b, x + Canvas::text_width(a, scale), 5, scale, (9, 99, 199));
        assert_eq!(whole.buf, parts.buf);
    }
}

#[test]
fn every_label_character_has_a_glyph() {
    let mut texts: Vec<String> = vec!["5H".to_string(), "WK".to_string(), "MO".to_string()];
    for p in [0u8, 7, 42, 100, 255] {
        texts.push(format!("{}%", p));
    }
    for t in texts {
        let mut c = Canvas::new();
        c.draw_text(&t, 0, 0, 1, (1, 1, 1));
        for i in 0..t.chars().count() {
            let mut lit = false;
            for x in 6 * i..6 * i + 5 {
                for y in 0..7 {
                    if pixel(&c.buf, x, y) == [1, 1, 1, 255] {
                        lit = true;
                    }
                }
            }
            assert!(lit, "character {} of {:?} drew nothing", i, t);
        }
    }
}

fn severity(c: [u8; 4]) -> u8 {
    match c {
        [255, 60, 60, 255] => 2,
        [235, 195, 30, 255] => 1,
        [60, 200, 90, 255] => 0,
        other => panic!("not a bar colour: {:?}", other),
    }
}

#[test]
fn bar_colour_never_gets_milder() {
    let decode = |bytes: Vec<u8>| {
        let mut reader = png::Decoder::new(std::io::Cursor::new(bytes)).read_info().unwrap();
        let mut buf = vec![0u8; reader.output_buffer_size().unwrap()];
        reader.next_frame(&mut buf).unwrap();
        buf
    };
    let mut last = 0;
    let mut ps: Vec<u8> = (1u8..=100).step_by(7).chain([49, 50, 89, 90, 100]).collect();
    ps.sort();
    for p in ps {
        let img = decode(render_png_bytes(&Layout::single(p, "5h"), (255, 255, 255), 50, 90));
        let s = severity(pixel(&img, 6, 62));
        let expected = if p >= 90 { 2 } else if p >= 50 { 1 } else { 0 };
        assert_eq!(s, expected);
        assert!(s >= last);
        last = s;
    }
}

#[test]
fn font_covers_every_label_and_percentage() {
    for w in ["5h", "week", "month", "other", ""] {
        for ch in label_for_window(w).chars() {
            assert!(font_get(ch).is_some());
        }
    }
    for p in 0u8..=255 {
        let t = percent_text(p);
        assert_eq!(t, format!("{}%", p));
        for ch in t.chars() {
            assert!(font_get(ch).is_some());
        }
    }
    assert!(font_get(' ').is_none());
    assert!(font_get('x').is_none());
    assert_eq!(font_get('1').unwrap().0, [0x02, 0x06, 0x02, 0x02, 0x02, 0x02, 0x07]);
}

#[test]
fn bar_color_by_thresholds() {
    let sev = |c: (u8, u8, u8)| match c {
        (255, 60, 60) => 2,
        (235, 195, 30) => 1,
        (60, 200, 90) => 0,
        _ => panic!(),
    };
    for (yellow, red) in [(50u8, 90u8), (0, 0), (10, 10), (1, 255)] {
        let mut last = 0;
        for p in 0u8..=255 {
            let s = sev(bar_color(p, yellow, red));
            assert!(s >= last);
            assert_eq!(s, if p >= red { 2 } else if p >= yellow { 1 } else { 0 });
            last = s;
        }
    }
}

#[test]
fn labels_for_windows() {
    assert_eq!(label_for_window("week"), "WK");
    assert_eq!(label_for_window("month"), "MO");
    assert_eq!(label_for_window("5h"), "5H");
    assert_eq!(label_for_window("Week"), "5H");
}
