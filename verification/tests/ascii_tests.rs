use rust_fun_apps::ascii_art::{render_ascii_frame, render_ascii_line};
use rust_fun_apps::pixels::{Rgb, RgbFrame};
use rust_fun_apps::text::{push_color_escape, push_decimal, push_reset_escape};

fn frame_of(width: u32, height: u32, pixels: &[(u8, u8, u8)]) -> RgbFrame {
    let mut data = Vec::new();
    for &(r, g, b) in pixels {
        data.extend_from_slice(&[r, g, b]);
    }
    RgbFrame::from_raw(width, height, data).unwrap()
}

/// Drops every escape sequence (ESC up to and including the next `m`).
fn strip_escapes(s: &str) -> String {
    let mut out = String::new();
    let mut in_escape = false;
    for c in s.chars() {
        if in_escape {
            if c == 'm' {
                in_escape = false;
            }
        } else if c == '\x1b' {
            in_escape = true;
        } else {
            out.push(c);
        }
    }
    out
}

#[test]
fn decimal_digits() {
    for (n, text) in [(0u8, "0"), (7, "7"), (10, "10"), (99, "99"), (100, "100"), (255, "255")] {
        let mut s = String::from("x");
        push_decimal(&mut s, n);
        assert_eq!(s, format!("x{}", text));
    }
}

#[test]
fn escapes() {
    let mut s = String::new();
    push_color_escape(&mut s, Rgb { r: 255, g: 0, b: 38 });
    assert_eq!(s, "\x1b[38;2;255;0;38m");
    let mut t = String::new();
    push_reset_escape(&mut t);
    assert_eq!(t, "\x1b[0m");
}

#[test]
fn mono_line_uses_ramp() {
    let img = frame_of(3, 1, &[(0, 0, 0), (128, 128, 128), (255, 255, 255)]);
    let ramp = [' ', '.', '#'];
    let levels = [0usize, 1, 2];
    assert_eq!(render_ascii_line(&img, &levels, 0, 3, &ramp, true), " .#");
    // Levels past the ramp use its last character; a narrower width stops early.
    let levels = [5usize, 0, 9];
    assert_eq!(render_ascii_line(&img, &levels, 0, 3, &ramp, true), "# #");
    assert_eq!(render_ascii_line(&img, &levels, 0, 2, &ramp, true), "# ");
    assert_eq!(render_ascii_line(&img, &levels, 0, 0, &ramp, true), "");
}

#[test]
fn color_line_groups_runs() {
    let img = frame_of(4, 1, &[(1, 2, 3), (1, 2, 3), (200, 0, 0), (1, 2, 3)]);
    let ramp = ['a', 'b'];
    let levels = [0usize, 1, 0, 1];
    let line = render_ascii_line(&img, &levels, 0, 4, &ramp, false);
    assert_eq!(
        line,
        "\x1b[38;2;1;2;3mab\x1b[38;2;200;0;0ma\x1b[38;2;1;2;3mb\x1b[0m"
    );
    assert_eq!(render_ascii_line(&img, &levels, 0, 0, &ramp, false), "");
}

#[test]
fn color_shows_mono_text() {
    let img = frame_of(
        3,
        2,
        &[(9, 9, 9), (9, 9, 9), (10, 20, 30), (0, 0, 0), (255, 255, 255), (255, 255, 255)],
    );
    let ramp = [' ', '.', ':', '-', '=', '+', '*', '#', '%', '@'];
    let levels = [0usize, 3, 9, 12, 4, 4];
    for y in 0..2 {
        let color = render_ascii_line(&img, &levels, y, 3, &ramp, false);
        let mono = render_ascii_line(&img, &levels, y, 3, &ramp, true);
        assert_eq!(strip_escapes(&color), mono);
        assert_eq!(mono.chars().count(), 3);
    }
}

#[test]
fn frame_rows() {
    let img = frame_of(2, 3, &[(0, 0, 0); 6]);
    let ramp = ['x', 'y'];
    let levels = [0usize, 1, 1, 0, 0, 0];
    let lines = render_ascii_frame(&img, &levels, 2, 3, &ramp, true);
    assert_eq!(lines, vec!["xy".to_string(), "yx".to_string(), "xx".to_string()]);
    let top = render_ascii_frame(&img, &levels, 2, 1, &ramp, false);
    assert_eq!(top, vec!["\x1b[38;2;0;0;0mxy\x1b[0m".to_string()]);
}

#[test]
fn zero_width_needs_no_ramp() {
    let empty = RgbFrame::from_raw(0, 0, vec![]).unwrap();
    assert_eq!(render_ascii_line(&empty, &[], 0, 0, &[], false), "");
    assert_eq!(render_ascii_line(&empty, &[], 5, 0, &[], true), "");
    assert_eq!(render_ascii_frame(&empty, &[], 0, 3, &[], false), vec![String::new(); 3]);
    assert_eq!(render_ascii_frame(&empty, &[], 7, 0, &[], false), Vec::<String>::new());
}
