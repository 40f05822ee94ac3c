use notepad::line_numbers::{digit_width, gutter_label};
use notepad::theme::{checked_parse_hex_rgb, format_hex_rgb, parse_hex_rgb, ColorField, DialogHistory, HexFields};

#[test]
fn colour_codes_read_as_bytes() {
    assert_eq!(parse_hex_rgb("#1A2b3C"), Some((0x1A, 0x2B, 0x3C)));
    assert_eq!(parse_hex_rgb("##ffffff"), Some((255, 255, 255)));
    assert_eq!(parse_hex_rgb("000000"), Some((0, 0, 0)));
    assert_eq!(parse_hex_rgb("+F+F+F"), Some((15, 15, 15)));
}

#[test]
fn malformed_colour_codes_are_rejected() {
    assert_eq!(parse_hex_rgb("#12345"), None);
    assert_eq!(parse_hex_rgb("#1234567"), None);
    assert_eq!(parse_hex_rgb("#12345g"), None);
    assert_eq!(parse_hex_rgb("-12345"), None);
    assert_eq!(parse_hex_rgb(""), None);
    assert_eq!(parse_hex_rgb("ééé"), None);
}

#[test]
fn codes_cut_inside_a_character_are_reported() {
    assert_eq!(checked_parse_hex_rgb("aébcd"), None);
    assert_eq!(checked_parse_hex_rgb("00aéb"), None);
    assert_eq!(checked_parse_hex_rgb("zzaéb"), Some(None));
    assert_eq!(checked_parse_hex_rgb("#abcdef"), Some(Some((0xAB, 0xCD, 0xEF))));
}

#[test]
fn colour_codes_are_written_in_uppercase() {
    assert_eq!(format_hex_rgb(0xAB, 0x01, 0xFF), "#AB01FF");
    assert_eq!(format_hex_rgb(0, 0, 0), "#000000");
}

#[test]
fn written_codes_read_back() {
    for (r, g, b) in [(0u8, 128u8, 255u8), (17, 34, 51), (250, 5, 99)] {
        assert_eq!(parse_hex_rgb(&format_hex_rgb(r, g, b)), Some((r, g, b)));
    }
}

#[test]
fn gutter_width_counts_digits() {
    assert_eq!(digit_width(0), 1);
    assert_eq!(digit_width(9), 1);
    assert_eq!(digit_width(10), 2);
    assert_eq!(digit_width(999), 3);
    assert_eq!(digit_width(1000), 4);
    assert_eq!(digit_width(usize::MAX), 20);
}

#[test]
fn dialog_history_undo_and_redo() {
    let mut h = DialogHistory::new("s0");
    h.save("s0");
    // after one edit the dialog shows "s1"
    assert_eq!(h.undo("s1"), Some(&"s0"));
    assert_eq!(h.redo(), Some(&"s1"));
    assert_eq!(h.redo(), None);
}

#[test]
fn dialog_history_undo_steps_back_one_edit_at_a_time() {
    let mut h = DialogHistory::new("s0");
    h.save("s0");
    h.save("s1");
    // the dialog shows "s2"; undo restores the state before the last edit
    assert_eq!(h.undo("s2"), Some(&"s1"));
    assert_eq!(h.undo("s1"), Some(&"s0"));
    assert_eq!(h.redo(), Some(&"s1"));
    assert_eq!(h.redo(), Some(&"s2"));
    assert_eq!(h.redo(), None);
}

#[test]
fn dialog_history_has_nothing_to_undo_at_first() {
    let mut h = DialogHistory::new(1);
    assert_eq!(h.undo(2), None);
    assert_eq!(h.redo(), None);
}

#[test]
fn setting_one_code_keeps_the_others() {
    let s = |x: &str| x.to_string();
    let mut f = HexFields {
        background: s("#000000"),
        foreground: s("#111111"),
        selection: s("#222222"),
        accent: s("#333333"),
        tab_active: s("#444444"),
        tab_inactive: s("#555555"),
        tab_close: s("#666666"),
        status_bar_bg: s("#777777"),
        status_bar_fg: s("#888888"),
        gutter_bg: s("#999999"),
        gutter_fg: s("#AAAAAA"),
        find_highlight: s("#BBBBBB"),
    };
    f.set(ColorField::GutterFg, s("#ABCDEF"));
    f.set(ColorField::Background, s("#0"));
    assert_eq!(f.gutter_fg, "#ABCDEF");
    assert_eq!(f.background, "#0");
    assert_eq!(f.foreground, "#111111");
    assert_eq!(f.find_highlight, "#BBBBBB");
    assert_eq!(f.gutter_bg, "#999999");
}

#[test]
fn gutter_numbers_are_right_aligned() {
    assert_eq!(gutter_label(7, 3), "  7 ");
    assert_eq!(gutter_label(120, 3), "120 ");
    assert_eq!(gutter_label(1234, 2), "1234 ");
    assert_eq!(gutter_label(0, 1), "0 ");
    for n in [1usize, 9, 10, 99, 100, 4321] {
        assert_eq!(gutter_label(n, 6), format!("{n:>6} "));
    }
}

#[test]
fn a_code_read_and_written_back_is_uppercase() {
    assert_eq!(format_hex_rgb(parse_hex_rgb("#ff8000").unwrap().0, 0x80, 0x00), "#FF8000");
    for code in ["#ff8000", "a1B2c3", "#ABCDEF", "000000"] {
        let (r, g, b) = parse_hex_rgb(code).unwrap();
        let digits = code.trim_start_matches('#').to_uppercase();
        assert_eq!(format_hex_rgb(r, g, b), format!("#{digits}"));
    }
}
