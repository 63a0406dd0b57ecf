use microtermi::ansi::{parse_ansi_line, strip_ansi, AnsiColor, AnsiSegment};

fn seg(s: &AnsiSegment) -> (&str, Option<AnsiColor>, bool) {
    (s.text.as_str(), s.color, s.bold)
}

#[test]
fn plain_text_is_unchanged() {
    let s = "npm run dev: listening on port 3000";
    assert_eq!(strip_ansi(s), s);
    let segs = parse_ansi_line(s);
    assert_eq!(segs.len(), 1);
    assert_eq!(seg(&segs[0]), (s, None, false));
}

#[test]
fn plain_multibyte_text_is_unchanged() {
    let s = "compilación » listo ✓ 日本";
    assert_eq!(strip_ansi(s), s);
    let segs = parse_ansi_line(s);
    assert_eq!(segs.len(), 1);
    assert_eq!(seg(&segs[0]), (s, None, false));
}

#[test]
fn empty_line_has_no_segment() {
    assert_eq!(strip_ansi(""), "");
    assert!(parse_ansi_line("").is_empty());
}

#[test]
fn red_then_reset() {
    let segs = parse_ansi_line("\x1b[31mHello\x1b[0m World");
    assert_eq!(segs.len(), 2);
    assert_eq!(seg(&segs[0]), ("Hello", Some(AnsiColor::Red), false));
    assert_eq!(seg(&segs[1]), (" World", None, false));
}

#[test]
fn bold_green_then_reset() {
    let segs = parse_ansi_line("\x1b[1;32mOK\x1b[0m");
    assert_eq!(segs.len(), 1);
    assert_eq!(seg(&segs[0]), ("OK", Some(AnsiColor::Green), true));
}

#[test]
fn strip_keeps_multibyte_characters() {
    assert_eq!(strip_ansi("\x1b[33mañadido ✓\x1b[0m → ok"), "añadido ✓ → ok");
    // U+00DB is encoded as C3 9B: its second byte must not read as a C1 introducer.
    assert_eq!(strip_ansi("Û\x1b[1mÛ"), "ÛÛ");
    assert_eq!(strip_ansi("\u{9b}31mtexto"), "texto");
}

#[test]
fn strip_removes_sequences() {
    assert_eq!(strip_ansi("\x1b[31mred\x1b[0m"), "red");
    assert_eq!(strip_ansi("x\x1b]0;\x07y"), "x\x07y");
    assert_eq!(strip_ansi("\x1b[?25lhidden"), "hidden");
    assert_eq!(strip_ansi("x\x1b[2K\x1b[1Gy"), "xy");
}

#[test]
fn strip_keeps_lone_escape() {
    assert_eq!(strip_ansi("a\x1bb"), "a\x1bb");
    assert_eq!(strip_ansi("end\x1b"), "end\x1b");
}

#[test]
fn strip_drops_unterminated_sequence() {
    assert_eq!(strip_ansi("done\x1b[31;1"), "done");
    assert_eq!(strip_ansi("ok\u{9b}"), "ok");
}

#[test]
fn parse_bright_colors_and_ignored_codes() {
    let segs = parse_ansi_line("\x1b[91ma\x1b[4mb\x1b[97mc");
    assert_eq!(segs.len(), 3);
    assert_eq!(seg(&segs[0]), ("a", Some(AnsiColor::BrightRed), false));
    assert_eq!(seg(&segs[1]), ("b", Some(AnsiColor::BrightRed), false));
    assert_eq!(seg(&segs[2]), ("c", Some(AnsiColor::BrightWhite), false));
}

#[test]
fn parse_empty_code_resets() {
    let segs = parse_ansi_line("\x1b[1;34mx\x1b[my");
    assert_eq!(segs.len(), 2);
    assert_eq!(seg(&segs[0]), ("x", Some(AnsiColor::Blue), true));
    assert_eq!(seg(&segs[1]), ("y", None, false));
}

#[test]
fn parse_large_code_is_ignored() {
    let segs = parse_ansi_line("\x1b[31mx\x1b[300my");
    assert_eq!(segs.len(), 2);
    assert_eq!(seg(&segs[1]), ("y", Some(AnsiColor::Red), false));
}

#[test]
fn parse_skips_other_sequences_without_splitting() {
    let segs = parse_ansi_line("ab\x1b[2Kcd");
    assert_eq!(segs.len(), 1);
    assert_eq!(seg(&segs[0]), ("abcd", None, false));
}

#[test]
fn parse_keeps_escape_not_followed_by_bracket() {
    let segs = parse_ansi_line("a\x1b]b");
    assert_eq!(segs.len(), 1);
    assert_eq!(seg(&segs[0]), ("a\x1b]b", None, false));
}

#[test]
fn parse_c1_introducer() {
    let segs = parse_ansi_line("\u{9b}32mverde");
    assert_eq!(segs.len(), 1);
    assert_eq!(seg(&segs[0]), ("verde", Some(AnsiColor::Green), false));
}

#[test]
fn parse_multibyte_segments() {
    let segs = parse_ansi_line("ñ\x1b[35m✓");
    assert_eq!(segs.len(), 2);
    assert_eq!(seg(&segs[0]), ("ñ", None, false));
    assert_eq!(seg(&segs[1]), ("✓", Some(AnsiColor::Magenta), false));
}

#[test]
fn palette_values() {
    assert_eq!(AnsiColor::Red.rgb(), (205, 49, 49));
    assert_eq!(AnsiColor::Black.rgb(), (0, 0, 0));
    assert_eq!(AnsiColor::BrightWhite.rgb(), (255, 255, 255));
    assert_eq!(AnsiColor::BrightBlack.rgb(), (102, 102, 102));
}
