use diffr::ansi::{ansi_to_html, extract_line_background, html_escape, parse_ansi_codes, Style};
use diffr::color::{ansi_256_color, ansi_256_to_rgb, Rgb};
use diffr::delta::{
    count_hunks, create_hunk_separator, delta_arguments, generate_diff, render_delta_output,
    render_inline, inspect_diff_output, split_side_by_side_output, DeltaError, DiffOptions,
    DiffStep, GapTracker,
};
use diffr::layout::{
    extract_line_number, middle_separator, split_at_middle_separator,
    split_line_number_and_content, trim_html_trailing_whitespace,
};
use diffr::text::strip_ansi_codes;

fn chars(s: &str) -> Vec<char> {
    s.chars().collect()
}

fn text(v: &[char]) -> String {
    v.iter().collect()
}

#[test]
fn plain_text_is_escaped_without_regions() {
    let out = ansi_to_html("a<b & \"c\">");
    assert_eq!(out, "a&lt;b &amp; &quot;c&quot;&gt;");
    assert!(!out.contains("<span"));
}

#[test]
fn truecolor_foreground_region_closed_by_reset() {
    let out = ansi_to_html("\x1b[38;2;10;20;30mhi\x1b[0m");
    assert_eq!(out, "<span style='color:#0a141e;'>hi</span>");
    assert_eq!(out.matches("<span").count(), 1);
}

#[test]
fn region_left_open_is_closed_at_end() {
    let out = ansi_to_html("\x1b[48;2;1;2;3;31mx");
    assert_eq!(out, "<span style='background:#010203;color:#aa0000;'>x</span>");
}

#[test]
fn unterminated_and_unknown_sequences_are_dropped() {
    assert_eq!(ansi_to_html("a\x1b[1mb\x1b[31"), "ab");
}

#[test]
fn palette_256_entries() {
    assert_eq!(ansi_256_to_rgb(16), "#000000");
    assert_eq!(ansi_256_to_rgb(231), "#ffffff");
    assert_eq!(ansi_256_to_rgb(232), "#080808");
    assert_eq!(ansi_256_to_rgb(255), "#eeeeee");
    assert_eq!(ansi_256_to_rgb(1), "#aa0000");
    assert_eq!(ansi_256_to_rgb(196), "#ff0000");
    assert_eq!(ansi_256_color(17), Rgb { r: 0, g: 0, b: 95 });
}

#[test]
fn sgr_codes_update_style() {
    let plain = Style { fg: None, bg: None };
    let s = parse_ansi_codes(&chars("91;44"), plain);
    assert_eq!(s.fg, Some(Rgb { r: 0xff, g: 0x55, b: 0x55 }));
    assert_eq!(s.bg, Some(Rgb { r: 0x00, g: 0x00, b: 0xaa }));
    let s2 = parse_ansi_codes(&chars("38;5;232"), s);
    assert_eq!(s2.fg, Some(Rgb { r: 8, g: 8, b: 8 }));
    assert_eq!(s2.bg, s.bg);
    assert_eq!(parse_ansi_codes(&chars("0"), s2), plain);
    let bad = parse_ansi_codes(&chars("38;2;300;x;+7"), plain);
    assert_eq!(bad.fg, Some(Rgb { r: 0, g: 0, b: 7 }));
}

#[test]
fn row_background_is_first_truecolor_background() {
    let line = chars("\x1b[31mx\x1b[48;2;1;2;255my\x1b[48;2;9;9;9m");
    assert_eq!(extract_line_background(&line), Some(Rgb { r: 1, g: 2, b: 255 }));
    assert_eq!(extract_line_background(&chars("\x1b[41mplain")), None);
}

#[test]
fn escape_codes_are_stripped() {
    assert_eq!(strip_ansi_codes("\x1b[1;31mred\x1b[0m text"), "red text");
}

#[test]
fn html_escape_writes_entities() {
    assert_eq!(html_escape("<a href=\"x\">&</a>"), "&lt;a href=&quot;x&quot;&gt;&amp;&lt;/a&gt;");
}

#[test]
fn middle_separator_nearest_visible_midpoint() {
    // Separators at visible columns 10 and 42; 60 visible characters, middle 30.
    let line = format!(
        "\x1b[32m{}\u{2502}{}\x1b[0m\u{2502}{}",
        "a".repeat(10),
        "b".repeat(31),
        "c".repeat(17)
    );
    let v = chars(&line);
    let k = middle_separator(&v).unwrap();
    let (l, r) = split_at_middle_separator(&v).unwrap();
    assert_eq!(v[k], '\u{2502}');
    assert_eq!(text(&r), "c".repeat(17));
    assert_eq!(strip_ansi_codes(&text(&l)), format!("{}\u{2502}{}", "a".repeat(10), "b".repeat(31)));
    assert_eq!(split_at_middle_separator(&chars("no separator")), None);
}

#[test]
fn first_separator_wins_a_tie() {
    // Separators at columns 1 and 3 of 5 visible characters: middle 2, both at distance 1.
    let v = chars("a\u{2502}b\u{2502}c");
    assert_eq!(middle_separator(&v), Some(1));
}

#[test]
fn line_numbers_from_gutter() {
    assert_eq!(extract_line_number(&chars("\x1b[2m  12 \x1b[0m")), Some(12));
    assert_eq!(extract_line_number(&chars("  3 \u{22ee}  4 ")), Some(4));
    assert_eq!(extract_line_number(&chars("    ")), None);
}

#[test]
fn panel_rows_split_gutter_from_content() {
    let row = split_line_number_and_content(&chars("\u{2502}  7 \u{2502}let x = 1;   "));
    assert_eq!(
        text(&row),
        "<div class=\"diff-line\"><span class=\"line-num\">   7 </span><span class=\"line-content\">let x = 1;\n</span></div>"
    );
    let pad = split_line_number_and_content(&chars("\u{2502}    \u{2502}   "));
    assert_eq!(
        text(&pad),
        "<div class=\"diff-line\"><span class=\"line-num\">     </span><span class=\"line-content\"></span></div>"
    );
    let bg = split_line_number_and_content(&chars(" 1 \u{2502}\x1b[48;2;0;64;0m+x"));
    assert!(text(&bg).starts_with("<div class=\"diff-line\" style='background:#004000'>"));
}

#[test]
fn trailing_whitespace_is_trimmed() {
    assert_eq!(text(&trim_html_trailing_whitespace(&chars("ab \t\n"))), "ab");
}

#[test]
fn gap_marker_before_jump_in_line_numbers() {
    let output = ["  1 \u{2502}a", "  2 \u{2502}b", "  3 \u{2502}c", "  7 \u{2502}d", "  8 \u{2502}e"].join("\n");
    let html = render_inline(&output);
    assert_eq!(html.matches("diff-separator").count(), 1);
    let sep = html.find("<div class=\"diff-separator\"></div>").unwrap();
    let seven = html.find("  7 </span>").unwrap();
    let three = html.find("  3 </span>").unwrap();
    assert!(three < sep && sep < seven);
    assert!(html.starts_with("<div class=\"delta-output\">"));
    assert!(html.ends_with("</div>"));
}

#[test]
fn gap_tracker_ignores_unnumbered_lines() {
    let mut t = GapTracker::new();
    assert!(!t.observe(Some(4)));
    assert!(!t.observe(None));
    assert!(!t.observe(Some(5)));
    assert!(t.observe(Some(9)));
    assert_eq!(t.last, Some(9));
}

#[test]
fn side_by_side_gap_goes_into_both_panels() {
    let output = [
        "\u{2502}  1 \u{2502}a   \u{2502}  1 \u{2502}a   ",
        "\u{2502}  2 \u{2502}b   \u{2502}  5 \u{2502}b   ",
        "header line",
    ]
    .join("\n");
    let (left, right) = split_side_by_side_output(&output);
    assert_eq!(left.matches("diff-separator").count(), 1);
    assert_eq!(right.matches("diff-separator").count(), 1);
    assert!(left.starts_with("<div class=\"sbs-panel\">"));
    assert!(left.contains("<span class=\"line-content\">header line</span>"));
    assert!(right.contains("<span class=\"line-content\">header line</span>"));
}

#[test]
fn hunks_are_counted_by_header_lines() {
    assert_eq!(count_hunks("--- a\n+++ b\n@@ -1 +1 @@\n-x\n+y\n@@ -9 +9 @@\n"), 2);
    assert_eq!(count_hunks(""), 0);
}

#[test]
fn backend_missing_is_an_error() {
    let r = generate_diff(Some("a"), Some("b"), &DiffOptions::new(), false);
    assert!(matches!(r, Err(DeltaError::DeltaNotInstalled)));
    assert_eq!(DeltaError::DeltaNotInstalled.message(), "Delta not installed");
    assert_eq!(DeltaError::Io("e".to_string()).message(), "IO error: e");
    assert_eq!(DeltaError::Utf8("u".to_string()).message(), "UTF-8 error: u");
    assert_eq!(DeltaError::AnsiConversion("c".to_string()).message(), "ANSI conversion error: c");
}

#[test]
fn no_paths_give_an_empty_result() {
    match generate_diff(None, None, &DiffOptions::new(), true) {
        Ok(DiffStep::Done(d)) => {
            assert_eq!(d.html, "");
            assert!(!d.has_changes);
            assert_eq!(d.hunk_count, 0);
        }
        other => panic!("unexpected {:?}", other),
    }
}

#[test]
fn missing_side_is_the_empty_file() {
    let mut o = DiffOptions::new();
    o.collapsed = true;
    match generate_diff(None, Some("new.txt"), &o, true) {
        Ok(DiffStep::RunDiff { left, right, context_lines }) => {
            assert_eq!(left, "/dev/null");
            assert_eq!(right, "new.txt");
            assert_eq!(context_lines, 3);
        }
        other => panic!("unexpected {:?}", other),
    }
    match generate_diff(Some("old.txt"), None, &DiffOptions::new(), true) {
        Ok(DiffStep::RunDiff { left, right, context_lines }) => {
            assert_eq!(left, "old.txt");
            assert_eq!(right, "/dev/null");
            assert_eq!(context_lines, 99999);
        }
        other => panic!("unexpected {:?}", other),
    }
}

#[test]
fn identical_files_short_circuit() {
    match inspect_diff_output("", true, &DiffOptions::new()) {
        DiffStep::Done(d) => {
            assert_eq!(d.html, "<div class=\"no-changes\">Files are identical</div>");
            assert!(!d.has_changes);
        }
        other => panic!("unexpected {:?}", other),
    }
    match inspect_diff_output("@@ -1 +1 @@\n-a\n+b\n", false, &DiffOptions::new()) {
        DiffStep::RunDelta { args, hunk_count } => {
            assert_eq!(hunk_count, 1);
            assert_eq!(args, vec!["--file-style", "omit", "--hunk-header-style", "omit", "--dark"]);
        }
        other => panic!("unexpected {:?}", other),
    }
}

#[test]
fn backend_arguments_follow_options() {
    let o = DiffOptions { side_by_side: true, line_numbers: true, collapsed: false, show_whitespace: false };
    assert_eq!(
        delta_arguments(&o),
        vec!["--side-by-side", "--width", "160", "--line-numbers", "--file-style", "omit", "--hunk-header-style", "omit", "--dark"]
    );
}

#[test]
fn rendered_result_by_mode() {
    let sbs = DiffOptions { side_by_side: true, line_numbers: true, collapsed: false, show_whitespace: false };
    let r = render_delta_output("x", &sbs, 2);
    assert!(r.has_changes);
    assert_eq!(r.hunk_count, 2);
    assert_eq!(r.html, "");
    assert!(r.left_html.is_some() && r.right_html.is_some());
    let inline = render_delta_output("x", &DiffOptions::new(), 1);
    assert_eq!(
        inline.html,
        "<div class=\"delta-output\"><div class=\"diff-line\"><span class=\"line-content\">x\n</span></div></div>"
    );
    assert!(inline.left_html.is_none());
    assert_eq!(text(&create_hunk_separator()), "<div class=\"diff-separator\"></div>");
}
