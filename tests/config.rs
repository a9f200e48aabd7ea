use veisku::cfg::{default_tag_default, files_default, parse_hex_color, ColorCfg, StyleCfg, ThemeCfg};
use veisku::render::fit_to_width;
use unicode_width::UnicodeWidthStr;

#[test]
fn default_file_patterns() {
    assert_eq!(files_default(), vec!["*.md", "*.mdown", "!*.swp", "!.git/", "!.svn/"]);
}

#[test]
fn default_tag_style() {
    let s = default_tag_default();
    assert_eq!(s.fg, Some(ColorCfg::Green));
    assert_eq!(s.bg, Some(ColorCfg::Rgb(64, 64, 64)));
    assert!(!s.bold && !s.italic);
    let theme = ThemeCfg::default();
    assert!(theme.tags.is_empty());
    assert_eq!(theme.tag_default, s);
}

#[test]
fn tag_styles() {
    let red = StyleCfg { fg: Some(ColorCfg::Red), bg: None, bold: true, italic: false };
    let theme = ThemeCfg { tags: vec![("urgent".to_string(), red)], tag_default: default_tag_default() };
    assert_eq!(theme.tag_style("urgent"), red);
    assert_eq!(theme.tag_style("other"), default_tag_default());
}

#[test]
fn hex_colors() {
    assert_eq!(parse_hex_color("#fff"), Some([255, 255, 255]));
    assert_eq!(parse_hex_color("#1a2"), Some([0x11, 0xaa, 0x22]));
    assert_eq!(parse_hex_color("#123456"), Some([0x12, 0x34, 0x56]));
    assert_eq!(parse_hex_color("#ABCDEF"), Some([0xab, 0xcd, 0xef]));
    assert_eq!(parse_hex_color("#+f+f+f"), Some([15, 15, 15]));
    assert_eq!(parse_hex_color("#ggg"), None);
    assert_eq!(parse_hex_color("fff"), None);
    assert_eq!(parse_hex_color("#ffff"), None);
    assert_eq!(parse_hex_color("#éa"), None);
    assert_eq!(parse_hex_color(""), None);
}

#[test]
fn color_names() {
    assert_eq!(ColorCfg::parse("red"), Some(ColorCfg::Red));
    assert_eq!(ColorCfg::parse("white"), Some(ColorCfg::White));
    assert_eq!(ColorCfg::parse("#000000"), Some(ColorCfg::Rgb(0, 0, 0)));
    assert_eq!(ColorCfg::parse("magenta"), None);
}

#[test]
fn test_fit_to_width() {
    for &pat in &["", "a", "aaaaaaaaaaa", "Здравствуите!"] {
        let out = fit_to_width(pat, 5);
        assert!(out.width() <= 5);
        if let Some(rest) = out.strip_prefix(pat) {
            assert!(rest.chars().all(|x| x == ' '));
        } else {
            assert!(out.ends_with('…'));
        }
    }
}

#[test]
fn fit_to_width_exact_values() {
    assert_eq!(fit_to_width("", 3), "   ");
    assert_eq!(fit_to_width("ab", 3), "ab ");
    assert_eq!(fit_to_width("abc", 3), "abc");
    assert_eq!(fit_to_width("abcd", 3), "ab…");
    assert_eq!(fit_to_width("aaaaaaaaaaa", 5), "aaaa…");
    assert_eq!(fit_to_width("日本語", 4), "日… ");
    assert_eq!(fit_to_width("x", 1), "x");
    assert_eq!(fit_to_width("xy", 1), "…");
}
