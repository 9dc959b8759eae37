use markterm::inline::{get_link, render_code, render_text};
use markterm::renderer::get_header;
use markterm::style::get_colored_text;
use markterm::themes::{ElementTheme, get_default_theme};

const RESET: &str = "\u{1b}[0m";

fn colors_on() {
    colored::control::set_override(true);
}

#[test]
fn code_segment_is_styled_and_surroundings_are_not() {
    colors_on();
    let theme = &get_default_theme();
    let out = render_text("this is some `code` text", theme, &theme.list);
    assert!(out.starts_with("this is some \u{1b}["), "{out:?}");
    assert!(out.ends_with(&format!(" code {} text", RESET)), "{out:?}");
    assert_ne!(out, "this is some  code  text");
}

#[test]
fn link_segment_is_underlined_hyperlink() {
    colors_on();
    let theme = &get_default_theme();
    let out = render_text("see <http://a>", theme, &theme.list);
    assert!(out.starts_with("see \u{1b}]8;;http://a\u{1b}\\\u{1b}[4;"), "{out:?}");
    assert!(out.ends_with(&format!("http://a{}\u{1b}]8;;\u{1b}\\", RESET)), "{out:?}");
}

#[test]
fn header_is_bold_after_newline() {
    colors_on();
    let theme = &get_default_theme();
    let out = get_header("# Title", theme);
    assert!(out.starts_with("\n\u{1b}[1;"), "{out:?}");
    assert!(out.ends_with(&format!(" Title {}", RESET)), "{out:?}");
}

#[test]
fn plain_style_is_written_as_is() {
    colors_on();
    let none = ElementTheme { fg: None, bg: None };
    assert_eq!(get_colored_text("abc", &none).paint(), "abc");
    let mut theme = get_default_theme();
    theme.code_block = none;
    assert_eq!(render_code("`x`", &theme), " x ");
}

#[test]
fn colored_code_span_is_framed() {
    colors_on();
    let theme = &get_default_theme();
    let out = render_code("`x`", theme);
    assert!(out.starts_with("\u{1b}["), "{out:?}");
    assert!(out.ends_with(&format!(" x {}", RESET)), "{out:?}");
}

#[test]
fn link_label_is_framed() {
    colors_on();
    let theme = &get_default_theme();
    let out = get_link("u", theme);
    assert!(out.starts_with("\u{1b}]8;;u\u{1b}\\\u{1b}["), "{out:?}");
    assert!(out.ends_with(&format!("u{}\u{1b}]8;;\u{1b}\\", RESET)), "{out:?}");
}
