use markterm::color::{Color, ColorError};
use markterm::inline::{Token, get_link, render_code, render_text, tokenize};
use markterm::renderer::{
    BlockKind, get_bullet_line, get_header, get_indent_line, get_line_to_render, render,
    render_line, render_lines,
};
use markterm::text::split_lines;
use markterm::style::{convert_color, get_colored_text};
use markterm::themes::{ElementTheme, Theme, get_default_theme};

fn _get_empty_theme() -> Theme {
    Theme {
        header: ElementTheme::new(None, None).unwrap(),
        code_block: ElementTheme::new(Some("#FF6060"), Some("#303030")).unwrap(),
        indents: ElementTheme::new(Some("#555"), None).unwrap(),
        link: ElementTheme::new(Some("#008787"), None).unwrap(),
        list: ElementTheme::new(None, None).unwrap(),
    }
}

fn colors_off() {
    colored::control::set_override(false);
}

fn hyperlink(target: &str, label: &str) -> String {
    format!("\u{1b}]8;;{}\u{1b}\\{}\u{1b}]8;;\u{1b}\\", target, label)
}

#[test]
fn get_header_should_render_header() {
    colors_off();
    let theme = &_get_empty_theme();
    let result = get_header("# This is a header", theme);
    assert_eq!(result, "\n This is a header ");
}

#[test]
fn get_bullet_line_should_render_bullets() {
    colors_off();
    let theme = &_get_empty_theme();
    let result = get_bullet_line("- This is a bullet", theme);
    assert_eq!(result, "• This is a bullet");
}

#[test]
fn get_indent_line_should_render() {
    colors_off();
    let theme = &_get_empty_theme();
    let result = get_indent_line("> This is an indent", theme);
    assert_eq!(result, "│ This is an indent");
}

#[test]
fn get_link_should_render() {
    colors_off();
    let theme = &_get_empty_theme();
    let result = get_link("<https://insta.rs>", theme);
    assert_eq!(result, hyperlink("<https://insta.rs>", "<https://insta.rs>"));
}

#[test]
fn get_code_should_render() {
    colors_off();
    let theme = &_get_empty_theme();
    let result = render_code("`https://insta.rs`", theme);
    assert_eq!(result, " https://insta.rs ");
}

#[test]
fn get_line_to_render_should_render_header() {
    colors_off();
    let theme = &_get_empty_theme();
    let text_to_render = "# This is a test";
    let result = get_line_to_render(text_to_render, theme);
    assert_eq!(result, (BlockKind::Header, "\n This is a test ".to_string()));
}

#[test]
fn get_line_to_render_should_render_bullets() {
    colors_off();
    let theme = &_get_empty_theme();
    let text_to_render = "- This is a test";
    let result = get_line_to_render(text_to_render, theme);
    assert_eq!(result, (BlockKind::Bullet, "• This is a test".to_string()));
}

#[test]
fn get_line_to_render_should_render_code() {
    colors_off();
    let theme = &_get_empty_theme();
    let text_to_render = "`This is a test`";
    let result = get_line_to_render(text_to_render, theme);
    assert_eq!(result, (BlockKind::Code, " This is a test ".to_string()));
}

#[test]
fn get_line_to_render_should_render_indents() {
    colors_off();
    let theme = &_get_empty_theme();
    let text_to_render = "> This is a test";
    let result = get_line_to_render(text_to_render, theme);
    assert_eq!(result, (BlockKind::Indent, "│ This is a test".to_string()));
}

#[test]
fn render_text_should_render_code_blocks_inline() {
    colors_off();
    let theme = &_get_empty_theme();
    let text_to_render = "this is some `embedded code` in text";
    let result = render_text(text_to_render, theme, &theme.indents);
    assert_eq!(result, "this is some  embedded code  in text");
}

#[test]
fn render_text_should_render_links_inline() {
    colors_off();
    let theme = &_get_empty_theme();
    let text_to_render = "this is some <embedded link> in text";
    let result = render_text(text_to_render, theme, &theme.indents);
    assert_eq!(
        result,
        format!("this is some {} in text", hyperlink("embedded link", "embedded link"))
    );
}

#[test]
fn lines_are_classified_in_priority_order() {
    colors_off();
    let theme = &get_default_theme();
    assert_eq!(get_line_to_render("- item", theme).0, BlockKind::Bullet);
    assert_eq!(get_line_to_render("# Title", theme).0, BlockKind::Header);
    assert_eq!(get_line_to_render("> note", theme).0, BlockKind::Indent);
    assert_eq!(get_line_to_render("`cmd`", theme).0, BlockKind::Code);
    assert_eq!(
        get_line_to_render("plain text", theme),
        (BlockKind::Plain, "plain text".to_string())
    );
    assert_eq!(get_line_to_render("- `code`", theme).0, BlockKind::Bullet);
    assert_eq!(get_line_to_render("-item", theme).0, BlockKind::Plain);
    assert_eq!(get_line_to_render("#Title", theme).0, BlockKind::Plain);
    assert_eq!(get_line_to_render("`", theme).0, BlockKind::Code);
    assert_eq!(get_line_to_render("", theme), (BlockKind::Plain, String::new()));
}

#[test]
fn bullet_line_starts_with_bullet_glyph() {
    colors_off();
    let theme = &get_default_theme();
    let out = get_bullet_line("- item", theme);
    assert_eq!(out, "• item");
    assert!(out.starts_with('•'));
    assert!(!out.starts_with('-'));
}

#[test]
fn indent_line_starts_with_bar() {
    colors_off();
    let theme = &get_default_theme();
    assert_eq!(get_indent_line("> note", theme), "│ note");
}

#[test]
fn only_the_first_marker_is_replaced() {
    colors_off();
    let theme = &get_default_theme();
    assert_eq!(get_bullet_line("- a - b", theme), "• a - b");
    assert_eq!(get_indent_line("> a > b", theme), "│ a > b");
}

#[test]
fn code_span_is_cut_out_of_the_line() {
    colors_off();
    let theme = &get_default_theme();
    let out = render_text("this is some `code` text", theme, &theme.list);
    assert_eq!(out, "this is some  code  text");
}

#[test]
fn link_span_becomes_hyperlink() {
    colors_off();
    let theme = &get_default_theme();
    let out = render_text("see <http://a>", theme, &theme.list);
    assert_eq!(out, format!("see {}", hyperlink("http://a", "http://a")));
}

#[test]
fn placeholder_braces_are_removed() {
    colors_off();
    let theme = &get_default_theme();
    assert_eq!(render_code("`cmd {{arg}}`", theme), " cmd arg ");
    assert_eq!(render_code("`{{{x}}}`", theme), " {x} ");
    assert_eq!(render_code("``", theme), "  ");
}

#[test]
fn unterminated_span_is_dropped() {
    colors_off();
    let theme = &get_default_theme();
    assert_eq!(render_text("abc `unterminated", theme, &theme.list), "abc ");
    assert_eq!(render_text("abc <unterminated", theme, &theme.list), "abc ");
}

#[test]
fn spans_do_not_nest() {
    colors_off();
    let theme = &get_default_theme();
    assert_eq!(render_text("`a<b`", theme, &theme.list), " a<b ");
    assert_eq!(render_text("<a`b>", theme, &theme.list), hyperlink("a`b", "a`b"));
}

#[test]
fn header_starts_with_newline() {
    colors_off();
    let theme = &get_default_theme();
    assert_eq!(get_header("# Title", theme), "\n Title ");
}

#[test]
fn tokenizer_splits_line() {
    let toks = tokenize("a`b`<c>`d");
    assert_eq!(
        toks,
        vec![
            Token::Char('a'),
            Token::Code("`b`".to_string()),
            Token::Link("c".to_string()),
        ]
    );
    assert_eq!(tokenize(""), vec![]);
    assert_eq!(tokenize("é>"), vec![Token::Char('é'), Token::Char('>')]);
}

#[test]
fn render_line_uses_default_theme() {
    colors_off();
    assert_eq!(render_line("plain"), (BlockKind::Plain, "plain".to_string()));
    assert_eq!(render_line("- x"), (BlockKind::Bullet, "• x".to_string()));
}

#[test]
fn document_lines_are_framed() {
    colors_off();
    let theme = &get_default_theme();
    let lines = vec!["# T".to_string(), "plain".to_string()];
    assert_eq!(render_lines(&lines, theme), " \n T \n plain\n\n\n");
    assert_eq!(render_lines(&vec![], theme), "\n\n");
}

#[test]
fn default_theme_has_documented_colors() {
    let t = get_default_theme();
    assert_eq!(t.header, ElementTheme::new(None, Some("#6155FB")).unwrap());
    assert_eq!(t.code_block, ElementTheme::new(Some("#FF6060"), Some("#303030")).unwrap());
    assert_eq!(t.indents, ElementTheme::new(Some("#555"), None).unwrap());
    assert_eq!(t.link, ElementTheme::new(Some("#008787"), None).unwrap());
    assert_eq!(t.list, ElementTheme::new(None, None).unwrap());
}

#[test]
fn element_theme_reports_bad_codes() {
    assert_eq!(ElementTheme::new(Some("#12"), None), Err(ColorError::InvalidLength));
    assert_eq!(
        ElementTheme::new(Some("#12"), Some("#zzz")),
        Err(ColorError::InvalidHexDigit("#zzz".to_string()))
    );
    assert_eq!(
        ElementTheme::new(Some("#fff"), None),
        Ok(ElementTheme { fg: Some(Color { r: 255, g: 255, b: 255 }), bg: None })
    );
}

#[test]
fn colored_text_takes_element_colors() {
    let e = ElementTheme::new(Some("#010203"), Some("#0a0b0c")).unwrap();
    let s = get_colored_text("x", &e);
    assert_eq!(s.text, "x");
    assert_eq!(s.fg, Some(Color { r: 1, g: 2, b: 3 }));
    assert_eq!(s.bg, Some(Color { r: 10, g: 11, b: 12 }));
    assert!(!s.bold && !s.underline);
    let b = s.bold();
    assert!(b.bold && !b.underline);
    let c = convert_color(&Color { r: 7, g: 8, b: 9 });
    assert_eq!((c.r, c.g, c.b), (7, 8, 9));
}

#[test]
fn text_is_split_like_buffered_lines() {
    assert_eq!(
        split_lines("a\r\nb\n\nc\r"),
        vec!["a".to_string(), "b".to_string(), "".to_string(), "c\r".to_string()]
    );
    assert_eq!(split_lines(""), Vec::<String>::new());
    assert_eq!(split_lines("\n"), vec!["".to_string()]);
    assert_eq!(split_lines("x\n"), vec!["x".to_string()]);
}

#[test]
fn whole_text_is_rendered_line_by_line() {
    colors_off();
    let theme = &get_default_theme();
    assert_eq!(render("# T\nplain\n", theme), " \n T \n plain\n\n\n");
    assert_eq!(render("- a\r\n> b", theme), " • a\n │ b\n\n\n");
}
