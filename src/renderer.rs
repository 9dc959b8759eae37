//! Whole lines: which kind of block a line is, and how each kind is rendered.
use vstd::prelude::*;

use crate::inline::{TokenView, code_view, render_code, render_text, scan, text_shown, tokens};
use crate::style::{StyledView, colored_view, displays, get_colored_text};
use crate::text::{chars_of, lines_of, push_range, replace_first, replace_first_of, split_lines, views_of};
use crate::themes::{Theme, default_theme, get_default_theme};

verus! {

/// The kind of block a line is.
#[derive(Clone, Copy, Debug, PartialEq, Eq, Structural)]
pub enum BlockKind {
    /// Starts with `- `.
    Bullet,
    /// Starts with `# `.
    Header,
    /// Starts with `> `.
    Indent,
    /// Starts and ends with a backtick.
    Code,
    /// Anything else.
    Plain,
}

/// Whether `s` begins with `p`.
pub open spec fn starts_with(s: Seq<char>, p: Seq<char>) -> bool {
    s.len() >= p.len() && s.take(p.len() as int) == p
}

/// The kind of a line; the first rule that applies wins.
pub open spec fn classify(line: Seq<char>) -> BlockKind {
    if starts_with(line, seq!['-', ' ']) {
        BlockKind::Bullet
    } else if starts_with(line, seq!['#', ' ']) {
        BlockKind::Header
    } else if starts_with(line, seq!['>', ' ']) {
        BlockKind::Indent
    } else if line.len() > 0 && line[0] == '`' && line.last() == '`' {
        BlockKind::Code
    } else {
        BlockKind::Plain
    }
}

/// The text of a header: the line without its two-character marker, with one
/// space on each side.
pub open spec fn header_text(line: Seq<char>) -> Seq<char> {
    seq![' '] + (if line.len() >= 2 { line.skip(2) } else { Seq::empty() }) + seq![' ']
}

/// A header's text in the header colors, bold.
pub open spec fn header_view(line: Seq<char>, theme: Theme) -> StyledView {
    StyledView { bold: true, ..colored_view(header_text(line), theme.header) }
}

/// `out` is a newline followed by the header text, shown in the header colors and bold.
pub open spec fn header_shown(line: Seq<char>, theme: Theme, out: Seq<char>) -> bool {
    exists|p: Seq<char>| displays(header_view(line, theme), p) && out == seq!['\n'] + p
}

/// `out` is the rendered line with its first `-` replaced by a bullet.
pub open spec fn bullet_shown(line: Seq<char>, theme: Theme, out: Seq<char>) -> bool {
    exists|body: Seq<char>| text_shown(line, theme, body) && out == replace_first(body, seq!['-'], seq!['•'])
}

/// `out` is the rendered line with its first `> ` replaced by a bar and a space.
pub open spec fn indent_shown(line: Seq<char>, theme: Theme, out: Seq<char>) -> bool {
    exists|body: Seq<char>| text_shown(line, theme, body) && out == replace_first(
        body,
        seq!['>', ' '],
        seq!['│', ' '],
    )
}

/// `out` is line `line`, of kind `kind`, rendered.
pub open spec fn line_shown(line: Seq<char>, theme: Theme, kind: BlockKind, out: Seq<char>) -> bool {
    match kind {
        BlockKind::Bullet => bullet_shown(line, theme, out),
        BlockKind::Header => header_shown(line, theme, out),
        BlockKind::Indent => indent_shown(line, theme, out),
        BlockKind::Code => displays(code_view(line, theme), out),
        BlockKind::Plain => out == line,
    }
}

/// A line whose first two characters open no span is rendered starting with
/// those two characters.
proof fn lemma_text_keeps_first_two(line: Seq<char>, theme: Theme, body: Seq<char>, c0: char, c1: char)
    requires
        text_shown(line, theme, body),
        line.len() >= 2,
        line[0] == c0 && line[1] == c1,
        c0 != '`' && c0 != '<',
        c1 != '`' && c1 != '<',
    ensures
        body.len() >= 2,
        body[0] == c0,
        body[1] == c1,
{
    let parts = choose|parts: Seq<Seq<char>>|
        crate::inline::parts_shown(tokens(line), theme, parts) && body == parts.flatten();
    let ts = tokens(line);
    crate::inline::lemma_scan_plain_char(line, 0, c0);
    crate::inline::lemma_scan_plain_char(line, 1, c1);
    assert(ts[0] == TokenView::Char(c0));
    assert(ts[1] == TokenView::Char(c1));
    assert(crate::inline::token_shown(ts[0], theme, parts[0]));
    assert(crate::inline::token_shown(ts[1], theme, parts[1]));
    assert(parts.flatten() == parts[0] + parts.drop_first().flatten());
    let rest = parts.drop_first();
    assert(rest[0] == parts[1]);
    assert(rest.flatten() == rest[0] + rest.drop_first().flatten());
}

/// Renders a header line: a newline, then the text after the marker between two
/// spaces, in the header colors and bold.
pub fn get_header(line: &str, theme: &Theme) -> (r: String)
    ensures
        header_shown(line@, *theme, r@),
{
    let v = chars_of(line);
    let mut text = String::new();
    text.push(' ');
    if v.len() >= 2 {
        push_range(&mut text, &v, 2, v.len());
    }
    text.push(' ');
    assert(text@ =~= header_text(line@));
    let p = get_colored_text(text.as_str(), &theme.header).bold().paint();
    let mut r = String::new();
    r.push('\n');
    r.append(p.as_str());
    assert(r@ =~= seq!['\n'] + p@);
    r
}

/// Renders a list item: the line with its spans rendered, and its first `-`
/// replaced by a bullet.
pub fn get_bullet_line(line: &str, theme: &Theme) -> (r: String)
    ensures
        bullet_shown(line@, *theme, r@),
        starts_with(line@, seq!['-', ' ']) ==> r@.len() >= 2 && r@[0] == '•' && r@[1] == ' ',
{
    let body = render_text(line, theme, &theme.list);
    proof {
        reveal_strlit("-");
        reveal_strlit("•");
    }
    assert("-"@ =~= seq!['-']);
    assert("•"@ =~= seq!['•']);
    let r = replace_first_of(body.as_str(), "-", "•");
    proof {
        if starts_with(line@, seq!['-', ' ']) {
            assert(line@[0] == line@.take(2)[0] && line@[1] == line@.take(2)[1]);
            lemma_text_keeps_first_two(line@, *theme, body@, '-', ' ');
            assert(body@.take(1) =~= seq!['-']);
            assert(r@ == seq!['•'] + body@.skip(1));
        }
    }
    r
}

/// Renders an indented line: the line with its spans rendered, and its first
/// `> ` replaced by a bar and a space.
pub fn get_indent_line(line: &str, theme: &Theme) -> (r: String)
    ensures
        indent_shown(line@, *theme, r@),
        starts_with(line@, seq!['>', ' ']) ==> r@.len() >= 2 && r@[0] == '│' && r@[1] == ' ',
{
    let body = render_text(line, theme, &theme.indents);
    proof {
        reveal_strlit("> ");
        reveal_strlit("│ ");
    }
    assert("> "@ =~= seq!['>', ' ']);
    assert("│ "@ =~= seq!['│', ' ']);
    let r = replace_first_of(body.as_str(), "> ", "│ ");
    proof {
        if starts_with(line@, seq!['>', ' ']) {
            assert(line@[0] == line@.take(2)[0] && line@[1] == line@.take(2)[1]);
            lemma_text_keeps_first_two(line@, *theme, body@, '>', ' ');
            assert(body@.take(2) =~= seq!['>', ' ']);
            assert(r@ == seq!['│', ' '] + body@.skip(2));
        }
    }
    r
}

/// Decides which kind of block a line is, and renders it as that kind; a plain
/// line is returned as it is.
pub fn get_line_to_render(line: &str, theme: &Theme) -> (r: (BlockKind, String))
    ensures
        r.0 == classify(line@),
        line_shown(line@, *theme, r.0, r.1@),
        r.0 == BlockKind::Bullet ==> r.1@.len() >= 2 && r.1@[0] == '•' && r.1@[1] == ' ',
        r.0 == BlockKind::Indent ==> r.1@.len() >= 2 && r.1@[0] == '│' && r.1@[1] == ' ',
{
    let v = chars_of(line);
    let n = v.len();
    let opens_with = |a: char| -> (b: bool)
        ensures
            b == (n >= 2 && v@[0] == a && v@[1] == ' '),
        { n >= 2 && v[0] == a && v[1] == ' ' };
    proof {
        if n >= 2 {
            assert(line@.take(2) =~= seq![line@[0], line@[1]]);
        }
    }
    if opens_with('-') {
        (BlockKind::Bullet, get_bullet_line(line, theme))
    } else if opens_with('#') {
        (BlockKind::Header, get_header(line, theme))
    } else if opens_with('>') {
        (BlockKind::Indent, get_indent_line(line, theme))
    } else if n > 0 && v[0] == '`' && v[n - 1] == '`' {
        (BlockKind::Code, render_code(line, theme))
    } else {
        (BlockKind::Plain, line.to_owned())
    }
}

/// Renders a line with the default theme.
pub fn render_line(line: &str) -> (r: (BlockKind, String))
    ensures
        r.0 == classify(line@),
        line_shown(line@, default_theme(), r.0, r.1@),
        r.0 == BlockKind::Bullet ==> r.1@.len() >= 2 && r.1@[0] == '•' && r.1@[1] == ' ',
        r.0 == BlockKind::Indent ==> r.1@.len() >= 2 && r.1@[0] == '│' && r.1@[1] == ' ',
{
    let theme = get_default_theme();
    get_line_to_render(line, &theme)
}

/// A rendered line as it is written out: after one space, and ended by a newline.
pub open spec fn output_line(rendered: Seq<char>) -> Seq<char> {
    seq![' '] + rendered + seq!['\n']
}

/// `out` is the lines of a document, each rendered and written out in order,
/// followed by two newlines.
pub open spec fn document_shown(lines: Seq<Seq<char>>, theme: Theme, out: Seq<char>) -> bool {
    exists|rendered: Seq<Seq<char>>|
        rendered.len() == lines.len() && (forall|i: int|
            0 <= i < lines.len() ==> #[trigger] line_shown(
                lines[i],
                theme,
                classify(lines[i]),
                rendered[i],
            )) && out == rendered.map_values(|r: Seq<char>| output_line(r)).flatten() + seq![
            '\n',
            '\n',
        ]
}

/// The text written for a document given line by line: each line rendered, after
/// one space and ended by a newline, then two newlines.
pub fn render_lines(lines: &Vec<String>, theme: &Theme) -> (r: String)
    ensures
        document_shown(views_of(lines@), *theme, r@),
{
    let mut out = String::new();
    let ghost mut rendered: Seq<Seq<char>> = Seq::empty();
    let mut k: usize = 0;
    while k < lines.len()
        invariant
            k <= lines@.len(),
            rendered.len() == k,
            forall|i: int|
                0 <= i < k ==> #[trigger] line_shown(
                    lines@[i]@,
                    *theme,
                    classify(lines@[i]@),
                    rendered[i],
                ),
            out@ == rendered.map_values(|r: Seq<char>| output_line(r)).flatten(),
        decreases lines.len() - k,
    {
        let (_, text) = get_line_to_render(lines[k].as_str(), theme);
        let ghost framed = rendered.map_values(|r: Seq<char>| output_line(r));
        out.push(' ');
        out.append(text.as_str());
        out.push('\n');
        proof {
            framed.lemma_flatten_push(output_line(text@));
            let next = rendered.push(text@);
            assert(next.map_values(|r: Seq<char>| output_line(r)) =~= framed.push(output_line(text@)));
            assert(out@ =~= framed.flatten() + output_line(text@));
            rendered = next;
        }
        k = k + 1;
    }
    out.push('\n');
    out.push('\n');
    assert(out@ =~= rendered.map_values(|r: Seq<char>| output_line(r)).flatten() + seq!['\n', '\n']);
    assert forall|i: int| 0 <= i < lines@.len() implies #[trigger] line_shown(
        views_of(lines@)[i],
        *theme,
        classify(views_of(lines@)[i]),
        rendered[i],
    ) by {
        assert(views_of(lines@)[i] == lines@[i]@);
    }
    out
}

/// The text written for a document: its lines, each rendered, after one space and
/// ended by a newline, then two newlines.
pub fn render(text: &str, theme: &Theme) -> (r: String)
    ensures
        document_shown(lines_of(text@), *theme, r@),
{
    let lines = split_lines(text);
    render_lines(&lines, theme)
}

} // verus!
