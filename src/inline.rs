//! Spans inside a line: code between backticks and links between `<` and `>`.
use vstd::prelude::*;
use vstd::seq_lib::lemma_flatten_concat;

use crate::style::{StyledView, colored_view, displays, get_colored_text};
use crate::text::{char_at, chars_of, push_range, remove_all, remove_all_of};
use crate::themes::{ElementTheme, Theme};

verus! {

/// One piece of a line, as the scanner reads it.
#[derive(Debug, PartialEq, Eq)]
pub enum Token {
    /// A character outside any span.
    Char(char),
    /// A code span, both backticks included.
    Code(String),
    /// The text between `<` and `>`.
    Link(String),
}

/// A token as a value.
pub enum TokenView {
    Char(char),
    Code(Seq<char>),
    Link(Seq<char>),
}

impl View for Token {
    type V = TokenView;

    open spec fn view(&self) -> TokenView {
        match self {
            Token::Char(c) => TokenView::Char(*c),
            Token::Code(s) => TokenView::Code(s@),
            Token::Link(s) => TokenView::Link(s@),
        }
    }
}

/// Where the scanner stands: outside any span, or inside one opened at a position.
pub enum ScanState {
    Plain,
    InCode(int),
    InLink(int),
}

/// The tokens of `s` from position `i` on, the scanner being in state `st`. A
/// span still open at the end of the line gives nothing.
pub open spec fn scan(s: Seq<char>, i: int, st: ScanState) -> Seq<TokenView>
    decreases s.len() - i,
{
    if i < 0 || i >= s.len() {
        Seq::empty()
    } else {
        match st {
            ScanState::Plain => if s[i] == '`' {
                scan(s, i + 1, ScanState::InCode(i))
            } else if s[i] == '<' {
                scan(s, i + 1, ScanState::InLink(i))
            } else {
                seq![TokenView::Char(s[i])] + scan(s, i + 1, ScanState::Plain)
            },
            ScanState::InCode(start) => if s[i] == '`' {
                seq![TokenView::Code(s.subrange(start, i + 1))] + scan(s, i + 1, ScanState::Plain)
            } else {
                scan(s, i + 1, ScanState::InCode(start))
            },
            ScanState::InLink(start) => if s[i] == '>' {
                seq![TokenView::Link(s.subrange(start + 1, i))] + scan(s, i + 1, ScanState::Plain)
            } else {
                scan(s, i + 1, ScanState::InLink(start))
            },
        }
    }
}

/// Outside any span, a character that opens none is a token of its own.
pub proof fn lemma_scan_plain_char(s: Seq<char>, i: int, c: char)
    requires
        0 <= i < s.len(),
        s[i] == c,
        c != '`' && c != '<',
    ensures
        scan(s, i, ScanState::Plain) == seq![TokenView::Char(c)] + scan(s, i + 1, ScanState::Plain),
{
}

/// A span that no later character closes yields nothing: once a code span is
/// open with no backtick after it, or a link with no `>` after it, the rest of
/// the line is dropped.
pub proof fn lemma_unclosed_span_dropped(s: Seq<char>, i: int, start: int)
    requires
        0 <= i <= s.len(),
    ensures
        (forall|j: int| i <= j < s.len() ==> s[j] != '`') ==> scan(s, i, ScanState::InCode(start))
            == Seq::<TokenView>::empty(),
        (forall|j: int| i <= j < s.len() ==> s[j] != '>') ==> scan(s, i, ScanState::InLink(start))
            == Seq::<TokenView>::empty(),
    decreases s.len() - i,
{
    if i < s.len() {
        lemma_unclosed_span_dropped(s, i + 1, start);
    }
}

/// Whether no character of `a` opens a span.
pub open spec fn opens_no_span(a: Seq<char>) -> bool {
    forall|k: int| 0 <= k < a.len() ==> a[k] != '`' && a[k] != '<'
}

/// Each character of `a` as a token of its own.
pub open spec fn char_tokens(a: Seq<char>) -> Seq<TokenView>
    decreases a.len(),
{
    if a.len() == 0 {
        Seq::empty()
    } else {
        seq![TokenView::Char(a[0])] + char_tokens(a.drop_first())
    }
}

proof fn lemma_char_tokens_first(a: Seq<char>, c: char)
    requires
        a.len() > 0,
        a[0] == c,
    ensures
        char_tokens(a) == seq![TokenView::Char(c)] + char_tokens(a.drop_first()),
{
}

/// The character at position `i`, as a value of its own.
proof fn char_of(s: Seq<char>, i: int) -> (c: char)
    requires
        0 <= i < s.len(),
    ensures
        c == s[i],
{
    s[i]
}

proof fn lemma_plain_run(s: Seq<char>, i: int, j: int)
    requires
        0 <= i <= j <= s.len(),
        opens_no_span(s.subrange(i, j)),
    ensures
        scan(s, i, ScanState::Plain) == char_tokens(s.subrange(i, j)) + scan(s, j, ScanState::Plain),
    decreases j - i,
{
    if i < j {
        let c = char_of(s, i);
        assert(s.subrange(i, j)[0] == c);
        lemma_scan_plain_char(s, i, c);
        let rest = s.subrange(i + 1, j);
        assert(opens_no_span(rest)) by {
            assert forall|k: int| 0 <= k < rest.len() implies #[trigger] rest[k] != '`' && rest[k]
                != '<' by {
                assert(rest[k] == s.subrange(i, j)[k + 1]);
            }
        }
        lemma_plain_run(s, i + 1, j);
        lemma_char_tokens_first(s.subrange(i, j), c);
        assert(s.subrange(i, j).drop_first() =~= rest);
        assert(scan(s, i, ScanState::Plain) =~= char_tokens(s.subrange(i, j)) + scan(
            s,
            j,
            ScanState::Plain,
        ));
    } else {
        assert(char_tokens(s.subrange(i, j)) + scan(s, j, ScanState::Plain) =~= scan(
            s,
            j,
            ScanState::Plain,
        ));
    }
}

proof fn lemma_span_run(s: Seq<char>, i: int, j: int, start: int)
    requires
        0 <= i <= j <= s.len(),
    ensures
        (forall|k: int| i <= k < j ==> s[k] != '`') ==> scan(s, i, ScanState::InCode(start)) == scan(
            s,
            j,
            ScanState::InCode(start),
        ),
        (forall|k: int| i <= k < j ==> s[k] != '>') ==> scan(s, i, ScanState::InLink(start)) == scan(
            s,
            j,
            ScanState::InLink(start),
        ),
    decreases j - i,
{
    if i < j {
        lemma_span_run(s, i + 1, j, start);
    }
}

/// Plain text, a code span, and plain text: the tokens are the characters of the
/// first text, the span with its backticks, and the characters of the second.
pub proof fn lemma_code_span_between_text(a: Seq<char>, b: Seq<char>, c: Seq<char>)
    requires
        opens_no_span(a),
        opens_no_span(c),
        forall|k: int| 0 <= k < b.len() ==> b[k] != '`',
    ensures
        tokens(a + seq!['`'] + b + seq!['`'] + c) == char_tokens(a) + seq![
            TokenView::Code(seq!['`'] + b + seq!['`']),
        ] + char_tokens(c),
{
    let s = a + seq!['`'] + b + seq!['`'] + c;
    let n = a.len() as int;
    let m = b.len() as int;
    assert(s.subrange(0, n) =~= a);
    assert(s.subrange(n + m + 2, s.len() as int) =~= c);
    lemma_plain_run(s, 0, n);
    assert(s[n] == '`');
    assert(scan(s, n, ScanState::Plain) == scan(s, n + 1, ScanState::InCode(n)));
    assert forall|k: int| n + 1 <= k < n + 1 + m implies s[k] != '`' by {
        assert(s[k] == b[k - n - 1]);
    }
    lemma_span_run(s, n + 1, n + 1 + m, n);
    assert(s[n + 1 + m] == '`');
    assert(s.subrange(n, n + m + 2) =~= seq!['`'] + b + seq!['`']);
    lemma_plain_run(s, n + m + 2, s.len() as int);
    lemma_unclosed_span_dropped(s, s.len() as int, 0);
    assert(scan(s, s.len() as int, ScanState::Plain) == Seq::<TokenView>::empty());
    assert(tokens(s) =~= char_tokens(a) + seq![TokenView::Code(seq!['`'] + b + seq!['`'])]
        + char_tokens(c));
}

/// Plain text, a link, and plain text: the tokens are the characters of the first
/// text, the text between `<` and `>`, and the characters of the second.
pub proof fn lemma_link_between_text(a: Seq<char>, b: Seq<char>, c: Seq<char>)
    requires
        opens_no_span(a),
        opens_no_span(c),
        forall|k: int| 0 <= k < b.len() ==> b[k] != '>',
    ensures
        tokens(a + seq!['<'] + b + seq!['>'] + c) == char_tokens(a) + seq![TokenView::Link(b)]
            + char_tokens(c),
{
    let s = a + seq!['<'] + b + seq!['>'] + c;
    let n = a.len() as int;
    let m = b.len() as int;
    assert(s.subrange(0, n) =~= a);
    assert(s.subrange(n + m + 2, s.len() as int) =~= c);
    lemma_plain_run(s, 0, n);
    assert(s[n] == '<');
    assert(scan(s, n, ScanState::Plain) == scan(s, n + 1, ScanState::InLink(n)));
    assert forall|k: int| n + 1 <= k < n + 1 + m implies s[k] != '>' by {
        assert(s[k] == b[k - n - 1]);
    }
    lemma_span_run(s, n + 1, n + 1 + m, n);
    assert(s[n + 1 + m] == '>');
    assert(s.subrange(n + 1, n + 1 + m) =~= b);
    lemma_plain_run(s, n + m + 2, s.len() as int);
    assert(scan(s, s.len() as int, ScanState::Plain) == Seq::<TokenView>::empty());
    assert(tokens(s) =~= char_tokens(a) + seq![TokenView::Link(b)] + char_tokens(c));
}

/// Plain text followed by a span that is never closed: only the characters of the
/// text are tokens; the span and all after it are dropped.
pub proof fn lemma_unclosed_span_after_text(a: Seq<char>, open: char, b: Seq<char>)
    requires
        opens_no_span(a),
        open == '`' || open == '<',
        forall|k: int| 0 <= k < b.len() ==> b[k] != (if open == '`' { '`' } else { '>' }),
    ensures
        tokens(a + seq![open] + b) == char_tokens(a),
{
    let s = a + seq![open] + b;
    let n = a.len() as int;
    assert(s.subrange(0, n) =~= a);
    lemma_plain_run(s, 0, n);
    assert(s[n] == open);
    assert forall|k: int| n + 1 <= k < s.len() implies s[k] != (if open == '`' { '`' } else { '>' }) by {
        assert(s[k] == b[k - n - 1]);
    }
    lemma_unclosed_span_dropped(s, n + 1, n);
    assert(tokens(s) =~= char_tokens(a));
}

/// The tokens of a line.
pub open spec fn tokens(s: Seq<char>) -> Seq<TokenView> {
    scan(s, 0, ScanState::Plain)
}

/// Whether the tokens `ts` are, one by one, the values `vs`.
pub open spec fn views_are(ts: Seq<Token>, vs: Seq<TokenView>) -> bool {
    ts.len() == vs.len() && forall|i: int| 0 <= i < ts.len() ==> #[trigger] ts[i]@ == vs[i]
}

/// Where the scanner stands while it runs.
enum Mode {
    Plain,
    InCode(usize),
    InLink(usize),
}

impl View for Mode {
    type V = ScanState;

    closed spec fn view(&self) -> ScanState {
        match self {
            Mode::Plain => ScanState::Plain,
            Mode::InCode(start) => ScanState::InCode(*start as int),
            Mode::InLink(start) => ScanState::InLink(*start as int),
        }
    }
}

proof fn lemma_push_token(out: Seq<Token>, seen: Seq<TokenView>, t: Token, rest: Seq<TokenView>)
    requires
        views_are(out, seen),
    ensures
        views_are(out.push(t), seen.push(t@)),
        seen + (seq![t@] + rest) == seen.push(t@) + rest,
{
    let o = out.push(t);
    let s = seen.push(t@);
    assert forall|k: int| 0 <= k < o.len() implies #[trigger] o[k]@ == s[k] by {
        if k < out.len() {
            assert(o[k] == out[k]);
        }
    }
    assert(seen + (seq![t@] + rest) =~= seen.push(t@) + rest);
}

/// Splits a line into characters outside spans, code spans and link spans, in
/// order. A span that is not closed by the end of the line is dropped with
/// everything after its opening character.
pub fn tokenize(line: &str) -> (r: Vec<Token>)
    ensures
        views_are(r@, tokens(line@)),
{
    let v = chars_of(line);
    let mut out: Vec<Token> = Vec::new();
    let mut mode = Mode::Plain;
    let mut i: usize = 0;
    let ghost mut seen: Seq<TokenView> = Seq::empty();
    while i < v.len()
        invariant
            views_are(out@, seen),
            v@ == line@,
            i <= v@.len(),
            mode matches Mode::InCode(start) ==> start < i,
            mode matches Mode::InLink(start) ==> start < i,
            tokens(line@) == seen + scan(v@, i as int, mode@),
        decreases v.len() - i,
    {
        let c = char_at(&v, i);
        let ghost rest = scan(v@, i + 1, ScanState::Plain);
        match mode {
            Mode::Plain => {
                if c == '`' {
                    mode = Mode::InCode(i);
                } else if c == '<' {
                    mode = Mode::InLink(i);
                } else {
                    proof {
                        lemma_push_token(out@, seen, Token::Char(c), rest);
                    }
                    out.push(Token::Char(c));
                    proof {
                        seen = seen.push(TokenView::Char(c));
                    }
                }
            },
            Mode::InCode(start) => {
                if c == '`' {
                    let mut raw = String::new();
                    push_range(&mut raw, &v, start, i + 1);
                    assert(raw@ =~= v@.subrange(start as int, i + 1));
                    proof {
                        lemma_push_token(out@, seen, Token::Code(raw), rest);
                    }
                    out.push(Token::Code(raw));
                    mode = Mode::Plain;
                    proof {
                        seen = seen.push(TokenView::Code(v@.subrange(start as int, i + 1)));
                    }
                }
            },
            Mode::InLink(start) => {
                if c == '>' {
                    let mut raw = String::new();
                    push_range(&mut raw, &v, start + 1, i);
                    assert(raw@ =~= v@.subrange(start + 1, i as int));
                    proof {
                        lemma_push_token(out@, seen, Token::Link(raw), rest);
                    }
                    out.push(Token::Link(raw));
                    mode = Mode::Plain;
                    proof {
                        seen = seen.push(TokenView::Link(v@.subrange(start + 1, i as int)));
                    }
                }
            },
        }
        i = i + 1;
    }
    assert(seen =~= seen + Seq::<TokenView>::empty());
    out
}

/// What a code span shows: the text between its backticks, one space on each
/// side, with every `{{` and then every `}}` removed.
pub open spec fn code_text(span: Seq<char>) -> Seq<char> {
    let inner = if span.len() >= 2 { span.subrange(1, span.len() - 1) } else { Seq::empty() };
    remove_all(remove_all(seq![' '] + inner + seq![' '], seq!['{', '{']), seq!['}', '}'])
}

/// A code span's text in the code colors.
pub open spec fn code_view(span: Seq<char>, theme: Theme) -> StyledView {
    colored_view(code_text(span), theme.code_block)
}

/// Renders a code span: its text in the code colors.
pub fn render_code(line: &str, theme: &Theme) -> (r: String)
    ensures
        displays(code_view(line@, *theme), r@),
{
    let v = chars_of(line);
    let mut padded = String::new();
    padded.push(' ');
    if v.len() >= 2 {
        push_range(&mut padded, &v, 1, v.len() - 1);
    }
    padded.push(' ');
    proof {
        reveal_strlit("{{");
        reveal_strlit("}}");
    }
    let open_removed = remove_all_of(padded.as_str(), "{{");
    let text = remove_all_of(open_removed.as_str(), "}}");
    assert("{{"@ =~= seq!['{', '{']);
    assert("}}"@ =~= seq!['}', '}']);
    assert(text@ == code_text(line@)) by {
        if v@.len() >= 2 {
            assert(padded@ =~= seq![' '] + line@.subrange(1, line@.len() - 1) + seq![' ']);
        } else {
            assert(padded@ =~= seq![' '] + Seq::<char>::empty() + seq![' ']);
        }
    }
    get_colored_text(text.as_str(), &theme.code_block).paint()
}

/// `url` in the link colors, underlined.
pub open spec fn link_view(url: Seq<char>, theme: Theme) -> StyledView {
    StyledView { underline: true, ..colored_view(url, theme.link) }
}

/// The escape that opens a terminal hyperlink, up to its target.
pub open spec fn hyperlink_open() -> Seq<char> {
    seq!['\u{1b}', ']', '8', ';', ';']
}

/// The string terminator that ends each half of a hyperlink escape.
pub open spec fn terminator() -> Seq<char> {
    seq!['\u{1b}', '\\']
}

/// A terminal hyperlink to `target` showing `label`.
pub open spec fn hyperlink(target: Seq<char>, label: Seq<char>) -> Seq<char> {
    hyperlink_open() + target + terminator() + label + hyperlink_open() + terminator()
}

/// `out` is a hyperlink to `url` whose label is `url` shown as a link.
pub open spec fn link_shown(url: Seq<char>, theme: Theme, out: Seq<char>) -> bool {
    exists|label: Seq<char>| displays(link_view(url, theme), label) && out == hyperlink(url, label)
}

/// Renders the text of a link span as a hyperlink to that text, shown in the link
/// colors and underlined.
pub fn get_link(line: &str, theme: &Theme) -> (r: String)
    ensures
        link_shown(line@, *theme, r@),
{
    let label = get_colored_text(line, &theme.link).underline().paint();
    let mut r = String::new();
    proof {
        reveal_strlit("\u{1b}]8;;");
        reveal_strlit("\u{1b}\\");
    }
    assert("\u{1b}]8;;"@ =~= hyperlink_open());
    assert("\u{1b}\\"@ =~= terminator());
    r.append("\u{1b}]8;;");
    r.append(line);
    r.append("\u{1b}\\");
    r.append(label.as_str());
    r.append("\u{1b}]8;;");
    r.append("\u{1b}\\");
    assert(r@ =~= hyperlink(line@, label@));
    r
}

/// `out` is what token `t` is rendered as.
pub open spec fn token_shown(t: TokenView, theme: Theme, out: Seq<char>) -> bool {
    match t {
        TokenView::Char(c) => out == seq![c],
        TokenView::Code(span) => displays(code_view(span, theme), out),
        TokenView::Link(url) => link_shown(url, theme, out),
    }
}

/// `parts` are, one by one, what the tokens `ts` are rendered as.
pub open spec fn parts_shown(ts: Seq<TokenView>, theme: Theme, parts: Seq<Seq<char>>) -> bool {
    parts.len() == ts.len() && forall|i: int|
        0 <= i < ts.len() ==> #[trigger] token_shown(ts[i], theme, parts[i])
}

/// `out` is the line `line` with its spans rendered: each token rendered in turn.
pub open spec fn text_shown(line: Seq<char>, theme: Theme, out: Seq<char>) -> bool {
    exists|parts: Seq<Seq<char>>| parts_shown(tokens(line), theme, parts) && out == parts.flatten()
}

/// Renders the spans of a line: characters outside spans are kept, code spans and
/// links are rendered in their colors, and a span left open is dropped. Each span
/// takes its colors from `theme`; the element theme of the line is not used.
pub fn render_text(line: &str, theme: &Theme, _cur_element: &ElementTheme) -> (r: String)
    ensures
        text_shown(line@, *theme, r@),
{
    let toks = tokenize(line);
    let ghost ts = tokens(line@);
    let mut out = String::new();
    let ghost mut parts: Seq<Seq<char>> = Seq::empty();
    let mut k: usize = 0;
    while k < toks.len()
        invariant
            views_are(toks@, ts),
            k <= toks@.len(),
            parts.len() == k,
            forall|i: int| 0 <= i < k ==> #[trigger] token_shown(ts[i], *theme, parts[i]),
            out@ == parts.flatten(),
        decreases toks.len() - k,
    {
        let ghost before = out@;
        let piece = match &toks[k] {
            Token::Char(c) => {
                let mut one = String::new();
                one.push(*c);
                one
            },
            Token::Code(span) => render_code(span.as_str(), theme),
            Token::Link(url) => get_link(url.as_str(), theme),
        };
        assert(toks@[k as int]@ == ts[k as int]);
        assert(token_shown(ts[k as int], *theme, piece@));
        out.append(piece.as_str());
        proof {
            parts.lemma_flatten_push(piece@);
            parts = parts.push(piece@);
        }
        k = k + 1;
    }
    assert(parts_shown(tokens(line@), *theme, parts));
    out
}

proof fn lemma_char_tokens_len(x: Seq<char>)
    ensures
        char_tokens(x).len() == x.len(),
    decreases x.len(),
{
    if x.len() > 0 {
        let c = char_of(x, 0);
        lemma_char_tokens_first(x, c);
        lemma_char_tokens_len(x.drop_first());
    }
}

proof fn lemma_chars_render_as_themselves(x: Seq<char>, theme: Theme, ps: Seq<Seq<char>>)
    requires
        parts_shown(char_tokens(x), theme, ps),
    ensures
        ps.flatten() == x,
    decreases x.len(),
{
    lemma_char_tokens_len(x);
    if x.len() > 0 {
        let c = char_of(x, 0);
        lemma_char_tokens_first(x, c);
        let ts = char_tokens(x);
        let rest = x.drop_first();
        assert(token_shown(ts[0], theme, ps[0]));
        assert(ps[0] == seq![c]);
        assert(parts_shown(char_tokens(rest), theme, ps.drop_first())) by {
            assert forall|i: int| 0 <= i < char_tokens(rest).len() implies #[trigger] token_shown(
                char_tokens(rest)[i],
                theme,
                ps.drop_first()[i],
            ) by {
                assert(char_tokens(rest)[i] == ts[i + 1]);
                assert(token_shown(ts[i + 1], theme, ps[i + 1]));
            }
        }
        lemma_chars_render_as_themselves(rest, theme, ps.drop_first());
        assert(x =~= seq![c] + rest);
    } else {
        assert(ps.len() == 0);
        assert(ps =~= Seq::<Seq<char>>::empty());
    }
}

proof fn lemma_text_around_token(
    line: Seq<char>,
    theme: Theme,
    out: Seq<char>,
    a: Seq<char>,
    t: TokenView,
    c: Seq<char>,
)
    requires
        text_shown(line, theme, out),
        tokens(line) == char_tokens(a) + seq![t] + char_tokens(c),
    ensures
        exists|p: Seq<char>| token_shown(t, theme, p) && out == a + p + c,
{
    let ts = tokens(line);
    let ps = choose|ps: Seq<Seq<char>>| parts_shown(ts, theme, ps) && out == ps.flatten();
    lemma_char_tokens_len(a);
    lemma_char_tokens_len(c);
    let n = a.len() as int;
    let pa = ps.subrange(0, n);
    let pc = ps.subrange(n + 1, ps.len() as int);
    assert(parts_shown(char_tokens(a), theme, pa)) by {
        assert forall|i: int| 0 <= i < char_tokens(a).len() implies #[trigger] token_shown(
            char_tokens(a)[i],
            theme,
            pa[i],
        ) by {
            assert(ts[i] == char_tokens(a)[i]);
            assert(token_shown(ts[i], theme, ps[i]));
        }
    }
    assert(parts_shown(char_tokens(c), theme, pc)) by {
        assert forall|i: int| 0 <= i < char_tokens(c).len() implies #[trigger] token_shown(
            char_tokens(c)[i],
            theme,
            pc[i],
        ) by {
            assert(ts[n + 1 + i] == char_tokens(c)[i]);
            assert(token_shown(ts[n + 1 + i], theme, ps[n + 1 + i]));
        }
    }
    lemma_chars_render_as_themselves(a, theme, pa);
    lemma_chars_render_as_themselves(c, theme, pc);
    assert(ts[n] == t);
    assert(token_shown(t, theme, ps[n]));
    assert(ps =~= pa + seq![ps[n]] + pc);
    lemma_flatten_concat(pa + seq![ps[n]], pc);
    lemma_flatten_concat(pa, seq![ps[n]]);
    seq![ps[n]].lemma_flatten_one_element();
    assert(out == a + ps[n] + c);
}

/// Rendering plain text, a code span and plain text gives the first text as it
/// is, the span's text shown in the code colors, then the second text as it is.
pub proof fn lemma_code_span_rendered(
    a: Seq<char>,
    b: Seq<char>,
    c: Seq<char>,
    theme: Theme,
    out: Seq<char>,
)
    requires
        opens_no_span(a),
        opens_no_span(c),
        forall|k: int| 0 <= k < b.len() ==> b[k] != '`',
        text_shown(a + seq!['`'] + b + seq!['`'] + c, theme, out),
    ensures
        exists|p: Seq<char>|
            displays(code_view(seq!['`'] + b + seq!['`'], theme), p) && out == a + p + c,
{
    lemma_code_span_between_text(a, b, c);
    lemma_text_around_token(
        a + seq!['`'] + b + seq!['`'] + c,
        theme,
        out,
        a,
        TokenView::Code(seq!['`'] + b + seq!['`']),
        c,
    );
}

/// Rendering plain text, a link and plain text gives the first text as it is, a
/// hyperlink to the link's text, then the second text as it is.
pub proof fn lemma_link_rendered(
    a: Seq<char>,
    b: Seq<char>,
    c: Seq<char>,
    theme: Theme,
    out: Seq<char>,
)
    requires
        opens_no_span(a),
        opens_no_span(c),
        forall|k: int| 0 <= k < b.len() ==> b[k] != '>',
        text_shown(a + seq!['<'] + b + seq!['>'] + c, theme, out),
    ensures
        exists|p: Seq<char>| link_shown(b, theme, p) && out == a + p + c,
{
    lemma_link_between_text(a, b, c);
    lemma_text_around_token(a + seq!['<'] + b + seq!['>'] + c, theme, out, a, TokenView::Link(b), c);
}

/// Rendering plain text followed by a span that is never closed gives the text
/// alone.
pub proof fn lemma_unclosed_span_rendered(
    a: Seq<char>,
    open: char,
    b: Seq<char>,
    theme: Theme,
    out: Seq<char>,
)
    requires
        opens_no_span(a),
        open == '`' || open == '<',
        forall|k: int| 0 <= k < b.len() ==> b[k] != (if open == '`' { '`' } else { '>' }),
        text_shown(a + seq![open] + b, theme, out),
    ensures
        out == a,
{
    lemma_unclosed_span_after_text(a, open, b);
    let ps = choose|ps: Seq<Seq<char>>| parts_shown(tokens(a + seq![open] + b), theme, ps) && out == ps.flatten();
    lemma_chars_render_as_themselves(a, theme, ps);
}

} // verus!
