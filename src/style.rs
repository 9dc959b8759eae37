//! Text with colors and attributes, and how it is written for a terminal.
use vstd::prelude::*;

use crate::color::Color;
use crate::themes::ElementTheme;

verus! {

/// `colored`'s 24-bit color, with its public channels `r`, `g` and `b`.
#[verifier::external_type_specification]
pub struct ExCustomColor(colored::CustomColor);

/// `colored`'s text attributes, one variant each.
#[verifier::external_type_specification]
pub struct ExStyles(colored::Styles);

/// `colored`'s set of text attributes, kept opaque.
#[verifier::external_type_specification]
#[verifier::external_body]
pub struct ExStyle(colored::Style);

/// Text together with the colors and attributes it is to be shown with.
pub struct StyledText {
    /// The characters shown.
    pub text: String,
    /// Foreground color, if any.
    pub fg: Option<Color>,
    /// Background color, if any.
    pub bg: Option<Color>,
    /// Shown in bold.
    pub bold: bool,
    /// Shown underlined.
    pub underline: bool,
}

/// A `StyledText` as a value.
pub struct StyledView {
    pub text: Seq<char>,
    pub fg: Option<Color>,
    pub bg: Option<Color>,
    pub bold: bool,
    pub underline: bool,
}

impl View for StyledText {
    type V = StyledView;

    open spec fn view(&self) -> StyledView {
        StyledView {
            text: self.text@,
            fg: self.fg,
            bg: self.bg,
            bold: self.bold,
            underline: self.underline,
        }
    }
}

/// `text` in the colors of `element`, with no attribute.
pub open spec fn colored_view(text: Seq<char>, element: ElementTheme) -> StyledView {
    StyledView { text, fg: element.fg, bg: element.bg, bold: false, underline: false }
}

/// No color and no attribute.
pub open spec fn is_plain(s: StyledView) -> bool {
    s.fg is None && s.bg is None && !s.bold && !s.underline
}

/// The escape that starts a select-graphic-rendition sequence.
pub open spec fn csi() -> Seq<char> {
    seq!['\u{1b}', '[']
}

/// The sequence that resets every color and attribute.
pub open spec fn reset() -> Seq<char> {
    seq!['\u{1b}', '[', '0', 'm']
}

/// Whether the reset sequence occurs in `s`.
pub open spec fn contains_reset(s: Seq<char>) -> bool {
    exists|i: int| crate::text::occurs_at(s, reset(), i)
}

/// `out` opens with a rendition sequence and closes with a reset.
pub open spec fn is_framed(out: Seq<char>) -> bool {
    out.len() >= csi().len() + reset().len() && out.take(csi().len() as int) == csi()
        && out.skip(out.len() - reset().len()) == reset()
}

/// `codes` as a complete rendition sequence.
pub open spec fn rendition(codes: Seq<char>) -> Seq<char> {
    csi() + codes + seq!['m']
}

/// What holds of `out` when it is `s` written for a terminal, whether or not the
/// terminal takes colors: plain text is written as it is; otherwise the text is
/// written as it is, or framed by a rendition sequence and a reset.
pub open spec fn displays(s: StyledView, out: Seq<char>) -> bool {
    &&& is_plain(s) ==> out == s.text
    &&& out == s.text || is_framed(out)
    &&& !contains_reset(s.text) ==> (out == s.text || exists|codes: Seq<char>|
        out == rendition(codes) + s.text + reset())
}

/// Relies on `colored`: `ColoredString`'s `Display` writes the input alone when
/// colors are off or no color and no style is set; otherwise it writes a
/// rendition sequence, the input (with that sequence repeated after each reset
/// inside it) and a reset.
#[verifier::external_body]
fn colorize(
    text: &str,
    fg: Option<colored::CustomColor>,
    bg: Option<colored::CustomColor>,
    styles: Vec<colored::Styles>,
) -> (r: String)
    ensures
        fg is None && bg is None && styles@.len() == 0 ==> r@ == text@,
        r@ == text@ || is_framed(r@),
        !contains_reset(text@) ==> (r@ == text@ || exists|codes: Seq<char>|
            r@ == rendition(codes) + text@ + reset()),
{
    let mut cs = colored::ColoredString::from(text);
    cs.fgcolor = fg.map(|c| colored::Color::TrueColor { r: c.r, g: c.g, b: c.b });
    cs.bgcolor = bg.map(|c| colored::Color::TrueColor { r: c.r, g: c.g, b: c.b });
    cs.style = styles.into_iter().collect();
    cs.to_string()
}

/// The color as `colored` takes it.
pub fn convert_color(color: &Color) -> (r: colored::CustomColor)
    ensures
        r.r == color.r && r.g == color.g && r.b == color.b,
{
    colored::CustomColor { r: color.r, g: color.g, b: color.b }
}

fn convert_optional(color: Option<Color>) -> (r: Option<colored::CustomColor>)
    ensures
        r is None <==> color is None,
{
    match color {
        Some(c) => Some(convert_color(&c)),
        None => None,
    }
}

/// `text` in the colors of `color`: its foreground when it has one, its
/// background when it has one, and no attribute.
pub fn get_colored_text(text: &str, color: &ElementTheme) -> (r: StyledText)
    ensures
        r@ == colored_view(text@, *color),
{
    StyledText { text: text.to_owned(), fg: color.fg, bg: color.bg, bold: false, underline: false }
}

impl StyledText {
    /// The same text, also in bold.
    pub fn bold(self) -> (r: StyledText)
        ensures
            r@ == (StyledView { bold: true, ..self@ }),
    {
        StyledText { bold: true, ..self }
    }

    /// The same text, also underlined.
    pub fn underline(self) -> (r: StyledText)
        ensures
            r@ == (StyledView { underline: true, ..self@ }),
    {
        StyledText { underline: true, ..self }
    }

    /// The text written for a terminal, with its colors and attributes.
    pub fn paint(&self) -> (r: String)
        ensures
            displays(self@, r@),
    {
        let mut styles: Vec<colored::Styles> = Vec::new();
        if self.bold {
            styles.push(colored::Styles::Bold);
        }
        if self.underline {
            styles.push(colored::Styles::Underline);
        }
        colorize(self.text.as_str(), convert_optional(self.fg), convert_optional(self.bg), styles)
    }
}

} // verus!
