//! The colors that each kind of markdown element is drawn with.
use vstd::prelude::*;

use crate::color::{Color, ColorError, color_from_hex, describes_failure};

verus! {

/// The colors of one kind of element; an absent color leaves the terminal's own.
#[derive(Clone, Copy, Debug, PartialEq, Eq, Structural)]
pub struct ElementTheme {
    /// Foreground color.
    pub fg: Option<Color>,
    /// Background color.
    pub bg: Option<Color>,
}

/// The colors of every kind of element.
#[derive(Clone, Copy, Debug, PartialEq, Eq, Structural)]
pub struct Theme {
    /// Headers: lines that start with `# `.
    pub header: ElementTheme,
    /// Code: spans between backticks, and lines that start and end with one.
    pub code_block: ElementTheme,
    /// Indents: lines that start with `> `.
    pub indents: ElementTheme,
    /// Links: spans between `<` and `>`.
    pub link: ElementTheme,
    /// List items: lines that start with `- `.
    pub list: ElementTheme,
}

/// The color that an optional code gives: `None` for no code, `Some(None)` when
/// the code is no color.
pub open spec fn optional_color(code: Option<Seq<char>>) -> Option<Option<Color>> {
    match code {
        None => Some(None),
        Some(c) => match color_from_hex(c) {
            Some(col) => Some(Some(col)),
            None => None,
        },
    }
}

/// The characters of an optional code.
pub open spec fn view_code(code: Option<&str>) -> Option<Seq<char>> {
    match code {
        None => None,
        Some(s) => Some(s@),
    }
}

fn read_optional(code: Option<&str>) -> (r: Result<Option<Color>, ColorError>)
    ensures
        r is Ok <==> optional_color(view_code(code)) is Some,
        match r {
            Ok(c) => optional_color(view_code(code)) == Some(c),
            Err(e) => code is Some && describes_failure(code->0@, e),
        },
{
    match code {
        None => Ok(None),
        Some(x) => match Color::new(x) {
            Ok(c) => Ok(Some(c)),
            Err(e) => Err(e),
        },
    }
}

impl ElementTheme {
    /// The element theme with the given hex codes. The background code is read
    /// first, so when both are wrong its error is the one returned.
    pub fn new(fg: Option<&str>, bg: Option<&str>) -> (r: Result<ElementTheme, ColorError>)
        ensures
            r is Ok <==> (optional_color(view_code(fg)) is Some && optional_color(view_code(bg)) is Some),
            r is Ok ==> r->Ok_0 == (ElementTheme {
                fg: optional_color(view_code(fg))->0,
                bg: optional_color(view_code(bg))->0,
            }),
            optional_color(view_code(bg)) is None ==> describes_failure(bg->0@, r->Err_0),
            optional_color(view_code(bg)) is Some && optional_color(view_code(fg)) is None
                ==> describes_failure(fg->0@, r->Err_0),
    {
        let bg_color = match read_optional(bg) {
            Ok(c) => c,
            Err(e) => return Err(e),
        };
        let fg_color = match read_optional(fg) {
            Ok(c) => c,
            Err(e) => return Err(e),
        };
        Ok(ElementTheme { fg: fg_color, bg: bg_color })
    }
}

/// The theme used when none is given: header on `#6155FB`; code in `#FF6060` on
/// `#303030`; indents in `#555`; links in `#008787`; list items uncolored.
pub open spec fn default_theme() -> Theme {
    Theme {
        header: ElementTheme { fg: None, bg: Some(Color { r: 0x61, g: 0x55, b: 0xFB }) },
        code_block: ElementTheme {
            fg: Some(Color { r: 0xFF, g: 0x60, b: 0x60 }),
            bg: Some(Color { r: 0x30, g: 0x30, b: 0x30 }),
        },
        indents: ElementTheme { fg: Some(Color { r: 0x55, g: 0x55, b: 0x55 }), bg: None },
        link: ElementTheme { fg: Some(Color { r: 0x00, g: 0x87, b: 0x87 }), bg: None },
        list: ElementTheme { fg: None, bg: None },
    }
}

/// The theme used when none is given.
pub fn get_default_theme() -> (t: Theme)
    ensures
        t == default_theme(),
{
    Theme {
        header: ElementTheme { fg: None, bg: Some(Color { r: 0x61, g: 0x55, b: 0xFB }) },
        code_block: ElementTheme {
            fg: Some(Color { r: 0xFF, g: 0x60, b: 0x60 }),
            bg: Some(Color { r: 0x30, g: 0x30, b: 0x30 }),
        },
        indents: ElementTheme { fg: Some(Color { r: 0x55, g: 0x55, b: 0x55 }), bg: None },
        link: ElementTheme { fg: Some(Color { r: 0x00, g: 0x87, b: 0x87 }), bg: None },
        list: ElementTheme { fg: None, bg: None },
    }
}

} // verus!
