//! Renders a small subset of markdown as styled terminal text: headers, list
//! items, indented lines and code lines, with code spans and links inside lines.
pub mod color;
pub mod inline;
pub mod pages;
pub mod renderer;
pub mod style;
pub mod text;
pub mod themes;

pub use color::{Color, ColorError};
pub use inline::{Token, get_link, render_code, render_text, tokenize};
pub use pages::get_languages;
pub use renderer::{
    BlockKind, get_bullet_line, get_header, get_indent_line, get_line_to_render, render, render_line,
    render_lines,
};
pub use style::{StyledText, convert_color, get_colored_text};
pub use themes::{ElementTheme, Theme, get_default_theme};
