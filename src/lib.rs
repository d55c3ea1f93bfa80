//! Extraction of keyboard layouts from TMK-style firmware keymap sources.
//!
//! The parser locates the `keymaps[][MATRIX_ROWS][MATRIX_COLS]` grid and the
//! `fn_actions[]` table inside an otherwise unconstrained C file and turns them
//! into a list of layers and a map of actions. Every grammar rule is stated as
//! a spec function over the remaining input bytes (`grammar`, `lexer`), and
//! each executable parser is proved to compute exactly what its rule says
//! (`parser`). `laws` proves properties that relate several rules, and
//! `printing` proves that a section written with any whitespace and comments
//! between its tokens parses to what it was written from.
//!
//! `render` draws a parsed layout as an SVG picture of an ErgoDox.

pub mod types;
pub mod lexer;
pub mod grammar;
pub mod parser;
pub mod text;
pub mod face;
pub mod label;
pub mod svgnode;
pub mod render;
pub mod picture;
pub mod laws;
pub mod printing;

pub use types::{Action, ActionMap, Key, KeyMap, KeyMapVec, ParseError};
pub use parser::{
    parse_action, parse_action_definition, parse_actions, parse_integer, parse_key,
    parse_keymap, parse_keymaps, parse_string, skip_insignificant,
};
pub use face::{Caption, KeyFace, Press};
pub use label::textoutput;
pub use render::{to_svg, KeyShape, Keyboard};
pub use text::decimal_string;
