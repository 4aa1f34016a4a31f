//! Terminal rendering of Markdown documents.
//!
//! The library turns Markdown text into text for a terminal: headings,
//! emphasis, block quotes, lists, code and tables, with or without ANSI
//! styling.
//!
//! - `events`: the Markdown events, parsed by pulldown-cmark;
//! - `model`: what each event does to the renderer's state, as a
//!   specification;
//! - `renderer`: the executable renderer, proved to follow `model`;
//! - `theme`: the ANSI styles, written by crossterm;
//! - `table`: tables, drawn by comfy-table;
//! - `cli`: the command line's decisions (color, separators);
//! - `laws`: properties of whole renderings;
//! - `ansi`: removing ANSI control sequences;
//! - `color_law`: color only adds escape codes to a rendering;
//! - `text`: repetition and decimal notation.

pub mod text;
pub mod theme;
pub mod events;
pub mod table;
pub mod model;
pub mod renderer;
pub mod cli;
pub mod laws;
pub mod ansi;
pub mod color_law;
