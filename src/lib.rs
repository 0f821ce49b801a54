//! A terminal text editor's text model: grapheme-aware lines, annotated
//! text for rendering, and a multi-line document buffer.

pub mod text;
pub mod unicode;
pub mod line;
pub mod annotated;
pub mod fileinfo;
pub mod highlighter;
pub mod buffer;
pub mod command;
pub mod ui;
pub mod view;
pub mod editor;
