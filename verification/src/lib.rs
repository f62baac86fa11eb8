//! A backend for viewing, searching and editing very large text files.

pub mod codec;
pub mod display;
pub mod editor;
pub mod encoding;
pub mod filter;
pub mod laws;
pub mod numbers;
pub mod output;
pub mod pattern;
pub mod pieces;
pub mod prefix;
pub mod publish;
pub mod row_text;
pub mod sample_log;
pub mod scan;
pub mod scroll;
pub mod session;
pub mod shown_laws;
pub mod text;
pub mod utf16;
pub mod utf8_lines;
pub mod written_laws;
