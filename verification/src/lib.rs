//! Core of a modal text editor: buffer text storage, cursors and selections,
//! multiple views over a shared buffer, and the positional fixups that keep
//! every view consistent while text changes underneath it.
//!
//! Text is addressed by `(line_index, column_byte_index)` pairs, where the
//! column is a byte offset into the line's UTF-8 encoding. All operations are
//! specified against a mathematical model of the buffer as a sequence of
//! lines, each a sequence of bytes.

pub mod buffer;
pub mod buffer_position;
pub mod buffer_view;
pub mod command;
pub mod cursor;
pub mod history;
pub mod mode;
pub mod platform;
