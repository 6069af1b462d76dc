//! Parsers for the PDF object syntax. Every parser works on a byte buffer and
//! a position in it; its behaviour is stated by a spec function over the
//! buffer's contents.

pub mod boolean;
pub mod date;
pub mod file;
pub mod name;
pub mod numeric;
pub mod object;
pub mod object_stream;
pub mod outcome;
pub mod process_stream_buffer;
pub mod string;
pub mod whitespace;
