//! Verified reading of PDF documents: the lexical and object grammar of
//! PDF files, cross-reference tables and the document structures built on
//! them.

pub mod cli;
pub mod document;
pub mod objects;
pub mod pages;
pub mod parser;
pub mod process_stream;
pub mod structures;
pub mod text;
pub mod types;
pub mod ui;
