//! Document structures read from PDF objects: the cross-reference data, the
//! file identifier, the information dictionary, object streams and the
//! catalog.

pub mod fields;
pub mod hash;
pub mod info;
pub mod names;
pub mod object_stream;
pub mod page;
pub mod pages_tree;
pub mod resources;
pub mod root;
pub mod xref;
pub mod version;
