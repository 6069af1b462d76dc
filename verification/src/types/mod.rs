//! The PDF object model.

pub mod array;
pub mod copy;
pub mod dictionary;
pub mod indirect_object;
pub mod numeric;
pub mod object;
pub mod rectangle;
pub mod stream;
pub mod string;
