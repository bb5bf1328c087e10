//! Binary storage format for recordings: the on-disk layout, the writer that
//! builds a recording image, and the reader that validates and queries one.

pub mod format;
pub mod reader;
pub mod writer;
