//! Random access over a forward-only byte source.
//!
//! `AccReader` keeps every byte its source has produced, so that earlier data can be
//! read again and positions can be addressed from the start, the cursor or the end.

pub mod laws;
pub mod reader;
pub mod source;

pub use reader::{
    AccReader, Error, ErrorKind, SeekFrom, DEFAULT_BUF_CAPACITY, DEFAULT_BUF_INCREMENT,
};
pub use source::{NoError, Source};
