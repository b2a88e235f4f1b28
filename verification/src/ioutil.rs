//! Composable byte sources: eager buffers, zero padding, deferred content,
//! byte skipping and concatenation.

pub mod concat;
pub mod lazyopen;
pub mod readseek;
pub mod skip;

pub use crate::ioutil::concat::Concat;
pub use crate::ioutil::lazyopen::{LazyOpen, LazyState};
pub use crate::ioutil::readseek::{zeros, ByteState, ReadSeek, Source, SourceError};
pub use crate::ioutil::skip::Skip;
