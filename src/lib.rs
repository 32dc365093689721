//! A read-only virtual filesystem engine and a library of composable,
//! seekable byte streams.

pub mod error;
pub mod readseek;
pub mod cursor;
pub mod pattern;
pub mod zeros;
pub mod concat;
pub mod skip;
pub mod oprecorder;
pub mod lazyopen;
pub mod fit;
pub mod mp3;
pub mod node;
pub mod nodecache;
pub mod filesystem;
pub mod mapping;
pub mod http;
