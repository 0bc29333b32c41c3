//! Read-side driver for FAT-style on-disk directory structures.
//!
//! Decodes raw 32-byte directory records into a navigable directory tree,
//! reconstructs long (Unicode) file names split across multiple records,
//! and resolves slash-delimited paths to file and directory handles.

pub mod dir;
pub mod error;
pub mod file;
pub mod lfn;
pub mod names;
pub mod record;
pub mod time;
pub mod volume;

pub use dir::{FatDir, FatDirEntry};
pub use error::{Error, IoError, IoErrorClass};
pub use file::FatFile;
pub use record::FatFileAttributes;
pub use time::{FatDate, FatDateTime};
pub use volume::FatSharedState;
