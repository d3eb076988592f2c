//! Reading and writing of ISO 9660 images: the on-disk structures, their byte
//! codec, a sector-addressed reader and a layout-assigning writer.
//!
//! Every executable function carries a contract over mathematical models
//! (`Seq<u8>` for bytes, `Seq<char>` for names) that Verus checks.

pub mod bytes;
pub mod spec;
pub mod serialize;
pub mod parse;
pub mod laws;
pub mod layout;
pub mod path_table;
pub mod writer;
pub mod utils;
pub mod file;
pub mod read;
pub mod write;
pub mod reader;
pub mod error;
pub mod directory;
pub mod volume;
pub mod iso;
