//! A read-only virtual filesystem over GoldSrc WAD archives.
//!
//! Archive records are ingested into an append-only inode table whose four
//! category directories (`pics`, `miptexs`, `fonts`, `other`) appear lazily,
//! the first time a record of the matching kind is seen.  Image records are
//! decoded on demand from their palette-indexed rasters into TGA byte
//! streams and memoized; opaque records expose their raw bytes verbatim.
//! The table answers the four filesystem primitives (lookup, list,
//! attributes, byte-range read) with strict exact-range read semantics.
//!
//! After the build phase the only mutation is filling a file's empty
//! memoization slot, written at most once; a host that dispatches
//! requests concurrently serializes them around the filesystem value.

pub mod bytes;
pub mod record;
pub mod wad;
pub mod names;
pub mod decode;
pub mod table;
pub mod fs;
pub mod laws;
