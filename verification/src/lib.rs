//! Manifest-driven integrity verification and synchronization engine.
//!
//! Given a textual manifest that lists the expected size and content hash of
//! every file and directory in a reference tree, this library can verify that
//! a local tree matches the manifest, drive a verified copy of a tree into a
//! destination, and cheaply probe whether a tree is up to date using a single
//! representative catalog file. Retrieval of the manifest text and all file
//! system access happen outside the library; callers hand in the text, the
//! observed state of a path, and the bytes of a file, and receive typed
//! results whose meaning is stated in each function's contract.

pub mod checksum;
pub mod directives;
pub mod manifest;
pub mod parse;
pub mod text;
pub mod utf16;
pub mod verify;

pub use checksum::calculate_checksum;
pub use checksum::calculate_checksum_while;
pub use checksum::ChunkSink;
pub use checksum::NoopSink;
pub use checksum::SinkRejected;
pub use directives::add_directive;
pub use directives::remove_directive;
pub use directives::CacheDirectories;
pub use manifest::FileInfo;
pub use manifest::ManifestEntry;
pub use manifest::ManifestError;
pub use manifest::VersionManifest;
pub use parse::parse_manifest;
pub use parse::ParseError;
pub use utf16::append_utf16le;
pub use utf16::encode_utf16_units;
pub use verify::catalog_relative_path;
pub use verify::PathState;
