//! Object files and their debug information, as plain values.
//!
//! `object` and `gimli` read the files; what they read becomes library types
//! here, and the decoders work on those.
pub mod laws;
pub mod object_file;
pub mod reader;
pub mod unit;
pub mod zstandard;
