//! Goroutines: the decoder that reconstructs them from `runtime.allgs`.
pub mod decoder;
pub mod dwarf;
pub mod error;
pub mod gwalk;
pub mod laws;
pub mod layout_laws;
pub mod offsets;
pub mod status;
pub mod version;
pub mod walk_laws;

pub use decoder::GoroutineDecoder;
pub use dwarf::load_layout;
pub use error::GoDecodeError;
pub use gwalk::GoroutineInfo;
pub use offsets::{GStructOffsets, GoLayout, LayoutSource};
pub use version::GoVersion;
