//! Async Rust: the decoder that reconstructs the task tree that rustc and Tokio
//! flattened into coroutine state machines.
pub mod chain_laws;
pub mod decode;
pub mod decoder;
pub mod dwarf;
pub mod enumerate;
pub mod error;
pub mod laws;
pub mod layout;
pub mod layout_laws;
pub mod member_laws;
pub mod name_laws;
pub mod roots;
pub mod rustc_version;
pub mod state;
pub mod task_laws;

pub use decoder::TokioDecoder;
pub use dwarf::load_layouts;
pub use enumerate::{EnumerateError, EnumerationPlan, TokioVersion};
pub use error::AsyncDecodeError;
pub use layout::{AsyncFnLayout, AsyncLayouts};
pub use roots::TaskRoot;
pub use rustc_version::RustcVersion;
