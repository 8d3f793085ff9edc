//! Mirrorscope: decoding the logical concurrency structure of a paused
//! process, and the pieces of the debugger around it.

pub mod async_rust;
pub mod bytes;
pub mod cli;
pub mod debug_info;
pub mod dap;
pub mod decoder_trait;
pub mod ebpf;
pub mod error;
pub mod go;
pub mod json;
pub mod model;
pub mod native;
pub mod process_view;
pub mod ptrace_view;
pub mod registry;
pub mod text;

pub use decoder_trait::SemanticDecoder;
pub use error::DecoderError;
pub use native::NativeThreadsDecoder;
pub use process_view::ProcessView;
pub use registry::{select_decoder, select_decoder_for_binary};
