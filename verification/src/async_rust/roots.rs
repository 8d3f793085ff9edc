//! The task-enumeration seam: the top-level task futures to decode.
use vstd::prelude::*;

use crate::text::IntoText;

verus! {

/// One top-level task to decode: a coroutine instance in target memory.
#[derive(Debug, PartialEq, Eq)]
pub struct TaskRoot {
    /// Stable task id.
    pub id: u64,
    /// Absolute address of the coroutine instance.
    pub base: u64,
    /// Fully-qualified type name of the coroutine.
    pub type_path: String,
    /// Absolute address of the task's `Header`, when known. `None` falls back
    /// to the state of the coroutine's own variant.
    pub header_addr: Option<u64>,
}

/// The value of a `TaskRoot`.
#[verifier::ext_equal]
pub struct TaskRootSpec {
    pub id: u64,
    pub base: u64,
    pub type_path: Seq<char>,
    pub header_addr: Option<u64>,
}

impl DeepView for TaskRoot {
    type V = TaskRootSpec;

    open spec fn deep_view(&self) -> TaskRootSpec {
        TaskRootSpec {
            id: self.id,
            base: self.base,
            type_path: self.type_path@,
            header_addr: self.header_addr,
        }
    }
}

impl Clone for TaskRoot {
    fn clone(&self) -> (r: Self)
        ensures
            r == *self,
    {
        TaskRoot {
            id: self.id,
            base: self.base,
            type_path: self.type_path.clone(),
            header_addr: self.header_addr,
        }
    }
}

impl TaskRoot {
    /// A root with no task header.
    #[must_use]
    pub fn new<N: IntoText>(id: u64, base: u64, type_path: N) -> (r: Self)
        ensures
            r.deep_view() == (TaskRootSpec {
                id,
                base,
                type_path: type_path.text(),
                header_addr: None,
            }),
    {
        Self { id, base, type_path: type_path.into_text(), header_addr: None }
    }

    /// The same root with its task header's address.
    #[must_use]
    pub fn with_header(self, header_addr: u64) -> (r: Self)
        ensures
            r == (TaskRoot { header_addr: Some(header_addr), ..self }),
    {
        TaskRoot {
            id: self.id,
            base: self.base,
            type_path: self.type_path,
            header_addr: Some(header_addr),
        }
    }
}

} // verus!
