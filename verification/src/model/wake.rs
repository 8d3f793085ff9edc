//! Why a task woke up.
use vstd::prelude::*;

use crate::text::clone_optional;

verus! {

/// Structured detail for an I/O-driven wake.
#[derive(Debug, PartialEq, Eq)]
pub struct IoWakeDetail {
    /// File descriptor that became ready, when known.
    pub fd: Option<i32>,
    /// Description (such as "socket readable").
    pub description: Option<String>,
}

/// The value of an `IoWakeDetail`.
#[verifier::ext_equal]
pub struct IoWakeDetailSpec {
    pub fd: Option<i32>,
    pub description: Option<Seq<char>>,
}

impl DeepView for IoWakeDetail {
    type V = IoWakeDetailSpec;

    open spec fn deep_view(&self) -> IoWakeDetailSpec {
        IoWakeDetailSpec { fd: self.fd, description: self.description.deep_view() }
    }
}

impl Clone for IoWakeDetail {
    fn clone(&self) -> (r: Self)
        ensures
            r == *self,
    {
        IoWakeDetail { fd: self.fd, description: clone_optional(&self.description) }
    }
}

/// Why a task left the blocked state.
#[derive(Debug, PartialEq, Eq)]
#[allow(inconsistent_fields)]
#[non_exhaustive]
pub enum WakeCause {
    /// Woken by a timer firing.
    Timer,
    /// Woken by I/O readiness.
    Io {
        /// Structured detail about the I/O source.
        detail: IoWakeDetail,
    },
    /// Woken by a channel send or receive completing.
    Channel {
        /// Optional specifics (a channel identifier).
        detail: Option<String>,
    },
    /// Woken by an explicit wake not attributable to one of the above.
    Manual,
    /// No causality information: an honest "don't know", not an error.
    Unknown,
}

/// The value of a `WakeCause`.
#[verifier::ext_equal]
#[allow(inconsistent_fields)]
pub enum WakeCauseSpec {
    Timer,
    Io { detail: IoWakeDetailSpec },
    Channel { detail: Option<Seq<char>> },
    Manual,
    Unknown,
}

impl DeepView for WakeCause {
    type V = WakeCauseSpec;

    open spec fn deep_view(&self) -> WakeCauseSpec {
        match self {
            WakeCause::Timer => WakeCauseSpec::Timer,
            WakeCause::Io { detail } => WakeCauseSpec::Io { detail: detail.deep_view() },
            WakeCause::Channel { detail } => WakeCauseSpec::Channel { detail: detail.deep_view() },
            WakeCause::Manual => WakeCauseSpec::Manual,
            WakeCause::Unknown => WakeCauseSpec::Unknown,
        }
    }
}

impl Clone for WakeCause {
    fn clone(&self) -> (r: Self)
        ensures
            r == *self,
    {
        match self {
            WakeCause::Timer => WakeCause::Timer,
            WakeCause::Io { detail } => WakeCause::Io { detail: detail.clone() },
            WakeCause::Channel { detail } => WakeCause::Channel { detail: clone_optional(detail) },
            WakeCause::Manual => WakeCause::Manual,
            WakeCause::Unknown => WakeCause::Unknown,
        }
    }
}

} // verus!
