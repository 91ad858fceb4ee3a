//! Error kinds of the host runtime.

use vstd::prelude::*;

verus! {

/// Why a plugin's returned payload was unusable.
#[derive(Clone, Copy, Debug, PartialEq, Eq, Structural)]
pub enum BadOutputKind {
    /// The descriptor's payload region lies outside the guest's linear
    /// memory: the rejected address and length, and the memory length the
    /// host observed when it refused them.
    OutOfBounds { ptr: u32, len: u32, memory: usize },
    /// A payload that had to be UTF-8 text was not valid UTF-8.
    NotUtf8,
}

/// Everything that aborts a session.  A plugin-reported failure
/// (`success == 0` with a readable message) is not in here: it is the
/// recoverable `Err` of the inner result that the driver hands back.
#[derive(Clone, Debug, PartialEq, Eq)]
pub enum HostError {
    /// Bad magic or truncated envelope.
    MalformedContainer,
    /// A format identifier that the catalog does not know.
    UnknownFormat,
    /// Selection was asked to choose from an empty candidate set.
    NoCandidateConverter,
    /// Missing export, wrong arity, or instantiation failure.
    BadPluginModule,
    /// The guest trapped mid-call; the instance must be discarded.
    PluginTrap(String),
    /// Descriptor out of bounds, or a non-UTF-8 message.
    BadPluginOutput(BadOutputKind),
    /// An input too large to stage into guest memory.
    InputTooLarge,
    /// Host-side I/O failure, reported by the surrounding application.
    Io,
}

} // verus!
