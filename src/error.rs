use vstd::prelude::*;

verus! {

/// Why a construction, lookup or hardware step of a debug session failed.
#[derive(PartialEq, Eq, Structural, Debug, Clone, Copy)]
pub enum DebuggerError {
    /// No probe is attached and none was selected.
    NoProbe,
    /// More than one probe is attached (their number) and none was selected.
    AmbiguousProbe(usize),
    /// The explicitly selected probe is not attached.
    ProbeNotFound,
    /// The probe was found but could not be opened.
    ProbeOpenFailure,
    /// Attaching to the target failed; connecting under reset may help.
    AttachFailure,
    /// The core configuration list does not hold exactly one entry (its length).
    InvalidCoreConfiguration(usize),
    /// The debug information of the core with this index is missing or unreadable.
    MissingOrInvalidDebugInfo(usize),
    /// No cached state, or no live core, exists for this core index.
    CoreNotFound(usize),
    /// The state of this core is already checked out by another handle.
    CoreInUse(usize),
    /// The execution status of a core could not be read.
    HardwareStatusReadFailure,
    /// Real-time transfer channels could not be set up.
    RttAttachFailure,
    /// The hardware refused to set or clear a breakpoint at this address.
    BreakpointHardwareFailure(u64),
}

} // verus!
