//! What can go wrong while the profiler starts, and the codes that callers see.
use vstd::prelude::*;

verus! {

/// A failure of one of the steps that prepare profiling.
#[derive(Debug, Clone, Copy, PartialEq, Eq, Structural)]
pub enum InitError {
    KindasafeInitFailed,
    PythonNotFound,
    /// `_PyRuntime` or `Py_Version` is not in the ELF dynamic symbol table.
    SymbolNotFound,
    /// The ELF file could not be parsed.
    ElfParse,
    /// Failed to open or map the binary file.
    Io,
    /// `_PyRuntime` does not hold the debug offsets of the detected version.
    DebugOffsetsMismatch,
    /// The interpreter's version is not one that can be profiled.
    UnsupportedVersion,
    /// The thread-local slot of the current thread state was not found.
    TlsDiscoveryFailed,
}

/// The code that stands for `err` outside of this crate.
pub open spec fn init_error_code(err: InitError) -> i32 {
    match err {
        InitError::KindasafeInitFailed => 1,
        InitError::PythonNotFound | InitError::Io => 2,
        InitError::SymbolNotFound | InitError::ElfParse => 3,
        InitError::DebugOffsetsMismatch => 4,
        InitError::UnsupportedVersion => 5,
        InitError::TlsDiscoveryFailed => 6,
    }
}

/// Maps an initialisation error to its integer code.
pub fn map_init_error(err: &InitError) -> (code: i32)
    ensures
        code == init_error_code(*err),
{
    match err {
        InitError::KindasafeInitFailed => 1,
        InitError::PythonNotFound => 2,
        InitError::Io => 2,
        InitError::SymbolNotFound => 3,
        InitError::ElfParse => 3,
        InitError::DebugOffsetsMismatch => 4,
        InitError::UnsupportedVersion => 5,
        InitError::TlsDiscoveryFailed => 6,
    }
}

} // verus!
