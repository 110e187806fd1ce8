//! The failures that the runtime reports.

use vstd::prelude::*;

verus! {

/// Why an operation of the runtime failed.
#[derive(Debug, Clone, Copy, PartialEq, Eq, Structural)]
pub enum Error {
    /// An image reference with more than one `:`.
    InvalidImageReference,
    /// The image names no binary payload.
    NoWasmBinary,
    /// A directory, archive or copy step of staging the root failed.
    Staging,
    /// A network of that name exists already.
    NetworkExists,
    /// The host port is already forwarded.
    PortConflict,
    /// The host socket for a forward could not be bound.
    BindFailed,
    /// The binary payload did not compile or link.
    Compile,
    /// The sandboxed program trapped or signalled failure.
    SandboxTrap,
    /// A bridge call came from a program that exports no memory.
    NoMemory,
    /// A bridge call named bytes outside the sandbox's linear memory.
    InvalidMemoryAccess,
    /// A bridge call named bytes that are not UTF-8 text.
    InvalidUtf8,
    /// The host reported something that the session's phase does not admit.
    UnexpectedEvent,
}

impl Error {
    /// A short description for logs and for the command line.
    pub fn message(&self) -> (text: &'static str)
        ensures
            text@ == match *self {
                Error::InvalidImageReference => "invalid image reference"@,
                Error::NoWasmBinary => "no WASM binary found in image"@,
                Error::Staging => "staging the root filesystem failed"@,
                Error::NetworkExists => "network already exists"@,
                Error::PortConflict => "host port is already forwarded"@,
                Error::BindFailed => "host port could not be bound"@,
                Error::Compile => "the module did not compile"@,
                Error::SandboxTrap => "the sandboxed program failed"@,
                Error::NoMemory => "failed to get memory"@,
                Error::InvalidMemoryAccess => "invalid memory access"@,
                Error::InvalidUtf8 => "invalid UTF-8"@,
                Error::UnexpectedEvent => "unexpected event"@,
            },
    {
        match self {
            Error::InvalidImageReference => "invalid image reference",
            Error::NoWasmBinary => "no WASM binary found in image",
            Error::Staging => "staging the root filesystem failed",
            Error::NetworkExists => "network already exists",
            Error::PortConflict => "host port is already forwarded",
            Error::BindFailed => "host port could not be bound",
            Error::Compile => "the module did not compile",
            Error::SandboxTrap => "the sandboxed program failed",
            Error::NoMemory => "failed to get memory",
            Error::InvalidMemoryAccess => "invalid memory access",
            Error::InvalidUtf8 => "invalid UTF-8",
            Error::UnexpectedEvent => "unexpected event",
        }
    }
}

} // verus!
