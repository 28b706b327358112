use vstd::prelude::*;

verus! {

/// Every way a command line can be refused or a command can fail.
#[derive(Debug, Clone, Copy, PartialEq, Eq, Structural)]
pub enum EditError {
    /// The address prefix is malformed.
    InvalidRange,
    /// The command token is not one the editor knows.
    UnknownCommand,
    /// A command that takes no arguments was given some.
    TooManyArguments,
    /// The address does not resolve to a slice of the buffer.
    AddressOutOfRange,
    /// Writing the buffer out failed.
    WriteFailed,
    /// A write was asked for with no file name given or remembered.
    NoFilename,
}

} // verus!
