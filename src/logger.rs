use vstd::prelude::*;

verus! {

/// Severity of a message shown to the user.
#[derive(Debug, Clone, Copy, PartialEq, Eq, Structural)]
pub enum Level {
    Info,
    Warn,
    Error,
    Fatal,
}

} // verus!
