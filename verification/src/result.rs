//! How failure travels through native code: as a value, never by unwinding.

use vstd::prelude::*;
use crate::raw::Local;
use crate::scope::ScopeError;

verus! {

/// The signal that an exception is pending in the engine. It carries nothing:
/// the exception itself stays with the engine instance until the native entry
/// point hands it back to script code.
#[derive(Clone, Copy, PartialEq, Eq, Structural, Debug)]
pub struct Throw;

/// The result of an operation that may leave an exception pending.
pub type NeonResult<T> = Result<T, Throw>;

/// The result of an operation that makes a value.
pub type JsResult = Result<Local, Throw>;

/// What is pending in an engine instance.
#[derive(Clone, Copy, PartialEq, Eq, Structural, Debug)]
pub enum Exception {
    /// Script or native code threw this engine value.
    Thrown(usize),
    /// The engine could not make a value.
    AllocationFailure,
    /// The scope discipline was broken.
    Misuse(ScopeError),
    /// A call has no argument at this index.
    MissingArgument(i32),
    /// A class was called as a function and has no kernel for that.
    NotCallable,
    /// A method was called on a value that is no instance of its class.
    WrongReceiver,
    /// Native code signalled a failure and left nothing pending.
    Unspecified,
}

/// How a native entry point hands control back to script code.
#[derive(Clone, Copy, PartialEq, Eq, Structural, Debug)]
pub enum Completion {
    /// The call returns this engine value, or the engine's default where
    /// native code set none.
    Return(Option<usize>),
    /// The call throws.
    Throw(Exception),
}

/// How a native entry point completes: what is pending is thrown; else a
/// failure that native code signalled is thrown; else the call returns.
pub open spec fn completion_of(
    pending: Option<Exception>,
    signalled: bool,
    returned: Option<usize>,
) -> Completion {
    match pending {
        Some(exception) => Completion::Throw(exception),
        None => if signalled {
            Completion::Throw(Exception::Unspecified)
        } else {
            Completion::Return(returned)
        },
    }
}

} // verus!
