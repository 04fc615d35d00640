//! The record of one call from script code into native code.
//!
//! The engine hands native code the arguments of the call, the value that the
//! function is bound to, the data that was attached to the function when it was
//! made, the engine instance, and whether the call constructs an object. Native
//! code hands back at most one value.

use vstd::prelude::*;
use crate::raw::Isolate;
use crate::raw::Local;
use crate::scope::ScopeStack;

pub use crate::raw::CCallback;

verus! {

/// What a call record holds.
pub struct CallRecord {
    pub isolate: Isolate,
    pub this: Local,
    pub data: Local,
    pub arguments: Seq<Local>,
    pub construct: bool,
    /// The value that the call returns; `None` stands for the engine's
    /// default, the undefined value.
    pub returned: Option<Local>,
}

/// The details of how a function was called from script code.
pub struct FunctionCallbackInfo {
    isolate: Isolate,
    this: Local,
    data: Local,
    arguments: Vec<Local>,
    construct: bool,
    returned: Option<Local>,
}

impl View for FunctionCallbackInfo {
    type V = CallRecord;

    closed spec fn view(&self) -> CallRecord {
        CallRecord {
            isolate: self.isolate,
            this: self.this,
            data: self.data,
            arguments: self.arguments@,
            construct: self.construct,
            returned: self.returned,
        }
    }
}

impl FunctionCallbackInfo {
    /// The argument count of a call record fits the type that reports it.
    #[verifier::type_invariant]
    spec fn counted(self) -> bool {
        self.arguments@.len() <= i32::MAX
    }

    /// The record of a call that has returned nothing yet; `None` where there
    /// are more arguments than an `i32` counts.
    pub fn new(
        isolate: Isolate,
        this: Local,
        data: Local,
        arguments: Vec<Local>,
        construct: bool,
    ) -> (info: Option<FunctionCallbackInfo>)
        ensures
            info is Some <==> arguments@.len() <= i32::MAX,
            info matches Some(i) ==> i@ == (CallRecord {
                isolate,
                this,
                data,
                arguments: arguments@,
                construct,
                returned: None,
            }),
    {
        if arguments.len() > i32::MAX as usize {
            None
        } else {
            Some(FunctionCallbackInfo { isolate, this, data, arguments, construct, returned: None })
        }
    }

    /// The argument at `i`, or `None` where the call has no such argument.
    pub fn argument(&self, i: i32) -> (argument: Option<Local>)
        ensures
            argument is Some <==> 0 <= i < self@.arguments.len(),
            argument matches Some(a) ==> a == self@.arguments[i as int],
    {
        if 0 <= i && (i as usize) < self.arguments.len() {
            Some(self.arguments[i as usize])
        } else {
            None
        }
    }

    /// The value that the call returns, if one has been set.
    pub fn returned(&self) -> (value: Option<Local>)
        ensures
            value == self@.returned,
    {
        self.returned
    }
}

/// Sets the value that the call returns. Without it the call returns the
/// engine's default.
pub fn set_return(info: &mut FunctionCallbackInfo, value: Local)
    ensures
        final(info)@ == (CallRecord { returned: Some(value), ..old(info)@ }),
{
    proof {
        use_type_invariant(&*info);
    }
    info.returned = Some(value);
}

/// The engine instance in which the call takes place.
pub fn get_isolate(info: &FunctionCallbackInfo) -> (isolate: Isolate)
    ensures
        isolate == info@.isolate,
{
    info.isolate
}

/// The engine instance whose scopes these are.
pub fn current_isolate(scopes: &ScopeStack) -> (isolate: Isolate)
    ensures
        isolate == scopes@.isolate,
{
    scopes.isolate()
}

/// Whether the call constructs an object.
pub fn is_construct(info: &FunctionCallbackInfo) -> (construct: bool)
    ensures
        construct == info@.construct,
{
    info.construct
}

/// Writes the value that the function is bound to.
pub fn this(info: &FunctionCallbackInfo, out: &mut Local)
    ensures
        *final(out) == info@.this,
{
    *out = info.this;
}

/// Writes the data that was attached to the function when it was made.
pub fn data(info: &FunctionCallbackInfo, out: &mut Local)
    ensures
        *final(out) == info@.data,
{
    *out = info.data;
}

/// How many arguments the call has.
pub fn len(info: &FunctionCallbackInfo) -> (count: i32)
    ensures
        count == info@.arguments.len(),
{
    proof {
        use_type_invariant(info);
    }
    info.arguments.len() as i32
}

/// Writes the argument at `i`. An index outside the arguments is the caller's
/// error: no value stands in for a missing argument.
pub fn get(info: &FunctionCallbackInfo, i: i32, out: &mut Local)
    requires
        0 <= i < info@.arguments.len(),
    ensures
        *final(out) == info@.arguments[i as int],
{
    *out = info.arguments[i as usize];
}

} // verus!
