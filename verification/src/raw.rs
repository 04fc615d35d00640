//! The plain data that crosses the engine's native extension boundary.

use vstd::prelude::*;
use crate::stamp::word_at;
use crate::stamp::lemma_zero_words;

verus! {

/// A local handle: an opaque, pointer-sized reference to an engine-owned value.
///
/// A handle owns nothing and has no destructor. It designates a value only
/// while the scope that it was created in is entered.
#[derive(Clone, Copy, PartialEq, Eq, Structural, Debug)]
pub struct Local {
    pub handle: usize,
}

impl Local {
    /// The null handle, which never designates a value.
    pub open spec fn is_null(self) -> bool {
        self.handle == 0
    }

    /// A null handle, as used to initialise an out-parameter.
    pub fn null() -> (h: Local)
        ensures
            h.handle == 0,
            h.is_null(),
    {
        Local { handle: 0 }
    }
}

/// The handle of one engine instance.
#[derive(Clone, Copy, PartialEq, Eq, Structural, Debug)]
pub struct Isolate {
    pub address: usize,
}

/// Size in bytes of the storage of a plain scope.
pub const HANDLE_SCOPE_SIZE: usize = 24;

/// Size in bytes of the storage of an escapable scope.
pub const ESCAPABLE_HANDLE_SCOPE_SIZE: usize = 32;

/// Storage of a plain scope: a pointer-aligned block of `HANDLE_SCOPE_SIZE` bytes.
#[derive(Clone, Copy, Debug)]
pub struct HandleScope {
    pub align_to_pointer: [usize; 0],
    pub fields: [u8; HANDLE_SCOPE_SIZE],
}

impl HandleScope {
    /// Zeroed storage for a scope that has not been entered.
    pub fn new() -> (scope: HandleScope)
        ensures
            forall|i: int| 0 <= i < HANDLE_SCOPE_SIZE ==> scope.fields@[i] == 0u8,
            forall|w: int| 0 <= w < 3 ==> word_at(scope.fields@, w) == 0,
    {
        let scope = HandleScope { align_to_pointer: [], fields: [0u8; HANDLE_SCOPE_SIZE] };
        proof {
            vstd::array::axiom_spec_array_fill_for_copy_type::<u8, HANDLE_SCOPE_SIZE>(0u8);
            assert forall|w: int| 0 <= w < 3 implies word_at(scope.fields@, w) == 0 by {
                lemma_zero_words(scope.fields@, w);
            }
        }
        scope
    }
}

/// Storage of an escapable scope: a pointer-aligned block of
/// `ESCAPABLE_HANDLE_SCOPE_SIZE` bytes.
#[derive(Clone, Copy, Debug)]
pub struct EscapableHandleScope {
    pub align_to_pointer: [usize; 0],
    pub fields: [u8; ESCAPABLE_HANDLE_SCOPE_SIZE],
}

impl EscapableHandleScope {
    /// Zeroed storage for an escapable scope that has not been entered.
    pub fn new() -> (scope: EscapableHandleScope)
        ensures
            forall|i: int| 0 <= i < ESCAPABLE_HANDLE_SCOPE_SIZE ==> scope.fields@[i] == 0u8,
            forall|w: int| 0 <= w < 4 ==> word_at(scope.fields@, w) == 0,
    {
        let scope = EscapableHandleScope {
            align_to_pointer: [],
            fields: [0u8; ESCAPABLE_HANDLE_SCOPE_SIZE],
        };
        proof {
            vstd::array::axiom_spec_array_fill_for_copy_type::<u8, ESCAPABLE_HANDLE_SCOPE_SIZE>(
                0u8,
            );
            assert forall|w: int| 0 <= w < 4 implies word_at(scope.fields@, w) == 0 by {
                lemma_zero_words(scope.fields@, w);
            }
        }
        scope
    }
}

/// The scope that the engine entered itself before it called into native code.
#[derive(Clone, Copy, Debug)]
pub struct InheritedHandleScope;

/// A pair of callback slots: the fixed trampoline that is registered with the
/// engine, and the native function that the trampoline forwards to. Each slot
/// holds a function's address, or zero when it is empty.
#[derive(Clone, Copy, PartialEq, Eq, Structural, Debug)]
pub struct CCallback {
    pub static_callback: usize,
    pub dynamic_callback: usize,
}

impl Default for CCallback {
    fn default() -> (callback: CCallback)
        ensures
            callback.static_callback == 0,
            callback.dynamic_callback == 0,
    {
        CCallback { static_callback: 0, dynamic_callback: 0 }
    }
}

} // verus!
