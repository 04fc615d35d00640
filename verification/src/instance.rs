//! The instances of a native-backed class, and how calls from script code
//! reach the class's kernels.
//!
//! An instance is an engine object with native storage behind it. The storage
//! is made by the class's allocate kernel when the object is constructed, and
//! is given up when the engine's collector reclaims the object: at no other
//! time.

use vstd::prelude::*;
use std::collections::HashMap;
use crate::class::ClassMetadata;
use crate::class::ClassModel;
use crate::context::CallContext;
use crate::context::Context;
use crate::result::Exception;
use crate::result::Throw;
use crate::scope::ScopeError;

verus! {

broadcast use vstd::std_specs::hash::group_hash_axioms;

/// A native-backed class: the kernels that native code supplies for the
/// phases of an instance's life. A value of the type is the native storage of
/// one instance.
///
/// A kernel reports failure through the context, as every operation does,
/// and leaves the native side of the engine instance well formed.
pub trait Class: Sized {
    /// Makes the native storage of a new instance.
    fn allocate(cx: &mut CallContext) -> (r: Result<Self, Throw>)
        requires
            old(cx).env().wf(),
        ensures
            final(cx).env().wf(),
    ;

    /// Initialises the storage from the arguments of the constructor.
    fn construct(&mut self, cx: &mut CallContext) -> (r: Result<(), Throw>)
        requires
            old(cx).env().wf(),
        ensures
            final(cx).env().wf(),
    ;

    /// Runs when the class is called as a function, without constructing.
    fn call(cx: &mut CallContext) -> (r: Result<(), Throw>)
        requires
            old(cx).env().wf(),
        ensures
            final(cx).env().wf(),
    ;

    /// Runs the method that stands at `index` in the class's method table.
    fn method(&mut self, index: usize, cx: &mut CallContext) -> (r: Result<(), Throw>)
        requires
            old(cx).env().wf(),
        ensures
            final(cx).env().wf(),
    ;

    /// Gives up the storage of an instance that the engine has reclaimed.
    fn finalize(self);
}

/// What a call of a class's constructor function comes to.
#[derive(Clone, Copy, PartialEq, Eq, Structural, Debug)]
pub enum Construction {
    /// The call does not construct: it goes to the call kernel.
    Call,
    /// No kernel runs: the call fails with this.
    Refused(Exception),
    /// The call constructs an instance of this engine object.
    Construct(usize),
}

/// What a call of a method comes to.
#[derive(Clone, Copy, PartialEq, Eq, Structural, Debug)]
pub enum Invocation {
    /// No kernel runs: the call fails with this.
    Refused(Exception),
    /// The method at `index` of the method table runs on the storage of the
    /// instance `object`.
    Run { object: usize, index: usize },
}

/// What a call of a class's constructor function comes to, where `instances`
/// are the instances of the class. A call that does not construct goes to the
/// call kernel. A call that constructs is refused where the handle of the
/// object that it is bound to designates no value, and where that object is
/// an instance already.
pub open spec fn construction<C>(instances: Map<usize, C>, cx: CallContext) -> Construction {
    if !cx.info().construct {
        Construction::Call
    } else {
        match cx.receiver() {
            None => Construction::Refused(Exception::Misuse(ScopeError::DeadHandle)),
            Some(object) => if instances.contains_key(object) {
                Construction::Refused(Exception::WrongReceiver)
            } else {
                Construction::Construct(object)
            },
        }
    }
}

/// What a call of the method of this name comes to, where `instances` are the
/// instances of the class. It is refused where the class has no method of
/// this name, where the handle of the value that the call is bound to
/// designates none, and where that value is no instance of the class.
pub open spec fn invocation<C>(
    instances: Map<usize, C>,
    metadata: ClassModel,
    name: Seq<u8>,
    cx: CallContext,
) -> Invocation {
    if !metadata.has_method(name) {
        Invocation::Refused(Exception::NotCallable)
    } else {
        match cx.receiver() {
            None => Invocation::Refused(Exception::Misuse(ScopeError::DeadHandle)),
            Some(object) => if instances.contains_key(object) {
                Invocation::Run { object, index: metadata.method_index(name) as usize }
            } else {
                Invocation::Refused(Exception::WrongReceiver)
            },
        }
    }
}

/// The instances of one class that are alive in one engine instance: the
/// native storage of each, by the engine object that it belongs to.
pub struct Instances<C> {
    storage: HashMap<usize, C>,
}

impl<C> View for Instances<C> {
    type V = Map<usize, C>;

    closed spec fn view(&self) -> Map<usize, C> {
        self.storage@
    }
}

impl<C> Instances<C> {
    /// No instances.
    pub fn new() -> (instances: Instances<C>)
        ensures
            instances@ == Map::<usize, C>::empty(),
    {
        Instances { storage: HashMap::new() }
    }

    /// How many instances are alive.
    pub fn len(&self) -> (count: usize)
        ensures
            count == self@.len(),
    {
        self.storage.len()
    }

    /// Whether the engine object is an instance of the class.
    pub fn has_instance(&self, object: usize) -> (has: bool)
        ensures
            has == self@.contains_key(object),
    {
        self.storage.contains_key(&object)
    }

    /// Attaches native storage to an engine object, which makes the object
    /// an instance. Refused where the object is an instance already: the
    /// storage is handed back and nothing changes.
    pub fn attach(&mut self, object: usize, internals: C) -> (refused: Option<C>)
        ensures
            refused == if old(self)@.contains_key(object) {
                Some(internals)
            } else {
                None
            },
            final(self)@ == if old(self)@.contains_key(object) {
                old(self)@
            } else {
                old(self)@.insert(object, internals)
            },
    {
        if self.storage.contains_key(&object) {
            return Some(internals);
        }
        self.storage.insert(object, internals);
        None
    }

    /// Detaches the native storage of an engine object that the engine has
    /// reclaimed, and hands it out to be given up. `None` where the object is
    /// no instance: storage is handed out once.
    pub fn detach(&mut self, object: usize) -> (internals: Option<C>)
        ensures
            internals == if old(self)@.contains_key(object) {
                Some(old(self)@[object])
            } else {
                None
            },
            final(self)@ == old(self)@.remove(object),
    {
        self.storage.remove(&object)
    }
}

impl<C: Class> Instances<C> {
    /// Decides what a call of the class's constructor function comes to.
    pub fn admit_construction(&self, cx: &CallContext) -> (decided: Construction)
        requires
            cx.env().wf(),
        ensures
            decided == construction(self@, *cx),
    {
        if !cx.is_construct_call() {
            return Construction::Call;
        }
        match cx.resolve(cx.this()) {
            None => Construction::Refused(Exception::Misuse(ScopeError::DeadHandle)),
            Some(object) => if self.has_instance(object) {
                Construction::Refused(Exception::WrongReceiver)
            } else {
                Construction::Construct(object)
            },
        }
    }

    /// Decides what a call of the method of this name comes to.
    pub fn admit_invocation(&self, metadata: &ClassMetadata, name: &Vec<u8>, cx: &CallContext) -> (
        decided: Invocation
    )
        requires
            metadata.wf(),
            cx.env().wf(),
        ensures
            decided == invocation(self@, metadata@, name@, *cx),
            decided matches Invocation::Run { object, index } ==> self@.contains_key(object)
                && index < metadata@.methods.len() && metadata@.methods[index as int].name
                == name@,
    {
        let index = match metadata.method_index(name) {
            None => {
                return Invocation::Refused(Exception::NotCallable);
            },
            Some(index) => index,
        };
        match cx.resolve(cx.this()) {
            None => Invocation::Refused(Exception::Misuse(ScopeError::DeadHandle)),
            Some(object) => if self.has_instance(object) {
                Invocation::Run { object, index }
            } else {
                Invocation::Refused(Exception::WrongReceiver)
            },
        }
    }

    /// Handles a call of the class's constructor function.
    ///
    /// A call that does not construct goes to the call kernel, and no
    /// instance is made. A call that constructs goes to the allocate kernel
    /// and then, with the storage that it made, to the construct kernel; the
    /// storage is attached to the engine object that the call is bound to,
    /// whether or not the construct kernel succeeded, and stays there until
    /// the engine reclaims the object. A call that is refused runs no kernel,
    /// and what it is refused with is left pending.
    pub fn construct(&mut self, cx: &mut CallContext) -> (r: Result<(), Throw>)
        requires
            old(cx).env().wf(),
        ensures
            final(cx).env().wf(),
            match construction(old(self)@, *old(cx)) {
                Construction::Call => {
                    &&& final(self)@ == old(self)@
                    &&& exists|kernel_cx: &mut CallContext|
                        {
                            &&& mut_ref_current(kernel_cx) == *old(cx)
                            &&& mut_ref_future(kernel_cx) == *final(cx)
                            &&& #[trigger] call_ensures(C::call, (kernel_cx,), r)
                        }
                },
                Construction::Refused(exception) => {
                    &&& r is Err
                    &&& final(self)@ == old(self)@
                    &&& *final(cx) == old(cx).with_env(final(cx).env())
                    &&& final(cx).env()@ == old(cx).env()@.failed(exception)
                },
                Construction::Construct(object) => {
                    ||| {
                        &&& final(self)@ == old(self)@
                        &&& exists|kernel_cx: &mut CallContext, signal: Throw|
                            {
                                &&& mut_ref_current(kernel_cx) == *old(cx)
                                &&& mut_ref_future(kernel_cx) == *final(cx)
                                &&& r == Err::<(), Throw>(signal)
                                &&& #[trigger] call_ensures(
                                    C::allocate,
                                    (kernel_cx,),
                                    Err::<C, Throw>(signal),
                                )
                            }
                    }
                    ||| exists|first: &mut CallContext, second: &mut CallContext, made: &mut C|
                        {
                            &&& mut_ref_current(first) == *old(cx)
                            &&& #[trigger] call_ensures(
                                C::allocate,
                                (first,),
                                Ok::<C, Throw>(mut_ref_current(made)),
                            )
                            &&& mut_ref_current(second) == mut_ref_future(first)
                            &&& #[trigger] call_ensures(C::construct, (made, second), r)
                            &&& mut_ref_future(second) == *final(cx)
                            &&& final(self)@ == old(self)@.insert(object, mut_ref_future(made))
                        }
                },
            },
    {
        match self.admit_construction(cx) {
            Construction::Call => C::call(cx),
            Construction::Refused(exception) => Err(cx.fail(exception)),
            Construction::Construct(object) => match C::allocate(cx) {
                Err(signal) => Err(signal),
                Ok(internals) => {
                    let mut internals = internals;
                    let r = internals.construct(cx);
                    self.storage.insert(object, internals);
                    r
                },
            },
        }
    }

    /// Handles a call of a method of the class: runs the method of this name
    /// on the storage of the instance that the call is bound to. No other
    /// instance's storage changes. A call that is refused runs no kernel, and
    /// what it is refused with is left pending.
    pub fn call_method(
        &mut self,
        metadata: &ClassMetadata,
        name: &Vec<u8>,
        cx: &mut CallContext,
    ) -> (r: Result<(), Throw>)
        requires
            metadata.wf(),
            old(cx).env().wf(),
        ensures
            final(cx).env().wf(),
            match invocation(old(self)@, metadata@, name@, *old(cx)) {
                Invocation::Refused(exception) => {
                    &&& r is Err
                    &&& final(self)@ == old(self)@
                    &&& *final(cx) == old(cx).with_env(final(cx).env())
                    &&& final(cx).env()@ == old(cx).env()@.failed(exception)
                },
                Invocation::Run { object, index } => exists|
                    kernel_cx: &mut CallContext,
                    instance: &mut C,
                |
                    {
                        &&& mut_ref_current(kernel_cx) == *old(cx)
                        &&& mut_ref_future(kernel_cx) == *final(cx)
                        &&& mut_ref_current(instance) == old(self)@[object]
                        &&& #[trigger] call_ensures(C::method, (instance, index, kernel_cx), r)
                        &&& final(self)@ == old(self)@.insert(object, mut_ref_future(instance))
                    },
            },
    {
        match self.admit_invocation(metadata, name, cx) {
            Invocation::Refused(exception) => Err(cx.fail(exception)),
            Invocation::Run { object, index } => match self.storage.remove(&object) {
                None => Err(cx.fail(Exception::WrongReceiver)),
                Some(internals) => {
                    let mut internals = internals;
                    let r = internals.method(index, cx);
                    self.storage.insert(object, internals);
                    assert(self@ =~= old(self)@.insert(object, internals));
                    r
                },
            },
        }
    }

    /// Gives up the storage of an engine object that the engine's collector
    /// has reclaimed: the storage goes to `finalize`. Returns whether the
    /// object was an instance; where it was not, nothing is given up.
    pub fn finalize(&mut self, object: usize) -> (finalized: bool)
        ensures
            finalized == old(self)@.contains_key(object),
            final(self)@ == old(self)@.remove(object),
            finalized ==> call_ensures(C::finalize, (old(self)@[object],), ()),
    {
        match self.storage.remove(&object) {
            None => false,
            Some(internals) => {
                internals.finalize();
                true
            },
        }
    }
}

} // verus!
